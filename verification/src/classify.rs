//! Classifications, pending jobs, and the assembly of one directory level's
//! ordered output.

use crate::entry::{entries_sorted, sort_entries, Entry};
use crate::exclude::{filter_excluded, kept_entries, ExcludeSet};
use crate::merge::{merge_entries, merge_spec, MergeItem};
use vstd::prelude::*;

verus! {

/// The final verdict for one compared name or pair.
#[derive(Debug)]
pub enum Classification {
    /// The path exists only in the right tree.
    Added(String),
    /// The path exists only in the left tree.
    Deleted(String),
    /// Both paths are regular files and their contents differ.
    Modified(String),
    /// Both paths are regular files with identical contents.
    Unchanged(String),
    /// The name is a directory on one side and a regular file on the other.
    TypeMismatch(String, String),
    /// The pair could not be compared; carries both paths and the cause.
    ComparisonError(String, String, String),
}

/// A pending comparison of two regular files of equal positive length.
#[derive(Clone, Debug)]
pub struct FileJob {
    pub left_path: String,
    pub right_path: String,
    pub len: u64,
}

/// A pending recursion into a pair of subdirectories.
#[derive(Debug)]
pub struct DirJob {
    pub left_path: String,
    pub right_path: String,
}

/// The classification a merge verdict resolves to on its own, if any.
/// Unchanged entries are reported only when `all_mode` asks for them.
pub open spec fn item_class(m: MergeItem, all_mode: bool) -> Option<Classification> {
    match m {
        MergeItem::LeftOnly(a) => Some(Classification::Deleted(a.path)),
        MergeItem::RightOnly(b) => Some(Classification::Added(b.path)),
        MergeItem::KindClash(a, b) => Some(Classification::TypeMismatch(a.path, b.path)),
        MergeItem::SizeDiff(_a, b) => Some(Classification::Modified(b.path)),
        MergeItem::EmptyPair(_a, b) => if all_mode {
            Some(Classification::Unchanged(b.path))
        } else {
            None
        },
        MergeItem::DirPair(_a, _b) => None,
        MergeItem::ContentJob(_a, _b) => None,
    }
}

pub open spec fn opt_seq<T>(o: Option<T>) -> Seq<T> {
    match o {
        Some(t) => seq![t],
        None => Seq::empty(),
    }
}

/// The classifications a merge resolves without reading any file content,
/// in merge order.
pub open spec fn immediates_spec(items: Seq<MergeItem>, all_mode: bool) -> Seq<Classification>
    decreases items.len(),
{
    if items.len() == 0 {
        Seq::empty()
    } else {
        immediates_spec(items.drop_last(), all_mode) + opt_seq(item_class(items.last(), all_mode))
    }
}

/// The pending file comparison a merge verdict gives rise to, if any.
pub open spec fn item_file_job(m: MergeItem) -> Option<FileJob> {
    match m {
        MergeItem::ContentJob(a, b) => Some(
            FileJob { left_path: a.path, right_path: b.path, len: a.len },
        ),
        _ => None,
    }
}

/// The pending file comparisons of one merge, in merge order.
pub open spec fn file_jobs_spec(items: Seq<MergeItem>) -> Seq<FileJob>
    decreases items.len(),
{
    if items.len() == 0 {
        Seq::empty()
    } else {
        file_jobs_spec(items.drop_last()) + opt_seq(item_file_job(items.last()))
    }
}

/// The pending subdirectory recursion a merge verdict gives rise to, if any.
pub open spec fn item_dir_job(m: MergeItem) -> Option<DirJob> {
    match m {
        MergeItem::DirPair(a, b) => Some(DirJob { left_path: a.path, right_path: b.path }),
        _ => None,
    }
}

/// The pending subdirectory recursions of one merge, in merge order.
pub open spec fn dir_jobs_spec(items: Seq<MergeItem>) -> Seq<DirJob>
    decreases items.len(),
{
    if items.len() == 0 {
        Seq::empty()
    } else {
        dir_jobs_spec(items.drop_last()) + opt_seq(item_dir_job(items.last()))
    }
}

/// One directory level, split into what is already resolved and what is
/// still pending.
#[derive(Debug)]
pub struct LevelPlan {
    /// Classifications the merge resolved on its own, in name order.
    pub classes: Vec<Classification>,
    /// Pending file comparisons, in name order.
    pub files: Vec<FileJob>,
    /// Pending subdirectory recursions, in name order.
    pub dirs: Vec<DirJob>,
}

/// Splits the merge verdicts of one directory level into the immediate
/// classifications, the pending file comparisons, and the pending
/// subdirectory recursions, each in merge order.
#[verifier::loop_isolation(false)]
pub fn split_plan(items: Vec<MergeItem>, all_mode: bool) -> (plan: LevelPlan)
    ensures
        plan.classes@ == immediates_spec(items@, all_mode),
        plan.files@ == file_jobs_spec(items@),
        plan.dirs@ == dir_jobs_spec(items@),
{
    let ghost g = items@;
    let mut cur = items;
    let mut classes: Vec<Classification> = Vec::new();
    let mut files: Vec<FileJob> = Vec::new();
    let mut dirs: Vec<DirJob> = Vec::new();
    let ghost mut i: int = 0;
    while cur.len() > 0
        invariant
            0 <= i <= g.len(),
            cur@ == g.skip(i),
            classes@ == immediates_spec(g.take(i), all_mode),
            files@ == file_jobs_spec(g.take(i)),
            dirs@ == dir_jobs_spec(g.take(i)),
        decreases cur@.len(),
    {
        let m = cur.remove(0);
        proof {
            assert(m == g[i]);
            assert(cur@ =~= g.skip(i + 1));
            assert(g.take(i + 1).drop_last() =~= g.take(i));
            assert(g.take(i + 1).last() == g[i]);
        }
        match m {
            MergeItem::LeftOnly(a) => {
                classes.push(Classification::Deleted(a.path));
            },
            MergeItem::RightOnly(b) => {
                classes.push(Classification::Added(b.path));
            },
            MergeItem::KindClash(a, b) => {
                classes.push(Classification::TypeMismatch(a.path, b.path));
            },
            MergeItem::SizeDiff(_a, b) => {
                classes.push(Classification::Modified(b.path));
            },
            MergeItem::EmptyPair(_a, b) => {
                if all_mode {
                    classes.push(Classification::Unchanged(b.path));
                }
            },
            MergeItem::DirPair(a, b) => {
                dirs.push(DirJob { left_path: a.path, right_path: b.path });
            },
            MergeItem::ContentJob(a, b) => {
                files.push(FileJob { left_path: a.path, right_path: b.path, len: a.len });
            },
        }
        proof {
            i = i + 1;
        }
    }
    proof {
        assert(g.take(i) =~= g);
    }
    LevelPlan { classes, files, dirs }
}

/// One directory pair's whole planning step: drop the excluded names from
/// both listings, sort each by name, merge them in lock-step, and split the
/// verdicts into immediate classifications and pending jobs.  The result is
/// the plan of the two filtered listings in some sorted arrangement of each.
pub fn plan_level(
    left: Vec<Entry>,
    right: Vec<Entry>,
    excludes: &ExcludeSet,
    all_mode: bool,
) -> (plan: LevelPlan)
    ensures
        exists|sl: Seq<Entry>, sr: Seq<Entry>|
            {
                &&& sl.to_multiset() == kept_entries(left@, *excludes).to_multiset()
                &&& sr.to_multiset() == kept_entries(right@, *excludes).to_multiset()
                &&& entries_sorted(sl)
                &&& entries_sorted(sr)
                &&& plan.classes@ == immediates_spec(#[trigger] merge_spec(sl, sr), all_mode)
                &&& plan.files@ == file_jobs_spec(merge_spec(sl, sr))
                &&& plan.dirs@ == dir_jobs_spec(merge_spec(sl, sr))
            },
{
    let kept_left = filter_excluded(left, excludes);
    let kept_right = filter_excluded(right, excludes);
    let sorted_left = sort_entries(kept_left);
    let sorted_right = sort_entries(kept_right);
    let ghost sl = sorted_left@;
    let ghost sr = sorted_right@;
    let items = merge_entries(sorted_left, sorted_right);
    let plan = split_plan(items, all_mode);
    proof {
        assert({
            &&& sl.to_multiset() == kept_entries(left@, *excludes).to_multiset()
            &&& sr.to_multiset() == kept_entries(right@, *excludes).to_multiset()
            &&& entries_sorted(sl)
            &&& entries_sorted(sr)
            &&& plan.classes@ == immediates_spec(merge_spec(sl, sr), all_mode)
            &&& plan.files@ == file_jobs_spec(merge_spec(sl, sr))
            &&& plan.dirs@ == dir_jobs_spec(merge_spec(sl, sr))
        });
    }
    plan
}

/// The outcome of one file comparison performed by the surrounding program:
/// the contents matched, they differed, or the files could not be read.
#[derive(Clone, Debug)]
pub enum CompareOutcome {
    Equal,
    Differ,
    Failed(String),
}

/// The classification one resolved file job yields, if any: `Differ` is
/// conclusive `Modified`, a failure carries both paths and the cause, and a
/// match is reported as `Unchanged` only when `all_mode` asks for it.
pub open spec fn outcome_class(job: FileJob, oc: CompareOutcome, all_mode: bool) -> Option<
    Classification,
> {
    match oc {
        CompareOutcome::Equal => if all_mode {
            Some(Classification::Unchanged(job.right_path))
        } else {
            None
        },
        CompareOutcome::Differ => Some(Classification::Modified(job.right_path)),
        CompareOutcome::Failed(msg) => Some(
            Classification::ComparisonError(job.left_path, job.right_path, msg),
        ),
    }
}

/// The classifications of a level's resolved file jobs, in job order.
pub open spec fn resolve_spec(
    jobs: Seq<FileJob>,
    outcomes: Seq<CompareOutcome>,
    all_mode: bool,
) -> Seq<Classification>
    decreases jobs.len(),
{
    if jobs.len() == 0 || outcomes.len() == 0 {
        Seq::empty()
    } else {
        resolve_spec(jobs.drop_last(), outcomes.drop_last(), all_mode) + opt_seq(
            outcome_class(jobs.last(), outcomes.last(), all_mode),
        )
    }
}

/// Turns each file job's outcome into its classification, keeping job
/// order, so that results land where sequential execution would put them
/// no matter when each comparison finished.
#[verifier::loop_isolation(false)]
pub fn resolve_files(
    jobs: Vec<FileJob>,
    outcomes: Vec<CompareOutcome>,
    all_mode: bool,
) -> (out: Vec<Classification>)
    requires
        jobs@.len() == outcomes@.len(),
    ensures
        out@ == resolve_spec(jobs@, outcomes@, all_mode),
{
    let ghost gj = jobs@;
    let ghost go = outcomes@;
    let mut jcur = jobs;
    let mut ocur = outcomes;
    let mut out: Vec<Classification> = Vec::new();
    let ghost mut i: int = 0;
    while jcur.len() > 0
        invariant
            0 <= i <= gj.len(),
            jcur@ == gj.skip(i),
            ocur@ == go.skip(i),
            out@ == resolve_spec(gj.take(i), go.take(i), all_mode),
        decreases jcur@.len(),
    {
        let job = jcur.remove(0);
        let oc = ocur.remove(0);
        proof {
            assert(job == gj[i]);
            assert(oc == go[i]);
            assert(jcur@ =~= gj.skip(i + 1));
            assert(ocur@ =~= go.skip(i + 1));
            assert(gj.take(i + 1).drop_last() =~= gj.take(i));
            assert(go.take(i + 1).drop_last() =~= go.take(i));
        }
        match oc {
            CompareOutcome::Equal => {
                if all_mode {
                    out.push(Classification::Unchanged(job.right_path));
                }
            },
            CompareOutcome::Differ => {
                out.push(Classification::Modified(job.right_path));
            },
            CompareOutcome::Failed(msg) => {
                out.push(
                    Classification::ComparisonError(job.left_path, job.right_path, msg),
                );
            },
        }
        proof {
            i = i + 1;
        }
    }
    proof {
        assert(gj.take(i) =~= gj);
        assert(go.take(i) =~= go);
    }
    out
}

/// The concatenation of the recursive outputs of a level's subdirectories.
pub open spec fn cat_all(parts: Seq<Vec<Classification>>) -> Seq<Classification>
    decreases parts.len(),
{
    if parts.len() == 0 {
        Seq::empty()
    } else {
        cat_all(parts.drop_last()) + parts.last()@
    }
}

/// Splices one directory level's output into its reporting order: first the
/// classifications the merge resolved, then the resolved file jobs, then
/// each subdirectory's full output, every group in name order.
#[verifier::loop_isolation(false)]
pub fn assemble_level(
    immediate: Vec<Classification>,
    file_results: Vec<Classification>,
    dir_results: Vec<Vec<Classification>>,
) -> (out: Vec<Classification>)
    ensures
        out@ == immediate@ + file_results@ + cat_all(dir_results@),
{
    let ghost gi = immediate@;
    let ghost gf = file_results@;
    let ghost gd = dir_results@;
    let mut out = immediate;
    let mut fr = file_results;
    out.append(&mut fr);
    let mut dcur = dir_results;
    let ghost mut i: int = 0;
    while dcur.len() > 0
        invariant
            0 <= i <= gd.len(),
            dcur@ == gd.skip(i),
            out@ == gi + gf + cat_all(gd.take(i)),
        decreases dcur@.len(),
    {
        let mut part = dcur.remove(0);
        proof {
            assert(part == gd[i]);
            assert(dcur@ =~= gd.skip(i + 1));
            assert(gd.take(i + 1).drop_last() =~= gd.take(i));
            assert(gd.take(i + 1).last() == gd[i]);
        }
        out.append(&mut part);
        proof {
            i = i + 1;
            assert(out@ =~= gi + gf + cat_all(gd.take(i)));
        }
    }
    proof {
        assert(gd.take(i) =~= gd);
        assert(cat_all(gd.take(0)) =~= Seq::empty());
    }
    out
}

/// Law: where every merge verdict pairs two entries of the same kind and
/// length — as when a tree level is diffed against a copy of itself — the
/// merge resolves nothing but `Unchanged` on its own: no `Added`, `Deleted`,
/// `Modified`, or `TypeMismatch` classification is produced.
pub proof fn lemma_mirror_immediates(items: Seq<MergeItem>, all_mode: bool)
    requires
        forall|i: int|
            0 <= i < items.len() ==> (#[trigger] items[i] is DirPair || items[i] is EmptyPair
                || items[i] is ContentJob),
    ensures
        forall|j: int|
            0 <= j < immediates_spec(items, all_mode).len() ==> #[trigger] immediates_spec(
                items,
                all_mode,
            )[j] is Unchanged,
    decreases items.len(),
{
    if items.len() > 0 {
        assert forall|i: int|
            0 <= i < items.drop_last().len() implies (#[trigger] items.drop_last()[i] is DirPair
            || items.drop_last()[i] is EmptyPair || items.drop_last()[i] is ContentJob) by {
            assert(items[i] is DirPair || items[i] is EmptyPair || items[i] is ContentJob);
        }
        lemma_mirror_immediates(items.drop_last(), all_mode);
        assert(items.last() is DirPair || items.last() is EmptyPair || items.last() is ContentJob);
    }
}

/// Law: when every pending file comparison found the contents identical,
/// the resolved file jobs contribute nothing but `Unchanged`
/// classifications, and none at all unless they were asked for.
pub proof fn lemma_equal_outcomes_resolve(
    jobs: Seq<FileJob>,
    outcomes: Seq<CompareOutcome>,
    all_mode: bool,
)
    requires
        forall|i: int| 0 <= i < outcomes.len() ==> #[trigger] outcomes[i] is Equal,
    ensures
        forall|j: int|
            0 <= j < resolve_spec(jobs, outcomes, all_mode).len() ==> #[trigger] resolve_spec(
                jobs,
                outcomes,
                all_mode,
            )[j] is Unchanged,
        !all_mode ==> resolve_spec(jobs, outcomes, all_mode).len() == 0,
    decreases jobs.len(),
{
    if jobs.len() > 0 && outcomes.len() > 0 {
        assert forall|i: int|
            0 <= i < outcomes.drop_last().len() implies #[trigger] outcomes.drop_last()[
            i] is Equal by {
            assert(outcomes[i] is Equal);
        }
        lemma_equal_outcomes_resolve(jobs.drop_last(), outcomes.drop_last(), all_mode);
        assert(outcomes.last() is Equal);
    }
}

} // verus!
