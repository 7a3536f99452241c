use dirdiff::classify::{
    assemble_level, plan_level, resolve_files, Classification, CompareOutcome, FileJob,
};
use dirdiff::content::{stream_step, StepVerdict, ThreadLocalBuffers};
use dirdiff::entry::Entry;
use dirdiff::exclude::ExcludeSet;

/// An in-memory stand-in for a directory tree, so the scenarios can drive
/// the library the same way the program drives it over a real filesystem.
struct Node {
    name: String,
    is_dir: bool,
    content: Vec<u8>,
    children: Vec<Node>,
}

fn file(name: &str, content: &[u8]) -> Node {
    Node {
        name: name.to_string(),
        is_dir: false,
        content: content.to_vec(),
        children: Vec::new(),
    }
}

fn dir(name: &str, children: Vec<Node>) -> Node {
    Node { name: name.to_string(), is_dir: true, content: Vec::new(), children }
}

fn listing(node: &Node, base: &str) -> Vec<Entry> {
    node.children
        .iter()
        .map(|c| Entry {
            name: c.name.as_bytes().to_vec(),
            path: format!("{}/{}", base, c.name),
            is_dir: c.is_dir,
            len: c.content.len() as u64,
        })
        .collect()
}

fn child<'a>(node: &'a Node, path: &str, base: &str) -> &'a Node {
    let name = path.strip_prefix(&format!("{}/", base)).unwrap();
    node.children.iter().find(|c| c.name == name).unwrap()
}

/// Streams two byte strings through the chunk verdict in tiny chunks, as
/// the program streams two files, counting how many chunk pairs were read.
fn compare_bytes(a: &[u8], b: &[u8], reads: &mut usize) -> bool {
    let mut bufs = ThreadLocalBuffers::new();
    let chunk = 2;
    let mut off_a = 0;
    let mut off_b = 0;
    loop {
        let n1 = chunk.min(a.len() - off_a);
        let n2 = chunk.min(b.len() - off_b);
        bufs.buffer1[..n1].copy_from_slice(&a[off_a..off_a + n1]);
        bufs.buffer2[..n2].copy_from_slice(&b[off_b..off_b + n2]);
        off_a += n1;
        off_b += n2;
        *reads += 1;
        match stream_step(&bufs, n1, n2) {
            StepVerdict::Mismatch => return false,
            StepVerdict::Done => return true,
            StepVerdict::Advance => {}
        }
    }
}

/// Drives the library over two in-memory trees the way the program drives
/// it over two directories: plan each level, resolve the pending file
/// comparisons, recurse into subdirectory pairs, and splice the output.
fn diff_nodes(
    left: &Node,
    right: &Node,
    lbase: &str,
    rbase: &str,
    ex: &ExcludeSet,
    all_mode: bool,
    reads: &mut usize,
) -> Vec<Classification> {
    let plan = plan_level(listing(left, lbase), listing(right, rbase), ex, all_mode);
    let mut outcomes = Vec::new();
    for job in &plan.files {
        let a = child(left, &job.left_path, lbase);
        let b = child(right, &job.right_path, rbase);
        let equal = compare_bytes(&a.content, &b.content, reads);
        outcomes.push(if equal { CompareOutcome::Equal } else { CompareOutcome::Differ });
    }
    let mut dir_results = Vec::new();
    for job in &plan.dirs {
        let a = child(left, &job.left_path, lbase);
        let b = child(right, &job.right_path, rbase);
        dir_results.push(diff_nodes(a, b, &job.left_path, &job.right_path, ex, all_mode, reads));
    }
    let file_results = resolve_files(plan.files, outcomes, all_mode);
    assemble_level(plan.classes, file_results, dir_results)
}

fn show(c: &Classification) -> String {
    match c {
        Classification::Added(p) => format!("A:{}", p),
        Classification::Deleted(p) => format!("D:{}", p),
        Classification::Modified(p) => format!("M:{}", p),
        Classification::Unchanged(p) => format!("-:{}", p),
        Classification::TypeMismatch(a, b) => format!("T:{}|{}", a, b),
        Classification::ComparisonError(a, b, m) => format!("E:{}|{}|{}", a, b, m),
    }
}

fn show_all(cs: &[Classification]) -> Vec<String> {
    cs.iter().map(show).collect()
}

#[test]
fn equal_files_unchanged_only_with_all() {
    let a = dir("dirA", vec![file("f.txt", b"x")]);
    let b = dir("dirB", vec![file("f.txt", b"x")]);
    let ex = ExcludeSet::new();
    let mut reads = 0;
    let quiet = diff_nodes(&a, &b, "dirA", "dirB", &ex, false, &mut reads);
    assert!(quiet.is_empty());
    let full = diff_nodes(&a, &b, "dirA", "dirB", &ex, true, &mut reads);
    assert_eq!(show_all(&full), vec!["-:dirB/f.txt"]);
}

#[test]
fn equal_length_different_content_modified() {
    let a = dir("dirA", vec![file("f.txt", b"x")]);
    let b = dir("dirB", vec![file("f.txt", b"y")]);
    let ex = ExcludeSet::new();
    let mut reads = 0;
    let out = diff_nodes(&a, &b, "dirA", "dirB", &ex, false, &mut reads);
    assert_eq!(show_all(&out), vec!["M:dirB/f.txt"]);
    assert!(reads > 0);
}

#[test]
fn left_only_file_deleted() {
    let a = dir("dirA", vec![file("only.txt", b"data")]);
    let b = dir("dirB", vec![]);
    let ex = ExcludeSet::new();
    let mut reads = 0;
    let out = diff_nodes(&a, &b, "dirA", "dirB", &ex, true, &mut reads);
    assert_eq!(show_all(&out), vec!["D:dirA/only.txt"]);
    assert!(show_all(&out).iter().all(|s| !s.contains("dirB")));
}

#[test]
fn kind_clash_reported_once_without_recursion() {
    let a = dir("dirA", vec![dir("node", vec![file("inner.txt", b"zz")])]);
    let b = dir("dirB", vec![file("node", b"qq")]);
    let ex = ExcludeSet::new();
    let mut reads = 0;
    let out = diff_nodes(&a, &b, "dirA", "dirB", &ex, true, &mut reads);
    assert_eq!(show_all(&out), vec!["T:dirA/node|dirB/node"]);
    assert!(show_all(&out).iter().all(|s| !s.contains("inner.txt")));
    assert_eq!(reads, 0);
}

#[test]
fn excluded_name_never_mentioned_at_any_depth() {
    let with_git = |base: &str| {
        dir(
            base,
            vec![
                dir(".git", vec![file("HEAD", b"ref: main")]),
                dir("src", vec![dir(".git", vec![]), file("lib.rs", b"pub")]),
                file("readme", b"hello"),
            ],
        )
    };
    let without_git = |base: &str| {
        dir(
            base,
            vec![
                dir("src", vec![file("lib.rs", b"pub")]),
                file("readme", b"hello"),
            ],
        )
    };
    let mut ex = ExcludeSet::new();
    ex.add(b".git".to_vec());
    let none = ExcludeSet::new();
    let mut reads = 0;
    let excluded = diff_nodes(
        &with_git("dirA"),
        &with_git("dirB"),
        "dirA",
        "dirB",
        &ex,
        true,
        &mut reads,
    );
    assert!(show_all(&excluded).iter().all(|s| !s.contains(".git")));
    let absent = diff_nodes(
        &without_git("dirA"),
        &without_git("dirB"),
        "dirA",
        "dirB",
        &none,
        true,
        &mut reads,
    );
    assert_eq!(show_all(&excluded), show_all(&absent));
}

#[test]
fn tree_against_its_copy_yields_no_differences() {
    let make = |base: &str| {
        dir(
            base,
            vec![
                file("a.txt", b"alpha"),
                file("empty", b""),
                dir("sub", vec![file("b.txt", b"beta"), dir("deep", vec![])]),
            ],
        )
    };
    let ex = ExcludeSet::new();
    let mut reads = 0;
    let quiet = diff_nodes(&make("dirA"), &make("dirB"), "dirA", "dirB", &ex, false, &mut reads);
    assert!(quiet.is_empty());
    let full = diff_nodes(&make("dirA"), &make("dirB"), "dirA", "dirB", &ex, true, &mut reads);
    assert!(!full.is_empty());
    assert!(full
        .iter()
        .all(|c| matches!(c, Classification::Unchanged(_))));
}

#[test]
fn swapping_roots_swaps_added_and_deleted() {
    let a = dir(
        "dirA",
        vec![
            file("gone.txt", b"old"),
            file("same.txt", b"s"),
            file("diff.txt", b"1"),
            dir("node", vec![]),
        ],
    );
    let b = dir(
        "dirB",
        vec![
            file("new.txt", b"new"),
            file("same.txt", b"s"),
            file("diff.txt", b"2"),
            file("node", b"n"),
        ],
    );
    let ex = ExcludeSet::new();
    let mut reads = 0;
    let fwd = diff_nodes(&a, &b, "dirA", "dirB", &ex, false, &mut reads);
    let rev = diff_nodes(&b, &a, "dirB", "dirA", &ex, false, &mut reads);
    let count = |cs: &[Classification], f: fn(&Classification) -> bool| {
        cs.iter().filter(|c| f(c)).count()
    };
    let added = |c: &Classification| matches!(c, Classification::Added(_));
    let deleted = |c: &Classification| matches!(c, Classification::Deleted(_));
    let modified = |c: &Classification| matches!(c, Classification::Modified(_));
    let clash = |c: &Classification| matches!(c, Classification::TypeMismatch(_, _));
    assert_eq!(count(&fwd, added), count(&rev, deleted));
    assert_eq!(count(&fwd, deleted), count(&rev, added));
    assert_eq!(count(&fwd, modified), count(&rev, modified));
    assert_eq!(count(&fwd, clash), count(&rev, clash));
    let fwd_clash = fwd.iter().find(|c| clash(c)).unwrap();
    let rev_clash = rev.iter().find(|c| clash(c)).unwrap();
    match (fwd_clash, rev_clash) {
        (
            Classification::TypeMismatch(fl, fr),
            Classification::TypeMismatch(rl, rr),
        ) => {
            assert_eq!(fl, rr);
            assert_eq!(fr, rl);
        }
        _ => unreachable!(),
    }
}

#[test]
fn different_length_never_reads_content() {
    let a = dir("dirA", vec![file("f.txt", b"x")]);
    let b = dir("dirB", vec![file("f.txt", b"xy")]);
    let ex = ExcludeSet::new();
    let mut reads = 0;
    let out = diff_nodes(&a, &b, "dirA", "dirB", &ex, false, &mut reads);
    assert_eq!(show_all(&out), vec!["M:dirB/f.txt"]);
    assert_eq!(reads, 0);
}

#[test]
fn completion_order_does_not_change_output() {
    let jobs: Vec<FileJob> = (0..4)
        .map(|i| FileJob {
            left_path: format!("dirA/f{}", i),
            right_path: format!("dirB/f{}", i),
            len: 1,
        })
        .collect();
    let verdicts = [
        CompareOutcome::Differ,
        CompareOutcome::Equal,
        CompareOutcome::Differ,
        CompareOutcome::Equal,
    ];
    // Sequential completion: jobs finish in listing order.
    let sequential: Vec<CompareOutcome> = verdicts.to_vec();
    // Out-of-order completion: jobs finish last-first, but each outcome is
    // stored at its job's own position.
    let mut parallel: Vec<Option<CompareOutcome>> = (0..4).map(|_| None).collect();
    for i in (0..4).rev() {
        parallel[i] = Some(verdicts[i].clone());
    }
    let parallel: Vec<CompareOutcome> = parallel.into_iter().map(Option::unwrap).collect();
    let out_seq = resolve_files(jobs.clone(), sequential, true);
    let out_par = resolve_files(jobs, parallel, true);
    assert_eq!(show_all(&out_seq), show_all(&out_par));
    assert_eq!(
        show_all(&out_seq),
        vec!["M:dirB/f0", "-:dirB/f1", "M:dirB/f2", "-:dirB/f3"]
    );
}
