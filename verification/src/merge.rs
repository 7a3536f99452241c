//! The sorted two-pointer merge that aligns two directory listings by name.

use crate::entry::{
    entries_strictly_sorted, lemma_name_lt_asym, lemma_name_lt_connex, lemma_name_lt_irrefl,
    name_cmp, name_lt, Entry, NameOrder,
};
use vstd::prelude::*;

verus! {

/// The verdict of the merge for one name seen in either listing: the name is
/// present only on one side, present on both with different kinds, or a pair
/// to resolve (a subdirectory pair, a size mismatch, a pair of empty files,
/// or a pending content comparison).
#[derive(Debug)]
pub enum MergeItem {
    /// The name exists only in the left listing.
    LeftOnly(Entry),
    /// The name exists only in the right listing.
    RightOnly(Entry),
    /// The name is a directory on one side and a regular file on the other.
    KindClash(Entry, Entry),
    /// The name is a directory on both sides: a pending recursion.
    DirPair(Entry, Entry),
    /// Two regular files whose lengths differ: modified, content unread.
    SizeDiff(Entry, Entry),
    /// Two regular files, both of length zero: trivially unchanged.
    EmptyPair(Entry, Entry),
    /// Two regular files of equal positive length: a pending comparison.
    ContentJob(Entry, Entry),
}

/// How the merge resolves one name present in both listings.
pub open spec fn pair_item(a: Entry, b: Entry) -> MergeItem {
    if a.is_dir != b.is_dir {
        MergeItem::KindClash(a, b)
    } else if a.is_dir {
        MergeItem::DirPair(a, b)
    } else if a.len != b.len {
        MergeItem::SizeDiff(a, b)
    } else if a.len == 0 {
        MergeItem::EmptyPair(a, b)
    } else {
        MergeItem::ContentJob(a, b)
    }
}

/// The lock-step walk over two listings: at each step the smaller head name
/// is emitted as one-sided, equal head names are resolved as a pair, and the
/// walk continues on the rest.
pub open spec fn merge_spec(l: Seq<Entry>, r: Seq<Entry>) -> Seq<MergeItem>
    decreases l.len() + r.len(),
{
    if l.len() == 0 && r.len() == 0 {
        Seq::empty()
    } else if r.len() == 0 {
        seq![MergeItem::LeftOnly(l[0])] + merge_spec(l.drop_first(), r)
    } else if l.len() == 0 {
        seq![MergeItem::RightOnly(r[0])] + merge_spec(l, r.drop_first())
    } else if name_lt(l[0].name@, r[0].name@) {
        seq![MergeItem::LeftOnly(l[0])] + merge_spec(l.drop_first(), r)
    } else if name_lt(r[0].name@, l[0].name@) {
        seq![MergeItem::RightOnly(r[0])] + merge_spec(l, r.drop_first())
    } else {
        seq![pair_item(l[0], r[0])] + merge_spec(l.drop_first(), r.drop_first())
    }
}

/// Walks the two listings in lock-step and classifies every name seen in
/// either one, in name order when the inputs are sorted.
#[verifier::loop_isolation(false)]
pub fn merge_entries(left: Vec<Entry>, right: Vec<Entry>) -> (items: Vec<MergeItem>)
    ensures
        items@ == merge_spec(left@, right@),
{
    let mut lcur = left;
    let mut rcur = right;
    let ghost l0 = lcur@;
    let ghost r0 = rcur@;
    let mut out: Vec<MergeItem> = Vec::new();
    while lcur.len() > 0 || rcur.len() > 0
        invariant
            merge_spec(l0, r0) == out@ + merge_spec(lcur@, rcur@),
        decreases lcur@.len() + rcur@.len(),
    {
        let ghost pre_out = out@;
        let ghost pre_l = lcur@;
        let ghost pre_r = rcur@;
        if rcur.len() == 0 {
            let a = lcur.remove(0);
            out.push(MergeItem::LeftOnly(a));
            proof {
                assert(lcur@ =~= pre_l.drop_first());
                assert(merge_spec(pre_l, pre_r) =~= seq![MergeItem::LeftOnly(pre_l[0])]
                    + merge_spec(pre_l.drop_first(), pre_r));
            }
        } else if lcur.len() == 0 {
            let b = rcur.remove(0);
            out.push(MergeItem::RightOnly(b));
            proof {
                assert(rcur@ =~= pre_r.drop_first());
                assert(merge_spec(pre_l, pre_r) =~= seq![MergeItem::RightOnly(pre_r[0])]
                    + merge_spec(pre_l, pre_r.drop_first()));
            }
        } else {
            let o = name_cmp(&lcur[0].name, &rcur[0].name);
            match o {
                NameOrder::Before => {
                    let a = lcur.remove(0);
                    out.push(MergeItem::LeftOnly(a));
                    proof {
                        assert(lcur@ =~= pre_l.drop_first());
                        assert(merge_spec(pre_l, pre_r) =~= seq![MergeItem::LeftOnly(pre_l[0])]
                            + merge_spec(pre_l.drop_first(), pre_r));
                    }
                },
                NameOrder::After => {
                    let b = rcur.remove(0);
                    out.push(MergeItem::RightOnly(b));
                    proof {
                        lemma_name_lt_asym(pre_r[0].name@, pre_l[0].name@);
                        assert(rcur@ =~= pre_r.drop_first());
                        assert(merge_spec(pre_l, pre_r) =~= seq![MergeItem::RightOnly(pre_r[0])]
                            + merge_spec(pre_l, pre_r.drop_first()));
                    }
                },
                NameOrder::Same => {
                    let a = lcur.remove(0);
                    let b = rcur.remove(0);
                    proof {
                        lemma_name_lt_irrefl(pre_l[0].name@);
                    }
                    let item = if a.is_dir != b.is_dir {
                        MergeItem::KindClash(a, b)
                    } else if a.is_dir {
                        MergeItem::DirPair(a, b)
                    } else if a.len != b.len {
                        MergeItem::SizeDiff(a, b)
                    } else if a.len == 0 {
                        MergeItem::EmptyPair(a, b)
                    } else {
                        MergeItem::ContentJob(a, b)
                    };
                    out.push(item);
                    proof {
                        assert(lcur@ =~= pre_l.drop_first());
                        assert(rcur@ =~= pre_r.drop_first());
                        assert(merge_spec(pre_l, pre_r) =~= seq![pair_item(pre_l[0], pre_r[0])]
                            + merge_spec(pre_l.drop_first(), pre_r.drop_first()));
                    }
                },
            }
        }
        proof {
            assert(out@ =~= pre_out + seq![out@.last()]);
            assert(merge_spec(l0, r0) =~= out@ + merge_spec(lcur@, rcur@));
        }
    }
    proof {
        assert(merge_spec(lcur@, rcur@) =~= Seq::empty());
        assert(out@ =~= out@ + merge_spec(lcur@, rcur@));
    }
    out
}

/// Two listings that describe the same tree level under different roots:
/// position by position the same name, the same kind, and the same length,
/// while the paths may differ.
pub open spec fn same_shape(l: Seq<Entry>, r: Seq<Entry>) -> bool {
    l.len() == r.len() && forall|i: int|
        0 <= i < l.len() ==> l[i].name@ == r[i].name@ && l[i].is_dir == r[i].is_dir
            && l[i].len == r[i].len
}

/// Law: diffing a tree level against an exact copy of itself yields no
/// added, deleted, kind-mismatched, or size-modified verdict — every name
/// pairs up, leaving only subdirectory pairs, empty pairs, and content
/// comparisons of equal-length files.
pub proof fn lemma_merge_mirror(l: Seq<Entry>, r: Seq<Entry>)
    requires
        same_shape(l, r),
    ensures
        merge_spec(l, r).len() == l.len(),
        forall|i: int| 0 <= i < l.len() ==> merge_spec(l, r)[i] == pair_item(l[i], r[i]),
        forall|i: int|
            0 <= i < merge_spec(l, r).len() ==> !(merge_spec(l, r)[i] is LeftOnly) && !(
            merge_spec(l, r)[i] is RightOnly) && !(merge_spec(l, r)[i] is KindClash) && !(
            merge_spec(l, r)[i] is SizeDiff),
    decreases l.len(),
{
    if l.len() > 0 {
        lemma_name_lt_irrefl(l[0].name@);
        assert forall|i: int|
            0 <= i < l.drop_first().len() implies l.drop_first()[i].name@
            == r.drop_first()[i].name@ && l.drop_first()[i].is_dir == r.drop_first()[i].is_dir
            && l.drop_first()[i].len == r.drop_first()[i].len by {
            assert(l[i + 1].name@ == r[i + 1].name@);
        }
        lemma_merge_mirror(l.drop_first(), r.drop_first());
        assert(merge_spec(l, r) =~= seq![pair_item(l[0], r[0])] + merge_spec(
            l.drop_first(),
            r.drop_first(),
        ));
        assert forall|i: int| 0 <= i < l.len() implies merge_spec(l, r)[i] == pair_item(
            l[i],
            r[i],
        ) by {
            if i > 0 {
                assert(merge_spec(l, r)[i] == merge_spec(l.drop_first(), r.drop_first())[i - 1]);
            }
        }
    }
}

/// The same merge verdict as seen from the other root: one-sided verdicts
/// change side, paired verdicts swap their two entries.
pub open spec fn swap_item(m: MergeItem) -> MergeItem {
    match m {
        MergeItem::LeftOnly(a) => MergeItem::RightOnly(a),
        MergeItem::RightOnly(b) => MergeItem::LeftOnly(b),
        MergeItem::KindClash(a, b) => MergeItem::KindClash(b, a),
        MergeItem::DirPair(a, b) => MergeItem::DirPair(b, a),
        MergeItem::SizeDiff(a, b) => MergeItem::SizeDiff(b, a),
        MergeItem::EmptyPair(a, b) => MergeItem::EmptyPair(b, a),
        MergeItem::ContentJob(a, b) => MergeItem::ContentJob(b, a),
    }
}

/// Law: swapping the two roots swaps every verdict's sides and nothing
/// else: left-only becomes right-only and vice versa (so every `Deleted`
/// becomes an `Added` and conversely), and every paired verdict — kind
/// clash, subdirectory pair, size difference, empty pair, content
/// comparison — is kept with its two entries exchanged.
pub proof fn lemma_merge_swap(l: Seq<Entry>, r: Seq<Entry>)
    ensures
        merge_spec(r, l) == merge_spec(l, r).map_values(|m: MergeItem| swap_item(m)),
    decreases l.len() + r.len(),
{
    let f = |m: MergeItem| swap_item(m);
    if l.len() == 0 && r.len() == 0 {
        assert(merge_spec(r, l) =~= merge_spec(l, r).map_values(f));
    } else if r.len() == 0 {
        lemma_merge_swap(l.drop_first(), r);
        assert(merge_spec(l, r) =~= seq![MergeItem::LeftOnly(l[0])] + merge_spec(
            l.drop_first(),
            r,
        ));
        assert(merge_spec(r, l) =~= seq![MergeItem::RightOnly(l[0])] + merge_spec(
            r,
            l.drop_first(),
        ));
        assert(merge_spec(r, l) =~= merge_spec(l, r).map_values(f));
    } else if l.len() == 0 {
        lemma_merge_swap(l, r.drop_first());
        assert(merge_spec(l, r) =~= seq![MergeItem::RightOnly(r[0])] + merge_spec(
            l,
            r.drop_first(),
        ));
        assert(merge_spec(r, l) =~= seq![MergeItem::LeftOnly(r[0])] + merge_spec(
            r.drop_first(),
            l,
        ));
        assert(merge_spec(r, l) =~= merge_spec(l, r).map_values(f));
    } else if name_lt(l[0].name@, r[0].name@) {
        lemma_name_lt_asym(l[0].name@, r[0].name@);
        lemma_merge_swap(l.drop_first(), r);
        assert(merge_spec(l, r) =~= seq![MergeItem::LeftOnly(l[0])] + merge_spec(
            l.drop_first(),
            r,
        ));
        assert(merge_spec(r, l) =~= seq![MergeItem::RightOnly(l[0])] + merge_spec(
            r,
            l.drop_first(),
        ));
        assert(merge_spec(r, l) =~= merge_spec(l, r).map_values(f));
    } else if name_lt(r[0].name@, l[0].name@) {
        lemma_name_lt_asym(r[0].name@, l[0].name@);
        lemma_merge_swap(l, r.drop_first());
        assert(merge_spec(l, r) =~= seq![MergeItem::RightOnly(r[0])] + merge_spec(
            l,
            r.drop_first(),
        ));
        assert(merge_spec(r, l) =~= seq![MergeItem::LeftOnly(r[0])] + merge_spec(
            r.drop_first(),
            l,
        ));
        assert(merge_spec(r, l) =~= merge_spec(l, r).map_values(f));
    } else {
        lemma_merge_swap(l.drop_first(), r.drop_first());
        assert(swap_item(pair_item(l[0], r[0])) == pair_item(r[0], l[0]));
        assert(merge_spec(l, r) =~= seq![pair_item(l[0], r[0])] + merge_spec(
            l.drop_first(),
            r.drop_first(),
        ));
        assert(merge_spec(r, l) =~= seq![pair_item(r[0], l[0])] + merge_spec(
            r.drop_first(),
            l.drop_first(),
        ));
        assert(merge_spec(r, l) =~= merge_spec(l, r).map_values(f));
    }
}

/// Law: two files of different length are classified without a content
/// comparison — every size-difference verdict is conclusive on its own, and
/// a content comparison is only ever pending for two regular files of equal
/// positive length.
pub proof fn lemma_size_short_circuit(l: Seq<Entry>, r: Seq<Entry>)
    ensures
        forall|i: int|
            0 <= i < merge_spec(l, r).len() ==> (#[trigger] merge_spec(l, r)[i]
                matches MergeItem::ContentJob(a, b) ==> !a.is_dir && !b.is_dir && a.len == b.len
                && a.len > 0),
        forall|i: int|
            0 <= i < merge_spec(l, r).len() ==> (#[trigger] merge_spec(l, r)[i]
                matches MergeItem::SizeDiff(a, b) ==> !a.is_dir && !b.is_dir && a.len != b.len),
    decreases l.len() + r.len(),
{
    if l.len() == 0 && r.len() == 0 {
    } else if r.len() == 0 || (l.len() > 0 && name_lt(l[0].name@, r[0].name@)) {
        lemma_size_short_circuit(l.drop_first(), r);
        assert(merge_spec(l, r) =~= seq![MergeItem::LeftOnly(l[0])] + merge_spec(
            l.drop_first(),
            r,
        ));
    } else if l.len() == 0 || name_lt(r[0].name@, l[0].name@) {
        lemma_size_short_circuit(l, r.drop_first());
        assert(merge_spec(l, r) =~= seq![MergeItem::RightOnly(r[0])] + merge_spec(
            l,
            r.drop_first(),
        ));
    } else {
        lemma_size_short_circuit(l.drop_first(), r.drop_first());
        assert(merge_spec(l, r) =~= seq![pair_item(l[0], r[0])] + merge_spec(
            l.drop_first(),
            r.drop_first(),
        ));
    }
}

/// Whether some entry of the listing bears the given name.
pub open spec fn has_name(s: Seq<Entry>, n: Seq<u8>) -> bool {
    exists|j: int| 0 <= j < s.len() && s[j].name@ == n
}

proof fn lemma_cons_contains<T>(head: T, tail: Seq<T>, x: T)
    requires
        head == x || tail.contains(x),
    ensures
        (seq![head] + tail).contains(x),
{
    if head == x {
        assert((seq![head] + tail)[0] == x);
    } else {
        let k = choose|k: int| 0 <= k < tail.len() && tail[k] == x;
        assert((seq![head] + tail)[k + 1] == x);
    }
}

proof fn lemma_strict_drop(s: Seq<Entry>)
    requires
        entries_strictly_sorted(s),
        s.len() > 0,
    ensures
        entries_strictly_sorted(s.drop_first()),
{
    assert forall|i: int, j: int| 0 <= i < j < s.drop_first().len() implies name_lt(
        s.drop_first()[i].name@,
        s.drop_first()[j].name@,
    ) by {
        assert(name_lt(s[i + 1].name@, s[j + 1].name@));
    }
}

proof fn lemma_no_name_drop(s: Seq<Entry>, n: Seq<u8>)
    requires
        !has_name(s, n),
        s.len() > 0,
    ensures
        !has_name(s.drop_first(), n),
{
    if has_name(s.drop_first(), n) {
        let j = choose|j: int| 0 <= j < s.drop_first().len() && s.drop_first()[j].name@ == n;
        assert(s[j + 1].name@ == n);
    }
}

/// Law: over two strictly sorted listings — as real directory listings are,
/// names being unique — the merge covers every observed name as the merge
/// contract says: a name present only on the left yields its left-only
/// verdict, a name present only on the right its right-only verdict, and a
/// name present on both the verdict of that pair.
pub proof fn lemma_merge_complete(l: Seq<Entry>, r: Seq<Entry>)
    requires
        entries_strictly_sorted(l),
        entries_strictly_sorted(r),
    ensures
        forall|i: int|
            0 <= i < l.len() && !has_name(r, (#[trigger] l[i]).name@) ==> merge_spec(l, r).contains(
                MergeItem::LeftOnly(l[i]),
            ),
        forall|j: int|
            0 <= j < r.len() && !has_name(l, (#[trigger] r[j]).name@) ==> merge_spec(l, r).contains(
                MergeItem::RightOnly(r[j]),
            ),
        forall|i: int, j: int|
            0 <= i < l.len() && 0 <= j < r.len() && (#[trigger] l[i]).name@ == (
            #[trigger] r[j]).name@ ==> merge_spec(l, r).contains(pair_item(l[i], r[j])),
    decreases l.len() + r.len(),
{
    if l.len() == 0 && r.len() == 0 {
        // nothing to cover
    } else if r.len() == 0 {
        lemma_strict_drop(l);
        lemma_merge_complete(l.drop_first(), r);
        let tail = merge_spec(l.drop_first(), r);
        assert(merge_spec(l, r) =~= seq![MergeItem::LeftOnly(l[0])] + tail);
        assert forall|i: int|
            0 <= i < l.len() && !has_name(r, (#[trigger] l[i]).name@) implies merge_spec(
            l,
            r,
        ).contains(MergeItem::LeftOnly(l[i])) by {
            if i > 0 {
                assert(l.drop_first()[i - 1] == l[i]);
            }
            lemma_cons_contains(MergeItem::LeftOnly(l[0]), tail, MergeItem::LeftOnly(l[i]));
        }
    } else if l.len() == 0 {
        lemma_strict_drop(r);
        lemma_merge_complete(l, r.drop_first());
        let tail = merge_spec(l, r.drop_first());
        assert(merge_spec(l, r) =~= seq![MergeItem::RightOnly(r[0])] + tail);
        assert forall|j: int|
            0 <= j < r.len() && !has_name(l, (#[trigger] r[j]).name@) implies merge_spec(
            l,
            r,
        ).contains(MergeItem::RightOnly(r[j])) by {
            if j > 0 {
                assert(r.drop_first()[j - 1] == r[j]);
            }
            lemma_cons_contains(MergeItem::RightOnly(r[0]), tail, MergeItem::RightOnly(r[j]));
        }
    } else if name_lt(l[0].name@, r[0].name@) {
        lemma_strict_drop(l);
        lemma_merge_complete(l.drop_first(), r);
        let tail = merge_spec(l.drop_first(), r);
        assert(merge_spec(l, r) =~= seq![MergeItem::LeftOnly(l[0])] + tail);
        assert forall|i: int|
            0 <= i < l.len() && !has_name(r, (#[trigger] l[i]).name@) implies merge_spec(
            l,
            r,
        ).contains(MergeItem::LeftOnly(l[i])) by {
            if i > 0 {
                assert(l.drop_first()[i - 1] == l[i]);
            }
            lemma_cons_contains(MergeItem::LeftOnly(l[0]), tail, MergeItem::LeftOnly(l[i]));
        }
        assert forall|j: int|
            0 <= j < r.len() && !has_name(l, (#[trigger] r[j]).name@) implies merge_spec(
            l,
            r,
        ).contains(MergeItem::RightOnly(r[j])) by {
            lemma_no_name_drop(l, r[j].name@);
            lemma_cons_contains(MergeItem::LeftOnly(l[0]), tail, MergeItem::RightOnly(r[j]));
        }
        assert forall|i: int, j: int|
            0 <= i < l.len() && 0 <= j < r.len() && (#[trigger] l[i]).name@ == (
        #[trigger] r[j]).name@ implies merge_spec(l, r).contains(pair_item(l[i], r[j])) by {
            if i == 0 {
                if j == 0 {
                    lemma_name_lt_irrefl(l[0].name@);
                } else {
                    assert(name_lt(r[0].name@, r[j].name@));
                    lemma_name_lt_asym(l[0].name@, r[0].name@);
                }
            } else {
                assert(l.drop_first()[i - 1] == l[i]);
                lemma_cons_contains(
                    MergeItem::LeftOnly(l[0]),
                    tail,
                    pair_item(l[i], r[j]),
                );
            }
        }
    } else if name_lt(r[0].name@, l[0].name@) {
        lemma_strict_drop(r);
        lemma_merge_complete(l, r.drop_first());
        let tail = merge_spec(l, r.drop_first());
        assert(merge_spec(l, r) =~= seq![MergeItem::RightOnly(r[0])] + tail);
        assert forall|i: int|
            0 <= i < l.len() && !has_name(r, (#[trigger] l[i]).name@) implies merge_spec(
            l,
            r,
        ).contains(MergeItem::LeftOnly(l[i])) by {
            lemma_no_name_drop(r, l[i].name@);
            lemma_cons_contains(MergeItem::RightOnly(r[0]), tail, MergeItem::LeftOnly(l[i]));
        }
        assert forall|j: int|
            0 <= j < r.len() && !has_name(l, (#[trigger] r[j]).name@) implies merge_spec(
            l,
            r,
        ).contains(MergeItem::RightOnly(r[j])) by {
            if j > 0 {
                assert(r.drop_first()[j - 1] == r[j]);
            }
            lemma_cons_contains(MergeItem::RightOnly(r[0]), tail, MergeItem::RightOnly(r[j]));
        }
        assert forall|i: int, j: int|
            0 <= i < l.len() && 0 <= j < r.len() && (#[trigger] l[i]).name@ == (
        #[trigger] r[j]).name@ implies merge_spec(l, r).contains(pair_item(l[i], r[j])) by {
            if j == 0 {
                if i == 0 {
                    lemma_name_lt_irrefl(l[0].name@);
                } else {
                    assert(name_lt(l[0].name@, l[i].name@));
                    lemma_name_lt_asym(r[0].name@, l[0].name@);
                }
            } else {
                assert(r.drop_first()[j - 1] == r[j]);
                lemma_cons_contains(
                    MergeItem::RightOnly(r[0]),
                    tail,
                    pair_item(l[i], r[j]),
                );
            }
        }
    } else {
        lemma_name_lt_connex(l[0].name@, r[0].name@);
        assert(l[0].name@ == r[0].name@);
        lemma_strict_drop(l);
        lemma_strict_drop(r);
        lemma_merge_complete(l.drop_first(), r.drop_first());
        let tail = merge_spec(l.drop_first(), r.drop_first());
        assert(merge_spec(l, r) =~= seq![pair_item(l[0], r[0])] + tail);
        assert forall|i: int|
            0 <= i < l.len() && !has_name(r, (#[trigger] l[i]).name@) implies merge_spec(
            l,
            r,
        ).contains(MergeItem::LeftOnly(l[i])) by {
            if i == 0 {
                assert(has_name(r, l[0].name@)) by {
                    assert(r[0].name@ == l[0].name@);
                }
            } else {
                assert(l.drop_first()[i - 1] == l[i]);
                lemma_no_name_drop(r, l[i].name@);
                lemma_cons_contains(pair_item(l[0], r[0]), tail, MergeItem::LeftOnly(l[i]));
            }
        }
        assert forall|j: int|
            0 <= j < r.len() && !has_name(l, (#[trigger] r[j]).name@) implies merge_spec(
            l,
            r,
        ).contains(MergeItem::RightOnly(r[j])) by {
            if j == 0 {
                assert(has_name(l, r[0].name@)) by {
                    assert(l[0].name@ == r[0].name@);
                }
            } else {
                assert(r.drop_first()[j - 1] == r[j]);
                lemma_no_name_drop(l, r[j].name@);
                lemma_cons_contains(pair_item(l[0], r[0]), tail, MergeItem::RightOnly(r[j]));
            }
        }
        assert forall|i: int, j: int|
            0 <= i < l.len() && 0 <= j < r.len() && (#[trigger] l[i]).name@ == (
        #[trigger] r[j]).name@ implies merge_spec(l, r).contains(pair_item(l[i], r[j])) by {
            if i == 0 && j == 0 {
                lemma_cons_contains(pair_item(l[0], r[0]), tail, pair_item(l[i], r[j]));
            } else if i == 0 {
                assert(name_lt(r[0].name@, r[j].name@));
                lemma_name_lt_irrefl(r[j].name@);
            } else if j == 0 {
                assert(name_lt(l[0].name@, l[i].name@));
                lemma_name_lt_irrefl(l[i].name@);
            } else {
                assert(l.drop_first()[i - 1] == l[i]);
                assert(r.drop_first()[j - 1] == r[j]);
                lemma_cons_contains(pair_item(l[0], r[0]), tail, pair_item(l[i], r[j]));
            }
        }
    }
}

/// Whether a merge verdict references an entry of the given name.
pub open spec fn item_mentions(m: MergeItem, n: Seq<u8>) -> bool {
    match m {
        MergeItem::LeftOnly(a) => a.name@ == n,
        MergeItem::RightOnly(b) => b.name@ == n,
        MergeItem::KindClash(a, b) => a.name@ == n || b.name@ == n,
        MergeItem::DirPair(a, b) => a.name@ == n || b.name@ == n,
        MergeItem::SizeDiff(a, b) => a.name@ == n || b.name@ == n,
        MergeItem::EmptyPair(a, b) => a.name@ == n || b.name@ == n,
        MergeItem::ContentJob(a, b) => a.name@ == n || b.name@ == n,
    }
}

/// Law: when neither listing holds an excluded name — as after
/// `filter_excluded` — no verdict of the merge references one, so no
/// classification or pending job can either.
pub proof fn lemma_exclude_correct(l: Seq<Entry>, r: Seq<Entry>, ex: Set<Seq<u8>>)
    requires
        forall|i: int| 0 <= i < l.len() ==> !ex.contains(l[i].name@),
        forall|i: int| 0 <= i < r.len() ==> !ex.contains(r[i].name@),
    ensures
        forall|i: int, n: Seq<u8>|
            0 <= i < merge_spec(l, r).len() && ex.contains(n) ==> !item_mentions(
                merge_spec(l, r)[i],
                n,
            ),
    decreases l.len() + r.len(),
{
    if l.len() == 0 && r.len() == 0 {
    } else if r.len() == 0 || (l.len() > 0 && name_lt(l[0].name@, r[0].name@)) {
        assert forall|i: int|
            0 <= i < l.drop_first().len() implies !ex.contains(l.drop_first()[i].name@) by {
            assert(!ex.contains(l[i + 1].name@));
        }
        lemma_exclude_correct(l.drop_first(), r, ex);
        assert(merge_spec(l, r) =~= seq![MergeItem::LeftOnly(l[0])] + merge_spec(
            l.drop_first(),
            r,
        ));
    } else if l.len() == 0 || name_lt(r[0].name@, l[0].name@) {
        assert forall|i: int|
            0 <= i < r.drop_first().len() implies !ex.contains(r.drop_first()[i].name@) by {
            assert(!ex.contains(r[i + 1].name@));
        }
        lemma_exclude_correct(l, r.drop_first(), ex);
        assert(merge_spec(l, r) =~= seq![MergeItem::RightOnly(r[0])] + merge_spec(
            l,
            r.drop_first(),
        ));
    } else {
        assert forall|i: int|
            0 <= i < l.drop_first().len() implies !ex.contains(l.drop_first()[i].name@) by {
            assert(!ex.contains(l[i + 1].name@));
        }
        assert forall|i: int|
            0 <= i < r.drop_first().len() implies !ex.contains(r.drop_first()[i].name@) by {
            assert(!ex.contains(r[i + 1].name@));
        }
        lemma_exclude_correct(l.drop_first(), r.drop_first(), ex);
        assert(merge_spec(l, r) =~= seq![pair_item(l[0], r[0])] + merge_spec(
            l.drop_first(),
            r.drop_first(),
        ));
        assert(!ex.contains(l[0].name@) && !ex.contains(r[0].name@));
    }
}

} // verus!
