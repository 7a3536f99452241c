//! Directory entries and the byte-wise lexicographic order on their names.

use vstd::multiset::Multiset;
use vstd::prelude::*;

verus! {

/// One listed child of a directory: the name the filesystem reports (as a
/// byte string), the full path the entry was found under, whether it is a
/// directory, and its length in bytes.
#[derive(Debug)]
pub struct Entry {
    pub name: Vec<u8>,
    pub path: String,
    pub is_dir: bool,
    pub len: u64,
}

/// Byte-wise lexicographic strict order on names: `a` comes before `b`
/// when `a` is a proper prefix of `b`, or the first differing byte of `a`
/// is smaller.
pub open spec fn name_lt(a: Seq<u8>, b: Seq<u8>) -> bool
    decreases a.len(),
{
    if b.len() == 0 {
        false
    } else if a.len() == 0 {
        true
    } else if a[0] != b[0] {
        a[0] < b[0]
    } else {
        name_lt(a.drop_first(), b.drop_first())
    }
}

/// Reflexive closure of `name_lt`.
pub open spec fn name_le(a: Seq<u8>, b: Seq<u8>) -> bool {
    name_lt(a, b) || a == b
}

pub proof fn lemma_name_lt_irrefl(a: Seq<u8>)
    ensures
        !name_lt(a, a),
    decreases a.len(),
{
    if a.len() > 0 {
        lemma_name_lt_irrefl(a.drop_first());
    }
}

pub proof fn lemma_name_lt_asym(a: Seq<u8>, b: Seq<u8>)
    ensures
        name_lt(a, b) ==> !name_lt(b, a),
    decreases a.len(),
{
    if a.len() > 0 && b.len() > 0 && a[0] == b[0] {
        lemma_name_lt_asym(a.drop_first(), b.drop_first());
    }
}

pub proof fn lemma_name_lt_trans(a: Seq<u8>, b: Seq<u8>, c: Seq<u8>)
    requires
        name_lt(a, b),
        name_lt(b, c),
    ensures
        name_lt(a, c),
    decreases a.len(),
{
    if a.len() > 0 && b.len() > 0 && c.len() > 0 && a[0] == b[0] && b[0] == c[0] {
        lemma_name_lt_trans(a.drop_first(), b.drop_first(), c.drop_first());
    }
}

pub proof fn lemma_name_le_trans(a: Seq<u8>, b: Seq<u8>, c: Seq<u8>)
    requires
        name_le(a, b),
        name_le(b, c),
    ensures
        name_le(a, c),
{
    if name_lt(a, b) && name_lt(b, c) {
        lemma_name_lt_trans(a, b, c);
    }
}

/// The order is connex: two names are comparable or equal.
pub proof fn lemma_name_lt_connex(a: Seq<u8>, b: Seq<u8>)
    ensures
        name_lt(a, b) || name_lt(b, a) || a == b,
    decreases a.len(),
{
    if a.len() == 0 && b.len() == 0 {
        assert(a =~= b);
    } else if a.len() > 0 && b.len() > 0 && a[0] == b[0] {
        lemma_name_lt_connex(a.drop_first(), b.drop_first());
        if a.drop_first() == b.drop_first() {
            assert(a.drop_first().len() == a.len() - 1);
            assert(b.drop_first().len() == b.len() - 1);
            assert(a.len() == b.len());
            assert forall|i: int| 0 <= i < a.len() implies a[i] == b[i] by {
                if i > 0 {
                    assert(a.drop_first()[i - 1] == b.drop_first()[i - 1]);
                }
            }
            assert(a =~= b);
        }
    }
}

/// Two names that agree on their first `i` bytes compare the way their
/// remainders do.
proof fn lemma_name_lt_skip(a: Seq<u8>, b: Seq<u8>, i: int)
    requires
        0 <= i <= a.len(),
        i <= b.len(),
        forall|k: int| 0 <= k < i ==> a[k] == b[k],
    ensures
        name_lt(a, b) <==> name_lt(a.skip(i), b.skip(i)),
    decreases i,
{
    if i > 0 {
        assert(a[0] == b[0]);
        assert forall|k: int| 0 <= k < i - 1 implies a.drop_first()[k] == b.drop_first()[k] by {
            assert(a[k + 1] == b[k + 1]);
        }
        lemma_name_lt_skip(a.drop_first(), b.drop_first(), i - 1);
        assert(a.drop_first().skip(i - 1) =~= a.skip(i));
        assert(b.drop_first().skip(i - 1) =~= b.skip(i));
    } else {
        assert(a.skip(0) =~= a);
        assert(b.skip(0) =~= b);
    }
}

/// Three-way result of comparing two names.
#[derive(Clone, Copy, Debug, PartialEq, Eq, Structural)]
pub enum NameOrder {
    Before,
    Same,
    After,
}

/// Compares two names in the byte-wise lexicographic order.
pub fn name_cmp(a: &Vec<u8>, b: &Vec<u8>) -> (o: NameOrder)
    ensures
        (o is Before) == name_lt(a@, b@),
        (o is Same) == (a@ == b@),
        (o is After) == name_lt(b@, a@),
{
    let mut i: usize = 0;
    loop
        invariant
            i <= a@.len(),
            i <= b@.len(),
            forall|k: int| 0 <= k < i ==> a@[k] == b@[k],
        decreases a@.len() - i,
    {
        proof {
            lemma_name_lt_skip(a@, b@, i as int);
            lemma_name_lt_skip(b@, a@, i as int);
        }
        if i == a.len() && i == b.len() {
            proof {
                assert(a@ =~= b@);
                lemma_name_lt_irrefl(a@);
            }
            return NameOrder::Same;
        } else if i == a.len() {
            proof {
                assert(a@.skip(i as int).len() == 0);
                assert(b@.skip(i as int).len() > 0);
                assert(a@.len() != b@.len());
            }
            return NameOrder::Before;
        } else if i == b.len() {
            proof {
                assert(b@.skip(i as int).len() == 0);
                assert(a@.skip(i as int).len() > 0);
                assert(a@.len() != b@.len());
            }
            return NameOrder::After;
        } else {
            let x = a[i];
            let y = b[i];
            proof {
                assert(a@.skip(i as int)[0] == a@[i as int]);
                assert(b@.skip(i as int)[0] == b@[i as int]);
            }
            if x < y {
                return NameOrder::Before;
            } else if y < x {
                return NameOrder::After;
            }
            i = i + 1;
        }
    }
}

/// The listing is in non-decreasing name order.
pub open spec fn entries_sorted(s: Seq<Entry>) -> bool {
    forall|i: int, j: int| 0 <= i < j < s.len() ==> name_le(s[i].name@, s[j].name@)
}

/// The listing is in strictly increasing name order, as a real directory
/// listing is: sorted, with every name unique.
pub open spec fn entries_strictly_sorted(s: Seq<Entry>) -> bool {
    forall|i: int, j: int| 0 <= i < j < s.len() ==> name_lt(s[i].name@, s[j].name@)
}

/// No two entries of the listing share a name, as the children of one real
/// directory never do.
pub open spec fn unique_names(s: Seq<Entry>) -> bool {
    forall|i: int, j: int| 0 <= i < j < s.len() ==> s[i].name@ != s[j].name@
}

/// Law: a listing with unique names keeps them unique under any
/// rearrangement, in particular under sorting.
pub proof fn lemma_unique_names_preserved(pre: Seq<Entry>, post: Seq<Entry>)
    requires
        pre.to_multiset() == post.to_multiset(),
        unique_names(pre),
    ensures
        unique_names(post),
{
    broadcast use vstd::seq_lib::group_to_multiset_ensures;
    broadcast use vstd::multiset::group_multiset_axioms;

    if !unique_names(post) {
        let (i, j) = choose|i: int, j: int|
            0 <= i < j < post.len() && post[i].name@ == post[j].name@;
        let e1 = post[i];
        let e2 = post[j];
        if e1 == e2 {
            assert(post.remove(i).to_multiset() =~= post.to_multiset().remove(e1));
            assert(post.remove(i)[j - 1] == post[j]);
            assert(post.remove(i).contains(e1));
            assert(post.remove(i).to_multiset().count(e1) > 0);
            assert(post.to_multiset().remove(e1).count(e1) == post.to_multiset().count(e1) - 1);
            assert(post.to_multiset().count(e1) >= 2);
            assert(pre.to_multiset().count(e1) >= 2);
            assert(pre.contains(e1));
            let k = choose|k: int| 0 <= k < pre.len() && pre[k] == e1;
            assert(pre.remove(k).to_multiset() =~= pre.to_multiset().remove(e1));
            assert(pre.remove(k).to_multiset().count(e1) >= 1);
            assert(pre.remove(k).contains(e1));
            let k2 = choose|k2: int| 0 <= k2 < pre.remove(k).len() && pre.remove(k)[k2] == e1;
            if k2 < k {
                assert(pre[k2] == e1);
                assert(pre[k2].name@ == pre[k].name@);
            } else {
                assert(pre[k2 + 1] == e1);
                assert(pre[k].name@ == pre[k2 + 1].name@);
            }
        } else {
            assert(post.contains(e1));
            assert(post.contains(e2));
            assert(pre.to_multiset().count(e1) > 0);
            assert(pre.to_multiset().count(e2) > 0);
            assert(pre.contains(e1));
            assert(pre.contains(e2));
            let k1 = choose|k1: int| 0 <= k1 < pre.len() && pre[k1] == e1;
            let k2 = choose|k2: int| 0 <= k2 < pre.len() && pre[k2] == e2;
            assert(k1 != k2);
            assert(pre[k1].name@ == pre[k2].name@);
        }
    }
}

/// Law: a sorted listing with unique names is strictly sorted, so the sorted
/// form of a real directory listing meets the strict order the merge's
/// coverage law speaks of.
pub proof fn lemma_sorted_unique_strict(s: Seq<Entry>)
    requires
        entries_sorted(s),
        unique_names(s),
    ensures
        entries_strictly_sorted(s),
{
    assert forall|i: int, j: int| 0 <= i < j < s.len() implies name_lt(
        s[i].name@,
        s[j].name@,
    ) by {
        assert(name_le(s[i].name@, s[j].name@));
        assert(s[i].name@ != s[j].name@);
    }
}

/// Sorts a listing by name: the result is ordered and holds exactly the
/// entries of the input.
#[verifier::loop_isolation(false)]
pub fn sort_entries(entries: Vec<Entry>) -> (sorted: Vec<Entry>)
    ensures
        entries_sorted(sorted@),
        sorted@.to_multiset() == entries@.to_multiset(),
{
    broadcast use vstd::seq_lib::group_to_multiset_ensures;
    broadcast use vstd::multiset::group_multiset_axioms;

    let mut rest = entries;
    let ghost orig = rest@;
    let mut out: Vec<Entry> = Vec::new();
    proof {
        assert(out@.to_multiset().add(rest@.to_multiset()) =~= orig.to_multiset());
    }
    while rest.len() > 0
        invariant
            entries_sorted(out@),
            forall|i: int, j: int|
                0 <= i < out@.len() && 0 <= j < rest@.len() ==> name_le(
                    out@[i].name@,
                    rest@[j].name@,
                ),
            out@.to_multiset().add(rest@.to_multiset()) == orig.to_multiset(),
        decreases rest@.len(),
    {
        let mut m: usize = 0;
        let mut k: usize = 1;
        while k < rest.len()
            invariant
                m < k <= rest@.len(),
                forall|j: int| 0 <= j < k ==> name_le(rest@[m as int].name@, rest@[j].name@),
            decreases rest@.len() - k,
        {
            let o = name_cmp(&rest[k].name, &rest[m].name);
            match o {
                NameOrder::Before => {
                    proof {
                        assert forall|j: int|
                            0 <= j < k + 1 implies name_le(
                            rest@[k as int].name@,
                            rest@[j as int].name@,
                        ) by {
                            if j < k {
                                lemma_name_le_trans(
                                    rest@[k as int].name@,
                                    rest@[m as int].name@,
                                    rest@[j as int].name@,
                                );
                            }
                        }
                    }
                    m = k;
                },
                _ => {
                    proof {
                        assert(name_le(rest@[m as int].name@, rest@[k as int].name@));
                    }
                },
            }
            k = k + 1;
        }
        let ghost prev = rest@;
        let e = rest.remove(m);
        proof {
            assert(forall|j: int| 0 <= j < prev.len() ==> name_le(e.name@, prev[j].name@));
            assert forall|j: int| 0 <= j < rest@.len() implies prev.contains(rest@[j]) && name_le(
                e.name@,
                rest@[j].name@,
            ) by {
                if j < m {
                    assert(rest@[j] == prev[j]);
                } else {
                    assert(rest@[j] == prev[j + 1]);
                }
            }
            assert(forall|i: int|
                0 <= i < out@.len() ==> name_le(out@[i].name@, e.name@));
        }
        out.push(e);
        proof {
            assert(rest@.to_multiset() =~= prev.to_multiset().remove(e));
            assert(prev.to_multiset().count(e) > 0) by {
                assert(prev.contains(e));
            }
            assert(out@.to_multiset().add(rest@.to_multiset()) =~= orig.to_multiset());
        }
    }
    proof {
        assert(rest@.to_multiset() =~= Multiset::empty()) by {
            assert(rest@.to_multiset().len() == 0);
        }
        assert(out@.to_multiset() =~= out@.to_multiset().add(rest@.to_multiset()));
    }
    out
}

} // verus!
