//! The set of names ignored at every directory level on both sides.

use crate::entry::{name_cmp, Entry, NameOrder};
use vstd::prelude::*;

verus! {

/// Names to skip, fixed for the whole run and applied at every directory
/// level in both trees.
#[derive(Debug)]
pub struct ExcludeSet {
    names: Vec<Vec<u8>>,
}

impl ExcludeSet {
    /// The set of excluded names.
    pub closed spec fn names_set(self) -> Set<Seq<u8>> {
        Set::new(|n: Seq<u8>| exists|i: int| 0 <= i < self.names@.len() && self.names@[i]@ == n)
    }

    /// An empty exclude set.
    pub fn new() -> (r: Self)
        ensures
            r.names_set() == Set::<Seq<u8>>::empty(),
    {
        let r = ExcludeSet { names: Vec::new() };
        proof {
            assert(r.names_set() =~= Set::<Seq<u8>>::empty());
        }
        r
    }

    /// Adds one name to the set.
    pub fn add(&mut self, name: Vec<u8>)
        ensures
            final(self).names_set() == old(self).names_set().insert(name@),
    {
        self.names.push(name);
        proof {
            assert forall|n: Seq<u8>| self.names_set().contains(n) implies old(
                self,
            ).names_set().insert(name@).contains(n) by {
                let i = choose|i: int|
                    0 <= i < self.names@.len() && self.names@[i]@ == n;
                if i < self.names@.len() - 1 {
                    assert(old(self).names@[i]@ == n);
                }
            }
            assert forall|n: Seq<u8>| old(self).names_set().insert(name@).contains(
                n,
            ) implies self.names_set().contains(n) by {
                if n == name@ {
                    assert(self.names@[self.names@.len() - 1]@ == n);
                } else {
                    let i = choose|i: int|
                        0 <= i < old(self).names@.len() && old(self).names@[i]@ == n;
                    assert(self.names@[i]@ == n);
                }
            }
            assert(self.names_set() =~= old(self).names_set().insert(name@));
        }
    }

    /// Whether a name is excluded.
    pub fn contains_name(&self, name: &Vec<u8>) -> (b: bool)
        ensures
            b == self.names_set().contains(name@),
    {
        let mut i: usize = 0;
        while i < self.names.len()
            invariant
                i <= self.names@.len(),
                forall|j: int| 0 <= j < i ==> self.names@[j]@ != name@,
            decreases self.names@.len() - i,
        {
            let o = name_cmp(&self.names[i], name);
            match o {
                NameOrder::Same => {
                    proof {
                        assert(self.names@[i as int]@ == name@);
                    }
                    return true;
                },
                _ => {},
            }
            i = i + 1;
        }
        proof {
            assert(!self.names_set().contains(name@)) by {
                if self.names_set().contains(name@) {
                    let j = choose|j: int|
                        0 <= j < self.names@.len() && self.names@[j]@ == name@;
                    assert(self.names@[j]@ != name@);
                }
            }
        }
        false
    }
}

/// The entries of a listing whose name is not excluded, in listing order.
pub open spec fn kept_entries(s: Seq<Entry>, excludes: ExcludeSet) -> Seq<Entry> {
    s.filter(|e: Entry| !excludes.names_set().contains(e.name@))
}

/// Keeps exactly the entries whose name is not excluded, in listing order.
#[verifier::loop_isolation(false)]
pub fn filter_excluded(entries: Vec<Entry>, excludes: &ExcludeSet) -> (kept: Vec<Entry>)
    ensures
        kept@ == kept_entries(entries@, *excludes),
{
    let ghost g = entries@;
    let ghost pred = |e: Entry| !excludes.names_set().contains(e.name@);
    let mut cur = entries;
    let mut kept: Vec<Entry> = Vec::new();
    let ghost mut i: int = 0;
    proof {
        reveal(Seq::filter);
    }
    while cur.len() > 0
        invariant
            0 <= i <= g.len(),
            cur@ == g.skip(i),
            kept@ == g.take(i).filter(pred),
        decreases cur@.len(),
    {
        let e = cur.remove(0);
        proof {
            assert(e == g[i]);
            assert(cur@ =~= g.skip(i + 1));
            assert(g.take(i + 1).drop_last() =~= g.take(i));
            assert(g.take(i + 1).last() == g[i]);
        }
        let keep = !excludes.contains_name(&e.name);
        if keep {
            kept.push(e);
        }
        proof {
            assert(g.take(i + 1).filter(pred) == if pred(g[i]) {
                g.take(i).filter(pred).push(g[i])
            } else {
                g.take(i).filter(pred)
            });
            i = i + 1;
        }
    }
    proof {
        assert(g.take(i) =~= g);
    }
    kept
}

/// Law: filtering keeps no excluded entry and drops no other: every kept
/// entry's name is outside the set, and every entry whose name is outside
/// the set is kept.
pub proof fn lemma_filter_excluded_exact(s: Seq<Entry>, excludes: ExcludeSet)
    ensures
        forall|i: int|
            0 <= i < kept_entries(s, excludes).len() ==> !excludes.names_set().contains(
                (#[trigger] kept_entries(s, excludes)[i]).name@,
            ),
        forall|i: int|
            0 <= i < s.len() && !excludes.names_set().contains(s[i].name@) ==> kept_entries(
                s,
                excludes,
            ).contains(#[trigger] s[i]),
{
    broadcast use vstd::seq_lib::group_filter_ensures;

    let pred = |e: Entry| !excludes.names_set().contains(e.name@);
    assert forall|i: int|
        0 <= i < kept_entries(s, excludes).len() implies !excludes.names_set().contains(
        (#[trigger] kept_entries(s, excludes)[i]).name@,
    ) by {
        assert(pred(s.filter(pred)[i]));
    }
}

} // verus!
