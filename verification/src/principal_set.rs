//! A set of principals.

use crate::principal::Principal;
use std::collections::BTreeSet;
use vstd::prelude::*;

verus! {

/// A set of principals, such as the allowlist of callers.
#[derive(Debug)]
pub struct PrincipalSet {
    keys: BTreeSet<(u128, u128)>,
}

impl View for PrincipalSet {
    type V = Set<Principal>;

    closed spec fn view(&self) -> Set<Principal> {
        self.keys@.map(|k: (u128, u128)| Principal { head: k.0, tail: k.1 })
    }
}

impl PrincipalSet {
    /// The empty set.
    pub fn new() -> (s: PrincipalSet)
        ensures
            s@ == Set::<Principal>::empty(),
    {
        PrincipalSet { keys: BTreeSet::new() }
    }

    proof fn lemma_contains(&self, p: Principal)
        ensures
            self@.contains(p) <==> self.keys@.contains((p.head, p.tail)),
    {
        if self.keys@.contains((p.head, p.tail)) {
            let f = |k: (u128, u128)| Principal { head: k.0, tail: k.1 };
            assert(f((p.head, p.tail)) == p);
        }
    }

    /// Whether `p` is in the set.
    pub fn contains(&self, p: &Principal) -> (r: bool)
        ensures
            r == self@.contains(*p),
    {
        broadcast use vstd::laws_cmp::group_laws_cmp;

        proof {
            self.lemma_contains(*p);
        }
        self.keys.contains(&(p.head, p.tail))
    }

    /// Puts `p` into the set.
    pub fn insert(&mut self, p: Principal)
        ensures
            final(self)@ == old(self)@.insert(p),
    {
        broadcast use vstd::laws_cmp::group_laws_cmp;

        self.keys.insert((p.head, p.tail));
        proof {
            assert forall|q: Principal| self@.contains(q) <==> old(self)@.insert(p).contains(q) by {
                self.lemma_contains(q);
                old(self).lemma_contains(q);
            }
        }
    }

    /// The set of the principals in a list.
    pub fn from_list(list: &[Principal]) -> (s: PrincipalSet)
        ensures
            s@ == list@.to_set(),
    {
        let mut s = PrincipalSet::new();
        let mut i: usize = 0;
        while i < list.len()
            invariant
                i <= list@.len(),
                s@ =~= list@.take(i as int).to_set(),
            decreases list@.len() - i,
        {
            s.insert(list[i]);
            proof {
                assert(list@.take(i + 1) =~= list@.take(i as int).push(list@[i as int]));
                assert(s@ =~= list@.take(i + 1).to_set()) by {
                    let before = list@.take(i as int);
                    let after = before.push(list@[i as int]);
                    assert forall|p: Principal| s@.contains(p) implies after.contains(p) by {
                        if before.contains(p) {
                            assert(after[before.index_of(p)] == p);
                        } else {
                            assert(after[i as int] == p);
                        }
                    }
                }
            }
            i = i + 1;
        }
        assert(list@.take(list@.len() as int) =~= list@);
        s
    }

    /// The number of principals in the set.
    pub fn len(&self) -> (n: usize)
        ensures
            n == self@.len(),
    {
        broadcast use vstd::laws_cmp::group_laws_cmp;

        proof {
            let f = |k: (u128, u128)| Principal { head: k.0, tail: k.1 };
            assert(self.keys@.finite()) by {
                let ks = vstd::std_specs::iter::IteratorSpec::remaining(
                    &vstd::std_specs::btree::spec_btree_keys_iter(&self.keys),
                ).unref();
                vstd::seq_lib::seq_to_set_is_finite(ks);
            }
            vstd::set_lib::lemma_map_size(self.keys@, self@, f);
        }
        self.keys.len()
    }

    /// Whether the set has no principal.
    pub fn is_empty(&self) -> (r: bool)
        ensures
            r == (self@ == Set::<Principal>::empty()),
    {
        proof {
            if self@ == Set::<Principal>::empty() {
                assert forall|k: (u128, u128)| !self.keys@.contains(k) by {
                    self.lemma_contains(Principal { head: k.0, tail: k.1 });
                }
            } else {
                assert(exists|p: Principal| self@.contains(p)) by {
                    if forall|p: Principal| !self@.contains(p) {
                        assert(self@ =~= Set::<Principal>::empty());
                    }
                }
                let p = choose|p: Principal| self@.contains(p);
                self.lemma_contains(p);
            }
        }
        self.keys.is_empty()
    }
}

} // verus!
