//! The budgets of the keys that have asked for something.

use crate::admission::Budgets;
use crate::principal::Principal;
use std::collections::BTreeMap;
use vstd::prelude::*;

verus! {

/// A map from keys to their budgets.
#[derive(Debug)]
pub struct BudgetMap {
    map: BTreeMap<(u128, u128), Budgets>,
}

impl View for BudgetMap {
    type V = Map<Principal, Budgets>;

    closed spec fn view(&self) -> Map<Principal, Budgets> {
        Map::new(
            |p: Principal| self.map@.contains_key((p.head, p.tail)),
            |p: Principal| self.map@[(p.head, p.tail)],
        )
    }
}

impl BudgetMap {
    /// The map in which no key has an entry.
    pub fn new() -> (m: BudgetMap)
        ensures
            m@ == Map::<Principal, Budgets>::empty(),
    {
        BudgetMap { map: BTreeMap::new() }
    }

    /// The budgets recorded of `key`.
    pub fn get(&self, key: Principal) -> (b: Option<Budgets>)
        ensures
            b == (if self@.contains_key(key) {
                Some(self@[key])
            } else {
                None
            }),
    {
        broadcast use vstd::laws_cmp::group_laws_cmp;

        match self.map.get(&(key.head, key.tail)) {
            Some(b) => Some(*b),
            None => None,
        }
    }

    /// Records `b` as the budgets of `key`.
    pub fn insert(&mut self, key: Principal, b: Budgets)
        ensures
            final(self)@ == old(self)@.insert(key, b),
    {
        broadcast use vstd::laws_cmp::group_laws_cmp;

        self.map.insert((key.head, key.tail), b);
    }

    /// The budgets of `key`; unused ones are recorded for it where it had none.
    pub fn entry(&mut self, key: Principal) -> (b: Budgets)
        ensures
            b == crate::admission::budgets_of(old(self)@, key),
            final(self)@ == old(self)@.insert(key, b),
    {
        match self.get(key) {
            Some(b) => b,
            None => {
                let b = Budgets::default();
                self.insert(key, b);
                b
            },
        }
    }

    /// Whether no key has an entry.
    pub fn is_empty(&self) -> (r: bool)
        ensures
            r == (self@ == Map::<Principal, Budgets>::empty()),
    {
        proof {
            if self.map@.is_empty() {
                assert(self@ =~= Map::<Principal, Budgets>::empty());
            } else {
                let k = choose|k: (u128, u128)| self.map@.contains_key(k);
                assert(self@.contains_key(Principal { head: k.0, tail: k.1 }));
            }
        }
        self.map.is_empty()
    }
}

} // verus!
