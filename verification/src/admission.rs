//! The relay's admission gate: the fixed order of cheap checks before any spend.
//! A caller that is not allowlisted, whose call would breach the relay's budget
//! floor, or that is over either of its per-key budgets is rejected before any
//! cycles are attached or any forward is made.
//!
//! The per-key budgets are denominated in **cycles, not calls**. A cap on calls
//! bounds the rate of a leaked key but not its total, and prices a signature the
//! same as an ingest. Charging the actual price against a short **burst** window
//! and a long **daily** window bounds both the spike and the day: the most a
//! leaked key can move in one day's window is the daily budget, whatever mix of
//! calls it picks.

use crate::budget_map::BudgetMap;
use crate::principal::Principal;
use vstd::prelude::*;

verus! {

/// A per-key fixed window: when it started and how many cycles it has spent.
#[derive(Clone, Copy, Debug, PartialEq, Eq, Structural)]
pub struct Window {
    pub start: u64,
    pub spent: u128,
}

/// Both windows a key is charged against: a short burst window and a long daily
/// one. The burst window caps a spike, the daily window caps the damage.
#[derive(Clone, Copy, Debug, PartialEq, Eq, Structural)]
pub struct Budgets {
    pub burst: Window,
    pub daily: Window,
}

impl Window {
    /// The window of a key that has never been charged.
    pub open spec fn unused() -> Window {
        Window { start: 0, spent: 0 }
    }
}

impl Budgets {
    /// The budgets of a key that has never been charged.
    pub open spec fn unused() -> Budgets {
        Budgets { burst: Window::unused(), daily: Window::unused() }
    }
}

impl Default for Window {
    fn default() -> (w: Window)
        ensures
            w == Window::unused(),
    {
        Window { start: 0, spent: 0 }
    }
}

impl Default for Budgets {
    fn default() -> (b: Budgets)
        ensures
            b == Budgets::unused(),
    {
        Budgets { burst: Window { start: 0, spent: 0 }, daily: Window { start: 0, spent: 0 } }
    }
}

/// The verdict of admission. Only `Admitted` may attach cycles and forward.
#[derive(Clone, Copy, Debug, PartialEq, Eq, Structural)]
pub enum Admit {
    Admitted,
    /// Caller is not on the allowlist (also caught earlier, at the perimeter).
    NotAllowed,
    /// Caller exceeded its per-key burst budget.
    RateLimited,
    /// Caller exhausted its per-key daily budget. Distinct from `RateLimited`: a
    /// burst clears in a minute, this one means the key has spent its day and
    /// something is wrong.
    KeyBudgetExhausted,
    /// Forwarding the price would dip below the relay's own budget floor.
    LowBudget,
}

/// The per-key limits, grouped so that admission keeps a readable signature.
#[derive(Clone, Copy, Debug)]
pub struct Limits {
    pub burst_window_ns: u64,
    pub burst_budget: u128,
    pub daily_window_ns: u64,
    pub daily_budget: u128,
}

/// The sum of two amounts of cycles, or the largest amount there is.
pub open spec fn capped_sum(a: u128, b: u128) -> u128 {
    if a + b <= u128::MAX {
        (a + b) as u128
    } else {
        u128::MAX
    }
}

/// Whether the relay can afford `price` above `floor`.
pub open spec fn affordable(balance: u128, floor: u128, price: u128) -> bool {
    balance >= capped_sum(floor, price)
}

impl Window {
    /// Whether the window is over at `now`: `window_ns` have passed since its
    /// start. None has passed on a clock that shows less than the start.
    pub open spec fn over(self, now: u64, window_ns: u64) -> bool {
        (if now >= self.start {
            now - self.start
        } else {
            0
        }) >= window_ns
    }

    /// The window that a charge at `now` is made against: this one, or a new one
    /// once this one is over.
    pub open spec fn current(self, now: u64, window_ns: u64) -> Window {
        if self.over(now, window_ns) {
            Window { start: now, spent: 0 }
        } else {
            self
        }
    }

    /// The window after `price` was spent in it.
    pub open spec fn plus(self, price: u128) -> Window {
        Window { start: self.start, spent: capped_sum(self.spent, price) }
    }

    /// Whether a window that may spend `cap` has room for `price` at `now`.
    pub open spec fn has_room(self, now: u64, window_ns: u64, cap: u128, price: u128) -> bool {
        self.current(now, window_ns).plus(price).spent <= cap
    }
}

impl Budgets {
    /// What a key with these budgets is told when it asks for `price` at `now`.
    pub open spec fn verdict(self, now: u64, limits: Limits, price: u128) -> Admit {
        if !self.burst.has_room(now, limits.burst_window_ns, limits.burst_budget, price) {
            Admit::RateLimited
        } else if !self.daily.has_room(now, limits.daily_window_ns, limits.daily_budget, price) {
            Admit::KeyBudgetExhausted
        } else {
            Admit::Admitted
        }
    }

    /// The budgets after the key asked for `price` at `now`: both windows are
    /// charged, or neither is touched.
    pub open spec fn after(self, now: u64, limits: Limits, price: u128) -> Budgets {
        if self.verdict(now, limits, price) == Admit::Admitted {
            Budgets {
                burst: self.burst.current(now, limits.burst_window_ns).plus(price),
                daily: self.daily.current(now, limits.daily_window_ns).plus(price),
            }
        } else {
            self
        }
    }
}

/// The budgets of `key`, unused where nothing is recorded of it.
pub open spec fn budgets_of(budgets: Map<Principal, Budgets>, key: Principal) -> Budgets {
    if budgets.contains_key(key) {
        budgets[key]
    } else {
        Budgets::unused()
    }
}

/// The verdict of the whole admission: allowlist, then the relay's floor, then the
/// budgets of the key.
pub open spec fn gate(
    allowlisted: bool,
    key_budgets: Budgets,
    now: u64,
    limits: Limits,
    balance: u128,
    floor: u128,
    price: u128,
) -> Admit {
    if !allowlisted {
        Admit::NotAllowed
    } else if !affordable(balance, floor, price) {
        Admit::LowBudget
    } else {
        key_budgets.verdict(now, limits, price)
    }
}

/// Whether the budget can afford `price` above the floor (saturating add, so a
/// huge price can never wrap under the floor).
pub fn budget_ok(balance: u128, floor: u128, price: u128) -> (r: bool)
    ensures
        r == affordable(balance, floor, price),
{
    balance >= floor.saturating_add(price)
}

/// Whether `price` fits in `w`'s remaining allowance, charging it if so. The
/// window rolls once `now` is `window_ns` past its start. Arithmetic saturates:
/// an absurd price can never wrap the counter back under the cap.
pub fn charge(w: &mut Window, now: u64, window_ns: u64, cap: u128, price: u128) -> (r: bool)
    ensures
        r == old(w).has_room(now, window_ns, cap, price),
        r ==> *final(w) == old(w).current(now, window_ns).plus(price),
        !r ==> *final(w) == old(w).current(now, window_ns),
{
    if now.saturating_sub(w.start) >= window_ns {
        w.start = now;
        w.spent = 0;
    }
    let after: u128 = w.spent.saturating_add(price);
    if after > cap {
        return false;
    }
    w.spent = after;
    true
}

/// Charge `price` against `key`'s burst and daily budgets. Both must have room;
/// neither is charged unless both do, so a rejected submit costs the key nothing.
pub fn rate_ok(
    budgets: &mut BudgetMap,
    key: Principal,
    now: u64,
    limits: &Limits,
    price: u128,
) -> (r: Admit)
    ensures
        r == budgets_of(old(budgets)@, key).verdict(now, *limits, price),
        final(budgets)@ == old(budgets)@.insert(
            key,
            budgets_of(old(budgets)@, key).after(now, *limits, price),
        ),
{
    let mut b: Budgets = budgets.entry(key);
    // Probe on copies first: charging the burst window and then failing the daily
    // one would bill a key for a submit that never happened.
    let mut burst: Window = b.burst;
    let mut daily: Window = b.daily;
    if !charge(&mut burst, now, limits.burst_window_ns, limits.burst_budget, price) {
        return Admit::RateLimited;
    }
    if !charge(&mut daily, now, limits.daily_window_ns, limits.daily_budget, price) {
        return Admit::KeyBudgetExhausted;
    }
    b.burst = burst;
    b.daily = daily;
    budgets.insert(key, b);
    Admit::Admitted
}

/// The full decision: allowlist, relay floor, per-key budgets. The allowlist is
/// checked first and charges nothing (a stranger never taxes an allowlisted key's
/// budget). The relay's own floor is checked before the key is charged, so a
/// submit refused for lack of relay balance does not also consume the key's day.
pub fn admit_call(
    allowlisted: bool,
    budgets: &mut BudgetMap,
    key: Principal,
    now: u64,
    limits: &Limits,
    balance: u128,
    floor: u128,
    price: u128,
) -> (r: Admit)
    ensures
        r == gate(
            allowlisted,
            budgets_of(old(budgets)@, key),
            now,
            *limits,
            balance,
            floor,
            price,
        ),
        final(budgets)@ == (if allowlisted && affordable(balance, floor, price) {
            old(budgets)@.insert(
                key,
                budgets_of(old(budgets)@, key).after(now, *limits, price),
            )
        } else {
            old(budgets)@
        }),
{
    if !allowlisted {
        return Admit::NotAllowed;
    }
    if !budget_ok(balance, floor, price) {
        return Admit::LowBudget;
    }
    rate_ok(budgets, key, now, limits, price)
}

} // verus!
