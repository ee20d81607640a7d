//! Laws of the per-key budgets: what holds of a key over any run of asks.

use crate::admission::{affordable, budgets_of, capped_sum, gate, Admit, Budgets, Limits, Window};
use crate::principal::Principal;
use vstd::prelude::*;

verus! {

/// One time that a key asked for cycles: when, and how many.
pub struct Ask {
    pub now: u64,
    pub price: u128,
}

/// Which of the two windows of a key: that of its burst, or that of its day.
pub enum Horizon {
    Burst,
    Day,
}

impl Limits {
    /// How long the window lasts, in nanoseconds.
    pub open spec fn window_ns(self, horizon: Horizon) -> u64 {
        match horizon {
            Horizon::Burst => self.burst_window_ns,
            Horizon::Day => self.daily_window_ns,
        }
    }

    /// What may be spent in the window, in cycles.
    pub open spec fn budget(self, horizon: Horizon) -> u128 {
        match horizon {
            Horizon::Burst => self.burst_budget,
            Horizon::Day => self.daily_budget,
        }
    }
}

impl Budgets {
    /// The window of the burst or of the day.
    pub open spec fn window(self, horizon: Horizon) -> Window {
        match horizon {
            Horizon::Burst => self.burst,
            Horizon::Day => self.daily,
        }
    }

    /// Whether the ask is granted.
    pub open spec fn grants(self, limits: Limits, ask: Ask) -> bool {
        self.verdict(ask.now, limits, ask.price) == Admit::Admitted
    }

    /// The budgets after a run of asks.
    pub open spec fn run(self, limits: Limits, asks: Seq<Ask>) -> Budgets
        decreases asks.len(),
    {
        if asks.len() == 0 {
            self
        } else {
            let ask = asks.last();
            self.run(limits, asks.drop_last()).after(ask.now, limits, ask.price)
        }
    }

    /// The cycles that a run of asks was granted in all.
    pub open spec fn moved(self, limits: Limits, asks: Seq<Ask>) -> nat
        decreases asks.len(),
    {
        if asks.len() == 0 {
            0
        } else {
            let before = self.run(limits, asks.drop_last());
            self.moved(limits, asks.drop_last()) + if before.grants(limits, asks.last()) {
                asks.last().price as nat
            } else {
                0
            }
        }
    }

    /// The cycles that a run of asks was granted in the burst or the day that began
    /// at `start`.
    pub open spec fn moved_in(
        self,
        limits: Limits,
        asks: Seq<Ask>,
        horizon: Horizon,
        start: u64,
    ) -> nat
        decreases asks.len(),
    {
        if asks.len() == 0 {
            0
        } else {
            let before = self.run(limits, asks.drop_last());
            self.moved_in(limits, asks.drop_last(), horizon, start) + if before.grants(
                limits,
                asks.last(),
            ) && self.run(limits, asks).window(horizon).start == start {
                asks.last().price as nat
            } else {
                0
            }
        }
    }

    /// The cycles that a run of asks was granted in the day that began at `start`.
    pub open spec fn moved_in_day(self, limits: Limits, asks: Seq<Ask>, start: u64) -> nat {
        self.moved_in(limits, asks, Horizon::Day, start)
    }

    /// The cycles that a run of asks was granted in the burst that began at
    /// `start`.
    pub open spec fn moved_in_burst(self, limits: Limits, asks: Seq<Ask>, start: u64) -> nat {
        self.moved_in(limits, asks, Horizon::Burst, start)
    }
}

/// The relay affords a price if and only if its balance stays at or above the
/// floor without it; only the largest balance there is affords everything.
pub proof fn affording_keeps_the_floor(balance: u128, floor: u128, price: u128)
    ensures
        affordable(balance, floor, price) <==> balance >= floor + price || balance == u128::MAX,
{
}

/// Spent cycles add up, and stay at the largest amount there is once they reach it.
pub proof fn cycles_add_up(a: u128, b: u128)
    ensures
        capped_sum(a, b) == if a + b < u128::MAX {
            a + b
        } else {
            u128::MAX as int
        },
{
}

/// A window rolls once its length has passed since its start, and not before; what
/// is charged is added to what was spent since; and there is room for what keeps
/// the sum within the cap, or for anything under the largest cap there is.
pub proof fn a_charge_goes_by_clock_and_cap(
    w: Window,
    now: u64,
    window_ns: u64,
    cap: u128,
    price: u128,
)
    ensures
        ({
            let fresh = window_ns == 0 || now >= w.start + window_ns;
            let current = w.current(now, window_ns);
            let spent: int = if fresh {
                0
            } else {
                w.spent as int
            };
            &&& w.over(now, window_ns) <==> fresh
            &&& current.start == if fresh {
                now
            } else {
                w.start
            }
            &&& current.spent == spent
            &&& current.plus(price).start == current.start
            &&& spent + price <= u128::MAX ==> current.plus(price).spent == spent + price
            &&& spent + price > u128::MAX ==> current.plus(price).spent == u128::MAX
            &&& w.has_room(now, window_ns, cap, price) <==> spent + price <= cap || cap
                == u128::MAX
        }),
{
}

/// A key is told that it is rate limited if and only if its burst has no room, that
/// its day is spent if and only if its burst has room and its day has none, and is
/// admitted if and only if both have. Only then is it charged: both windows, the
/// whole price.
pub proof fn a_key_is_told_what_it_lacks(b: Budgets, limits: Limits, now: u64, price: u128)
    ensures
        ({
            let new_burst = limits.burst_window_ns == 0 || now >= b.burst.start
                + limits.burst_window_ns;
            let new_day = limits.daily_window_ns == 0 || now >= b.daily.start
                + limits.daily_window_ns;
            let in_burst: int = price + if new_burst {
                0
            } else {
                b.burst.spent as int
            };
            let in_day: int = price + if new_day {
                0
            } else {
                b.daily.spent as int
            };
            let burst_room = in_burst <= limits.burst_budget || limits.burst_budget == u128::MAX;
            let day_room = in_day <= limits.daily_budget || limits.daily_budget == u128::MAX;
            let verdict = b.verdict(now, limits, price);
            let next = b.after(now, limits, price);
            &&& verdict == Admit::RateLimited <==> !burst_room
            &&& verdict == Admit::KeyBudgetExhausted <==> burst_room && !day_room
            &&& verdict == Admit::Admitted <==> burst_room && day_room
            &&& !(burst_room && day_room) ==> next == b
            &&& burst_room && day_room ==> {
                &&& next.burst.start == if new_burst {
                    now
                } else {
                    b.burst.start
                }
                &&& next.daily.start == if new_day {
                    now
                } else {
                    b.daily.start
                }
                &&& in_burst <= u128::MAX ==> next.burst.spent == in_burst
                &&& in_burst > u128::MAX ==> next.burst.spent == u128::MAX
                &&& in_day <= u128::MAX ==> next.daily.spent == in_day
                &&& in_day > u128::MAX ==> next.daily.spent == u128::MAX
            }
        }),
{
}

/// Admission looks at the allowlist first, at the relay's floor next, and at the
/// budgets of the key last.
pub proof fn admission_looks_in_order(
    allowlisted: bool,
    b: Budgets,
    now: u64,
    limits: Limits,
    balance: u128,
    floor: u128,
    price: u128,
)
    ensures
        ({
            let verdict = gate(allowlisted, b, now, limits, balance, floor, price);
            let broke = balance < floor + price && balance < u128::MAX;
            &&& verdict == Admit::NotAllowed <==> !allowlisted
            &&& verdict == Admit::LowBudget <==> allowlisted && broke
            &&& allowlisted && !broke ==> verdict == b.verdict(now, limits, price)
        }),
{
}

/// A key of which nothing is recorded has spent nothing, in windows that began at
/// time zero; any other key has what is recorded of it.
pub proof fn a_key_starts_unspent(budgets: Map<Principal, Budgets>, key: Principal)
    ensures
        budgets.contains_key(key) ==> budgets_of(budgets, key) == budgets[key],
        !budgets.contains_key(key) ==> {
            let b = budgets_of(budgets, key);
            &&& b == Budgets::unused()
            &&& b.burst == Window::unused() && b.daily == Window::unused()
            &&& b.burst.start == 0 && b.burst.spent == 0
            &&& b.daily.start == 0 && b.daily.spent == 0
        },
        Budgets::unused().burst.spent == 0 && Budgets::unused().daily.spent == 0,
        Budgets::unused().burst.start == 0 && Budgets::unused().daily.start == 0,
        Window::unused().start == 0 && Window::unused().spent == 0,
{
}

/// What is known of the cycles `moved` in the window that began at `start`, when
/// `w` is the latest window.
spec fn accounted(w: Window, cap: u128, start: u64, moved: nat) -> bool {
    &&& moved <= cap
    &&& start == w.start ==> moved <= w.spent
    &&& start > w.start ==> moved == 0
}

proof fn lemma_accounted(b: Budgets, limits: Limits, asks: Seq<Ask>, horizon: Horizon, start: u64)
    requires
        limits.window_ns(horizon) > 0,
        limits.budget(horizon) < u128::MAX,
    ensures
        accounted(
            b.run(limits, asks).window(horizon),
            limits.budget(horizon),
            start,
            b.moved_in(limits, asks, horizon, start),
        ),
    decreases asks.len(),
{
    if asks.len() > 0 {
        lemma_accounted(b, limits, asks.drop_last(), horizon, start);
    }
}

/// In no day does a key move more than its daily budget, whatever it asks for and
/// whenever.
pub proof fn a_day_is_capped(b: Budgets, limits: Limits, asks: Seq<Ask>, start: u64)
    requires
        limits.daily_window_ns > 0,
        limits.daily_budget < u128::MAX,
    ensures
        b.moved_in_day(limits, asks, start) <= limits.daily_budget,
{
    lemma_accounted(b, limits, asks, Horizon::Day, start);
}

/// In no burst does a key move more than its burst budget, whatever it asks for
/// and whenever.
pub proof fn a_burst_is_capped(b: Budgets, limits: Limits, asks: Seq<Ask>, start: u64)
    requires
        limits.burst_window_ns > 0,
        limits.burst_budget < u128::MAX,
    ensures
        b.moved_in_burst(limits, asks, start) <= limits.burst_budget,
{
    lemma_accounted(b, limits, asks, Horizon::Burst, start);
}

/// A window stays, or the next one begins no sooner than it is over: two windows
/// of a key never overlap.
pub proof fn windows_do_not_overlap(b: Budgets, limits: Limits, ask: Ask)
    requires
        limits.burst_window_ns > 0,
        limits.daily_window_ns > 0,
    ensures
        ({
            let next = b.after(ask.now, limits, ask.price);
            &&& next.burst.start == b.burst.start || next.burst.start >= b.burst.start
                + limits.burst_window_ns
            &&& next.daily.start == b.daily.start || next.daily.start >= b.daily.start
                + limits.daily_window_ns
        }),
{
}

/// An ask that is rejected leaves the budgets of every key as they were.
pub proof fn a_rejected_ask_costs_nothing(
    budgets: Map<Principal, Budgets>,
    key: Principal,
    limits: Limits,
    ask: Ask,
    other: Principal,
)
    requires
        !budgets_of(budgets, key).grants(limits, ask),
    ensures
        budgets_of(
            budgets.insert(
                key,
                budgets_of(budgets, key).after(ask.now, limits, ask.price),
            ),
            other,
        ) == budgets_of(budgets, other),
{
}

/// An ask that is granted is charged in full to both windows, and stays within
/// both budgets.
pub proof fn a_granted_ask_is_charged_in_full(b: Budgets, limits: Limits, ask: Ask)
    requires
        b.grants(limits, ask),
        limits.burst_budget < u128::MAX,
        limits.daily_budget < u128::MAX,
    ensures
        ({
            let next = b.after(ask.now, limits, ask.price);
            let burst = b.burst.current(ask.now, limits.burst_window_ns);
            let daily = b.daily.current(ask.now, limits.daily_window_ns);
            &&& next.burst.spent == burst.spent + ask.price
            &&& next.daily.spent == daily.spent + ask.price
            &&& next.burst.spent <= limits.burst_budget
            &&& next.daily.spent <= limits.daily_budget
        }),
{
}

/// What is left after an ask that did not fit is still there for cheaper ones: a
/// key that is granted a price would be granted a lower one.
pub proof fn a_cheaper_ask_is_granted_too(b: Budgets, limits: Limits, now: u64, price: u128, less: u128)
    requires
        less <= price,
        b.grants(limits, Ask { now, price }),
    ensures
        b.grants(limits, Ask { now, price: less }),
{
}

/// A burst that was full clears once its window is over, and a day once it is
/// over.
pub proof fn a_window_that_is_over_clears(b: Budgets, limits: Limits, ask: Ask)
    ensures
        ask.now >= b.burst.start + limits.burst_window_ns && ask.price <= limits.burst_budget
            ==> b.verdict(ask.now, limits, ask.price) != Admit::RateLimited,
        ask.now >= b.daily.start + limits.daily_window_ns && ask.price <= limits.daily_budget
            ==> b.verdict(ask.now, limits, ask.price) != Admit::KeyBudgetExhausted,
{
}

/// A day that has no room for a price has none for it until the day is over.
pub proof fn an_exhausted_day_stays_exhausted(b: Budgets, limits: Limits, ask: Ask, later: Ask)
    requires
        b.verdict(ask.now, limits, ask.price) == Admit::KeyBudgetExhausted,
        !b.daily.over(ask.now, limits.daily_window_ns),
        !b.daily.over(later.now, limits.daily_window_ns),
        later.price >= ask.price,
    ensures
        !b.grants(limits, later),
{
}

/// Whether all asks fall into the time from `from` to `to`.
pub open spec fn asked_between(asks: Seq<Ask>, from: u64, to: u64) -> bool {
    forall|i: int| 0 <= i < asks.len() ==> from <= (#[trigger] asks[i]).now <= to
}

/// What is known of the cycles `moved` over `rolls` new windows since time `from`,
/// when `w` is the latest window.
spec fn spread(w: Window, window_ns: u64, cap: u128, from: u64, to: u64, moved: nat, rolls: nat) -> bool {
    &&& moved <= cap * rolls + if w.spent <= cap {
        w.spent
    } else {
        cap
    }
    &&& rolls > 0 ==> from + (rolls - 1) * window_ns <= w.start <= to
}

proof fn lemma_spread(
    w: Window,
    now: u64,
    window_ns: u64,
    cap: u128,
    price: u128,
    from: u64,
    to: u64,
    moved: nat,
    rolls: nat,
)
    requires
        window_ns > 0,
        cap < u128::MAX,
        from <= now <= to,
        spread(w, window_ns, cap, from, to, moved, rolls),
        w.has_room(now, window_ns, cap, price),
    ensures
        spread(
            w.current(now, window_ns).plus(price),
            window_ns,
            cap,
            from,
            to,
            moved + price as nat,
            if w.over(now, window_ns) {
                rolls + 1
            } else {
                rolls
            },
        ),
{
    if w.over(now, window_ns) {
        assert(cap * (rolls + 1) == cap * rolls + cap) by (nonlinear_arith);
        if rolls > 0 {
            assert(rolls * window_ns == (rolls - 1) * window_ns + window_ns) by (nonlinear_arith);
        }
    }
}

proof fn lemma_spread_bound(w: Window, window_ns: u64, cap: u128, from: u64, to: u64, moved: nat, rolls: nat)
    requires
        window_ns > 0,
        from <= to,
        spread(w, window_ns, cap, from, to, moved, rolls),
    ensures
        moved <= cap * (2 + (to - from) / window_ns as int),
{
    let q = (to - from) / window_ns as int;
    assert(q >= 0 && rolls <= q + 1) by (nonlinear_arith)
        requires
            window_ns > 0,
            from <= to,
            q == (to - from) / window_ns as int,
            rolls > 0 ==> from + (rolls - 1) * window_ns <= to,
    ;
    assert(cap * rolls + cap <= cap * (2 + q)) by (nonlinear_arith)
        requires
            rolls <= q + 1,
            cap >= 0,
    ;
}

proof fn lemma_run_spread(
    b: Budgets,
    limits: Limits,
    asks: Seq<Ask>,
    horizon: Horizon,
    from: u64,
    to: u64,
) -> (rolls: nat)
    requires
        limits.window_ns(horizon) > 0,
        limits.budget(horizon) < u128::MAX,
        asked_between(asks, from, to),
    ensures
        spread(
            b.run(limits, asks).window(horizon),
            limits.window_ns(horizon),
            limits.budget(horizon),
            from,
            to,
            b.moved(limits, asks),
            rolls,
        ),
    decreases asks.len(),
{
    if asks.len() == 0 {
        0
    } else {
        let before = b.run(limits, asks.drop_last());
        let ask = asks.last();
        let rolls = lemma_run_spread(b, limits, asks.drop_last(), horizon, from, to);
        if before.grants(limits, ask) {
            lemma_spread(
                before.window(horizon),
                ask.now,
                limits.window_ns(horizon),
                limits.budget(horizon),
                ask.price,
                from,
                to,
                b.moved(limits, asks.drop_last()),
                rolls,
            );
            if before.window(horizon).over(ask.now, limits.window_ns(horizon)) {
                rolls + 1
            } else {
                rolls
            }
        } else {
            rolls
        }
    }
}

proof fn lemma_span_capped(
    b: Budgets,
    limits: Limits,
    asks: Seq<Ask>,
    horizon: Horizon,
    from: u64,
    to: u64,
)
    requires
        limits.window_ns(horizon) > 0,
        limits.budget(horizon) < u128::MAX,
        from <= to,
        asked_between(asks, from, to),
    ensures
        b.moved(limits, asks) <= limits.budget(horizon) * (2 + (to - from) / limits.window_ns(
            horizon,
        ) as int),
{
    let rolls = lemma_run_spread(b, limits, asks, horizon, from, to);
    lemma_spread_bound(
        b.run(limits, asks).window(horizon),
        limits.window_ns(horizon),
        limits.budget(horizon),
        from,
        to,
        b.moved(limits, asks),
        rolls,
    );
}

/// Over any span of time a key moves at most one daily budget per day that fits
/// into the span, and two more for the days cut off at its ends; and likewise one
/// burst budget per burst.
pub proof fn a_span_is_capped(b: Budgets, limits: Limits, asks: Seq<Ask>, from: u64, to: u64)
    requires
        limits.burst_window_ns > 0,
        limits.daily_window_ns > 0,
        limits.burst_budget < u128::MAX,
        limits.daily_budget < u128::MAX,
        from <= to,
        asked_between(asks, from, to),
    ensures
        b.moved(limits, asks) <= limits.daily_budget * (2 + (to - from)
            / limits.daily_window_ns as int),
        b.moved(limits, asks) <= limits.burst_budget * (2 + (to - from)
            / limits.burst_window_ns as int),
{
    lemma_span_capped(b, limits, asks, Horizon::Day, from, to);
    lemma_span_capped(b, limits, asks, Horizon::Burst, from, to);
}

/// Whether `asks` are all for `price`, in one burst and one day: the ones that are
/// current, with windows `burst` and `daily`, at the first of them.
pub open spec fn one_burst(burst: Window, daily: Window, limits: Limits, asks: Seq<Ask>, price: u128) -> bool {
    forall|i: int|
        0 <= i < asks.len() ==> {
            &&& (#[trigger] asks[i]).price == price
            &&& !burst.over(asks[i].now, limits.burst_window_ns)
            &&& !daily.over(asks[i].now, limits.daily_window_ns)
        }
}

/// The smaller of two numbers.
spec fn least(a: nat, b: nat) -> nat {
    if a < b {
        a
    } else {
        b
    }
}

/// How many charges of `price` a window that may spend `cap` still has room for.
pub open spec fn shares(w: Window, cap: u128, price: u128) -> int {
    (cap - w.spent) / price as int
}

/// Whether the clock never shows less than at the first of `asks`.
pub open spec fn none_before_first(asks: Seq<Ask>) -> bool {
    forall|i: int| 0 <= i < asks.len() ==> asks[0].now <= (#[trigger] asks[i]).now
}

/// What the ask after `n` equal ones in one burst and one day is told, where the
/// burst has room for `in_burst` of them and the day for `in_day`.
pub open spec fn share_verdict(n: int, in_burst: int, in_day: int) -> Admit {
    if n < in_burst && n < in_day {
        Admit::Admitted
    } else if in_burst <= in_day {
        Admit::RateLimited
    } else {
        Admit::KeyBudgetExhausted
    }
}

proof fn lemma_shares(w: Window, cap: u128, price: u128, k: nat)
    requires
        price > 0,
        w.spent <= cap,
    ensures
        shares(w, cap, price) >= 0,
        k <= shares(w, cap, price) <==> w.spent + price * k <= cap,
        price * (k + 1) == price * k + price,
{
    let room = cap - w.spent;
    let fit = shares(w, cap, price);
    assert(fit >= 0 && price * fit <= room < price * (fit + 1)) by (nonlinear_arith)
        requires
            price > 0,
            room >= 0,
            fit == room / price as int,
    ;
    if k <= fit {
        assert(price * k <= price * fit) by (nonlinear_arith)
            requires
                k <= fit,
        ;
    } else {
        assert(price * (fit + 1) <= price * k) by (nonlinear_arith)
            requires
                fit + 1 <= k,
        ;
    }
    assert(price * (k + 1) == price * k + price) by (nonlinear_arith);
}

/// The budgets after `n` equal asks, of which both windows have room for `fit`.
proof fn lemma_burst_shares(b: Budgets, limits: Limits, asks: Seq<Ask>, price: u128, n: nat)
    requires
        asks.len() > 0,
        n <= asks.len(),
        price > 0,
        limits.burst_budget < u128::MAX,
        limits.daily_budget < u128::MAX,
        ({
            let burst = b.burst.current(asks[0].now, limits.burst_window_ns);
            let daily = b.daily.current(asks[0].now, limits.daily_window_ns);
            &&& one_burst(burst, daily, limits, asks, price)
            &&& burst.spent <= limits.burst_budget
            &&& daily.spent <= limits.daily_budget
            &&& none_before_first(asks) || shares(burst, limits.burst_budget, price) <= shares(
                daily,
                limits.daily_budget,
                price,
            )
        }),
    ensures
        ({
            let burst = b.burst.current(asks[0].now, limits.burst_window_ns);
            let daily = b.daily.current(asks[0].now, limits.daily_window_ns);
            let in_burst = shares(burst, limits.burst_budget, price);
            let in_day = shares(daily, limits.daily_budget, price);
            let k = least(n, least(in_burst as nat, in_day as nat));
            let then = b.run(limits, asks.take(n as int));
            &&& k == 0 ==> then == b
            &&& k > 0 ==> {
                &&& then.burst.start == burst.start
                &&& then.burst.spent == burst.spent + price * k
                &&& then.daily.start == daily.start
                &&& then.daily.spent == daily.spent + price * k
            }
            &&& n < asks.len() ==> then.verdict(asks[n as int].now, limits, price)
                == share_verdict(n as int, in_burst, in_day)
        }),
    decreases n,
{
    let burst = b.burst.current(asks[0].now, limits.burst_window_ns);
    let daily = b.daily.current(asks[0].now, limits.daily_window_ns);
    let in_burst = shares(burst, limits.burst_budget, price);
    let in_day = shares(daily, limits.daily_budget, price);
    lemma_shares(burst, limits.burst_budget, price, 0);
    lemma_shares(daily, limits.daily_budget, price, 0);
    let k = least(n, least(in_burst as nat, in_day as nat));
    lemma_shares(burst, limits.burst_budget, price, k);
    lemma_shares(daily, limits.daily_budget, price, k);
    lemma_shares(burst, limits.burst_budget, price, k + 1);
    lemma_shares(daily, limits.daily_budget, price, k + 1);
    if n > 0 {
        let m = (n - 1) as nat;
        lemma_burst_shares(b, limits, asks, price, m);
        lemma_shares(burst, limits.burst_budget, price, m);
        assert(asks.take(n as int).drop_last() =~= asks.take(m as int));
    }
}

/// One burst buys as many equal calls as its budget holds prices, no more and no
/// fewer, unless the day holds fewer: the ask after `n` others is granted if and
/// only if `n` is less than what is left of the burst budget divided by the price,
/// and less than what is left of the daily one. What runs out first is what a
/// refused ask is told. Only where it is the day must the clock not fall behind the
/// first ask, or a burst before it might come back.
pub proof fn a_burst_buys_its_budget_by_price(b: Budgets, limits: Limits, asks: Seq<Ask>, price: u128)
    requires
        asks.len() > 0,
        price > 0,
        limits.burst_budget < u128::MAX,
        limits.daily_budget < u128::MAX,
        ({
            let burst = b.burst.current(asks[0].now, limits.burst_window_ns);
            let daily = b.daily.current(asks[0].now, limits.daily_window_ns);
            &&& one_burst(burst, daily, limits, asks, price)
            &&& burst.spent <= limits.burst_budget
            &&& daily.spent <= limits.daily_budget
            &&& none_before_first(asks) || shares(burst, limits.burst_budget, price) <= shares(
                daily,
                limits.daily_budget,
                price,
            )
        }),
    ensures
        ({
            let burst = b.burst.current(asks[0].now, limits.burst_window_ns);
            let daily = b.daily.current(asks[0].now, limits.daily_window_ns);
            b.run(limits, asks.drop_last()).verdict(asks.last().now, limits, price)
                == share_verdict(
                asks.len() - 1,
                shares(burst, limits.burst_budget, price),
                shares(daily, limits.daily_budget, price),
            )
        }),
{
    lemma_burst_shares(b, limits, asks, price, (asks.len() - 1) as nat);
}

} // verus!
