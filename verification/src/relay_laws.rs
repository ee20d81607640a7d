//! Laws of the relay: what holds of every submit, and of any run of submits.

use crate::admission::{affordable, budgets_of, gate, Admit, Budgets, Window};
use crate::budget_laws::{
    a_burst_buys_its_budget_by_price, a_burst_is_capped, a_day_is_capped, a_span_is_capped,
    asked_between, one_burst, shares, Ask, Horizon,
};
use crate::config;
use crate::config::{a_list_denotes_the_principals_in_it, set_or_message};
use crate::principal::{text_to_bytes, Principal};
use crate::principal_set::PrincipalSet;
use crate::relay::{
    baked_limits, nanos, Decision, Forward, ForwardView, GameCall, GameReq, InitArgs, RelayState,
    Request, RequestView, Step, Submission, SubmitResult, MAX_ARG_BYTES,
};
use vstd::prelude::*;

verus! {

impl RelayState {
    /// Whether a submit gets as far as the budgets of its caller.
    pub open spec fn reaches_budgets(self, s: Submission) -> bool {
        &&& self.early_refusal(s.caller, s.arg_len, s.request) is None
        &&& self.allowlist.contains(s.caller)
        &&& affordable(s.balance, config::CYCLE_FLOOR, s.request.cycles())
    }

    /// The relay after a run of submits.
    pub open spec fn run(self, subs: Seq<Submission>) -> RelayState
        decreases subs.len(),
    {
        if subs.len() == 0 {
            self
        } else {
            self.run(subs.drop_last()).next(subs.last())
        }
    }

    /// What `key` asked of its budgets in a run of submits.
    pub open spec fn asks_of(self, subs: Seq<Submission>, key: Principal) -> Seq<Ask>
        decreases subs.len(),
    {
        if subs.len() == 0 {
            Seq::empty()
        } else {
            let before = self.asks_of(subs.drop_last(), key);
            let s = subs.last();
            if s.caller == key && self.run(subs.drop_last()).reaches_budgets(s) {
                before.push(Ask { now: s.now, price: s.request.cycles() })
            } else {
                before
            }
        }
    }

    /// The cycles that were attached to calls for `key` in a run of submits.
    pub open spec fn attached(self, subs: Seq<Submission>, key: Principal) -> nat
        decreases subs.len(),
    {
        if subs.len() == 0 {
            0
        } else {
            let s = subs.last();
            self.attached(subs.drop_last(), key) + match self.run(subs.drop_last()).decision(s) {
                Decision::Forward(f) if s.caller == key => f.cycles as nat,
                _ => 0,
            }
        }
    }

    /// The cycles that were attached to calls for `key`, in its burst or its day that
    /// began at `start`, in a run of submits.
    pub open spec fn attached_in(
        self,
        subs: Seq<Submission>,
        key: Principal,
        horizon: Horizon,
        start: u64,
    ) -> nat
        decreases subs.len(),
    {
        if subs.len() == 0 {
            0
        } else {
            let s = subs.last();
            self.attached_in(subs.drop_last(), key, horizon, start) + match self.run(
                subs.drop_last(),
            ).decision(s) {
                Decision::Forward(f) if s.caller == key && budgets_of(
                    self.run(subs).windows,
                    key,
                ).window(horizon).start == start => f.cycles as nat,
                _ => 0,
            }
        }
    }

    /// The cycles that were attached to calls for `key`, in its day that began at
    /// `start`, in a run of submits.
    pub open spec fn attached_in_day(
        self,
        subs: Seq<Submission>,
        key: Principal,
        start: u64,
    ) -> nat {
        self.attached_in(subs, key, Horizon::Day, start)
    }

    /// The cycles that were attached to calls for `key`, in its burst that began at
    /// `start`, in a run of submits.
    pub open spec fn attached_in_burst(
        self,
        subs: Seq<Submission>,
        key: Principal,
        start: u64,
    ) -> nat {
        self.attached_in(subs, key, Horizon::Burst, start)
    }

    /// Whether no key has spent more than its budgets.
    pub open spec fn within_budgets(self) -> bool {
        forall|key: Principal| #[trigger]
            self.windows.contains_key(key) ==> {
                &&& self.windows[key].burst.spent <= config::BURST_BUDGET_CYCLES
                &&& self.windows[key].daily.spent <= config::DAILY_BUDGET_CYCLES
            }
    }

    /// Whether this relay differs from `other` in that its lists may be shorter.
    pub open spec fn shorter_than(self, other: RelayState) -> bool {
        &&& self.index == other.index
        &&& self.windows == other.windows
        &&& self.allowlist.subset_of(other.allowlist)
        &&& self.games.subset_of(other.games)
    }
}

/// The budgets of a key, and the cycles attached for it, follow from what it
/// asked alone.
proof fn lemma_run_by_key(
    r: RelayState,
    subs: Seq<Submission>,
    key: Principal,
    horizon: Horizon,
    start: u64,
)
    ensures
        ({
            let b = budgets_of(r.windows, key);
            let asks = r.asks_of(subs, key);
            &&& budgets_of(r.run(subs).windows, key) == b.run(baked_limits(), asks)
            &&& r.attached(subs, key) == b.moved(baked_limits(), asks)
            &&& r.attached_in(subs, key, horizon, start) == b.moved_in(
                baked_limits(),
                asks,
                horizon,
                start,
            )
        }),
    decreases subs.len(),
{
    if subs.len() > 0 {
        let before = r.run(subs.drop_last());
        let s = subs.last();
        let asks = r.asks_of(subs.drop_last(), key);
        lemma_run_by_key(r, subs.drop_last(), key, horizon, start);
        if s.caller == key && before.reaches_budgets(s) {
            let ask = Ask { now: s.now, price: s.request.cycles() };
            assert(asks.push(ask).drop_last() =~= asks);
        }
    }
}

/// The most a leaked key can move in a day is its daily budget, whatever mix of
/// calls it picks, and whatever else is submitted meanwhile.
pub proof fn a_key_moves_at_most_its_day(
    r: RelayState,
    subs: Seq<Submission>,
    key: Principal,
    start: u64,
)
    ensures
        r.attached_in_day(subs, key, start) <= config::DAILY_BUDGET_CYCLES,
{
    lemma_run_by_key(r, subs, key, Horizon::Day, start);
    a_day_is_capped(
        budgets_of(r.windows, key),
        baked_limits(),
        r.asks_of(subs, key),
        start,
    );
}

/// The most a key can move in a burst is its burst budget.
pub proof fn a_key_moves_at_most_its_burst(
    r: RelayState,
    subs: Seq<Submission>,
    key: Principal,
    start: u64,
)
    ensures
        r.attached_in_burst(subs, key, start) <= config::BURST_BUDGET_CYCLES,
{
    lemma_run_by_key(r, subs, key, Horizon::Burst, start);
    a_burst_is_capped(
        budgets_of(r.windows, key),
        baked_limits(),
        r.asks_of(subs, key),
        start,
    );
}

proof fn lemma_asks_between(r: RelayState, subs: Seq<Submission>, key: Principal, from: u64, to: u64)
    requires
        forall|i: int|
            0 <= i < subs.len() && (#[trigger] subs[i]).caller == key ==> from <= subs[i].now <= to,
    ensures
        asked_between(r.asks_of(subs, key), from, to),
    decreases subs.len(),
{
    if subs.len() > 0 {
        lemma_asks_between(r, subs.drop_last(), key, from, to);
    }
}

/// Over any span of time a key moves at most one daily budget per day that fits
/// into the span, and two more for the days cut off at its ends; and likewise one
/// burst budget per burst.
pub proof fn a_key_is_capped_over_time(
    r: RelayState,
    subs: Seq<Submission>,
    key: Principal,
    from: u64,
    to: u64,
)
    requires
        from <= to,
        forall|i: int|
            0 <= i < subs.len() && (#[trigger] subs[i]).caller == key ==> from <= subs[i].now <= to,
    ensures
        r.attached(subs, key) <= config::DAILY_BUDGET_CYCLES * (2 + (to - from)
            / baked_limits().daily_window_ns as int),
        r.attached(subs, key) <= config::BURST_BUDGET_CYCLES * (2 + (to - from)
            / baked_limits().burst_window_ns as int),
{
    lemma_run_by_key(r, subs, key, Horizon::Day, 0);
    lemma_asks_between(r, subs, key, from, to);
    a_span_is_capped(
        budgets_of(r.windows, key),
        baked_limits(),
        r.asks_of(subs, key),
        from,
        to,
    );
}

/// How many of `subs` are submitted by `key`.
pub open spec fn submits_of(subs: Seq<Submission>, key: Principal) -> nat
    decreases subs.len(),
{
    if subs.len() == 0 {
        0
    } else {
        submits_of(subs.drop_last(), key) + if subs.last().caller == key {
            1nat
        } else {
            0
        }
    }
}

proof fn lemma_submits_of_one(subs: Seq<Submission>, key: Principal)
    requires
        forall|i: int| 0 <= i < subs.len() ==> (#[trigger] subs[i]).caller == key,
    ensures
        submits_of(subs, key) == subs.len(),
    decreases subs.len(),
{
    if subs.len() > 0 {
        lemma_submits_of_one(subs.drop_last(), key);
    }
}

impl RelayState {
    /// Whether all that `key` submits among `subs` is for the same `price`, gets as
    /// far as its budgets, and comes in one burst and one day: the ones that are
    /// current, with windows `burst` and `daily`, at the first of `subs`.
    pub open spec fn equal_submits(
        self,
        subs: Seq<Submission>,
        key: Principal,
        price: u128,
        burst: Window,
        daily: Window,
    ) -> bool {
        forall|i: int|
            0 <= i < subs.len() && (#[trigger] subs[i]).caller == key ==> {
                &&& subs[i].request.cycles() == price
                &&& self.reaches_budgets(subs[i])
                &&& !burst.over(subs[i].now, baked_limits().burst_window_ns)
                &&& !daily.over(subs[i].now, baked_limits().daily_window_ns)
            }
    }
}

proof fn lemma_equal_submits(
    r: RelayState,
    subs: Seq<Submission>,
    key: Principal,
    price: u128,
    burst: Window,
    daily: Window,
)
    requires
        r.equal_submits(subs, key, price, burst, daily),
    ensures
        r.run(subs).index == r.index,
        r.run(subs).allowlist == r.allowlist,
        r.run(subs).games == r.games,
        r.asks_of(subs, key).len() == submits_of(subs, key),
        one_burst(burst, daily, baked_limits(), r.asks_of(subs, key), price),
        subs.len() > 0 && subs[0].caller == key ==> {
            &&& r.asks_of(subs, key).len() > 0
            &&& r.asks_of(subs, key)[0].now == subs[0].now
        },
    decreases subs.len(),
{
    if subs.len() > 0 {
        lemma_equal_submits(r, subs.drop_last(), key, price, burst, daily);
    }
}

/// The number of equal calls that a key gets in one burst is what is left of its
/// burst budget divided by their price, and the very next one is refused as rate
/// limited, whatever other keys submit meanwhile. Where nobody else submits, all
/// submits before the last count. Where the day holds fewer of
/// them than the burst, that many are forwarded, and the next one is told that the
/// day is spent, as long as the clock does not fall behind the first of them.
pub proof fn a_burst_of_submits_buys_its_budget_by_price(
    r: RelayState,
    subs: Seq<Submission>,
    key: Principal,
    price: u128,
)
    requires
        r.within_budgets(),
        subs.len() > 0,
        subs[0].caller == key,
        subs.last().caller == key,
        ({
            let l = baked_limits();
            let b = budgets_of(r.windows, key);
            let burst = b.burst.current(subs[0].now, l.burst_window_ns);
            let daily = b.daily.current(subs[0].now, l.daily_window_ns);
            &&& r.equal_submits(subs, key, price, burst, daily)
            &&& shares(burst, config::BURST_BUDGET_CYCLES, price) <= shares(
                daily,
                config::DAILY_BUDGET_CYCLES,
                price,
            ) || forall|i: int|
                0 <= i < subs.len() && (#[trigger] subs[i]).caller == key ==> subs[0].now
                    <= subs[i].now
        }),
    ensures
        ({
            let l = baked_limits();
            let b = budgets_of(r.windows, key);
            let burst = b.burst.current(subs[0].now, l.burst_window_ns);
            let daily = b.daily.current(subs[0].now, l.daily_window_ns);
            let in_burst = shares(burst, config::BURST_BUDGET_CYCLES, price);
            let in_day = shares(daily, config::DAILY_BUDGET_CYCLES, price);
            let n = submits_of(subs.drop_last(), key);
            let last = subs.last();
            r.run(subs.drop_last()).decision(last) == if n < in_burst && n < in_day {
                Decision::Forward(r.route(last.request, RelayState::ingest_arg(last.request)))
            } else if in_burst <= in_day {
                Decision::Refuse(SubmitResult::RateLimited)
            } else {
                Decision::Refuse(SubmitResult::KeyBudgetExhausted)
            }
        }),
        (forall|i: int| 0 <= i < subs.len() ==> (#[trigger] subs[i]).caller == key) ==> submits_of(
            subs.drop_last(),
            key,
        ) == subs.len() - 1,
{
    let b = budgets_of(r.windows, key);
    let burst = b.burst.current(subs[0].now, baked_limits().burst_window_ns);
    let daily = b.daily.current(subs[0].now, baked_limits().daily_window_ns);
    let asks = r.asks_of(subs, key);
    lemma_equal_submits(r, subs, key, price, burst, daily);
    lemma_equal_submits(r, subs.drop_last(), key, price, burst, daily);
    lemma_run_by_key(r, subs.drop_last(), key, Horizon::Day, 0);
    if forall|i: int|
        0 <= i < subs.len() && (#[trigger] subs[i]).caller == key ==> subs[0].now <= subs[i].now {
        lemma_asks_between(r, subs, key, subs[0].now, u64::MAX);
    }
    if forall|i: int| 0 <= i < subs.len() ==> (#[trigger] subs[i]).caller == key {
        lemma_submits_of_one(subs.drop_last(), key);
    }
    assert(asks.drop_last() =~= r.asks_of(subs.drop_last(), key));
    a_burst_buys_its_budget_by_price(b, baked_limits(), asks, price);
}

/// No key ever has spent more than its budgets.
pub proof fn budgets_are_kept(r: RelayState, subs: Seq<Submission>)
    requires
        r.within_budgets(),
    ensures
        r.run(subs).within_budgets(),
    decreases subs.len(),
{
    if subs.len() > 0 {
        budgets_are_kept(r, subs.drop_last());
    }
}

/// A submit touches nothing but the budgets of its caller: the lists stay, and
/// every other key keeps its budgets and is answered as before.
pub proof fn a_key_has_its_own_budgets(r: RelayState, s: Submission, other: Submission)
    ensures
        r.next(s).index == r.index,
        r.next(s).allowlist == r.allowlist,
        r.next(s).games == r.games,
        other.caller != s.caller ==> {
            &&& budgets_of(r.next(s).windows, other.caller) == budgets_of(r.windows, other.caller)
            &&& r.next(s).decision(other) == r.decision(other)
        },
{
}

/// A submit that is refused costs nobody anything: every key keeps its budgets,
/// and whatever is submitted next is answered as if the refused one had not been.
pub proof fn a_refused_submit_costs_nothing(
    r: RelayState,
    s: Submission,
    key: Principal,
    later: Submission,
)
    requires
        r.decision(s) is Refuse,
    ensures
        budgets_of(r.next(s).windows, key) == budgets_of(r.windows, key),
        r.next(s).decision(later) == r.decision(later),
{
}

/// A stranger is never forwarded for and taxes nobody: the relay stays as it is.
/// Nor does a stranger learn anything of the games: it is answered the same,
/// whichever games there are.
pub proof fn a_stranger_gets_nothing(r: RelayState, s: Submission, games: Set<Principal>)
    requires
        !r.allowlist.contains(s.caller),
    ensures
        r.next(s) == r,
        s.arg_len <= MAX_ARG_BYTES ==> r.decision(s) == Decision::Refuse(SubmitResult::NotAllowed),
        s.arg_len > MAX_ARG_BYTES ==> r.decision(s) == Decision::Refuse(
            SubmitResult::ForwardFailed,
        ),
        (RelayState { games, ..r }).decision(s) == r.decision(s),
{
}

/// Each refusal has one cause, in the order of the checks: size, allowlist, game
/// target, relay floor, burst budget, daily budget.
pub proof fn each_refusal_has_its_cause(r: RelayState, s: Submission)
    ensures
        ({
            let oversized = s.arg_len > MAX_ARG_BYTES;
            let stranger = !r.allowlist.contains(s.caller);
            let unknown = s.request matches RequestView::Game { game, .. } && !r.games.contains(game);
            let broke = s.balance < config::CYCLE_FLOOR + s.request.cycles();
            let b = budgets_of(r.windows, s.caller);
            let l = baked_limits();
            let price = s.request.cycles();
            let burst_full = b.burst.current(s.now, l.burst_window_ns).spent + price
                > config::BURST_BUDGET_CYCLES;
            let day_full = b.daily.current(s.now, l.daily_window_ns).spent + price
                > config::DAILY_BUDGET_CYCLES;
            r.decision(s) == if oversized {
                Decision::Refuse(SubmitResult::ForwardFailed)
            } else if stranger {
                Decision::Refuse(SubmitResult::NotAllowed)
            } else if unknown {
                Decision::Refuse(SubmitResult::UnknownGame)
            } else if broke {
                Decision::Refuse(SubmitResult::LowBudget)
            } else if burst_full {
                Decision::Refuse(SubmitResult::RateLimited)
            } else if day_full {
                Decision::Refuse(SubmitResult::KeyBudgetExhausted)
            } else {
                Decision::Forward(r.route(s.request, RelayState::ingest_arg(s.request)))
            }
        }),
{
}

/// The relay makes three kinds of call, each at its own price: an ingest at the
/// index, and the two paid calls of an allowlisted game. It makes one only for an
/// allowlisted caller, never goes below its floor, and has the price charged to
/// both windows of the caller.
pub proof fn every_call_is_paid_and_fronted(r: RelayState, s: Submission, f: ForwardView)
    requires
        r.decision(s) == Decision::Forward(f),
    ensures
        r.allowlist.contains(s.caller),
        s.balance >= config::CYCLE_FLOOR + f.cycles,
        match s.request {
            RequestView::Ingest(signature) => {
                &&& f.target == r.index
                &&& f.method == "ingest"@
                &&& f.arg == crate::wire::candid_text(signature)
                &&& f.cycles == config::INGEST_PRICE
            },
            RequestView::Game { game, call: GameCall::RequestSignature, arg } => {
                &&& f.target == game && r.games.contains(game)
                &&& f.method == "request_signature"@
                &&& f.arg == arg
                &&& f.cycles == config::SIGN_PRICE
            },
            RequestView::Game { game, call: GameCall::PushRoot, arg } => {
                &&& f.target == game && r.games.contains(game)
                &&& f.method == "push_root"@
                &&& f.arg == arg
                &&& f.cycles == config::ROOT_PRICE
            },
        },
        ({
            let l = baked_limits();
            let b = budgets_of(r.windows, s.caller);
            let burst = b.burst.current(s.now, l.burst_window_ns);
            let daily = b.daily.current(s.now, l.daily_window_ns);
            budgets_of(r.next(s).windows, s.caller) == Budgets {
                burst: Window { start: burst.start, spent: (burst.spent + f.cycles) as u128 },
                daily: Window { start: daily.start, spent: (daily.spent + f.cycles) as u128 },
            }
        }),
        budgets_of(r.next(s).windows, s.caller).burst.spent <= config::BURST_BUDGET_CYCLES,
        budgets_of(r.next(s).windows, s.caller).daily.spent <= config::DAILY_BUDGET_CYCLES,
{
}

/// Every call is within reach of a key that has its budgets to itself: an
/// allowlisted caller whose windows are over is forwarded for, whatever it asks,
/// if the relay can afford it.
pub proof fn every_call_is_reachable(r: RelayState, s: Submission)
    requires
        s.arg_len <= MAX_ARG_BYTES,
        r.allowlist.contains(s.caller),
        s.request matches RequestView::Game { game, .. } ==> r.games.contains(game),
        s.balance >= config::CYCLE_FLOOR + s.request.cycles(),
        budgets_of(r.windows, s.caller).burst.over(s.now, baked_limits().burst_window_ns)
            || budgets_of(r.windows, s.caller).burst.spent == 0,
        budgets_of(r.windows, s.caller).daily.over(s.now, baked_limits().daily_window_ns)
            || budgets_of(r.windows, s.caller).daily.spent == 0,
    ensures
        r.decision(s) == Decision::Forward(
            r.route(s.request, RelayState::ingest_arg(s.request)),
        ),
{
}

/// The lists fail closed: with nobody allowlisted nothing is forwarded, and with
/// no games no game call is.
pub proof fn empty_lists_refuse(r: RelayState, s: Submission)
    ensures
        r.allowlist == Set::<Principal>::empty() ==> r.decision(s) is Refuse,
        r.games == Set::<Principal>::empty() && s.request is Game ==> r.decision(s) is Refuse,
{
}

/// A short list only ever refuses: what is forwarded with shorter lists is
/// forwarded just the same with longer ones.
pub proof fn shorter_lists_only_refuse(short: RelayState, long: RelayState, s: Submission)
    requires
        short.shorter_than(long),
        short.decision(s) is Forward,
    ensures
        long.decision(s) == short.decision(s),
{
}

/// What the perimeter accepts is not turned away by `submit` for what the
/// perimeter looks at, and what it drops would be.
pub proof fn the_perimeter_agrees_with_submit(r: RelayState, s: Submission)
    ensures
        ({
            let accepted = r.allowlist.contains(s.caller) && s.arg_len <= MAX_ARG_BYTES;
            accepted <==> r.decision(s) != Decision::Refuse(SubmitResult::NotAllowed)
                && r.decision(s) != Decision::Refuse(SubmitResult::ForwardFailed)
        }),
{
}

/// The relay takes over what it is given: the index, and the whole of both sets. It
/// does so if and only if all three are there; the first that is not is the error,
/// and then the relay stays as it is.
pub proof fn a_parsed_config_is_taken_over(
    before: RelayState,
    index: Option<Principal>,
    allowlist: Result<PrincipalSet, String>,
    games: Result<PrincipalSet, String>,
    r: Result<(), String>,
    after: RelayState,
)
    requires
        before.settles(
            before.installed(index, set_or_message(allowlist), set_or_message(games)),
            r,
            after,
        ),
    ensures
        r is Ok <==> index is Some && allowlist is Ok && games is Ok,
        r is Ok ==> {
            &&& after.index == index->Some_0
            &&& after.allowlist == allowlist->Ok_0@
            &&& after.games == games->Ok_0@
            &&& after.windows == before.windows
        },
        r is Err ==> after == before,
        index is None ==> r is Err && r->Err_0@ == "baked index principal is invalid"@,
        index is Some && allowlist is Err ==> r is Err && r->Err_0@ == allowlist->Err_0@,
        index is Some && allowlist is Ok && games is Err ==> r is Err && r->Err_0@
            == games->Err_0@,
{
}

/// A relay that is configured from texts has the principals in them, all and no
/// others: the index is the one that its text stands for, and a principal is
/// allowlisted, or a game, if and only if some entry of that list is a text of it.
/// It is configured if and only if the index is a text of a principal and, where
/// every entry has to be real, so is each entry of both lists. Else it stays as it
/// is, and the error is the index, or the first entry that is none: of the
/// allowlist, if it has any, and of the games if not.
pub proof fn a_relay_has_the_principals_of_its_config(
    before: RelayState,
    strict: bool,
    index: Seq<char>,
    allowlist: Seq<&str>,
    games: Seq<&str>,
    r: Result<(), String>,
    after: RelayState,
)
    requires
        before.settles(before.configured(None, strict, index, allowlist, games), r, after),
    ensures
        r is Ok <==> {
            &&& text_to_bytes(index) is Some
            &&& strict ==> {
                &&& forall|i: int|
                    0 <= i < allowlist.len() ==> text_to_bytes((#[trigger] allowlist[i])@) is Some
                &&& forall|i: int|
                    0 <= i < games.len() ==> text_to_bytes((#[trigger] games[i])@) is Some
            }
        },
        r is Ok ==> {
            &&& text_to_bytes(index) matches Some(bytes)
            &&& after.index == Principal::of_bytes(bytes)
            &&& forall|p: Principal| #[trigger]
                after.allowlist.contains(p) <==> exists|i: int|
                    {
                        &&& 0 <= i < allowlist.len()
                        &&& text_to_bytes((#[trigger] allowlist[i])@) matches Some(bytes)
                        &&& p == Principal::of_bytes(bytes)
                    }
            &&& forall|p: Principal| #[trigger] after.games.contains(p) <==> exists|i: int|
                    {
                        &&& 0 <= i < games.len()
                        &&& text_to_bytes((#[trigger] games[i])@) matches Some(bytes)
                        &&& p == Principal::of_bytes(bytes)
                    }
            &&& after.windows == before.windows
        },
        r is Err ==> after == before,
        text_to_bytes(index) is None ==> r is Err && r->Err_0@
            == "baked index principal is invalid"@,
        r is Err && text_to_bytes(index) is Some && (exists|i: int|
            0 <= i < allowlist.len() && text_to_bytes((#[trigger] allowlist[i])@) is None) ==> exists|i: int|
                {
                    &&& 0 <= i < allowlist.len()
                    &&& text_to_bytes((#[trigger] allowlist[i])@) is None
                    &&& forall|j: int|
                        0 <= j < i ==> text_to_bytes((#[trigger] allowlist[j])@) is Some
                    &&& r->Err_0@ == "baked principal `"@ + allowlist[i]@
                        + "` is not a principal (mainnet requires real ones)"@
                },
        r is Err && text_to_bytes(index) is Some && (forall|i: int|
            0 <= i < allowlist.len() ==> text_to_bytes((#[trigger] allowlist[i])@) is Some) ==> exists|i: int|
                {
                    &&& 0 <= i < games.len()
                    &&& text_to_bytes((#[trigger] games[i])@) is None
                    &&& forall|j: int|
                        0 <= j < i ==> text_to_bytes((#[trigger] games[j])@) is Some
                    &&& r->Err_0@ == "baked principal `"@ + games[i]@
                        + "` is not a principal (mainnet requires real ones)"@
                },
{
    a_list_denotes_the_principals_in_it(allowlist, strict);
    a_list_denotes_the_principals_in_it(games, strict);
}

/// A relay with overrides has what they hold: the index, and a principal is
/// allowlisted, or a game, if and only if it occurs in that list of the overrides.
/// Where overrides are barred, the relay stays as it is.
pub proof fn a_relay_has_the_principals_of_its_overrides(
    before: RelayState,
    args: InitArgs,
    strict: bool,
    index: Seq<char>,
    allowlist: Seq<&str>,
    games: Seq<&str>,
    r: Result<(), String>,
    after: RelayState,
)
    requires
        before.settles(before.configured(Some(args), strict, index, allowlist, games), r, after),
    ensures
        r is Ok <==> !strict,
        r is Ok ==> {
            &&& after.index == args.index
            &&& forall|p: Principal| #[trigger]
                after.allowlist.contains(p) <==> exists|i: int|
                    0 <= i < args.allowlist@.len() && args.allowlist@[i] == p
            &&& forall|p: Principal| #[trigger]
                after.games.contains(p) <==> exists|i: int|
                    0 <= i < args.games@.len() && args.games@[i] == p
            &&& after.windows == before.windows
        },
        r is Err ==> after == before && r->Err_0@ == "init override is barred on mainnet"@,
{
}

/// A window lasts as many nanoseconds as its seconds have, or the longest time there
/// is; and a key may spend what the config says.
pub proof fn the_limits_are_those_of_the_config(secs: u64)
    ensures
        secs * 1_000_000_000 <= u64::MAX ==> nanos(secs) == secs * 1_000_000_000,
        secs * 1_000_000_000 > u64::MAX ==> nanos(secs) == u64::MAX,
        baked_limits().burst_window_ns == nanos(config::BURST_WINDOW_SECS),
        baked_limits().daily_window_ns == nanos(config::DAILY_WINDOW_SECS),
        baked_limits().burst_budget == config::BURST_BUDGET_CYCLES,
        baked_limits().daily_budget == config::DAILY_BUDGET_CYCLES,
{
}

/// A request, and a call to make, are known by all that they hold.
pub proof fn nothing_of_a_request_is_lost(
    signature: String,
    req: GameReq,
    forward: Forward,
    result: SubmitResult,
)
    ensures
        Request::Ingest(signature)@ == RequestView::Ingest(signature@),
        Request::Game(req)@ == (RequestView::Game {
            game: req.game,
            call: req.call,
            arg: req.arg@,
        }),
        forward@.target == forward.target,
        forward@.method == forward.method@,
        forward@.arg == forward.arg@,
        forward@.cycles == forward.cycles,
        Step::Reply(result)@ == Decision::Refuse(result),
        Step::Call(forward)@ == Decision::Forward(forward@),
{
}

/// The call that is made for a submit is the one asked for: a signature goes to the
/// index as it is, and a game's argument to that game as it is, each with its price
/// and no other.
pub proof fn a_call_is_the_one_asked_for(
    r: RelayState,
    caller: Principal,
    arg_len: nat,
    request: Request,
    now: u64,
    balance: u128,
    call: Forward,
)
    requires
        Step::Call(call)@ == r.decision(
            Submission { caller, arg_len, request: request@, now, balance },
        ),
    ensures
        match request {
            Request::Ingest(signature) => {
                &&& call.target == r.index
                &&& call.method@ == "ingest"@
                &&& call.arg@ == crate::wire::candid_text(signature@)
                &&& call.cycles == config::INGEST_PRICE
            },
            Request::Game(req) => {
                &&& call.target == req.game
                &&& r.games.contains(req.game)
                &&& call.arg@ == req.arg@
                &&& req.call == GameCall::RequestSignature ==> call.method@
                    == "request_signature"@ && call.cycles == config::SIGN_PRICE
                &&& req.call == GameCall::PushRoot ==> call.method@ == "push_root"@
                    && call.cycles == config::ROOT_PRICE
            },
        },
{
}

/// What is refused before admission is an oversized argument, and a game that is
/// none where the caller is allowlisted; nothing else is.
pub proof fn an_early_refusal_has_its_cause(
    r: RelayState,
    caller: Principal,
    arg_len: nat,
    request: RequestView,
)
    ensures
        r.early_refusal(caller, arg_len, request) == Some(SubmitResult::ForwardFailed) <==> arg_len
            > 8192,
        r.early_refusal(caller, arg_len, request) == Some(SubmitResult::UnknownGame) <==> {
            &&& arg_len <= 8192
            &&& r.allowlist.contains(caller)
            &&& request is Game
            &&& !r.games.contains(request->game)
        },
        r.early_refusal(caller, arg_len, request) matches Some(result) ==> result
            == SubmitResult::ForwardFailed || result == SubmitResult::UnknownGame,
{
}

/// What got to admission is answered by the verdict on its price, and forwarded
/// with the very argument at hand if it is admitted.
pub proof fn what_is_admitted_is_forwarded(
    r: RelayState,
    caller: Principal,
    request: RequestView,
    ingest_arg: Seq<u8>,
    now: u64,
    balance: u128,
)
    ensures
        ({
            let price = match request {
                RequestView::Ingest(_) => config::INGEST_PRICE,
                RequestView::Game { call: GameCall::RequestSignature, .. } => config::SIGN_PRICE,
                RequestView::Game { call: GameCall::PushRoot, .. } => config::ROOT_PRICE,
            };
            let verdict = gate(
                r.allowlist.contains(caller),
                budgets_of(r.windows, caller),
                now,
                baked_limits(),
                balance,
                config::CYCLE_FLOOR,
                price,
            );
            let answer = r.gated(caller, request, ingest_arg, now, balance);
            let same = r.allowlist.contains(caller) && affordable(
                balance,
                config::CYCLE_FLOOR,
                price,
            );
            let charged = r.charged(caller, now, balance, price);
            &&& request.cycles() == price
            &&& r.verdict(caller, now, balance, price) == verdict
            &&& verdict == Admit::NotAllowed <==> answer == Decision::Refuse(
                SubmitResult::NotAllowed,
            )
            &&& verdict == Admit::LowBudget <==> answer == Decision::Refuse(SubmitResult::LowBudget)
            &&& verdict == Admit::RateLimited <==> answer == Decision::Refuse(
                SubmitResult::RateLimited,
            )
            &&& verdict == Admit::KeyBudgetExhausted <==> answer == Decision::Refuse(
                SubmitResult::KeyBudgetExhausted,
            )
            &&& verdict == Admit::Admitted <==> answer is Forward
            &&& verdict == Admit::Admitted ==> {
                let call = answer->Forward_0;
                match request {
                    RequestView::Ingest(_) => {
                        &&& call.target == r.index
                        &&& call.method == "ingest"@
                        &&& call.arg == ingest_arg
                        &&& call.cycles == price
                    },
                    RequestView::Game { game, call: kind, arg } => {
                        &&& call.target == game
                        &&& call.method == if kind == GameCall::PushRoot {
                            "push_root"@
                        } else {
                            "request_signature"@
                        }
                        &&& call.arg == arg
                        &&& call.cycles == price
                    },
                }
            }
            &&& !same ==> charged == r
            &&& same ==> {
                &&& charged.index == r.index
                &&& charged.allowlist == r.allowlist
                &&& charged.games == r.games
                &&& charged.windows == r.windows.insert(
                    caller,
                    budgets_of(r.windows, caller).after(now, baked_limits(), price),
                )
            }
        }),
{
}

/// A submit leaves a trace only where it got as far as the budgets of its caller,
/// and only there: not one that is oversized, not a stranger's, not one for a game
/// that is none, and not one that the relay cannot afford.
pub proof fn a_submit_traces_its_caller_only(r: RelayState, s: Submission)
    ensures
        ({
            let next = r.next(s);
            let reaches = {
                &&& s.arg_len <= 8192
                &&& r.allowlist.contains(s.caller)
                &&& s.request matches RequestView::Game { game, .. } ==> r.games.contains(game)
                &&& s.balance >= config::CYCLE_FLOOR + s.request.cycles()
            };
            &&& !reaches ==> next == r
            &&& reaches ==> next == (RelayState {
                windows: r.windows.insert(
                    s.caller,
                    budgets_of(r.windows, s.caller).after(
                        s.now,
                        baked_limits(),
                        s.request.cycles(),
                    ),
                ),
                ..r
            })
        }),
{
}

/// To configure again, as an upgrade does, gives the same relay; and what the
/// relay is configured with does not depend on what it was before.
pub proof fn configuring_again_changes_nothing(
    r: RelayState,
    other: RelayState,
    overrides: Option<InitArgs>,
    strict: bool,
    index: Seq<char>,
    allowlist: Seq<&str>,
    games: Seq<&str>,
)
    ensures
        match (
            r.configured(overrides, strict, index, allowlist, games),
            other.configured(overrides, strict, index, allowlist, games),
        ) {
            (Ok(a), Ok(b)) => {
                &&& a.configured(overrides, strict, index, allowlist, games) == Ok::<
                    RelayState,
                    Seq<char>,
                >(a)
                &&& a.index == b.index && a.allowlist == b.allowlist && a.games == b.games
                &&& a.windows == r.windows && b.windows == other.windows
            },
            (Err(a), Err(b)) => a == b,
            _ => false,
        },
{
}

/// On the frozen profile an override is barred, whatever it holds.
pub proof fn overrides_are_barred_when_frozen(
    r: RelayState,
    args: InitArgs,
    index: Seq<char>,
    allowlist: Seq<&str>,
    games: Seq<&str>,
)
    ensures
        r.configured(Some(args), true, index, allowlist, games) is Err,
{
}

} // verus!
