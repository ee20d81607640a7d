//! The relay: what it is configured with, what it lets in, and what it forwards.

use crate::admission::{admit_call, affordable, budgets_of, gate, Admit, Budgets, Limits};
use crate::budget_map::BudgetMap;
use crate::config;
use crate::config::{denoted, parses, principal_set, set_or_message, texts};
use crate::principal::{text_principal, Principal};
use crate::principal_set::PrincipalSet;
use crate::wire::{candid_text, encode_text};
use vstd::prelude::*;

verus! {

/// Perimeter guard: the largest argument accepted (a signature or a request is
/// small). Oversized messages are dropped at the perimeter, for free.
pub const MAX_ARG_BYTES: usize = 8192;

/// Nanoseconds in a second.
pub const NANOS: u64 = 1_000_000_000;

/// Seconds, in nanoseconds, or the longest time there is.
pub open spec fn nanos(secs: u64) -> u64 {
    if secs * NANOS <= u64::MAX {
        (secs * NANOS) as u64
    } else {
        u64::MAX
    }
}

/// Seconds, in nanoseconds, or the longest time there is.
pub fn secs_to_nanos(secs: u64) -> (r: u64)
    ensures
        r == nanos(secs),
{
    match secs.checked_mul(NANOS) {
        Some(nanos) => nanos,
        None => u64::MAX,
    }
}

/// The per-key limits of this build.
pub open spec fn baked_limits() -> Limits {
    Limits {
        burst_window_ns: nanos(config::BURST_WINDOW_SECS),
        burst_budget: config::BURST_BUDGET_CYCLES,
        daily_window_ns: nanos(config::DAILY_WINDOW_SECS),
        daily_budget: config::DAILY_BUDGET_CYCLES,
    }
}

/// The per-key limits of this build, as admission wants them (seconds made
/// nanoseconds).
pub fn limits() -> (r: Limits)
    ensures
        r == baked_limits(),
{
    Limits {
        burst_window_ns: secs_to_nanos(config::BURST_WINDOW_SECS),
        burst_budget: config::BURST_BUDGET_CYCLES,
        daily_window_ns: secs_to_nanos(config::DAILY_WINDOW_SECS),
        daily_budget: config::DAILY_BUDGET_CYCLES,
    }
}

/// A relayed request: one signature to fold into the book, or one paid call to a
/// game. Ingest has a single tag: the index recognizes which kind of transaction
/// a signature holds.
#[derive(Clone, Debug)]
pub enum Request {
    /// Fold one Solana signature: `index.ingest(signature)`.
    Ingest(String),
    /// A paid call to an allowlisted game canister.
    Game(GameReq),
}

/// A paid game call: which game, which of its paid entry points, and the encoded
/// argument. The relay forwards `arg` verbatim and never looks into it.
#[derive(Clone, Debug)]
pub struct GameReq {
    pub game: Principal,
    pub call: GameCall,
    pub arg: Vec<u8>,
}

/// The game entry points the relay fronts: a closed enum, deliberately not a
/// method name from the caller. Price is a *function of the call*, so a caller
/// can neither name a method the relay has no price for nor choose which price it
/// pays.
#[derive(Clone, Copy, Debug, PartialEq, Eq, Structural)]
pub enum GameCall {
    /// `request_signature`: the paid pull of a scope's verdict signature.
    RequestSignature,
    /// `push_root`: the paid authentication of an index root.
    PushRoot,
}

impl GameCall {
    /// The name of the entry point.
    pub open spec fn method_name(self) -> Seq<char> {
        match self {
            GameCall::RequestSignature => "request_signature"@,
            GameCall::PushRoot => "push_root"@,
        }
    }

    /// The cycles that a call of the entry point draws.
    pub open spec fn cycles(self) -> u128 {
        match self {
            GameCall::RequestSignature => config::SIGN_PRICE,
            GameCall::PushRoot => config::ROOT_PRICE,
        }
    }

    /// The method this call forwards to.
    pub fn method(self) -> (r: &'static str)
        ensures
            r@ == self.method_name(),
    {
        match self {
            GameCall::RequestSignature => "request_signature",
            GameCall::PushRoot => "push_root",
        }
    }

    /// The cycles attached to it: at least what the game charges.
    pub fn price(self) -> (r: u128)
        ensures
            r == self.cycles(),
    {
        match self {
            GameCall::RequestSignature => config::SIGN_PRICE,
            GameCall::PushRoot => config::ROOT_PRICE,
        }
    }
}

/// Deploy-time overrides (testnet only): the index principal, the pusher
/// allowlist, and the game allowlist. On mainnet an override is an error: the
/// pinned config is authoritative.
#[derive(Clone, Debug)]
pub struct InitArgs {
    pub index: Principal,
    pub allowlist: Vec<Principal>,
    pub games: Vec<Principal>,
}

/// Outcome of a submit. `Forwarded` carries the downstream reply verbatim.
#[derive(Clone, Debug)]
pub enum SubmitResult {
    Forwarded(Vec<u8>),
    NotAllowed,
    /// A `Game` request named a canister that is not an allowlisted game.
    UnknownGame,
    /// Over the caller's per-key burst budget; clears within the burst window.
    RateLimited,
    /// The caller spent its whole per-key daily budget. Unlike `RateLimited` this
    /// does not clear in a minute: it is the cap on what one key can move in a
    /// day, and hitting it in normal operation means either the volume outgrew the
    /// config or the key is not doing what you think.
    KeyBudgetExhausted,
    LowBudget,
    ForwardFailed,
}

/// One call to make: to which canister, which of its methods, with which encoded
/// argument, and how many cycles to attach.
#[derive(Debug)]
pub struct Forward {
    pub target: Principal,
    pub method: &'static str,
    pub arg: Vec<u8>,
    pub cycles: u128,
}

/// What to do about a submit: answer at once, or make a call and answer with what
/// comes of it.
#[derive(Debug)]
pub enum Step {
    Reply(SubmitResult),
    Call(Forward),
}

/// A request, as values.
pub enum RequestView {
    Ingest(Seq<char>),
    Game { game: Principal, call: GameCall, arg: Seq<u8> },
}

/// A call to make, as values.
pub struct ForwardView {
    pub target: Principal,
    pub method: Seq<char>,
    pub arg: Seq<u8>,
    pub cycles: u128,
}

/// What to do about a submit, as values.
pub enum Decision {
    Refuse(SubmitResult),
    Forward(ForwardView),
}

impl View for Request {
    type V = RequestView;

    open spec fn view(&self) -> RequestView {
        match *self {
            Request::Ingest(signature) => RequestView::Ingest(signature@),
            Request::Game(req) => RequestView::Game {
                game: req.game,
                call: req.call,
                arg: req.arg@,
            },
        }
    }
}

impl View for Forward {
    type V = ForwardView;

    open spec fn view(&self) -> ForwardView {
        ForwardView {
            target: self.target,
            method: self.method@,
            arg: self.arg@,
            cycles: self.cycles,
        }
    }
}

impl View for Step {
    type V = Decision;

    open spec fn view(&self) -> Decision {
        match *self {
            Step::Reply(result) => Decision::Refuse(result),
            Step::Call(forward) => Decision::Forward(forward@),
        }
    }
}

impl RequestView {
    /// The cycles that the request draws.
    pub open spec fn cycles(self) -> u128 {
        match self {
            RequestView::Ingest(_) => config::INGEST_PRICE,
            RequestView::Game { call, .. } => call.cycles(),
        }
    }
}

/// One submit as it reaches the relay: who calls, how long the raw argument is,
/// what is asked for, and the clock and the relay's balance at that time.
pub struct Submission {
    pub caller: Principal,
    pub arg_len: nat,
    pub request: RequestView,
    pub now: u64,
    pub balance: u128,
}

/// What the relay holds, as values.
#[verifier::ext_equal]
pub struct RelayState {
    pub index: Principal,
    pub allowlist: Set<Principal>,
    pub games: Set<Principal>,
    pub windows: Map<Principal, Budgets>,
}

impl RelayState {
    /// The answer to a submit that never gets to admission: its argument is too
    /// long, or an allowlisted caller names a game that is none.
    pub open spec fn early_refusal(
        self,
        caller: Principal,
        arg_len: nat,
        request: RequestView,
    ) -> Option<SubmitResult> {
        if arg_len > MAX_ARG_BYTES {
            Some(SubmitResult::ForwardFailed)
        } else if self.allowlist.contains(caller) && (request matches RequestView::Game { game, .. }
            && !self.games.contains(game)) {
            Some(SubmitResult::UnknownGame)
        } else {
            None
        }
    }

    /// The call that a request stands for; `ingest_arg` is the encoded argument of
    /// an ingest.
    pub open spec fn route(self, request: RequestView, ingest_arg: Seq<u8>) -> ForwardView {
        match request {
            RequestView::Ingest(_) => ForwardView {
                target: self.index,
                method: "ingest"@,
                arg: ingest_arg,
                cycles: config::INGEST_PRICE,
            },
            RequestView::Game { game, call, arg } => ForwardView {
                target: game,
                method: call.method_name(),
                arg,
                cycles: call.cycles(),
            },
        }
    }

    /// The verdict of admission on `price` asked for by `caller`.
    pub open spec fn verdict(self, caller: Principal, now: u64, balance: u128, price: u128) -> Admit {
        gate(
            self.allowlist.contains(caller),
            budgets_of(self.windows, caller),
            now,
            baked_limits(),
            balance,
            config::CYCLE_FLOOR,
            price,
        )
    }

    /// The relay after admission looked at `price` asked for by `caller`: only a
    /// caller that got as far as its budgets leaves a trace, and only there.
    pub open spec fn charged(self, caller: Principal, now: u64, balance: u128, price: u128) -> Self {
        if self.allowlist.contains(caller) && affordable(balance, config::CYCLE_FLOOR, price) {
            RelayState {
                windows: self.windows.insert(
                    caller,
                    budgets_of(self.windows, caller).after(now, baked_limits(), price),
                ),
                ..self
            }
        } else {
            self
        }
    }

    /// What to do about a request that got to admission.
    pub open spec fn gated(
        self,
        caller: Principal,
        request: RequestView,
        ingest_arg: Seq<u8>,
        now: u64,
        balance: u128,
    ) -> Decision {
        match self.verdict(caller, now, balance, request.cycles()) {
            Admit::NotAllowed => Decision::Refuse(SubmitResult::NotAllowed),
            Admit::RateLimited => Decision::Refuse(SubmitResult::RateLimited),
            Admit::KeyBudgetExhausted => Decision::Refuse(SubmitResult::KeyBudgetExhausted),
            Admit::LowBudget => Decision::Refuse(SubmitResult::LowBudget),
            Admit::Admitted => Decision::Forward(self.route(request, ingest_arg)),
        }
    }

    /// The encoded argument of an ingest.
    pub open spec fn ingest_arg(request: RequestView) -> Seq<u8> {
        match request {
            RequestView::Ingest(signature) => candid_text(signature),
            RequestView::Game { .. } => Seq::empty(),
        }
    }

    /// What to do about a submit.
    pub open spec fn decision(self, s: Submission) -> Decision {
        match self.early_refusal(s.caller, s.arg_len, s.request) {
            Some(result) => Decision::Refuse(result),
            None => self.gated(
                s.caller,
                s.request,
                RelayState::ingest_arg(s.request),
                s.now,
                s.balance,
            ),
        }
    }

    /// The relay after a submit. What comes of the call is no part of it: a key is
    /// charged the full price whether or not the callee accepts it.
    pub open spec fn next(self, s: Submission) -> RelayState {
        if self.early_refusal(s.caller, s.arg_len, s.request) is Some {
            self
        } else {
            self.charged(s.caller, s.now, s.balance, s.request.cycles())
        }
    }
}

impl RelayState {
    /// The relay with deploy-time overrides. They are barred where `strict` holds.
    pub open spec fn overridden(self, args: InitArgs, strict: bool) -> Result<Self, Seq<char>> {
        if strict {
            Err("init override is barred on mainnet"@)
        } else {
            Ok(
                RelayState {
                    index: args.index,
                    allowlist: args.allowlist@.to_set(),
                    games: args.games@.to_set(),
                    ..self
                },
            )
        }
    }

    /// The relay with a parsed config, or the first thing that is wrong with it.
    pub open spec fn installed(
        self,
        index: Option<Principal>,
        allowlist: Result<Set<Principal>, Seq<char>>,
        games: Result<Set<Principal>, Seq<char>>,
    ) -> Result<Self, Seq<char>> {
        match (index, allowlist, games) {
            (None, _, _) => Err("baked index principal is invalid"@),
            (Some(_), Err(message), _) => Err(message),
            (Some(_), Ok(_), Err(message)) => Err(message),
            (Some(index), Ok(allowlist), Ok(games)) => Ok(
                RelayState { index, allowlist, games, ..self },
            ),
        }
    }

    /// The relay configured by overrides, or else from config texts.
    pub open spec fn configured(
        self,
        overrides: Option<InitArgs>,
        strict: bool,
        index: Seq<char>,
        allowlist: Seq<&str>,
        games: Seq<&str>,
    ) -> Result<Self, Seq<char>> {
        match overrides {
            Some(args) => self.overridden(args, strict),
            None => self.installed(
                text_principal(index),
                denoted(texts(allowlist), parses(allowlist), strict),
                denoted(texts(games), parses(games), strict),
            ),
        }
    }

    /// Whether `r` and the relay `after` are what comes of an attempt to change
    /// this relay: the relay `target`, or the message and no change.
    pub open spec fn settles(
        self,
        target: Result<RelayState, Seq<char>>,
        r: Result<(), String>,
        after: RelayState,
    ) -> bool {
        match target {
            Ok(state) => r is Ok && after == state,
            Err(message) => (r matches Err(m) && m@ == message) && after == self,
        }
    }
}

/// The relay's state. All of it is in memory, so it is configured anew on every
/// start, a first one as well as an upgrade.
#[derive(Debug)]
pub struct Relay {
    index: Principal,
    allowlist: PrincipalSet,
    /// The only canisters a `Game` call may target (budget-drain guard).
    games: PrincipalSet,
    windows: BudgetMap,
}

impl View for Relay {
    type V = RelayState;

    closed spec fn view(&self) -> RelayState {
        RelayState {
            index: self.index,
            allowlist: self.allowlist@,
            games: self.games@,
            windows: self.windows@,
        }
    }
}

impl Relay {
    /// A relay that is not configured yet: it lets nobody in.
    pub fn new() -> (r: Relay)
        ensures
            r@ == (RelayState {
                index: Principal::of_bytes(seq![4u8]),
                allowlist: Set::empty(),
                games: Set::empty(),
                windows: Map::empty(),
            }),
    {
        Relay {
            index: Principal::anonymous(),
            allowlist: PrincipalSet::new(),
            games: PrincipalSet::new(),
            windows: BudgetMap::new(),
        }
    }

    /// Takes over a parsed config.
    pub fn install(
        &mut self,
        index: Option<Principal>,
        allowlist: Result<PrincipalSet, String>,
        games: Result<PrincipalSet, String>,
    ) -> (r: Result<(), String>)
        ensures
            old(self)@.settles(
                old(self)@.installed(index, set_or_message(allowlist), set_or_message(games)),
                r,
                final(self)@,
            ),
    {
        let index: Principal = match index {
            Some(index) => index,
            None => return Err("baked index principal is invalid".to_owned()),
        };
        let allowlist: PrincipalSet = match allowlist {
            Ok(set) => set,
            Err(message) => return Err(message),
        };
        let games: PrincipalSet = match games {
            Ok(set) => set,
            Err(message) => return Err(message),
        };
        self.index = index;
        self.allowlist = allowlist;
        self.games = games;
        Ok(())
    }

    /// Configures the relay from overrides, or else from config texts. The error
    /// is one to stop the deploy with.
    ///
    /// Where `strict` does not hold a placeholder among the texts is dropped, and
    /// the short set only ever refuses. Where it holds an override is barred, and a
    /// placeholder is an error: a failed deploy rather than a wedged canister.
    pub fn configure_from(
        &mut self,
        overrides: Option<InitArgs>,
        strict: bool,
        index: &str,
        allowlist: &[&str],
        games: &[&str],
    ) -> (r: Result<(), String>)
        ensures
            old(self)@.settles(
                old(self)@.configured(overrides, strict, index@, allowlist@, games@),
                r,
                final(self)@,
            ),
    {
        match overrides {
            Some(args) => {
                if strict {
                    return Err("init override is barred on mainnet".to_owned());
                }
                self.index = args.index;
                self.allowlist = PrincipalSet::from_list(args.allowlist.as_slice());
                self.games = PrincipalSet::from_list(args.games.as_slice());
                Ok(())
            },
            None => {
                let index: Option<Principal> = Principal::from_text(index);
                let allowlist: Result<PrincipalSet, String> = principal_set(allowlist, strict);
                let games: Result<PrincipalSet, String> = principal_set(games, strict);
                self.install(index, allowlist, games)
            },
        }
    }

    /// Configures the relay from overrides, or else from the config of this build.
    /// It has to run on every start, a first one as well as an upgrade, or an
    /// upgrade would leave the relay with empty lists.
    pub fn configure(&mut self, overrides: Option<InitArgs>) -> (r: Result<(), String>)
        ensures
            old(self)@.settles(
                old(self)@.configured(
                    overrides,
                    config::PROFILE@ == "mainnet"@,
                    config::INDEX@,
                    config::ALLOWLIST@,
                    config::GAMES@,
                ),
                r,
                final(self)@,
            ),
    {
        self.configure_from(
            overrides,
            config::strict(),
            config::INDEX,
            &config::ALLOWLIST,
            &config::GAMES,
        )
    }

    /// Whether an ingress message may be executed at all: its sender is
    /// allowlisted and its argument is not oversized.
    pub fn inspect_message(&self, caller: Principal, arg_len: usize) -> (r: bool)
        ensures
            r == (self@.allowlist.contains(caller) && arg_len <= MAX_ARG_BYTES),
    {
        let allowed: bool = self.allowlist.contains(&caller);
        let size_ok: bool = arg_len <= MAX_ARG_BYTES;
        allowed && size_ok
    }

    /// The answer to a submit that need not get to admission.
    ///
    /// The size bound of the perimeter is asserted again, because calls between
    /// canisters skip the perimeter. A `Game` call may only target an allowlisted
    /// game: otherwise a leaked key could point the attached cycles at a canister
    /// it controls. That check is for allowlisted callers only, so that a stranger
    /// never probes the game set.
    pub fn refuse_early(&self, caller: Principal, arg_len: usize, request: &Request) -> (r: Option<
        SubmitResult,
    >)
        ensures
            r == self@.early_refusal(caller, arg_len as nat, request@),
    {
        if arg_len > MAX_ARG_BYTES {
            return Some(SubmitResult::ForwardFailed);
        }
        if self.allowlist.contains(&caller) {
            if let Request::Game(req) = request {
                if !self.games.contains(&req.game) {
                    return Some(SubmitResult::UnknownGame);
                }
            }
        }
        None
    }

    /// Takes a request through admission. `encoded` is the encoded argument of an
    /// ingest, if it could be encoded; what could not be is refused rather than
    /// forwarded, and charged to nobody.
    pub fn pass_gate(
        &mut self,
        caller: Principal,
        request: Request,
        encoded: Option<Vec<u8>>,
        now: u64,
        balance: u128,
    ) -> (r: Step)
        ensures
            request is Ingest && encoded is None ==> {
                &&& r@ == Decision::Refuse(SubmitResult::ForwardFailed)
                &&& final(self)@ == old(self)@
            },
            request is Game || encoded is Some ==> {
                &&& r@ == old(self)@.gated(
                    caller,
                    request@,
                    if request is Ingest { encoded->Some_0@ } else { Seq::empty() },
                    now,
                    balance,
                )
                &&& final(self)@ == old(self)@.charged(caller, now, balance, request@.cycles())
            },
    {
        let allowed: bool = self.allowlist.contains(&caller);
        let forward: Forward = match request {
            Request::Ingest(_) => match encoded {
                Some(arg) => Forward {
                    target: self.index,
                    method: "ingest",
                    arg,
                    cycles: config::INGEST_PRICE,
                },
                None => return Step::Reply(SubmitResult::ForwardFailed),
            },
            Request::Game(req) => Forward {
                target: req.game,
                method: req.call.method(),
                arg: req.arg,
                cycles: req.call.price(),
            },
        };
        let verdict: Admit = admit_call(
            allowed,
            &mut self.windows,
            caller,
            now,
            &limits(),
            balance,
            config::CYCLE_FLOOR,
            forward.cycles,
        );
        match verdict {
            Admit::NotAllowed => Step::Reply(SubmitResult::NotAllowed),
            Admit::RateLimited => Step::Reply(SubmitResult::RateLimited),
            Admit::KeyBudgetExhausted => Step::Reply(SubmitResult::KeyBudgetExhausted),
            Admit::LowBudget => Step::Reply(SubmitResult::LowBudget),
            Admit::Admitted => Step::Call(forward),
        }
    }

    /// The decision on a submit: an allowlisted caller submits without cycles, the
    /// relay gates (size, allowlist, game target, relay budget floor, per-key
    /// budgets) and has the call made with its price attached. Dedup is the
    /// index's job, not the relay's.
    ///
    /// The key is charged the full price whether or not the callee accepts it, and
    /// a refund is deliberately **not** credited back: with refunds credited, a
    /// leaked key could submit an already-applied signature over and over, and
    /// each round would still cost the relay its own execution and a call.
    pub fn submit(
        &mut self,
        caller: Principal,
        arg_len: usize,
        request: Request,
        now: u64,
        balance: u128,
    ) -> (r: Step)
        ensures
            r@ == old(self)@.decision(
                Submission { caller, arg_len: arg_len as nat, request: request@, now, balance },
            ),
            final(self)@ == old(self)@.next(
                Submission { caller, arg_len: arg_len as nat, request: request@, now, balance },
            ),
    {
        if let Some(result) = self.refuse_early(caller, arg_len, &request) {
            return Step::Reply(result);
        }
        let encoded: Option<Vec<u8>> = match &request {
            Request::Ingest(signature) => match encode_text(signature.as_str()) {
                Ok(arg) => Some(arg),
                Err(_) => None,
            },
            Request::Game(_) => None,
        };
        self.pass_gate(caller, request, encoded, now, balance)
    }

    /// The answer to a submit whose call was made: the reply, or `None` where the
    /// call failed.
    pub fn call_returned(reply: Option<Vec<u8>>) -> (r: SubmitResult)
        ensures
            r == (match reply {
                Some(bytes) => SubmitResult::Forwarded(bytes),
                None => SubmitResult::ForwardFailed,
            }),
    {
        match reply {
            Some(bytes) => SubmitResult::Forwarded(bytes),
            None => SubmitResult::ForwardFailed,
        }
    }

    /// Principal of crown-indexer.
    pub fn get_index(&self) -> (r: Principal)
        ensures
            r == self@.index,
    {
        self.index
    }
}

} // verus!
