//! Submits from end to end: the relay decides, and a stand-in for the canisters
//! downstream takes the calls.

use crown_relay::config;
use crown_relay::mock::MockDownstream;
use crown_relay::principal::Principal;
use crown_relay::relay::{
    limits, secs_to_nanos, Forward, GameCall, GameReq, InitArgs, Relay, Request, Step,
    SubmitResult, MAX_ARG_BYTES,
};

const T_CYCLES: u128 = 4_000_000_000_000;

/// A time of day, in nanoseconds.
const NOW: u64 = 1_700_000_000_000_000_000;

/// A fixed allowlisted pusher principal for the tests.
fn pusher() -> Principal {
    Principal::from_slice(&[42u8; 10])
}

/// Where the stand-in lives.
fn mock_id() -> Principal {
    Principal::from_slice(&[1, 2, 3, 4, 5, 6, 7, 8, 1, 1])
}

fn bytes(r: Result<Vec<u8>, candid::Error>) -> Vec<u8> {
    match r {
        Ok(bytes) => bytes,
        Err(e) => panic!("{e}"),
    }
}

/// Relay (allowlisting `pusher`, index = the mock) + the mock, which also serves
/// the game role.
fn setup() -> (Relay, MockDownstream) {
    let mut relay = Relay::new();
    let init = InitArgs {
        index: mock_id(),
        allowlist: vec![pusher()],
        games: vec![mock_id()],
    };
    assert!(relay.configure(Some(init)).is_ok());
    (relay, MockDownstream::new())
}

/// The raw length of a request on the wire: its content and some framing.
fn arg_len(req: &Request) -> usize {
    64 + match req {
        Request::Ingest(signature) => signature.len(),
        Request::Game(req) => req.arg.len(),
    }
}

/// Makes the call, as the canister at the far end sees it.
fn deliver(mock: &mut MockDownstream, call: Forward) -> Option<Vec<u8>> {
    if call.target != mock_id() {
        return None;
    }
    match call.method {
        "ingest" => {
            let r = mock.ingest(call.cycles);
            Some(bytes(candid::encode_one(r)))
        }
        "request_signature" => {
            mock.request_signature(call.cycles);
            Some(bytes(candid::encode_args(())))
        }
        "push_root" => {
            mock.push_root(call.cycles);
            Some(bytes(candid::encode_args(())))
        }
        _ => None,
    }
}

/// A submit as the canister runs it. `None` where the perimeter drops it.
fn submit_with(
    relay: &mut Relay,
    mock: &mut MockDownstream,
    sender: Principal,
    req: Request,
    balance: u128,
) -> Option<SubmitResult> {
    let len = arg_len(&req);
    if !relay.inspect_message(sender, len) {
        return None;
    }
    Some(match relay.submit(sender, len, req, NOW, balance) {
        Step::Reply(result) => result,
        Step::Call(call) => Relay::call_returned(deliver(mock, call)),
    })
}

fn submit(relay: &mut Relay, mock: &mut MockDownstream, req: Request) -> SubmitResult {
    match submit_with(relay, mock, pusher(), req, T_CYCLES) {
        Some(result) => result,
        None => panic!("submit rejected"),
    }
}

#[test]
fn non_allowlisted_submit_is_rejected_by_inspect_message() {
    let (mut relay, mut mock) = setup();
    let stranger = Principal::from_slice(&[7u8; 10]);
    // The perimeter must drop it before execution → the ingress is rejected.
    let res = submit_with(
        &mut relay,
        &mut mock,
        stranger,
        Request::Ingest("sig".to_string()),
        T_CYCLES,
    );
    assert!(res.is_none(), "a stranger must be rejected, not executed");
    assert_eq!(mock.calls(), 0, "no forward happened");
}

#[test]
fn allowlisted_settlement_forwards_to_index_with_ingest_price() {
    let (mut relay, mut mock) = setup();
    let res = submit(&mut relay, &mut mock, Request::Ingest("sig-1".to_string()));
    assert!(matches!(res, SubmitResult::Forwarded(_)), "got {res:?}");
    assert_eq!(mock.calls(), 1);
    assert_eq!(mock.last_method(), "ingest");
    assert_eq!(mock.last_cycles(), config::INGEST_PRICE as u64);
}

#[test]
fn sign_forwards_to_the_game_with_sign_price() {
    let (mut relay, mut mock) = setup();
    let req = Request::Game(GameReq {
        game: mock_id(), // the mock also serves the game role
        call: GameCall::RequestSignature,
        arg: bytes(candid::encode_args(())),
    });
    let res = submit(&mut relay, &mut mock, req);
    assert!(matches!(res, SubmitResult::Forwarded(_)), "got {res:?}");
    assert_eq!(mock.last_method(), "request_signature");
    assert_eq!(mock.last_cycles(), config::SIGN_PRICE as u64);
}

/// `push_root` is the other paid game call, and it must be reachable *here*.
#[test]
fn push_root_forwards_to_the_game_with_root_price() {
    let (mut relay, mut mock) = setup();
    let req = Request::Game(GameReq {
        game: mock_id(),
        call: GameCall::PushRoot,
        arg: bytes(candid::encode_one(vec![7u8; 32])),
    });
    let res = submit(&mut relay, &mut mock, req);
    assert!(matches!(res, SubmitResult::Forwarded(_)), "got {res:?}");
    assert_eq!(mock.last_method(), "push_root");
    // Its own price, not the signature's: the cycles a call draws are a function
    // of the call.
    assert_eq!(mock.last_cycles(), config::ROOT_PRICE as u64);
}

/// The game allowlist guards *every* game call, not just the signature one:
/// otherwise the cheaper route would be the open one.
#[test]
fn push_root_to_an_unknown_game_is_rejected_without_forwarding() {
    let (mut relay, mut mock) = setup(); // games = [mock]
    let rogue = Principal::from_slice(&[9u8; 10]);
    let req = Request::Game(GameReq {
        game: rogue,
        call: GameCall::PushRoot,
        arg: bytes(candid::encode_one(vec![7u8; 32])),
    });
    let res = submit(&mut relay, &mut mock, req);
    assert!(matches!(res, SubmitResult::UnknownGame), "got {res:?}");
    assert_eq!(mock.calls(), 0);
}

#[test]
fn sign_to_an_unknown_game_is_rejected_without_forwarding() {
    let (mut relay, mut mock) = setup(); // games = [mock]
    let rogue = Principal::from_slice(&[9u8; 10]); // not an allowlisted game
    let req = Request::Game(GameReq {
        game: rogue,
        call: GameCall::RequestSignature,
        arg: bytes(candid::encode_args(())),
    });
    let res = submit(&mut relay, &mut mock, req);
    assert!(matches!(res, SubmitResult::UnknownGame), "got {res:?}");
    // No cycles left the budget: the drain is blocked before the forward.
    assert_eq!(mock.calls(), 0, "no forward to an unknown game");
}

/// The per-key cap is denominated in cycles, so the number of ingests a key gets
/// in one burst window is its burst budget divided by the ingest price, and the
/// very next submit is refused before any forward.
#[test]
fn per_key_burst_budget_caps_a_key() {
    let (mut relay, mut mock) = setup();
    let affordable = config::BURST_BUDGET_CYCLES / config::INGEST_PRICE;
    assert!(affordable >= 1, "a key must afford at least one ingest");
    for i in 0..affordable {
        let res = submit(&mut relay, &mut mock, Request::Ingest("s".to_string()));
        assert!(matches!(res, SubmitResult::Forwarded(_)), "submit {i}");
    }
    // The next submit in the window is capped: no further forward.
    let capped = submit(&mut relay, &mut mock, Request::Ingest("s".to_string()));
    assert!(
        matches!(capped, SubmitResult::RateLimited),
        "got {capped:?}"
    );
    assert_eq!(mock.calls(), affordable as u64);
}

#[test]
fn low_budget_relay_rejects_before_forward() {
    let (mut relay, mut mock) = (Relay::new(), MockDownstream::new());
    let init = InitArgs {
        index: mock_id(),
        allowlist: vec![pusher()],
        games: vec![],
    };
    assert!(relay.configure(Some(init)).is_ok());

    // Below CYCLE_FLOOR (1T) + INGEST_PRICE → the budget floor must reject.
    let res = match submit_with(
        &mut relay,
        &mut mock,
        pusher(),
        Request::Ingest("s".to_string()),
        900_000_000_000,
    ) {
        Some(res) => res,
        None => panic!("submit rejected"),
    };
    assert!(matches!(res, SubmitResult::LowBudget), "got {res:?}");
    assert_eq!(mock.calls(), 0, "no forward on low budget");
}

/// A mainnet relay refuses an override, and stays as it was.
#[test]
fn mainnet_init_override_traps() {
    let mut relay = Relay::new();
    let init = InitArgs {
        index: mock_id(),
        allowlist: vec![pusher()],
        games: vec![],
    };
    let outcome = relay.configure_from(Some(init), true, "aaaaa-aa", &[], &[]);
    assert_eq!(
        outcome,
        Err("init override is barred on mainnet".to_string()),
        "mainnet install with an override must trap"
    );
    assert_eq!(relay.get_index(), Principal::anonymous());
    assert!(!relay.inspect_message(pusher(), 0));
}

#[test]
fn a_forwarded_ingest_carries_the_encoded_signature() {
    let (mut relay, _) = setup();
    for signature in ["", "sig-1", "подпись", "x".repeat(300).as_str()] {
        match relay.submit(
            pusher(),
            64,
            Request::Ingest(signature.to_string()),
            NOW,
            T_CYCLES,
        ) {
            Step::Call(call) => {
                assert_eq!(call.target, mock_id());
                assert_eq!(call.method, "ingest");
                assert_eq!(call.cycles, 17_000_000_000);
                let len = signature.len();
                let mut arg = vec![0x44, 0x49, 0x44, 0x4c, 0, 1, 0x71];
                if len < 128 {
                    arg.push(len as u8);
                } else {
                    arg.push((len % 128 + 128) as u8);
                    arg.push((len / 128) as u8);
                }
                arg.extend_from_slice(signature.as_bytes());
                assert_eq!(call.arg, arg);
                let back: Result<String, candid::Error> = candid::decode_one(&call.arg);
                assert_eq!(back.ok().as_deref(), Some(signature));
            }
            Step::Reply(r) => panic!("got {r:?}"),
        }
    }
}

#[test]
fn a_game_argument_is_forwarded_verbatim() {
    let (mut relay, _) = setup();
    let req = Request::Game(GameReq {
        game: mock_id(),
        call: GameCall::PushRoot,
        arg: vec![3, 1, 4, 1, 5],
    });
    match relay.submit(pusher(), 64, req, NOW, T_CYCLES) {
        Step::Call(call) => {
            assert_eq!(call.arg, vec![3, 1, 4, 1, 5]);
            assert_eq!(call.method, "push_root");
            assert_eq!(call.cycles, 1_000_000_000);
        }
        Step::Reply(r) => panic!("got {r:?}"),
    }
}

#[test]
fn an_oversized_argument_is_refused_for_anyone() {
    let (mut relay, _) = setup();
    for sender in [pusher(), Principal::from_slice(&[7; 10])] {
        assert!(!relay.inspect_message(sender, MAX_ARG_BYTES + 1));
        let step = relay.submit(
            sender,
            MAX_ARG_BYTES + 1,
            Request::Ingest("s".to_string()),
            NOW,
            T_CYCLES,
        );
        assert!(matches!(step, Step::Reply(SubmitResult::ForwardFailed)));
    }
    assert!(relay.inspect_message(pusher(), MAX_ARG_BYTES));
    let step = relay.submit(
        pusher(),
        MAX_ARG_BYTES,
        Request::Ingest("s".to_string()),
        NOW,
        T_CYCLES,
    );
    assert!(matches!(step, Step::Call(_)));
}

#[test]
fn a_stranger_does_not_probe_the_games() {
    let (mut relay, _) = setup();
    let stranger = Principal::from_slice(&[7; 10]);
    for game in [mock_id(), Principal::from_slice(&[9; 10])] {
        let req = Request::Game(GameReq {
            game,
            call: GameCall::PushRoot,
            arg: vec![],
        });
        assert!(relay.refuse_early(stranger, 64, &req).is_none());
        let step = relay.submit(stranger, 64, req, NOW, T_CYCLES);
        assert!(matches!(step, Step::Reply(SubmitResult::NotAllowed)));
    }
}

#[test]
fn a_signature_that_was_not_encoded_is_refused_and_not_charged() {
    let (mut relay, _) = setup();
    for _ in 0..100 {
        let step = relay.pass_gate(
            pusher(),
            Request::Ingest("s".to_string()),
            None,
            NOW,
            T_CYCLES,
        );
        assert!(matches!(step, Step::Reply(SubmitResult::ForwardFailed)));
    }
    // The whole burst is still there.
    for _ in 0..config::BURST_BUDGET_CYCLES / config::INGEST_PRICE {
        let step = relay.pass_gate(
            pusher(),
            Request::Ingest("s".to_string()),
            Some(vec![1, 2]),
            NOW,
            T_CYCLES,
        );
        match step {
            Step::Call(call) => assert_eq!(call.arg, vec![1, 2]),
            Step::Reply(r) => panic!("got {r:?}"),
        }
    }
}

/// A key that paces its bursts runs out of its day, and has the next one.
#[test]
fn a_key_that_spent_its_day_is_told_so() {
    let (mut relay, _) = setup();
    let ingests = config::DAILY_BUDGET_CYCLES / config::INGEST_PRICE;
    let burst_ns = limits().burst_window_ns;
    let mut now = NOW;
    for i in 0..ingests {
        if i % 5 == 0 {
            now += burst_ns;
        }
        let req = Request::Ingest("s".to_string());
        let step = relay.submit(pusher(), 64, req, now, T_CYCLES);
        assert!(matches!(step, Step::Call(_)), "submit {i}");
    }
    now += burst_ns;
    let req = Request::Ingest("s".to_string());
    let step = relay.submit(pusher(), 64, req, now, T_CYCLES);
    assert!(matches!(
        step,
        Step::Reply(SubmitResult::KeyBudgetExhausted)
    ));
    let tomorrow = NOW + burst_ns + limits().daily_window_ns;
    let req = Request::Ingest("s".to_string());
    let step = relay.submit(pusher(), 64, req, tomorrow, T_CYCLES);
    assert!(matches!(step, Step::Call(_)));
}

#[test]
fn a_failed_call_is_charged_all_the_same() {
    let (mut relay, _) = setup();
    for _ in 0..config::BURST_BUDGET_CYCLES / config::INGEST_PRICE {
        let req = Request::Ingest("s".to_string());
        let step = relay.submit(pusher(), 64, req, NOW, T_CYCLES);
        assert!(matches!(step, Step::Call(_)));
        assert!(matches!(
            Relay::call_returned(None),
            SubmitResult::ForwardFailed
        ));
    }
    let req = Request::Ingest("s".to_string());
    let step = relay.submit(pusher(), 64, req, NOW, T_CYCLES);
    assert!(matches!(step, Step::Reply(SubmitResult::RateLimited)));
}

#[test]
fn a_reply_is_handed_back_verbatim() {
    match Relay::call_returned(Some(vec![5, 6])) {
        SubmitResult::Forwarded(reply) => assert_eq!(reply, vec![5, 6]),
        r => panic!("got {r:?}"),
    }
}

#[test]
fn the_relay_keeps_its_floor() {
    let (mut relay, _) = setup();
    let enough = config::CYCLE_FLOOR + config::SIGN_PRICE;
    for (balance, passes) in [(enough - 1, false), (enough, true)] {
        let req = Request::Game(GameReq {
            game: mock_id(),
            call: GameCall::RequestSignature,
            arg: vec![],
        });
        let step = relay.submit(pusher(), 64, req, NOW, balance);
        assert_eq!(matches!(step, Step::Call(_)), passes);
        assert_eq!(
            matches!(step, Step::Reply(SubmitResult::LowBudget)),
            !passes
        );
    }
}

#[test]
fn a_relay_without_lists_lets_nobody_in() {
    let mut relay = Relay::new();
    let req = Request::Ingest("s".to_string());
    let step = relay.submit(pusher(), 64, req, NOW, T_CYCLES);
    assert!(matches!(step, Step::Reply(SubmitResult::NotAllowed)));
    // The config of this build holds placeholders, which are dropped.
    assert!(relay.configure(None).is_ok());
    assert_eq!(relay.get_index(), Principal::from_slice(&[]));
    assert!(!relay.inspect_message(pusher(), 0));
}

#[test]
fn configuring_again_keeps_the_budgets() {
    let (mut relay, _) = setup();
    for _ in 0..config::BURST_BUDGET_CYCLES / config::INGEST_PRICE {
        let req = Request::Ingest("s".to_string());
        let step = relay.submit(pusher(), 64, req, NOW, T_CYCLES);
        assert!(matches!(step, Step::Call(_)));
    }
    let again = InitArgs {
        index: Principal::from_slice(&[1]),
        allowlist: vec![pusher(), pusher()],
        games: vec![],
    };
    assert!(relay.configure(Some(again)).is_ok());
    assert_eq!(relay.get_index(), Principal::from_slice(&[1]));
    let req = Request::Ingest("s".to_string());
    let step = relay.submit(pusher(), 64, req, NOW, T_CYCLES);
    assert!(matches!(step, Step::Reply(SubmitResult::RateLimited)));
}

#[test]
fn a_config_is_taken_from_texts() {
    let mut relay = Relay::new();
    let r = relay.configure_from(None, true, "2vxsx-fae", &["aaaaa-aa"], &["2vxsx-fae"]);
    assert_eq!(r, Ok(()));
    assert_eq!(relay.get_index(), Principal::anonymous());
    assert!(relay.inspect_message(Principal::from_slice(&[]), 0));

    let mut relay = Relay::new();
    assert_eq!(
        relay.configure_from(None, false, "nonsense", &[], &[]),
        Err("baked index principal is invalid".to_string())
    );
    assert_eq!(
        relay.configure_from(None, true, "aaaaa-aa", &["a"], &["b"]),
        Err("baked principal `a` is not a principal (mainnet requires real ones)".to_string())
    );
    assert_eq!(
        relay.configure_from(None, true, "aaaaa-aa", &["aaaaa-aa"], &["b"]),
        Err("baked principal `b` is not a principal (mainnet requires real ones)".to_string())
    );
    // Nothing of it was taken over.
    assert_eq!(relay.get_index(), Principal::anonymous());
    assert!(!relay.inspect_message(Principal::from_slice(&[]), 0));
    // Off the frozen profile the same lists are taken, short.
    assert_eq!(
        relay.configure_from(None, false, "aaaaa-aa", &["a", "2vxsx-fae"], &["b"]),
        Ok(())
    );
    assert!(relay.inspect_message(Principal::anonymous(), 0));
}

#[test]
fn a_parsed_config_is_installed_or_refused_as_a_whole() {
    let mut relay = Relay::new();
    assert_eq!(
        relay.install(
            Some(mock_id()),
            config::collect_set(&["p"], &[Some(pusher())], true),
            config::collect_set(&["g"], &[None], true),
        ),
        Err("baked principal `g` is not a principal (mainnet requires real ones)".to_string())
    );
    assert_eq!(relay.get_index(), Principal::anonymous());
    assert_eq!(
        relay.install(
            Some(mock_id()),
            config::collect_set(&["p"], &[Some(pusher())], true),
            config::collect_set(&["g"], &[Some(mock_id())], true),
        ),
        Ok(())
    );
    assert_eq!(relay.get_index(), mock_id());
    assert!(relay.inspect_message(pusher(), 0));
}

#[test]
fn the_limits_are_the_baked_ones() {
    let l = limits();
    assert_eq!(l.burst_window_ns, 60_000_000_000);
    assert_eq!(l.burst_budget, 100_000_000_000);
    assert_eq!(l.daily_window_ns, 86_400_000_000_000);
    assert_eq!(l.daily_budget, 10_000_000_000_000);
    assert_eq!(secs_to_nanos(u64::MAX), u64::MAX);
    assert_eq!(secs_to_nanos(18_446_744_073), 18_446_744_073_000_000_000);
    assert_eq!(secs_to_nanos(18_446_744_074), u64::MAX);
}

#[test]
fn the_stand_in_keeps_the_low_bits_of_the_cycles() {
    let mut mock = MockDownstream::new();
    assert_eq!(mock.last_method(), "");
    mock.record("m", (1u128 << 64) + 5);
    assert_eq!(mock.calls(), 1);
    assert_eq!(mock.last_cycles(), 5);
    assert_eq!(mock.last_method(), "m");
    assert_eq!(mock.ingest(7), 0);
    assert_eq!(mock.calls(), 2);
    assert_eq!(mock.last_cycles(), 7);
}

/// A burst buys its budget by price, for each call, whatever another key submits
/// meanwhile.
#[test]
fn a_burst_of_equal_submits_buys_its_budget() {
    let other = Principal::from_slice(&[43u8; 10]);
    let root = || {
        Request::Game(GameReq {
            game: mock_id(),
            call: GameCall::PushRoot,
            arg: vec![],
        })
    };
    let mut relay = Relay::new();
    let init = InitArgs {
        index: mock_id(),
        allowlist: vec![pusher(), other],
        games: vec![mock_id()],
    };
    assert!(relay.configure(Some(init)).is_ok());
    // One root is spent already, in the burst that counts.
    assert!(matches!(
        relay.submit(pusher(), 64, root(), NOW, T_CYCLES),
        Step::Call(_)
    ));
    let left = (config::BURST_BUDGET_CYCLES - config::ROOT_PRICE) / config::INGEST_PRICE;
    assert_eq!(left, 5);
    for i in 0..left {
        let req = Request::Ingest("s".to_string());
        let step = relay.submit(pusher(), 64, req, NOW + i as u64, T_CYCLES);
        assert!(matches!(step, Step::Call(_)), "submit {i}");
        let req = Request::Ingest("o".to_string());
        let _ = relay.submit(other, 64, req, NOW + i as u64, T_CYCLES);
    }
    for _ in 0..2 {
        let req = Request::Ingest("s".to_string());
        let step = relay.submit(pusher(), 64, req, NOW + 9, T_CYCLES);
        assert!(matches!(step, Step::Reply(SubmitResult::RateLimited)));
    }
}
