use crown_relay::config;
use crown_relay::config::{
    collect_set, max3, principal_set, strict, ALLOWLIST, BURST_BUDGET_CYCLES, BURST_WINDOW_SECS,
    CYCLE_FLOOR, DAILY_BUDGET_CYCLES, DAILY_WINDOW_SECS, DEAREST_CALL, GAMES, INDEX, INGEST_PRICE,
    PROFILE, ROOT_PRICE, SIGN_PRICE,
};
use crown_relay::principal::Principal;

/// A principal of the outside world, as the library holds it.
fn own(p: candid::Principal) -> Principal {
    Principal::from_slice(p.as_slice())
}

#[test]
fn testnet_values_are_baked() {
    assert_eq!(PROFILE, "testnet");
    assert_eq!(INDEX, "aaaaa-aa");
    assert_eq!(CYCLE_FLOOR, 1_000_000_000_000);
    assert_eq!(INGEST_PRICE, 17_000_000_000);
    assert_eq!(SIGN_PRICE, 26_200_000_000);
    assert_eq!(ROOT_PRICE, 1_000_000_000);
    assert_eq!(BURST_BUDGET_CYCLES, 100_000_000_000);
    assert_eq!(BURST_WINDOW_SECS, 60);
    assert_eq!(DAILY_BUDGET_CYCLES, 10_000_000_000_000);
    assert_eq!(DAILY_WINDOW_SECS, 86_400);
    // The devnet allowlist is still a placeholder (real keys via `init`).
    assert_eq!(ALLOWLIST.len(), 1);
    // The games allowlist is baked (a placeholder on devnet; real via `init`).
    assert_eq!(GAMES.len(), 1);
    assert!(!strict(), "the testnet profile is not the frozen one");
}

/// A real principal parses on both profiles; the set is what admission reads.
#[test]
fn real_principals_parse_on_either_profile() {
    let entries = ["aaaaa-aa", "2vxsx-fae"];
    for strict in [false, true] {
        let set = match principal_set(&entries, strict) {
            Ok(set) => set,
            Err(e) => panic!("real principals: {e}"),
        };
        assert_eq!(set.len(), 2);
        assert!(set.contains(&own(candid::Principal::management_canister())));
        assert!(set.contains(&own(candid::Principal::anonymous())));
    }
}

/// Off the frozen profile a placeholder is dropped, and the set is left short:
/// short only ever refuses (an empty `allowlist` lets nobody in, an empty `games`
/// rejects every game call), which is what a repo without real keys should do.
#[test]
fn a_placeholder_is_dropped_off_the_frozen_profile() {
    let entries = ["PLACEHOLDER_pusher_principal", "aaaaa-aa"];
    let set = match principal_set(&entries, false) {
        Ok(set) => set,
        Err(e) => panic!("placeholders are values here: {e}"),
    };
    assert_eq!(
        set.len(),
        1,
        "the placeholder is dropped, the real key stays"
    );
    assert!(set.contains(&own(candid::Principal::management_canister())));
    match principal_set(&["PLACEHOLDER_x"], false) {
        Ok(set) => assert!(set.is_empty()),
        Err(e) => panic!("still Ok: {e}"),
    }
}

/// On the frozen profile the same placeholder is an error, and the caller traps
/// on it.
#[test]
fn a_placeholder_is_fatal_on_the_frozen_profile() {
    let err = match principal_set(&["aaaaa-aa", "PLACEHOLDER_game_mainnet_principal"], true) {
        Ok(_) => panic!("mainnet requires real principals"),
        Err(err) => err,
    };
    assert!(
        err.contains("PLACEHOLDER_game_mainnet_principal"),
        "the message must name the offending entry, got: {err}"
    );
}

/// An *emptied* list stays expressible on the frozen profile: only the unfilled
/// list stops being expressible.
#[test]
fn an_emptied_list_is_still_legal_when_frozen() {
    match principal_set(&[], true) {
        Ok(set) => assert!(set.is_empty()),
        Err(e) => panic!("empty is a value: {e}"),
    }
}

/// The magnitude of the cap, stated as money rather than as calls.
#[test]
fn a_leaked_key_is_capped_by_its_day_not_by_the_relay_balance() {
    // Worst case in signatures: a leaked key cannot buy more than this many
    // threshold signatures in a day, whatever mix of calls it picks.
    let max_signs_per_day = DAILY_BUDGET_CYCLES / SIGN_PRICE;
    assert!(
        max_signs_per_day <= 1_000,
        "daily budget buys {max_signs_per_day} signatures — too loose for one key"
    );
    // And in ingests, which is what sizes normal throughput.
    let max_ingests_per_day = DAILY_BUDGET_CYCLES / INGEST_PRICE;
    assert!(
        max_ingests_per_day >= 100,
        "daily budget buys only {max_ingests_per_day} ingests — too tight to operate"
    );
}

/// A signature draws its own price, not one token: the same burst budget buys
/// strictly fewer signatures than ingests, because a signature costs more.
#[test]
fn a_sign_draws_more_of_the_key_budget_than_an_ingest() {
    // Presumes a signature is the dearer call (it is, in every profile).
    let signs = config::BURST_BUDGET_CYCLES / config::SIGN_PRICE;
    let ingests = config::BURST_BUDGET_CYCLES / config::INGEST_PRICE;
    assert!(
        signs < ingests,
        "a cycle-denominated cap must price a Sign above an ingest ({signs} vs {ingests})"
    );
}

#[test]
fn the_dearest_call_is_the_largest_price() {
    assert_eq!(DEAREST_CALL, max3(INGEST_PRICE, SIGN_PRICE, ROOT_PRICE));
    assert_eq!(max3(3, 1, 2), 3);
    assert_eq!(max3(1, 3, 2), 3);
    assert_eq!(max3(1, 2, 3), 3);
    assert_eq!(max3(7, 7, 7), 7);
}

#[test]
fn the_first_placeholder_is_the_one_reported() {
    match principal_set(&["aaaaa-aa", "first", "second"], true) {
        Ok(_) => panic!("two entries are no principals"),
        Err(e) => assert_eq!(
            e,
            "baked principal `first` is not a principal (mainnet requires real ones)"
        ),
    }
}

#[test]
fn a_set_is_made_of_what_parsed() {
    let (a, b) = (
        Principal::from_slice(&[1; 10]),
        Principal::from_slice(&[2; 10]),
    );
    let set = match collect_set(&["a", "b", "a", "x"], &[Some(a), Some(b), Some(a), None], false) {
        Ok(set) => set,
        Err(e) => panic!("{e}"),
    };
    assert_eq!(set.len(), 2);
    assert!(set.contains(&a) && set.contains(&b));
    assert!(!set.contains(&Principal::from_slice(&[3; 10])));
    match collect_set(&["a", "x"], &[Some(a), None], true) {
        Ok(_) => panic!("the second entry did not parse"),
        Err(e) => assert_eq!(
            e,
            "baked principal `x` is not a principal (mainnet requires real ones)"
        ),
    }
}
