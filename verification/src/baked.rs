//! Baked from config/testnet.toml. Nothing network lives in code.

use vstd::prelude::*;

verus! {

pub const PROFILE: &'static str = "testnet";

/// Principal of crown-indexer (default; `init` may override on testnet).
pub const INDEX: &'static str = "aaaaa-aa";

/// Allowlisted platform pushers (default; `init` may override on testnet).
pub const ALLOWLIST: [&'static str; 1] = ["PLACEHOLDER_pusher_principal"];

/// Allowlisted game canisters, the only permitted `Game` targets (default;
/// `init` may override on testnet).
pub const GAMES: [&'static str; 1] = ["PLACEHOLDER_game_principal"];

/// What the relay keeps for itself, in cycles.
pub const CYCLE_FLOOR: u128 = 1000000000000;

/// Attached to an ingest forward: at least what the index charges.
pub const INGEST_PRICE: u128 = 17000000000;

/// Attached to a `RequestSignature` forward: at least what the game charges.
pub const SIGN_PRICE: u128 = 26200000000;

/// Attached to a `PushRoot` forward: at least what the game charges.
pub const ROOT_PRICE: u128 = 1000000000;

/// The dearest single call the relay ever forwards, over every game call and the
/// ingest. A price left out here would be one a key cannot afford, and that call
/// would stall silently rather than fail loudly.
pub const DEAREST_CALL: u128 = 26200000000;

/// Per-key cap of a burst, in **cycles**. The burst window bounds a spike, the
/// daily window bounds the total a leaked key can move in its day. Cycles, not
/// calls, so each call draws its real price.
pub const BURST_BUDGET_CYCLES: u128 = 100000000000;

pub const BURST_WINDOW_SECS: u64 = 60;

/// Per-key cap of a day, in **cycles**.
pub const DAILY_BUDGET_CYCLES: u128 = 10000000000000;

pub const DAILY_WINDOW_SECS: u64 = 86400;

} // verus!
