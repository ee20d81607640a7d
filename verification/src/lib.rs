//! crown-relay: the single fronter of paid calls. Ingress cannot attach cycles; the
//! relay attaches them from its budget, for ingests and for the paid calls of games.
//! It is managed (allowlist, budget, index principal) and has no power over the book.
//!
//! It fronts exactly three calls, and the set is closed by type: `index.ingest`, and
//! a game's `request_signature` / `push_root` ([`relay::GameCall`]). All three are
//! paid at the far end, and the price of each is decided here, never by the caller.
//!
//! A submit goes through size and allowlist, game target, relay budget floor and
//! per-key budgets, and only then is forwarded with cycles. The relay's own floor is
//! checked *before* the key is charged, so a submit refused for lack of relay balance
//! does not also consume the key's day. [`relay`] decides, [`admission`] keeps the
//! budgets, [`baked`], [`config`] and [`profile`] hold what a build is made with, and
//! [`budget_laws`], [`relay_laws`] and [`profile_laws`] state what holds of all of it.

pub mod admission;
pub mod baked;
pub mod budget_laws;
pub mod budget_map;
pub mod config;
pub mod mock;
pub mod principal;
pub mod principal_set;
pub mod profile;
pub mod profile_laws;
pub mod relay;
pub mod relay_laws;
pub mod text;
pub mod wire;

pub use crate::principal::Principal;
pub use crate::relay::{GameCall, GameReq, InitArgs, Relay, Request, SubmitResult};
