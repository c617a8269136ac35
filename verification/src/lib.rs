//! Per-guild, per-user virtual-currency ledger ("paws") with rate-limited
//! actions, probabilistic outcomes, and a paginated leaderboard.

pub mod commands;
pub mod config;
pub mod structs;
pub mod types;
pub mod store;

use vstd::prelude::*;
use crate::config::Config;
use crate::store::Store;

verus! {

/// Everything one running instance shares: its configuration and its store.
pub struct AppState {
    pub env: Config,
    pub db: Store,
}

} // verus!
