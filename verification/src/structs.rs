//! Row types shared by the store and its callers.

use vstd::prelude::*;
use crate::types::MyDuration;

verus! {

/// Per-guild configuration: cool-downs and success chances for the gated
/// actions. Chances are percentages in `0 ..= 100`.
#[derive(Clone, Copy, Debug)]
pub struct ServerSettings {
    pub steal_interval: MyDuration,
    pub gamble_interval: MyDuration,
    pub gamble_chance: i8,
    pub steal_chance: i8,
}

impl ServerSettings {
    /// Both chances lie in the percentage range.
    pub open spec fn wf(self) -> bool {
        &&& 0 <= self.gamble_chance <= 100
        &&& 0 <= self.steal_chance <= 100
        &&& self.steal_interval.0 >= 0
        &&& self.gamble_interval.0 >= 0
    }
}

/// The three per-(user, guild) action timestamps, in seconds. `None` means
/// the action was never performed by that user in that guild.
#[derive(Clone, Copy, Debug)]
pub struct UserLimits {
    pub last_steal: Option<i64>,
    pub last_daily: Option<i64>,
    pub last_gamble: Option<i64>,
}

/// One leaderboard entry: a user together with the paw count held.
#[derive(Clone, Copy, Debug, PartialEq, Eq, Structural)]
pub struct PawCount {
    pub count: u64,
    pub user_id: u64,
}

} // verus!
