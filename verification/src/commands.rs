//! The actions a caller can invoke: claim a daily paw, donate, gamble,
//! steal, read a balance, and view the leaderboard. Each action is one
//! gate-check / draw / mutate sequence against the store; every denial is a
//! structured outcome, never a fault, and a denied action mutates nothing.
//!
//! A steal or donation moves paws between two accounts. Here both balances
//! change in one atomic step (`Store::transfer_paws`), so the window in
//! which paws could leave one account and never reach the other is closed by
//! design rather than documented away.

use vstd::prelude::*;
use crate::store::{Store, PawError, MAX_PAW_COUNT};
use crate::structs::PawCount;
use rand::{thread_rng, Rng};

verus! {

/// Seconds a user must wait between two daily claims: one day.
pub const DAILY_INTERVAL_SECS: i64 = 86400;

/// Largest stake the gamble action accepts.
pub const MAX_GAMBLE_STAKE: u8 = 10;

/// Outcome of a daily claim.
#[derive(Clone, Copy, Debug, PartialEq, Eq, Structural)]
pub enum DailyOutcome {
    /// The paw was granted; the user now holds this many.
    Granted { new_balance: u64 },
    /// Claimed too soon: this many seconds remain of the cool-down.
    RateLimited { wait_secs: i64 },
}

/// Outcome of a donation.
#[derive(Clone, Copy, Debug, PartialEq, Eq, Structural)]
pub enum GiveOutcome {
    /// The paws moved; the donor now holds this many.
    Given { new_caller_balance: u64 },
    /// Donating to oneself is refused.
    SelfTarget,
    /// The donor holds fewer paws than offered.
    InsufficientFunds,
}

/// Outcome of a gamble.
#[derive(Clone, Copy, Debug, PartialEq, Eq, Structural)]
pub enum GambleOutcome {
    /// The stake was played and won or lost in full.
    Played { won: bool, new_balance: u64 },
    /// Gambled too soon: this many seconds remain of the cool-down.
    RateLimited { wait_secs: i64 },
    /// The stake exceeds `MAX_GAMBLE_STAKE`.
    InvalidStake,
    /// The user holds fewer paws than the stake.
    InsufficientFunds,
}

/// Outcome of a steal attempt.
#[derive(Clone, Copy, Debug, PartialEq, Eq, Structural)]
pub enum StealOutcome {
    /// The attempt was played: won moves the amount to the thief, lost moves
    /// it to the target.
    Played { won: bool, new_caller_balance: u64, new_target_balance: u64 },
    /// Stealing from oneself is refused.
    SelfTarget,
    /// The thief holds fewer paws than they try to take.
    InsufficientCaller,
    /// The target holds fewer paws than requested.
    InsufficientTarget,
    /// Stole too soon: this many seconds remain of the cool-down.
    RateLimited { wait_secs: i64 },
}

/// One leaderboard view: a page of entries plus the guild-wide aggregates
/// and the requesting user's own standing.
#[derive(Debug)]
pub struct TopView {
    pub entries: Vec<PawCount>,
    pub farmer_count: u64,
    pub total_paws: u64,
    pub caller_rank: u64,
    pub caller_balance: u64,
}

/// A cool-down gate opens when at least `interval` seconds passed since
/// `last`.
pub open spec fn gate_allows(interval: int, last: int, now: int) -> bool {
    now - last >= interval
}

/// Seconds still to wait until the cool-down ends, clipped into `i64`.
pub open spec fn wait_secs_spec(interval: int, last: int, now: int) -> int {
    let w = interval - (now - last);
    if w > i64::MAX {
        i64::MAX as int
    } else {
        w
    }
}

/// Whether at least `interval` seconds passed since `last`; exact for every
/// pair of timestamps.
fn gate_check(interval: i64, last: i64, now: i64) -> (r: bool)
    ensures
        r == gate_allows(interval as int, last as int, now as int),
{
    (now as i128) - (last as i128) >= interval as i128
}

/// Seconds still to wait until the cool-down ends; callers ask only while
/// the cool-down still runs, so the value is positive and fits.
fn compute_wait(interval: i64, last: i64, now: i64) -> (r: i64)
    requires
        !gate_allows(interval as int, last as int, now as int),
    ensures
        r == wait_secs_spec(interval as int, last as int, now as int),
        r > 0,
{
    let w: i128 = (interval as i128) - ((now as i128) - (last as i128));
    if w > i64::MAX as i128 {
        i64::MAX
    } else {
        w as i64
    }
}

/// Relies on rand's `Rng::gen_ratio` on `thread_rng`: a fresh weighted draw
/// that is true with chance `percent` in 100. rand documents that the draw
/// is always false when the numerator is zero and always true when it equals
/// the denominator, and that it panics only when the numerator exceeds the
/// denominator; nothing else is assumed of the value.
#[verifier::external_body]
fn resolve_outcome(percent: i8) -> (r: bool)
    requires
        0 <= percent <= 100,
    ensures
        percent == 0 ==> !r,
        percent == 100 ==> r,
{
    let mut rng = thread_rng();
    rng.gen_ratio(percent as u32, 100)
}

/// Relies on chrono's `Utc::now`: the current wall-clock time as whole
/// seconds since the Unix epoch. Nothing is assumed of the value.
#[verifier::external_body]
fn now_timestamp() -> (r: i64) {
    chrono::Utc::now().timestamp()
}

/// Everything a daily claim at time `now` may do to the store.
pub open spec fn daily_post(
    pre: Store,
    post: Store,
    user_id: u64,
    guild_id: u64,
    now: i64,
    r: Result<DailyOutcome, PawError>,
) -> bool {
    let last = pre.last_daily_of(user_id, guild_id);
    let bal = pre.balance_of(user_id, guild_id);
    &&& post.wf()
    &&& post.settings_rows() == pre.settings_rows()
    &&& match r {
        Ok(DailyOutcome::RateLimited { wait_secs }) => {
            &&& !gate_allows(DAILY_INTERVAL_SECS as int, last as int, now as int)
            &&& wait_secs == wait_secs_spec(DAILY_INTERVAL_SECS as int, last as int, now as int)
            &&& post == pre
        },
        Ok(DailyOutcome::Granted { new_balance }) => {
            &&& gate_allows(DAILY_INTERVAL_SECS as int, last as int, now as int)
            &&& bal + 1 <= MAX_PAW_COUNT
            &&& new_balance == bal + 1
            &&& post.balance_of(user_id, guild_id) == new_balance
            &&& post.limits_of(user_id, guild_id).last_daily == Some(now)
            &&& post.limits_of(user_id, guild_id).last_steal == pre.limits_of(
                user_id,
                guild_id,
            ).last_steal
            &&& post.limits_of(user_id, guild_id).last_gamble == pre.limits_of(
                user_id,
                guild_id,
            ).last_gamble
            &&& unrelated_unchanged(pre, post, user_id, guild_id)
        },
        Err(e) => {
            // The balance column is already full. The claim was allowed, so
            // its timestamp was committed first, as a separate atomic step;
            // the balance itself is untouched.
            &&& e == PawError::Overflow
            &&& gate_allows(DAILY_INTERVAL_SECS as int, last as int, now as int)
            &&& bal + 1 > MAX_PAW_COUNT
            &&& post.paw_rows() == pre.paw_rows()
            &&& post.limits_of(user_id, guild_id).last_daily == Some(now)
            &&& unrelated_unchanged(pre, post, user_id, guild_id)
        },
    }
}

/// Balances and rate-limit records of every key other than this one are the
/// same in both stores.
pub open spec fn unrelated_unchanged(pre: Store, post: Store, user_id: u64, guild_id: u64) -> bool {
    &&& forall|u: u64, g: u64|
        !(u == user_id && g == guild_id) ==> #[trigger] post.balance_of(u, g) == pre.balance_of(
            u,
            g,
        )
    &&& forall|u: u64, g: u64|
        !(u == user_id && g == guild_id) ==> #[trigger] post.has_paw_row(u, g) == pre.has_paw_row(
            u,
            g,
        )
    &&& forall|u: u64, g: u64|
        !(u == user_id && g == guild_id) ==> #[trigger] post.limits_of(u, g) == pre.limits_of(u, g)
}

/// Claim the daily paw at time `now`: allowed once a day per user per
/// guild. When allowed, the claim time is recorded and one paw granted; a
/// denied claim changes nothing, and reports the remaining wait.
pub fn daily_at(store: &mut Store, user_id: u64, guild_id: u64, now: i64) -> (r: Result<
    DailyOutcome,
    PawError,
>)
    requires
        old(store).wf(),
    ensures
        daily_post(*old(store), *final(store), user_id, guild_id, now, r),
{
    let last = store.db_get_last_daily(user_id, guild_id);
    if !gate_check(DAILY_INTERVAL_SECS, last, now) {
        return Ok(
            DailyOutcome::RateLimited { wait_secs: compute_wait(DAILY_INTERVAL_SECS, last, now) },
        );
    }
    store.db_update_last_daily(user_id, guild_id, now);
    let ghost mid = *store;
    let res = store.db_update_paw_count(user_id, guild_id, 1);
    proof {
        Store::lemma_same_paw_rows(*old(store), mid);
        Store::lemma_same_limit_rows(mid, *store);
    }
    match res {
        Ok(n) => Ok(DailyOutcome::Granted { new_balance: n }),
        Err(e) => Err(e),
    }
}

/// Claim the daily paw at the current wall-clock time.
pub fn daily(store: &mut Store, user_id: u64, guild_id: u64) -> (r: Result<DailyOutcome, PawError>)
    requires
        old(store).wf(),
    ensures
        exists|now: i64| daily_post(*old(store), *final(store), user_id, guild_id, now, r),
{
    let now = now_timestamp();
    let r = daily_at(store, user_id, guild_id, now);
    r
}

/// Law of rate limiting: after a granted daily claim at time `t`, a second claim
/// at `t2` is denied — leaving the store exactly as it was, with the
/// remaining wait reported — whenever `t2` lies before `t` plus the
/// interval, and is never denied for being early once `t2` reaches it. A
/// denied attempt therefore never moves the recorded claim time.
pub proof fn lemma_daily_regate(
    pre: Store,
    mid: Store,
    post: Store,
    user_id: u64,
    guild_id: u64,
    t: i64,
    t2: i64,
    r1: Result<DailyOutcome, PawError>,
    r2: Result<DailyOutcome, PawError>,
)
    requires
        daily_post(pre, mid, user_id, guild_id, t, r1),
        r1 is Ok && r1->Ok_0 is Granted,
        daily_post(mid, post, user_id, guild_id, t2, r2),
    ensures
        t2 - t < DAILY_INTERVAL_SECS ==> post == mid && r2 == Ok::<DailyOutcome, PawError>(
            DailyOutcome::RateLimited {
                wait_secs: wait_secs_spec(DAILY_INTERVAL_SECS as int, t as int, t2 as int) as i64,
            },
        ),
        t2 - t >= DAILY_INTERVAL_SECS ==> !(r2 is Ok && r2->Ok_0 is RateLimited),
{
    assert(mid.last_daily_of(user_id, guild_id) == t);
    if t2 - t < DAILY_INTERVAL_SECS {
        match r2 {
            Ok(DailyOutcome::RateLimited { wait_secs }) => {
                assert(0 <= wait_secs_spec(DAILY_INTERVAL_SECS as int, t as int, t2 as int)
                    <= i64::MAX);
            },
            Ok(DailyOutcome::Granted { .. }) => {
                assert(false);
            },
            Err(_) => {
                assert(false);
            },
        }
    }
}

/// Everything a donation may do to the store.
pub open spec fn give_post(
    pre: Store,
    post: Store,
    user_id: u64,
    guild_id: u64,
    target_user: u64,
    count: u32,
    r: Result<GiveOutcome, PawError>,
) -> bool {
    let bal = pre.balance_of(user_id, guild_id);
    let target_bal = pre.balance_of(target_user, guild_id);
    &&& post.wf()
    &&& post.settings_rows() == pre.settings_rows()
    &&& post.limit_rows() == pre.limit_rows()
    &&& match r {
        Ok(GiveOutcome::SelfTarget) => target_user == user_id && post == pre,
        Ok(GiveOutcome::InsufficientFunds) => {
            &&& target_user != user_id
            &&& bal < count
            &&& post == pre
        },
        Ok(GiveOutcome::Given { new_caller_balance }) => {
            &&& target_user != user_id
            &&& bal >= count
            &&& target_bal + count <= MAX_PAW_COUNT
            &&& new_caller_balance == bal - count
            &&& post.balance_of(user_id, guild_id) == new_caller_balance
            &&& post.balance_of(target_user, guild_id) == target_bal + count
            &&& two_account_unchanged(pre, post, user_id, target_user, guild_id)
        },
        Err(e) => {
            // The receiving account cannot hold that many; the transfer is
            // one atomic step, so neither balance moved.
            &&& e == PawError::Overflow
            &&& target_user != user_id
            &&& bal >= count
            &&& target_bal + count > MAX_PAW_COUNT
            &&& post == pre
        },
    }
}

/// Balances of every key other than these two accounts of the guild are the
/// same in both stores.
pub open spec fn two_account_unchanged(
    pre: Store,
    post: Store,
    user_a: u64,
    user_b: u64,
    guild_id: u64,
) -> bool {
    &&& forall|u: u64, g: u64|
        !(u == user_a && g == guild_id) && !(u == user_b && g == guild_id)
            ==> #[trigger] post.balance_of(u, g) == pre.balance_of(u, g)
    &&& forall|u: u64, g: u64|
        !(u == user_a && g == guild_id) && !(u == user_b && g == guild_id)
            ==> #[trigger] post.has_paw_row(u, g) == pre.has_paw_row(u, g)
}

/// Donate paws to another user: refused for self-donations and for more
/// paws than the donor holds; otherwise both balances move in one atomic
/// step.
pub fn give(store: &mut Store, user_id: u64, guild_id: u64, target_user: u64, count: u32) -> (r:
    Result<GiveOutcome, PawError>)
    requires
        old(store).wf(),
    ensures
        give_post(*old(store), *final(store), user_id, guild_id, target_user, count, r),
{
    if target_user == user_id {
        return Ok(GiveOutcome::SelfTarget);
    }
    let bal = store.db_get_paw_count(user_id, guild_id);
    if bal < count as u64 {
        return Ok(GiveOutcome::InsufficientFunds);
    }
    match store.transfer_paws(user_id, target_user, guild_id, count as u64) {
        Ok((nf, _nt)) => Ok(GiveOutcome::Given { new_caller_balance: nf }),
        Err(PawError::Overflow) => Err(PawError::Overflow),
        Err(PawError::InsufficientBalance) => vstd::pervasive::unreached(),
    }
}

/// Everything a gamble at time `now` may do to the store.
pub open spec fn gamble_post(
    pre: Store,
    post: Store,
    user_id: u64,
    guild_id: u64,
    stake: u8,
    now: i64,
    r: Result<GambleOutcome, PawError>,
) -> bool {
    let last = pre.last_gamble_of(user_id, guild_id);
    let interval = pre.settings_of(guild_id).gamble_interval.0;
    let chance = pre.settings_of(guild_id).gamble_chance;
    let bal = pre.balance_of(user_id, guild_id);
    &&& post.wf()
    &&& post.settings_rows() == pre.settings_rows()
    &&& match r {
        Ok(GambleOutcome::RateLimited { wait_secs }) => {
            &&& !gate_allows(interval as int, last as int, now as int)
            &&& wait_secs == wait_secs_spec(interval as int, last as int, now as int)
            &&& post == pre
        },
        Ok(GambleOutcome::InvalidStake) => {
            &&& gate_allows(interval as int, last as int, now as int)
            &&& stake > MAX_GAMBLE_STAKE
            &&& post == pre
        },
        Ok(GambleOutcome::InsufficientFunds) => {
            &&& gate_allows(interval as int, last as int, now as int)
            &&& stake <= MAX_GAMBLE_STAKE
            &&& bal < stake
            &&& post == pre
        },
        Ok(GambleOutcome::Played { won, new_balance }) => {
            &&& gate_allows(interval as int, last as int, now as int)
            &&& stake <= MAX_GAMBLE_STAKE
            &&& bal >= stake
            &&& (chance == 100 ==> won)
            &&& (chance == 0 ==> !won)
            &&& (won ==> bal + stake <= MAX_PAW_COUNT && new_balance == bal + stake)
            &&& (!won ==> new_balance == bal - stake)
            &&& post.balance_of(user_id, guild_id) == new_balance
            &&& post.limits_of(user_id, guild_id).last_gamble == Some(now)
            &&& post.limits_of(user_id, guild_id).last_daily == pre.limits_of(
                user_id,
                guild_id,
            ).last_daily
            &&& post.limits_of(user_id, guild_id).last_steal == pre.limits_of(
                user_id,
                guild_id,
            ).last_steal
            &&& unrelated_unchanged(pre, post, user_id, guild_id)
        },
        Err(e) => {
            // A winning draw could not be paid out: the stamp was already
            // committed as its own atomic step, the balance is untouched.
            &&& e == PawError::Overflow
            &&& gate_allows(interval as int, last as int, now as int)
            &&& stake <= MAX_GAMBLE_STAKE
            &&& bal >= stake
            &&& bal + stake > MAX_PAW_COUNT
            &&& post.paw_rows() == pre.paw_rows()
            &&& post.limits_of(user_id, guild_id).last_gamble == Some(now)
            &&& post.limits_of(user_id, guild_id).last_daily == pre.limits_of(
                user_id,
                guild_id,
            ).last_daily
            &&& post.limits_of(user_id, guild_id).last_steal == pre.limits_of(
                user_id,
                guild_id,
            ).last_steal
            &&& unrelated_unchanged(pre, post, user_id, guild_id)
        },
    }
}

/// Gamble a stake of up to ten paws at time `now`. Gated by the guild's
/// gamble cool-down; a played stake is won or lost in full by a fresh draw
/// at the guild's gamble chance, and the gamble time is recorded before the
/// draw. A denied gamble changes nothing.
pub fn gamble_at(store: &mut Store, user_id: u64, guild_id: u64, stake: u8, now: i64) -> (r: Result<
    GambleOutcome,
    PawError,
>)
    requires
        old(store).wf(),
    ensures
        gamble_post(*old(store), *final(store), user_id, guild_id, stake, now, r),
{
    let last = store.db_get_last_gamble(user_id, guild_id);
    let settings = store.db_get_server_settings(guild_id);
    let interval = settings.gamble_interval.duration();
    if !gate_check(interval, last, now) {
        return Ok(GambleOutcome::RateLimited { wait_secs: compute_wait(interval, last, now) });
    }
    if stake > MAX_GAMBLE_STAKE {
        return Ok(GambleOutcome::InvalidStake);
    }
    let bal = store.db_get_paw_count(user_id, guild_id);
    if bal < stake as u64 {
        return Ok(GambleOutcome::InsufficientFunds);
    }
    store.db_update_last_gamble(user_id, guild_id, now);
    let ghost mid = *store;
    proof {
        Store::lemma_same_paw_rows(*old(store), mid);
    }
    let won = resolve_outcome(settings.gamble_chance);
    let delta: i64 = if won {
        stake as i64
    } else {
        -(stake as i64)
    };
    let res = store.db_update_paw_count(user_id, guild_id, delta);
    proof {
        Store::lemma_same_limit_rows(mid, *store);
    }
    match res {
        Ok(n) => Ok(GambleOutcome::Played { won, new_balance: n }),
        Err(PawError::Overflow) => Err(PawError::Overflow),
        Err(PawError::InsufficientBalance) => vstd::pervasive::unreached(),
    }
}

/// Gamble a stake at the current wall-clock time.
pub fn gamble(store: &mut Store, user_id: u64, guild_id: u64, stake: u8) -> (r: Result<
    GambleOutcome,
    PawError,
>)
    requires
        old(store).wf(),
    ensures
        exists|now: i64|
            gamble_post(*old(store), *final(store), user_id, guild_id, stake, now, r),
{
    let now = now_timestamp();
    let r = gamble_at(store, user_id, guild_id, stake, now);
    r
}

/// Law of rate limiting for gambles: after a played gamble at time `t`, a
/// second gamble at `t2` is denied — leaving the store exactly as it was,
/// with the remaining wait reported — whenever `t2` lies before `t` plus the
/// guild's gamble interval, and is never denied for being early once `t2`
/// reaches it. A denied attempt therefore never moves the recorded time.
pub proof fn lemma_gamble_regate(
    pre: Store,
    mid: Store,
    post: Store,
    user_id: u64,
    guild_id: u64,
    stake1: u8,
    stake2: u8,
    t: i64,
    t2: i64,
    r1: Result<GambleOutcome, PawError>,
    r2: Result<GambleOutcome, PawError>,
)
    requires
        pre.wf(),
        gamble_post(pre, mid, user_id, guild_id, stake1, t, r1),
        r1 is Ok && r1->Ok_0 is Played,
        gamble_post(mid, post, user_id, guild_id, stake2, t2, r2),
    ensures
        t2 - t < pre.settings_of(guild_id).gamble_interval.0 ==> post == mid && r2 == Ok::<
            GambleOutcome,
            PawError,
        >(
            GambleOutcome::RateLimited {
                wait_secs: wait_secs_spec(
                    pre.settings_of(guild_id).gamble_interval.0 as int,
                    t as int,
                    t2 as int,
                ) as i64,
            },
        ),
        t2 - t >= pre.settings_of(guild_id).gamble_interval.0 ==> !(r2 is Ok
            && r2->Ok_0 is RateLimited),
{
    assert(mid.last_gamble_of(user_id, guild_id) == t);
    Store::lemma_same_settings_rows(pre, mid);
    assert(mid.settings_of(guild_id) == pre.settings_of(guild_id));
    let interval = pre.settings_of(guild_id).gamble_interval.0;
    if t2 - t < interval {
        match r2 {
            Ok(GambleOutcome::RateLimited { wait_secs }) => {
                assert(0 <= wait_secs_spec(interval as int, t as int, t2 as int) <= i64::MAX);
            },
            Ok(GambleOutcome::InvalidStake) => {
                assert(false);
            },
            Ok(GambleOutcome::InsufficientFunds) => {
                assert(false);
            },
            Ok(GambleOutcome::Played { .. }) => {
                assert(false);
            },
            Err(_) => {
                assert(false);
            },
        }
    }
}

/// Everything a steal attempt at time `now` may do to the store.
pub open spec fn steal_post(
    pre: Store,
    post: Store,
    user_id: u64,
    guild_id: u64,
    target_user: u64,
    amount: u64,
    now: i64,
    r: Result<StealOutcome, PawError>,
) -> bool {
    let last = pre.last_steal_of(user_id, guild_id);
    let interval = pre.settings_of(guild_id).steal_interval.0;
    let chance = pre.settings_of(guild_id).steal_chance;
    let bal = pre.balance_of(user_id, guild_id);
    let tbal = pre.balance_of(target_user, guild_id);
    &&& post.wf()
    &&& post.settings_rows() == pre.settings_rows()
    &&& match r {
        Ok(StealOutcome::SelfTarget) => target_user == user_id && post == pre,
        Ok(StealOutcome::InsufficientCaller) => {
            &&& target_user != user_id
            &&& bal < amount
            &&& post == pre
        },
        Ok(StealOutcome::InsufficientTarget) => {
            &&& target_user != user_id
            &&& bal >= amount
            &&& tbal < amount
            &&& post == pre
        },
        Ok(StealOutcome::RateLimited { wait_secs }) => {
            &&& target_user != user_id
            &&& bal >= amount
            &&& tbal >= amount
            &&& !gate_allows(interval as int, last as int, now as int)
            &&& wait_secs == wait_secs_spec(interval as int, last as int, now as int)
            &&& post == pre
        },
        Ok(StealOutcome::Played { won, new_caller_balance, new_target_balance }) => {
            &&& target_user != user_id
            &&& bal >= amount
            &&& tbal >= amount
            &&& gate_allows(interval as int, last as int, now as int)
            &&& (chance == 100 ==> won)
            &&& (chance == 0 ==> !won)
            &&& (won ==> bal + amount <= MAX_PAW_COUNT && new_caller_balance == bal + amount
                && new_target_balance == tbal - amount)
            &&& (!won ==> tbal + amount <= MAX_PAW_COUNT && new_caller_balance == bal - amount
                && new_target_balance == tbal + amount)
            &&& post.balance_of(user_id, guild_id) == new_caller_balance
            &&& post.balance_of(target_user, guild_id) == new_target_balance
            &&& post.limits_of(user_id, guild_id).last_steal == Some(now)
            &&& post.limits_of(user_id, guild_id).last_daily == pre.limits_of(
                user_id,
                guild_id,
            ).last_daily
            &&& post.limits_of(user_id, guild_id).last_gamble == pre.limits_of(
                user_id,
                guild_id,
            ).last_gamble
            &&& two_account_unchanged(pre, post, user_id, target_user, guild_id)
            &&& forall|u: u64, g: u64|
                !(u == user_id && g == guild_id) ==> #[trigger] post.limits_of(u, g)
                    == pre.limits_of(u, g)
        },
        Err(e) => {
            // The drawn transfer could not be paid out: the stamp was
            // already committed as its own atomic step, and the transfer
            // itself is all-or-nothing, so both balances are untouched.
            &&& e == PawError::Overflow
            &&& target_user != user_id
            &&& bal >= amount
            &&& tbal >= amount
            &&& gate_allows(interval as int, last as int, now as int)
            &&& (bal + amount > MAX_PAW_COUNT || tbal + amount > MAX_PAW_COUNT)
            &&& post.paw_rows() == pre.paw_rows()
            &&& post.limits_of(user_id, guild_id).last_steal == Some(now)
            &&& post.limits_of(user_id, guild_id).last_daily == pre.limits_of(
                user_id,
                guild_id,
            ).last_daily
            &&& post.limits_of(user_id, guild_id).last_gamble == pre.limits_of(
                user_id,
                guild_id,
            ).last_gamble
            &&& forall|u: u64, g: u64|
                !(u == user_id && g == guild_id) ==> #[trigger] post.limits_of(u, g)
                    == pre.limits_of(u, g)
        },
    }
}

/// Law of rate limiting for steals: after a played steal at time `t`, a
/// second attempt at `t2` against a target both accounts can still afford is
/// denied — leaving the store exactly as it was, with the remaining wait
/// reported — whenever `t2` lies before `t` plus the guild's steal interval,
/// and is never denied for being early once `t2` reaches it.
pub proof fn lemma_steal_regate(
    pre: Store,
    mid: Store,
    post: Store,
    user_id: u64,
    guild_id: u64,
    target1: u64,
    target2: u64,
    amount1: u64,
    amount2: u64,
    t: i64,
    t2: i64,
    r1: Result<StealOutcome, PawError>,
    r2: Result<StealOutcome, PawError>,
)
    requires
        pre.wf(),
        steal_post(pre, mid, user_id, guild_id, target1, amount1, t, r1),
        r1 is Ok && r1->Ok_0 is Played,
        steal_post(mid, post, user_id, guild_id, target2, amount2, t2, r2),
        target2 != user_id,
        mid.balance_of(user_id, guild_id) >= amount2,
        mid.balance_of(target2, guild_id) >= amount2,
    ensures
        t2 - t < pre.settings_of(guild_id).steal_interval.0 ==> post == mid && r2 == Ok::<
            StealOutcome,
            PawError,
        >(
            StealOutcome::RateLimited {
                wait_secs: wait_secs_spec(
                    pre.settings_of(guild_id).steal_interval.0 as int,
                    t as int,
                    t2 as int,
                ) as i64,
            },
        ),
        t2 - t >= pre.settings_of(guild_id).steal_interval.0 ==> !(r2 is Ok
            && r2->Ok_0 is RateLimited),
{
    assert(mid.limits_of(user_id, guild_id).last_steal == Some(t));
    assert(mid.last_steal_of(user_id, guild_id) == t);
    Store::lemma_same_settings_rows(pre, mid);
    assert(mid.settings_of(guild_id) == pre.settings_of(guild_id));
    let interval = pre.settings_of(guild_id).steal_interval.0;
    if t2 - t < interval {
        match r2 {
            Ok(StealOutcome::RateLimited { wait_secs }) => {
                assert(0 <= wait_secs_spec(interval as int, t as int, t2 as int) <= i64::MAX);
            },
            Ok(StealOutcome::SelfTarget) => {
                assert(false);
            },
            Ok(StealOutcome::InsufficientCaller) => {
                assert(false);
            },
            Ok(StealOutcome::InsufficientTarget) => {
                assert(false);
            },
            Ok(StealOutcome::Played { .. }) => {
                assert(false);
            },
            Err(_) => {
                assert(false);
            },
        }
    }
}

/// Try to steal paws from another user at time `now`. Refused for
/// self-targets, for more paws than the thief holds, for more than the
/// target holds, and while the guild's steal cool-down runs; every refusal
/// leaves the store untouched. Once allowed, the steal time is recorded and
/// a fresh draw at the guild's steal chance decides the direction: won moves
/// the amount from the target to the thief, lost moves it from the thief to
/// the target, both balances in one atomic step either way.
pub fn steal_at(
    store: &mut Store,
    user_id: u64,
    guild_id: u64,
    target_user: u64,
    amount: u64,
    now: i64,
) -> (r: Result<StealOutcome, PawError>)
    requires
        old(store).wf(),
    ensures
        steal_post(*old(store), *final(store), user_id, guild_id, target_user, amount, now, r),
{
    if target_user == user_id {
        return Ok(StealOutcome::SelfTarget);
    }
    let bal = store.db_get_paw_count(user_id, guild_id);
    if bal < amount {
        return Ok(StealOutcome::InsufficientCaller);
    }
    let tbal = store.db_get_paw_count(target_user, guild_id);
    if tbal < amount {
        return Ok(StealOutcome::InsufficientTarget);
    }
    let settings = store.db_get_server_settings(guild_id);
    let last = store.db_get_last_steal(user_id, guild_id);
    let interval = settings.steal_interval.duration();
    if !gate_check(interval, last, now) {
        return Ok(StealOutcome::RateLimited { wait_secs: compute_wait(interval, last, now) });
    }
    store.db_update_last_steal(user_id, guild_id, now);
    let ghost mid = *store;
    proof {
        Store::lemma_same_paw_rows(*old(store), mid);
    }
    let won = resolve_outcome(settings.steal_chance);
    let res = if won {
        store.transfer_paws(target_user, user_id, guild_id, amount)
    } else {
        store.transfer_paws(user_id, target_user, guild_id, amount)
    };
    proof {
        Store::lemma_same_limit_rows(mid, *store);
    }
    match res {
        Ok((nf, nt)) => {
            if won {
                Ok(
                    StealOutcome::Played {
                        won,
                        new_caller_balance: nt,
                        new_target_balance: nf,
                    },
                )
            } else {
                Ok(
                    StealOutcome::Played {
                        won,
                        new_caller_balance: nf,
                        new_target_balance: nt,
                    },
                )
            }
        },
        Err(PawError::Overflow) => Err(PawError::Overflow),
        Err(PawError::InsufficientBalance) => vstd::pervasive::unreached(),
    }
}

/// Try to steal at the current wall-clock time.
pub fn steal(store: &mut Store, user_id: u64, guild_id: u64, target_user: u64, amount: u64) -> (r:
    Result<StealOutcome, PawError>)
    requires
        old(store).wf(),
    ensures
        exists|now: i64|
            steal_post(
                *old(store),
                *final(store),
                user_id,
                guild_id,
                target_user,
                amount,
                now,
                r,
            ),
{
    let now = now_timestamp();
    let r = steal_at(store, user_id, guild_id, target_user, amount, now);
    r
}

/// One leaderboard page plus the guild aggregates and the caller's own
/// standing.
pub fn top(store: &Store, guild_id: u64, page: u8, user_id: u64) -> (r: TopView)
    requires
        store.wf(),
        page >= 1,
    ensures
        exists|s: Seq<PawCount>|
            #[trigger] store.guild_listing(guild_id, s) && r.entries@ == crate::store::page_of(
                s,
                page,
            ),
        r.farmer_count == store.farmer_count_of(guild_id),
        r.total_paws == if store.total_paws_of(guild_id) > u64::MAX {
            u64::MAX as int
        } else {
            store.total_paws_of(guild_id)
        },
        r.caller_balance == store.balance_of(user_id, guild_id),
        r.caller_rank == if store.has_paw_row(user_id, guild_id) {
            1 + store.richer_count_of(guild_id, store.balance_of(user_id, guild_id))
        } else {
            0int
        },
{
    let (entries, farmer_count, total_paws) = store.db_get_leaderboard(guild_id, page);
    let caller_balance = store.db_get_paw_count(user_id, guild_id);
    let caller_rank = store.db_get_rank(user_id, guild_id);
    TopView { entries, farmer_count, total_paws, caller_rank, caller_balance }
}

/// The unit the wait message counts in.
#[derive(Clone, Copy, Debug, PartialEq, Eq, Structural)]
pub enum TimeUnit {
    Days,
    Hours,
    Minutes,
    Seconds,
}

/// Break a remaining wait into the number and unit a caller displays: whole
/// days beyond one day, else whole hours beyond one hour, else whole minutes
/// beyond one minute, else seconds.
pub fn time_left_parts(remaining_secs: i64) -> (r: (i64, TimeUnit))
    requires
        remaining_secs >= 0,
    ensures
        remaining_secs > 86400 ==> r.0 == remaining_secs / 86400 && r.1 == TimeUnit::Days,
        3600 < remaining_secs <= 86400 ==> r.0 == remaining_secs / 3600 && r.1 == TimeUnit::Hours,
        60 < remaining_secs <= 3600 ==> r.0 == remaining_secs / 60 && r.1 == TimeUnit::Minutes,
        remaining_secs <= 60 ==> r.0 == remaining_secs && r.1 == TimeUnit::Seconds,
{
    if remaining_secs > 86400 {
        (remaining_secs / 86400, TimeUnit::Days)
    } else if remaining_secs > 3600 {
        (remaining_secs / 3600, TimeUnit::Hours)
    } else if remaining_secs > 60 {
        (remaining_secs / 60, TimeUnit::Minutes)
    } else {
        (remaining_secs, TimeUnit::Seconds)
    }
}

/// Read how many paws a user holds in a guild; zero when they hold none.
pub fn balance(store: &Store, user_id: u64, guild_id: u64) -> (r: u64)
    requires
        store.wf(),
    ensures
        r == store.balance_of(user_id, guild_id),
{
    store.db_get_paw_count(user_id, guild_id)
}

} // verus!
