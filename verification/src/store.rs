//! The shared data store: balances, per-action timestamps and per-guild
//! settings, each a row set keyed by (user, guild) or by guild alone.
//!
//! Every mutation is a single atomic step on one logical row, so the
//! non-negativity check and the update it guards can never be separated.

use vstd::prelude::*;
use crate::structs::{PawCount, ServerSettings, UserLimits};
use crate::types::MyDuration;

verus! {

/// Largest balance the store can hold, matching a signed 64-bit column.
pub const MAX_PAW_COUNT: u64 = 0x7fff_ffff_ffff_ffff;

/// Timestamp handed out for a daily claim that never happened: far enough in
/// the past that a first claim is always allowed.
pub const DAILY_SENTINEL_SECS: i64 = 1081641600;

/// Timestamp handed out for a steal or gamble that never happened.
pub const LIMIT_SENTINEL_SECS: i64 = 631152000;

/// Gamble cool-down used when a guild has no settings row: ten minutes.
pub const DEFAULT_GAMBLE_INTERVAL_SECS: i64 = 600;

/// Success chance, in percent, used when a guild has no settings row.
pub const DEFAULT_CHANCE: i8 = 50;

/// One balance row: a user's paw count within one guild.
pub struct PawRow {
    pub user_id: u64,
    pub server_id: u64,
    pub count: u64,
}

/// One rate-limit row: a user's action timestamps within one guild.
pub struct LimitRow {
    pub user_id: u64,
    pub server_id: u64,
    pub limits: UserLimits,
}

/// One settings row for a guild.
pub struct SettingsRow {
    pub server_id: u64,
    pub settings: ServerSettings,
}

/// Why a balance mutation was refused. The row is left unchanged either way.
#[derive(Clone, Copy, Debug, PartialEq, Eq, Structural)]
pub enum PawError {
    /// The requested change would drive the balance below zero.
    InsufficientBalance,
    /// The requested change would drive the balance above `MAX_PAW_COUNT`.
    Overflow,
}

/// The settings used for a guild without a settings row.
pub open spec fn default_settings() -> ServerSettings {
    ServerSettings {
        steal_interval: MyDuration(0),
        gamble_interval: MyDuration(DEFAULT_GAMBLE_INTERVAL_SECS),
        gamble_chance: DEFAULT_CHANCE,
        steal_chance: DEFAULT_CHANCE,
    }
}

/// A rate-limit record with no action ever recorded.
pub open spec fn empty_limits() -> UserLimits {
    UserLimits { last_steal: None, last_daily: None, last_gamble: None }
}

/// How many balance rows of this guild the row sequence holds.
pub open spec fn guild_count_in(rows: Seq<PawRow>, server_id: u64) -> int
    decreases rows.len(),
{
    if rows.len() == 0 {
        0
    } else {
        guild_count_in(rows.drop_last(), server_id) + if rows.last().server_id == server_id {
            1int
        } else {
            0int
        }
    }
}

/// The sum of the balances of this guild over the row sequence.
pub open spec fn guild_total_in(rows: Seq<PawRow>, server_id: u64) -> int
    decreases rows.len(),
{
    if rows.len() == 0 {
        0
    } else {
        guild_total_in(rows.drop_last(), server_id) + if rows.last().server_id == server_id {
            rows.last().count as int
        } else {
            0int
        }
    }
}

/// How many balance rows of this guild hold strictly more than `c` paws.
pub open spec fn richer_count_in(rows: Seq<PawRow>, server_id: u64, c: u64) -> int
    decreases rows.len(),
{
    if rows.len() == 0 {
        0
    } else {
        richer_count_in(rows.drop_last(), server_id, c) + if rows.last().server_id == server_id
            && rows.last().count > c {
            1int
        } else {
            0int
        }
    }
}

/// Entries in weakly decreasing order of count.
pub open spec fn sorted_desc(s: Seq<PawCount>) -> bool {
    forall|i: int, j: int| 0 <= i < j < s.len() ==> s[i].count >= s[j].count
}

/// The slice of a full listing that one ten-row page shows: rows
/// `(page - 1) * 10` up to but not including `page * 10`, clipped to the
/// listing. Pages are numbered from one; a page past the end is empty.
pub open spec fn page_of(s: Seq<PawCount>, page: u8) -> Seq<PawCount> {
    let off = (page - 1) * 10;
    if off >= s.len() {
        Seq::<PawCount>::empty()
    } else if off + 10 <= s.len() {
        s.subrange(off, off + 10)
    } else {
        s.subrange(off, s.len() as int)
    }
}

/// The balance left by one delta: applied exactly when the result stays
/// within the ledger's range, refused — leaving the balance — otherwise.
pub open spec fn delta_step(bal: int, delta: int) -> int {
    if 0 <= bal + delta <= MAX_PAW_COUNT {
        bal + delta
    } else {
        bal
    }
}

/// The balance left by a whole sequence of deltas, each applied or refused
/// in turn.
pub open spec fn apply_deltas(bal: int, ds: Seq<int>) -> int
    decreases ds.len(),
{
    if ds.len() == 0 {
        bal
    } else {
        apply_deltas(delta_step(bal, ds[0]), ds.drop_first())
    }
}

/// The sum of a sequence of integers.
pub open spec fn seq_sum(ds: Seq<int>) -> int
    decreases ds.len(),
{
    if ds.len() == 0 {
        0
    } else {
        ds[0] + seq_sum(ds.drop_first())
    }
}

proof fn lemma_seq_sum_cons(x: int, s: Seq<int>)
    ensures
        seq_sum(seq![x] + s) == x + seq_sum(s),
{
    assert((seq![x] + s).drop_first() =~= s);
    assert((seq![x] + s).len() == 1 + s.len());
    assert((seq![x] + s)[0] == x);
}

/// Law of the ledger: over any sequence of deltas on one key, the balance
/// ends at the starting balance plus the sum of all deltas, provided no
/// running prefix ever leaves the ledger's range; each step is the step the
/// store's mutation performs, so a refused delta leaves the balance as it
/// was.
pub proof fn lemma_deltas_sum(bal: int, ds: Seq<int>)
    requires
        forall|k: int|
            0 <= k <= ds.len() ==> 0 <= bal + seq_sum(#[trigger] ds.take(k)) <= MAX_PAW_COUNT,
    ensures
        apply_deltas(bal, ds) == bal + seq_sum(ds),
    decreases ds.len(),
{
    assert(ds.take(0) =~= Seq::<int>::empty());
    if ds.len() == 0 {
        assert(ds =~= ds.take(0));
    } else {
        let tail = ds.drop_first();
        assert(ds.take(1) =~= seq![ds[0]]);
        assert(seq![ds[0]].drop_first() =~= Seq::<int>::empty());
        assert(seq_sum(ds.take(1)) == ds[0]);
        let bal2 = bal + ds[0];
        assert(0 <= bal2 <= MAX_PAW_COUNT);
        assert(delta_step(bal, ds[0]) == bal2);
        assert forall|k: int| 0 <= k <= tail.len() implies 0 <= bal2 + seq_sum(
            #[trigger] tail.take(k),
        ) <= MAX_PAW_COUNT by {
            assert(ds.take(k + 1) =~= seq![ds[0]] + tail.take(k));
            lemma_seq_sum_cons(ds[0], tail.take(k));
            assert(0 <= bal + seq_sum(ds.take(k + 1)) <= MAX_PAW_COUNT);
        }
        lemma_deltas_sum(bal2, tail);
        lemma_seq_sum_cons(ds[0], tail);
        assert(ds =~= seq![ds[0]] + tail);
    }
}

proof fn lemma_sum_ones(k: nat)
    ensures
        seq_sum(Seq::new(k, |i: int| 1int)) == k,
    decreases k,
{
    if k > 0 {
        assert(Seq::new(k, |i: int| 1int).drop_first() =~= Seq::new(
            (k - 1) as nat,
            |i: int| 1int,
        ));
        lemma_sum_ones((k - 1) as nat);
    }
}

/// Law of the ledger under contention: `n` unit increments on a fresh key —
/// in whatever order the store serialises them — end at exactly `n`; none is
/// lost and none applied twice.
pub proof fn lemma_unit_increments(n: nat)
    requires
        n <= MAX_PAW_COUNT,
    ensures
        apply_deltas(0, Seq::new(n, |i: int| 1int)) == n,
{
    let ds = Seq::new(n, |i: int| 1int);
    assert forall|k: int| 0 <= k <= ds.len() implies 0 <= 0 + seq_sum(#[trigger] ds.take(k))
        <= MAX_PAW_COUNT by {
        assert(ds.take(k) =~= Seq::new(k as nat, |i: int| 1int));
        lemma_sum_ones(k as nat);
    }
    lemma_deltas_sum(0, ds);
    lemma_sum_ones(n);
}

/// The guild aggregates are non-negative, and the row count of a guild never
/// exceeds the number of rows.
proof fn lemma_guild_aggregates_bounds(rows: Seq<PawRow>, server_id: u64)
    ensures
        0 <= guild_count_in(rows, server_id) <= rows.len(),
        0 <= guild_total_in(rows, server_id),
    decreases rows.len(),
{
    if rows.len() > 0 {
        lemma_guild_aggregates_bounds(rows.drop_last(), server_id);
    }
}

/// The richer-count never exceeds the number of rows.
proof fn lemma_richer_le_len(rows: Seq<PawRow>, server_id: u64, c: u64)
    ensures
        0 <= richer_count_in(rows, server_id, c) <= rows.len(),
    decreases rows.len(),
{
    if rows.len() > 0 {
        lemma_richer_le_len(rows.drop_last(), server_id, c);
    }
}

/// When some row does not count as richer, the richer-count stays strictly
/// below the number of rows.
proof fn lemma_richer_lt_len(rows: Seq<PawRow>, server_id: u64, c: u64, i: int)
    requires
        0 <= i < rows.len(),
        !(rows[i].server_id == server_id && rows[i].count > c),
    ensures
        richer_count_in(rows, server_id, c) <= rows.len() - 1,
    decreases rows.len(),
{
    if i == rows.len() - 1 {
        lemma_richer_le_len(rows.drop_last(), server_id, c);
    } else {
        assert(rows.drop_last()[i] == rows[i]);
        lemma_richer_lt_len(rows.drop_last(), server_id, c, i);
    }
}

/// Order entries by count, largest first, by insertion into a sorted list.
/// The result holds exactly the given entries.
fn sort_entries_desc(v: Vec<PawCount>) -> (r: Vec<PawCount>)
    ensures
        sorted_desc(r@),
        r@.to_multiset() == v@.to_multiset(),
{
    let n = v.len();
    let mut out: Vec<PawCount> = Vec::new();
    let mut k: usize = 0;
    proof {
        assert(out@ =~= v@.take(0));
    }
    while k < n
        invariant
            n == v@.len(),
            k <= n,
            sorted_desc(out@),
            out@.to_multiset() == v@.take(k as int).to_multiset(),
        decreases n - k,
    {
        let x = v[k];
        let m = out.len();
        let mut idx: usize = 0;
        while idx < m && out[idx].count >= x.count
            invariant
                m == out@.len(),
                idx <= m,
                forall|t: int| 0 <= t < idx ==> (#[trigger] out@[t]).count >= x.count,
            decreases m - idx,
        {
            idx = idx + 1;
        }
        let ghost prev = out@;
        out.insert(idx, x);
        proof {
            broadcast use vstd::seq_lib::group_to_multiset_ensures;

            prev.insert_ensures(idx as int, x);
            assert forall|a: int, b: int| 0 <= a < b < out@.len() implies out@[a].count
                >= out@[b].count by {
                if a < idx && b < idx {
                    assert(out@[a] == prev[a] && out@[b] == prev[b]);
                } else if a < idx && b == idx {
                    assert(out@[a] == prev[a]);
                } else if a < idx && b > idx {
                    assert(out@[a] == prev[a] && out@[b] == prev[b - 1]);
                } else if a == idx {
                    assert(out@[b] == prev[b - 1]);
                    assert(idx < m ==> prev[idx as int].count < x.count);
                    assert(prev[b - 1].count <= prev[idx as int].count);
                } else {
                    assert(out@[a] == prev[a - 1] && out@[b] == prev[b - 1]);
                }
            }
            assert(v@.take(k as int + 1).drop_last() =~= v@.take(k as int));
            assert(v@.take(k as int + 1) =~= v@.take(k as int).push(x));
        }
        k = k + 1;
    }
    proof {
        assert(v@.take(n as int) =~= v@);
    }
    out
}

/// The in-memory store. All three row sets start empty; rows appear on first
/// mutation (balances, limits) or by provisioning (settings).
pub struct Store {
    paw_counts: Vec<PawRow>,
    user_limits: Vec<LimitRow>,
    server_settings: Vec<SettingsRow>,
}

impl Store {
    /// The balance rows, in storage order.
    pub closed spec fn paw_rows(self) -> Seq<PawRow> {
        self.paw_counts@
    }

    /// The rate-limit rows, in storage order.
    pub closed spec fn limit_rows(self) -> Seq<LimitRow> {
        self.user_limits@
    }

    /// The settings rows, in storage order.
    pub closed spec fn settings_rows(self) -> Seq<SettingsRow> {
        self.server_settings@
    }

    /// Each row set is keyed: no two rows share a key. Balances never exceed
    /// `MAX_PAW_COUNT`, and every settings row is well formed.
    pub open spec fn wf(self) -> bool {
        &&& forall|i: int, j: int|
            0 <= i < j < self.paw_rows().len() ==> !(#[trigger] self.paw_rows()[i].user_id
                == #[trigger] self.paw_rows()[j].user_id && self.paw_rows()[i].server_id
                == self.paw_rows()[j].server_id)
        &&& forall|i: int| 0 <= i < self.paw_rows().len() ==> #[trigger] self.paw_rows()[i].count
            <= MAX_PAW_COUNT
        &&& forall|i: int, j: int|
            0 <= i < j < self.limit_rows().len() ==> !(#[trigger] self.limit_rows()[i].user_id
                == #[trigger] self.limit_rows()[j].user_id && self.limit_rows()[i].server_id
                == self.limit_rows()[j].server_id)
        &&& forall|i: int, j: int|
            0 <= i < j < self.settings_rows().len() ==> #[trigger] self.settings_rows()[i].server_id
                != #[trigger] self.settings_rows()[j].server_id
        &&& forall|i: int| 0 <= i < self.settings_rows().len()
            ==> (#[trigger] self.settings_rows()[i].settings).wf()
    }

    /// Whether a balance row exists for this user in this guild.
    pub open spec fn has_paw_row(self, user_id: u64, server_id: u64) -> bool {
        exists|i: int|
            0 <= i < self.paw_rows().len() && (#[trigger] self.paw_rows()[i]).user_id == user_id
                && self.paw_rows()[i].server_id == server_id
    }

    /// The index of the balance row for this key; meaningful only when
    /// `has_paw_row` holds and the store is well formed.
    pub open spec fn paw_index_of(self, user_id: u64, server_id: u64) -> int {
        choose|i: int|
            0 <= i < self.paw_rows().len() && (#[trigger] self.paw_rows()[i]).user_id == user_id
                && self.paw_rows()[i].server_id == server_id
    }

    /// The balance held by a user in a guild; zero when no row exists.
    pub open spec fn balance_of(self, user_id: u64, server_id: u64) -> u64 {
        if self.has_paw_row(user_id, server_id) {
            self.paw_rows()[self.paw_index_of(user_id, server_id)].count
        } else {
            0
        }
    }

    /// Whether a rate-limit row exists for this user in this guild.
    pub open spec fn has_limit_row(self, user_id: u64, server_id: u64) -> bool {
        exists|i: int|
            0 <= i < self.limit_rows().len() && (#[trigger] self.limit_rows()[i]).user_id == user_id
                && self.limit_rows()[i].server_id == server_id
    }

    /// The index of the rate-limit row for this key.
    pub open spec fn limit_index_of(self, user_id: u64, server_id: u64) -> int {
        choose|i: int|
            0 <= i < self.limit_rows().len() && (#[trigger] self.limit_rows()[i]).user_id == user_id
                && self.limit_rows()[i].server_id == server_id
    }

    /// The action timestamps recorded for a user in a guild; all absent when
    /// no row exists.
    pub open spec fn limits_of(self, user_id: u64, server_id: u64) -> UserLimits {
        if self.has_limit_row(user_id, server_id) {
            self.limit_rows()[self.limit_index_of(user_id, server_id)].limits
        } else {
            empty_limits()
        }
    }

    /// Whether a settings row exists for this guild.
    pub open spec fn has_settings_row(self, server_id: u64) -> bool {
        exists|i: int|
            0 <= i < self.settings_rows().len() && (#[trigger] self.settings_rows()[i]).server_id
                == server_id
    }

    /// The index of the settings row for this guild.
    pub open spec fn settings_index_of(self, server_id: u64) -> int {
        choose|i: int|
            0 <= i < self.settings_rows().len() && (#[trigger] self.settings_rows()[i]).server_id
                == server_id
    }

    /// The settings in force for a guild: its row if one exists, the
    /// documented defaults otherwise.
    pub open spec fn settings_of(self, server_id: u64) -> ServerSettings {
        if self.has_settings_row(server_id) {
            self.settings_rows()[self.settings_index_of(server_id)].settings
        } else {
            default_settings()
        }
    }

    /// The last daily claim by this user in this guild, with the sentinel
    /// standing in for "never".
    pub open spec fn last_daily_of(self, user_id: u64, server_id: u64) -> i64 {
        match self.limits_of(user_id, server_id).last_daily {
            Some(t) => t,
            None => DAILY_SENTINEL_SECS,
        }
    }

    /// The last steal by this user in this guild, with the sentinel standing
    /// in for "never".
    pub open spec fn last_steal_of(self, user_id: u64, server_id: u64) -> i64 {
        match self.limits_of(user_id, server_id).last_steal {
            Some(t) => t,
            None => LIMIT_SENTINEL_SECS,
        }
    }

    /// The last gamble by this user in this guild, with the sentinel standing
    /// in for "never".
    pub open spec fn last_gamble_of(self, user_id: u64, server_id: u64) -> i64 {
        match self.limits_of(user_id, server_id).last_gamble {
            Some(t) => t,
            None => LIMIT_SENTINEL_SECS,
        }
    }

    /// A fresh store: no balances, no recorded actions, no settings rows.
    pub fn new() -> (r: Store)
        ensures
            r.wf(),
            r.paw_rows() == Seq::<PawRow>::empty(),
            r.limit_rows() == Seq::<LimitRow>::empty(),
            r.settings_rows() == Seq::<SettingsRow>::empty(),
            forall|u: u64, g: u64| !(#[trigger] r.has_paw_row(u, g)),
            forall|u: u64, g: u64| #[trigger] r.balance_of(u, g) == 0,
            forall|u: u64, g: u64| #[trigger] r.limits_of(u, g) == empty_limits(),
            forall|g: u64| #[trigger] r.settings_of(g) == default_settings(),
    {
        let r = Store { paw_counts: Vec::new(), user_limits: Vec::new(), server_settings: Vec::new() };
        proof {
            assert(r.paw_rows() =~= Seq::<PawRow>::empty());
            assert(r.limit_rows() =~= Seq::<LimitRow>::empty());
            assert(r.settings_rows() =~= Seq::<SettingsRow>::empty());
        }
        r
    }

    /// When row `i` carries this key, the abstract balance is that row's
    /// count, because keys are unique.
    proof fn lemma_paw_row_agrees(self, user_id: u64, server_id: u64, i: int)
        requires
            self.wf(),
            0 <= i < self.paw_rows().len(),
            self.paw_rows()[i].user_id == user_id,
            self.paw_rows()[i].server_id == server_id,
        ensures
            self.has_paw_row(user_id, server_id),
            self.paw_index_of(user_id, server_id) == i,
            self.balance_of(user_id, server_id) == self.paw_rows()[i].count,
    {
        assert(self.has_paw_row(user_id, server_id));
        let j = self.paw_index_of(user_id, server_id);
        if i != j {
            if i < j {
                assert(!(self.paw_rows()[i].user_id == self.paw_rows()[j].user_id
                    && self.paw_rows()[i].server_id == self.paw_rows()[j].server_id));
            } else {
                assert(!(self.paw_rows()[j].user_id == self.paw_rows()[i].user_id
                    && self.paw_rows()[j].server_id == self.paw_rows()[i].server_id));
            }
        }
    }

    /// Find the balance row for a key, or report that none exists.
    fn find_paw_idx(&self, user_id: u64, server_id: u64) -> (r: Option<usize>)
        ensures
            match r {
                Some(i) => i < self.paw_rows().len() && self.paw_rows()[i as int].user_id == user_id
                    && self.paw_rows()[i as int].server_id == server_id,
                None => !self.has_paw_row(user_id, server_id),
            },
    {
        let n = self.paw_counts.len();
        let mut i: usize = 0;
        while i < n
            invariant
                n == self.paw_rows().len(),
                i <= n,
                forall|k: int|
                    0 <= k < i ==> !((#[trigger] self.paw_rows()[k]).user_id == user_id
                        && self.paw_rows()[k].server_id == server_id),
            decreases n - i,
        {
            if self.paw_counts[i].user_id == user_id && self.paw_counts[i].server_id == server_id {
                return Some(i);
            }
            i = i + 1;
        }
        None
    }

    /// How many paws a user holds in a guild; zero when no row exists, never
    /// an error.
    pub fn db_get_paw_count(&self, user_id: u64, server_id: u64) -> (r: u64)
        requires
            self.wf(),
        ensures
            r == self.balance_of(user_id, server_id),
    {
        match self.find_paw_idx(user_id, server_id) {
            Some(i) => {
                proof {
                    self.lemma_paw_row_agrees(user_id, server_id, i as int);
                }
                self.paw_counts[i].count
            },
            None => 0,
        }
    }

    /// Add a signed difference to a user's balance in one atomic step,
    /// creating the row (from zero) when none exists. A result below zero is
    /// refused with `InsufficientBalance`, one above `MAX_PAW_COUNT` with
    /// `Overflow`; in both cases nothing changes. Returns the new balance.
    pub fn db_update_paw_count(&mut self, user_id: u64, server_id: u64, difference: i64) -> (r:
        Result<u64, PawError>)
        requires
            old(self).wf(),
        ensures
            final(self).wf(),
            final(self).limit_rows() == old(self).limit_rows(),
            final(self).settings_rows() == old(self).settings_rows(),
            final(self).balance_of(user_id, server_id) == delta_step(
                old(self).balance_of(user_id, server_id) as int,
                difference as int,
            ),
            match r {
                Ok(n) => {
                    &&& 0 <= old(self).balance_of(user_id, server_id) + difference <= MAX_PAW_COUNT
                    &&& n == old(self).balance_of(user_id, server_id) + difference
                    &&& final(self).balance_of(user_id, server_id) == n
                    &&& final(self).has_paw_row(user_id, server_id)
                },
                Err(e) => {
                    &&& *final(self) == *old(self)
                    &&& (e == PawError::InsufficientBalance <==> old(self).balance_of(
                        user_id,
                        server_id,
                    ) + difference < 0)
                    &&& (e == PawError::Overflow <==> old(self).balance_of(user_id, server_id)
                        + difference > MAX_PAW_COUNT)
                },
            },
            forall|u: u64, g: u64|
                !(u == user_id && g == server_id) ==> #[trigger] final(self).balance_of(u, g)
                    == old(self).balance_of(u, g),
            forall|u: u64, g: u64|
                !(u == user_id && g == server_id) ==> #[trigger] final(self).has_paw_row(u, g)
                    == old(self).has_paw_row(u, g),
    {
        match self.find_paw_idx(user_id, server_id) {
            Some(i) => {
                proof {
                    self.lemma_paw_row_agrees(user_id, server_id, i as int);
                }
                let c = self.paw_counts[i].count;
                // c <= MAX_PAW_COUNT = i64::MAX, so it converts exactly.
                let ci: i64 = c as i64;
                match ci.checked_add(difference) {
                    None => {
                        // ci >= 0 and difference >= i64::MIN, so only the high
                        // side can be crossed.
                        Err(PawError::Overflow)
                    },
                    Some(n) => {
                        if n < 0 {
                            Err(PawError::InsufficientBalance)
                        } else {
                            let ghost pre = *self;
                            self.paw_counts.set(
                                i,
                                PawRow { user_id, server_id, count: n as u64 },
                            );
                            proof {
                                self.lemma_update_frame(pre, user_id, server_id, i as int);
                            }
                            Ok(n as u64)
                        }
                    },
                }
            },
            None => {
                if difference < 0 {
                    Err(PawError::InsufficientBalance)
                } else {
                    let ghost pre = *self;
                    self.paw_counts.push(
                        PawRow { user_id, server_id, count: difference as u64 },
                    );
                    proof {
                        self.lemma_push_frame(pre, user_id, server_id);
                    }
                    Ok(difference as u64)
                }
            },
        }
    }

    /// After replacing row `i` with a row of the same key, only that key's
    /// balance differs between the two stores.
    proof fn lemma_update_frame(self, pre: Store, user_id: u64, server_id: u64, i: int)
        requires
            pre.wf(),
            0 <= i < pre.paw_rows().len(),
            pre.paw_rows()[i].user_id == user_id,
            pre.paw_rows()[i].server_id == server_id,
            self.paw_rows() == pre.paw_rows().update(
                i,
                PawRow { user_id, server_id, count: self.paw_rows()[i].count },
            ),
            self.paw_rows()[i].count <= MAX_PAW_COUNT,
            self.limit_rows() == pre.limit_rows(),
            self.settings_rows() == pre.settings_rows(),
        ensures
            self.wf(),
            self.has_paw_row(user_id, server_id),
            self.balance_of(user_id, server_id) == self.paw_rows()[i].count,
            forall|u: u64, g: u64|
                !(u == user_id && g == server_id) ==> #[trigger] self.balance_of(u, g)
                    == pre.balance_of(u, g),
            forall|u: u64, g: u64|
                !(u == user_id && g == server_id) ==> #[trigger] self.has_paw_row(u, g)
                    == pre.has_paw_row(u, g),
    {
        assert forall|u: u64, g: u64| !(u == user_id && g == server_id) implies #[trigger] self
            .has_paw_row(u, g) == pre.has_paw_row(u, g) by {
            if pre.has_paw_row(u, g) {
                let k = pre.paw_index_of(u, g);
                assert(self.paw_rows()[k].user_id == u && self.paw_rows()[k].server_id == g);
            }
            if self.has_paw_row(u, g) {
                let k = self.paw_index_of(u, g);
                assert(pre.paw_rows()[k].user_id == u && pre.paw_rows()[k].server_id == g);
            }
        }
        self.lemma_paw_row_agrees(user_id, server_id, i);
        assert forall|u: u64, g: u64| !(u == user_id && g == server_id) implies #[trigger] self
            .balance_of(u, g) == pre.balance_of(u, g) by {
            if pre.has_paw_row(u, g) {
                let k = pre.paw_index_of(u, g);
                assert(k != i);
                assert(self.paw_rows()[k].user_id == u && self.paw_rows()[k].server_id == g);
                self.lemma_paw_row_agrees(u, g, k);
                pre.lemma_paw_row_agrees(u, g, k);
            }
        }
    }

    /// After appending a row with a key that was absent, only that key's
    /// balance differs between the two stores.
    proof fn lemma_push_frame(self, pre: Store, user_id: u64, server_id: u64)
        requires
            pre.wf(),
            !pre.has_paw_row(user_id, server_id),
            self.paw_rows() == pre.paw_rows().push(
                PawRow {
                    user_id,
                    server_id,
                    count: self.paw_rows()[pre.paw_rows().len() as int].count,
                },
            ),
            self.paw_rows()[pre.paw_rows().len() as int].count <= MAX_PAW_COUNT,
            self.limit_rows() == pre.limit_rows(),
            self.settings_rows() == pre.settings_rows(),
        ensures
            self.wf(),
            self.has_paw_row(user_id, server_id),
            self.balance_of(user_id, server_id) == self.paw_rows()[
                pre.paw_rows().len() as int].count,
            forall|u: u64, g: u64|
                !(u == user_id && g == server_id) ==> #[trigger] self.balance_of(u, g)
                    == pre.balance_of(u, g),
            forall|u: u64, g: u64|
                !(u == user_id && g == server_id) ==> #[trigger] self.has_paw_row(u, g)
                    == pre.has_paw_row(u, g),
    {
        let n = pre.paw_rows().len() as int;
        assert forall|u: u64, g: u64| !(u == user_id && g == server_id) implies #[trigger] self
            .has_paw_row(u, g) == pre.has_paw_row(u, g) by {
            if pre.has_paw_row(u, g) {
                let k = pre.paw_index_of(u, g);
                assert(self.paw_rows()[k].user_id == u && self.paw_rows()[k].server_id == g);
            }
            if self.has_paw_row(u, g) {
                let k = self.paw_index_of(u, g);
                assert(k != n);
                assert(pre.paw_rows()[k].user_id == u && pre.paw_rows()[k].server_id == g);
            }
        }
        self.lemma_paw_row_agrees(user_id, server_id, n);
        assert forall|u: u64, g: u64| !(u == user_id && g == server_id) implies #[trigger] self
            .balance_of(u, g) == pre.balance_of(u, g) by {
            if pre.has_paw_row(u, g) {
                let k = pre.paw_index_of(u, g);
                assert(self.paw_rows()[k].user_id == u && self.paw_rows()[k].server_id == g);
                self.lemma_paw_row_agrees(u, g, k);
                pre.lemma_paw_row_agrees(u, g, k);
            }
        }
    }
    /// How many users hold a balance row in this guild.
    pub open spec fn farmer_count_of(self, server_id: u64) -> int {
        guild_count_in(self.paw_rows(), server_id)
    }

    /// The sum of all balances in this guild.
    pub open spec fn total_paws_of(self, server_id: u64) -> int {
        guild_total_in(self.paw_rows(), server_id)
    }

    /// How many users of this guild hold strictly more than `c` paws.
    pub open spec fn richer_count_of(self, server_id: u64, c: u64) -> int {
        richer_count_in(self.paw_rows(), server_id, c)
    }

    /// A full leaderboard listing of a guild: every user with a balance row,
    /// each exactly once with their current balance, in weakly decreasing
    /// order of count. Users of equal count may stand in any order, so a
    /// guild can have several listings.
    pub open spec fn guild_listing(self, server_id: u64, s: Seq<PawCount>) -> bool {
        &&& s.len() == self.farmer_count_of(server_id)
        &&& sorted_desc(s)
        &&& forall|i: int, j: int| 0 <= i < j < s.len() ==> s[i].user_id != s[j].user_id
        &&& forall|i: int|
            0 <= i < s.len() ==> self.has_paw_row((#[trigger] s[i]).user_id, server_id)
                && s[i].count == self.balance_of(s[i].user_id, server_id)
        &&& forall|u: u64|
            #[trigger] self.has_paw_row(u, server_id) ==> exists|i: int|
                0 <= i < s.len() && (#[trigger] s[i]).user_id == u
    }

    /// Move an amount from one account to another in a single step: either
    /// both balances change or neither does. Refused (and nothing changes)
    /// when the source holds too little, or the destination would overflow.
    /// Returns the new (source, destination) balances.
    pub fn transfer_paws(&mut self, from_user: u64, to_user: u64, server_id: u64, amount: u64) -> (r:
        Result<(u64, u64), PawError>)
        requires
            old(self).wf(),
            from_user != to_user,
        ensures
            final(self).wf(),
            final(self).limit_rows() == old(self).limit_rows(),
            final(self).settings_rows() == old(self).settings_rows(),
            match r {
                Ok((nf, nt)) => {
                    &&& old(self).balance_of(from_user, server_id) >= amount
                    &&& old(self).balance_of(to_user, server_id) + amount <= MAX_PAW_COUNT
                    &&& nf == old(self).balance_of(from_user, server_id) - amount
                    &&& nt == old(self).balance_of(to_user, server_id) + amount
                    &&& final(self).balance_of(from_user, server_id) == nf
                    &&& final(self).balance_of(to_user, server_id) == nt
                },
                Err(e) => {
                    &&& *final(self) == *old(self)
                    &&& (e == PawError::InsufficientBalance <==> old(self).balance_of(
                        from_user,
                        server_id,
                    ) < amount)
                    &&& (e == PawError::Overflow <==> old(self).balance_of(from_user, server_id)
                        >= amount && old(self).balance_of(to_user, server_id) + amount
                        > MAX_PAW_COUNT)
                },
            },
            forall|u: u64, g: u64|
                !(u == from_user && g == server_id) && !(u == to_user && g == server_id)
                    ==> #[trigger] final(self).balance_of(u, g) == old(self).balance_of(u, g),
            forall|u: u64, g: u64|
                !(u == from_user && g == server_id) && !(u == to_user && g == server_id)
                    ==> #[trigger] final(self).has_paw_row(u, g) == old(self).has_paw_row(u, g),
    {
        let bf = self.db_get_paw_count(from_user, server_id);
        if bf < amount {
            return Err(PawError::InsufficientBalance);
        }
        let bt = self.db_get_paw_count(to_user, server_id);
        if bt > MAX_PAW_COUNT - amount {
            return Err(PawError::Overflow);
        }
        // amount <= bf <= MAX_PAW_COUNT, so it converts to i64 exactly.
        let delta: i64 = amount as i64;
        let nf = match self.db_update_paw_count(from_user, server_id, -delta) {
            Ok(n) => n,
            Err(_) => vstd::pervasive::unreached(),
        };
        let nt = match self.db_update_paw_count(to_user, server_id, delta) {
            Ok(n) => n,
            Err(_) => vstd::pervasive::unreached(),
        };
        Ok((nf, nt))
    }

    /// A user's leaderboard rank in a guild: one more than the number of
    /// users holding strictly more, so equal counts share a rank. A user
    /// without a balance row is unranked, reported as zero.
    pub fn db_get_rank(&self, user_id: u64, server_id: u64) -> (r: u64)
        requires
            self.wf(),
        ensures
            r == if self.has_paw_row(user_id, server_id) {
                1 + self.richer_count_of(server_id, self.balance_of(user_id, server_id))
            } else {
                0int
            },
    {
        let me = match self.find_paw_idx(user_id, server_id) {
            None => {
                return 0;
            },
            Some(i) => i,
        };
        proof {
            self.lemma_paw_row_agrees(user_id, server_id, me as int);
        }
        let c = self.paw_counts[me].count;
        let n = self.paw_counts.len();
        let ghost rows = self.paw_rows();
        let mut cnt: usize = 0;
        let mut k: usize = 0;
        while k < n
            invariant
                self.wf(),
                rows == self.paw_rows(),
                n == rows.len(),
                k <= n,
                cnt <= k,
                cnt == richer_count_in(rows.take(k as int), server_id, c),
            decreases n - k,
        {
            proof {
                assert(rows.take(k as int + 1).drop_last() =~= rows.take(k as int));
            }
            if self.paw_counts[k].server_id == server_id && self.paw_counts[k].count > c {
                cnt = cnt + 1;
            }
            k = k + 1;
        }
        proof {
            assert(rows.take(n as int) =~= rows);
            lemma_richer_lt_len(rows, server_id, c, me as int);
        }
        (cnt as u64) + 1
    }

    /// One leaderboard page of a guild, together with the guild-wide
    /// aggregates. The page shows up to ten entries in weakly decreasing
    /// order of count, skipping the `(page - 1) * 10` best; a page past the
    /// end is empty. The aggregates — how many users hold a row, and the sum
    /// of all their paws (clipped to `u64::MAX`) — do not depend on the page.
    pub fn db_get_leaderboard(&self, server_id: u64, page: u8) -> (r: (Vec<PawCount>, u64, u64))
        requires
            self.wf(),
            page >= 1,
        ensures
            r.1 == self.farmer_count_of(server_id),
            r.2 == if self.total_paws_of(server_id) > u64::MAX {
                u64::MAX as int
            } else {
                self.total_paws_of(server_id)
            },
            exists|s: Seq<PawCount>|
                #[trigger] self.guild_listing(server_id, s) && r.0@ == page_of(s, page),
    {
        let (entries, total) = self.collect_guild_entries(server_id);
        let farmers = entries.len();
        proof {
            lemma_guild_aggregates_bounds(self.paw_rows(), server_id);
        }
        let sorted = sort_entries_desc(entries);
        proof {
            self.lemma_sorted_listing(server_id, entries@, sorted@);
        }
        // Page offset: pages are one-based, ten rows each.
        let off: usize = (page as usize - 1) * 10;
        let len = sorted.len();
        let hi: usize = if off > len {
            len
        } else if len - off > 10 {
            off + 10
        } else {
            len
        };
        let lo: usize = if off > len {
            len
        } else {
            off
        };
        let mut out: Vec<PawCount> = Vec::new();
        let mut k: usize = lo;
        while k < hi
            invariant
                lo <= k <= hi <= sorted@.len(),
                out@ =~= sorted@.subrange(lo as int, k as int),
            decreases hi - k,
        {
            let e = sorted[k];
            out.push(e);
            proof {
                assert(out@ =~= sorted@.subrange(lo as int, k as int + 1));
            }
            k = k + 1;
        }
        proof {
            assert(out@ =~= page_of(sorted@, page));
        }
        (out, farmers as u64, total)
    }

    /// Gather every balance row of a guild as a leaderboard entry, in row
    /// order, together with the clipped paw total.
    fn collect_guild_entries(&self, server_id: u64) -> (r: (Vec<PawCount>, u64))
        requires
            self.wf(),
        ensures
            r.0@.len() == self.farmer_count_of(server_id),
            forall|i: int, j: int| 0 <= i < j < r.0@.len() ==> r.0@[i].user_id != r.0@[j].user_id,
            forall|i: int|
                0 <= i < r.0@.len() ==> self.has_paw_row((#[trigger] r.0@[i]).user_id, server_id)
                    && r.0@[i].count == self.balance_of(r.0@[i].user_id, server_id),
            forall|u: u64|
                #[trigger] self.has_paw_row(u, server_id) ==> exists|i: int|
                    0 <= i < r.0@.len() && (#[trigger] r.0@[i]).user_id == u,
            r.1 == if self.total_paws_of(server_id) > u64::MAX {
                u64::MAX as int
            } else {
                self.total_paws_of(server_id)
            },
    {
        let n = self.paw_counts.len();
        let ghost rows = self.paw_rows();
        let mut out: Vec<PawCount> = Vec::new();
        let ghost mut idxs: Seq<int> = Seq::empty();
        let mut total: u64 = 0;
        let mut k: usize = 0;
        while k < n
            invariant
                self.wf(),
                rows == self.paw_rows(),
                n == rows.len(),
                k <= n,
                idxs.len() == out@.len(),
                out@.len() == guild_count_in(rows.take(k as int), server_id),
                forall|i: int| 0 <= i < idxs.len() ==> 0 <= #[trigger] idxs[i] < k,
                forall|i: int, j: int| 0 <= i < j < idxs.len() ==> idxs[i] < idxs[j],
                forall|i: int|
                    0 <= i < idxs.len() ==> rows[#[trigger] idxs[i]].server_id == server_id
                        && out@[i].user_id == rows[idxs[i]].user_id && out@[i].count
                        == rows[idxs[i]].count,
                forall|j: int|
                    0 <= j < k && (#[trigger] rows[j]).server_id == server_id ==> exists|i: int|
                        0 <= i < idxs.len() && #[trigger] idxs[i] == j,
                total == if guild_total_in(rows.take(k as int), server_id) > u64::MAX {
                    u64::MAX as int
                } else {
                    guild_total_in(rows.take(k as int), server_id)
                },
            decreases n - k,
        {
            proof {
                assert(rows.take(k as int + 1).drop_last() =~= rows.take(k as int));
                lemma_guild_aggregates_bounds(rows.take(k as int), server_id);
            }
            let row = &self.paw_counts[k];
            if row.server_id == server_id {
                out.push(PawCount { count: row.count, user_id: row.user_id });
                proof {
                    let prev = idxs;
                    idxs = idxs.push(k as int);
                    assert forall|j: int|
                        0 <= j < k + 1 && (#[trigger] rows[j]).server_id
                            == server_id implies exists|i: int|
                        0 <= i < idxs.len() && #[trigger] idxs[i] == j by {
                        if j == k {
                            assert(idxs[idxs.len() - 1] == j);
                        } else {
                            let i = choose|i: int| 0 <= i < prev.len() && #[trigger] prev[i] == j;
                            assert(idxs[i] == j);
                        }
                    }
                }
                total = total.saturating_add(row.count);
            }
            k = k + 1;
        }
        proof {
            assert(rows.take(n as int) =~= rows);
            // Per-entry facts follow from the source rows the indices name.
            assert forall|i: int| 0 <= i < out@.len() implies self.has_paw_row(
                (#[trigger] out@[i]).user_id,
                server_id,
            ) && out@[i].count == self.balance_of(out@[i].user_id, server_id) by {
                self.lemma_paw_row_agrees(out@[i].user_id, server_id, idxs[i]);
            }
            assert forall|i: int, j: int| 0 <= i < j < out@.len() implies out@[i].user_id
                != out@[j].user_id by {
                assert(idxs[i] < idxs[j]);
            }
            assert forall|u: u64| #[trigger] self.has_paw_row(u, server_id) implies exists|i: int|
                0 <= i < out@.len() && (#[trigger] out@[i]).user_id == u by {
                let j = self.paw_index_of(u, server_id);
                let i = choose|i: int| 0 <= i < idxs.len() && #[trigger] idxs[i] == j;
                assert(out@[i].user_id == u);
            }
        }
        (out, total)
    }

    /// A sorted permutation of a gathered entry list is a full listing of
    /// the guild.
    proof fn lemma_sorted_listing(self, server_id: u64, a: Seq<PawCount>, b: Seq<PawCount>)
        requires
            self.wf(),
            b.to_multiset() == a.to_multiset(),
            sorted_desc(b),
            a.len() == self.farmer_count_of(server_id),
            forall|i: int, j: int| 0 <= i < j < a.len() ==> a[i].user_id != a[j].user_id,
            forall|i: int|
                0 <= i < a.len() ==> self.has_paw_row((#[trigger] a[i]).user_id, server_id)
                    && a[i].count == self.balance_of(a[i].user_id, server_id),
            forall|u: u64|
                #[trigger] self.has_paw_row(u, server_id) ==> exists|i: int|
                    0 <= i < a.len() && (#[trigger] a[i]).user_id == u,
        ensures
            self.guild_listing(server_id, b),
    {
        broadcast use vstd::seq_lib::group_to_multiset_ensures;

        assert(b.len() == b.to_multiset().len());
        assert(a.len() == a.to_multiset().len());
        assert forall|i: int| 0 <= i < b.len() implies self.has_paw_row(
            (#[trigger] b[i]).user_id,
            server_id,
        ) && b[i].count == self.balance_of(b[i].user_id, server_id) by {
            assert(b.contains(b[i]));
            assert(b.to_multiset().count(b[i]) > 0);
            assert(a.contains(b[i]));
            let j = choose|j: int| 0 <= j < a.len() && a[j] == b[i];
            assert(self.has_paw_row(a[j].user_id, server_id));
        }
        assert forall|u: u64| #[trigger] self.has_paw_row(u, server_id) implies exists|i: int|
            0 <= i < b.len() && (#[trigger] b[i]).user_id == u by {
            let j = choose|j: int| 0 <= j < a.len() && (#[trigger] a[j]).user_id == u;
            assert(a.contains(a[j]));
            assert(a.to_multiset().count(a[j]) > 0);
            assert(b.to_multiset().count(a[j]) > 0);
            assert(b.contains(a[j]));
            let i = choose|i: int| 0 <= i < b.len() && b[i] == a[j];
            assert(b[i].user_id == u);
        }
        assert(a.no_duplicates()) by {
            assert forall|i: int, j: int|
                0 <= i < a.len() && 0 <= j < a.len() && i != j implies a[i] != a[j] by {
                if i < j {
                    assert(a[i].user_id != a[j].user_id);
                } else {
                    assert(a[j].user_id != a[i].user_id);
                }
            }
        }
        a.lemma_multiset_has_no_duplicates();
        b.lemma_multiset_has_no_duplicates_conv();
        assert forall|i: int, j: int| 0 <= i < j < b.len() implies b[i].user_id != b[j].user_id by {
            if b[i].user_id == b[j].user_id {
                assert(b[i].count == self.balance_of(b[i].user_id, server_id));
                assert(b[j].count == self.balance_of(b[j].user_id, server_id));
                assert(b[i] == b[j]);
            }
        }
    }

    /// Two well-formed stores with the same balance rows agree on every
    /// balance.
    pub proof fn lemma_same_paw_rows(a: Store, b: Store)
        requires
            a.wf(),
            b.wf(),
            a.paw_rows() == b.paw_rows(),
        ensures
            forall|u: u64, g: u64| #[trigger] b.balance_of(u, g) == a.balance_of(u, g),
            forall|u: u64, g: u64| #[trigger] b.has_paw_row(u, g) == a.has_paw_row(u, g),
    {
        assert forall|u: u64, g: u64| #[trigger] b.has_paw_row(u, g) == a.has_paw_row(u, g) by {
            if a.has_paw_row(u, g) {
                let k = a.paw_index_of(u, g);
                assert(b.paw_rows()[k].user_id == u && b.paw_rows()[k].server_id == g);
            }
            if b.has_paw_row(u, g) {
                let k = b.paw_index_of(u, g);
                assert(a.paw_rows()[k].user_id == u && a.paw_rows()[k].server_id == g);
            }
        }
        assert forall|u: u64, g: u64| #[trigger] b.balance_of(u, g) == a.balance_of(u, g) by {
            if a.has_paw_row(u, g) {
                let k = a.paw_index_of(u, g);
                a.lemma_paw_row_agrees(u, g, k);
                assert(b.paw_rows()[k] == a.paw_rows()[k]);
                b.lemma_paw_row_agrees(u, g, k);
            }
        }
    }

    /// Two well-formed stores with the same rate-limit rows agree on every
    /// rate-limit record.
    pub proof fn lemma_same_limit_rows(a: Store, b: Store)
        requires
            a.wf(),
            b.wf(),
            a.limit_rows() == b.limit_rows(),
        ensures
            forall|u: u64, g: u64| #[trigger] b.limits_of(u, g) == a.limits_of(u, g),
    {
        assert forall|u: u64, g: u64| #[trigger] b.limits_of(u, g) == a.limits_of(u, g) by {
            if a.has_limit_row(u, g) {
                let k = a.limit_index_of(u, g);
                a.lemma_limit_row_agrees(u, g, k);
                assert(b.limit_rows()[k] == a.limit_rows()[k]);
                b.lemma_limit_row_agrees(u, g, k);
            } else {
                if b.has_limit_row(u, g) {
                    let k = b.limit_index_of(u, g);
                    assert(a.limit_rows()[k].user_id == u && a.limit_rows()[k].server_id == g);
                }
            }
        }
    }

    /// Two well-formed stores with the same settings rows agree on every
    /// guild's settings.
    pub proof fn lemma_same_settings_rows(a: Store, b: Store)
        requires
            a.wf(),
            b.wf(),
            a.settings_rows() == b.settings_rows(),
        ensures
            forall|g: u64| #[trigger] b.settings_of(g) == a.settings_of(g),
    {
        assert forall|g: u64| #[trigger] b.settings_of(g) == a.settings_of(g) by {
            if a.has_settings_row(g) {
                let k = a.settings_index_of(g);
                a.lemma_settings_row_agrees(g, k);
                assert(b.settings_rows()[k] == a.settings_rows()[k]);
                b.lemma_settings_row_agrees(g, k);
            } else {
                if b.has_settings_row(g) {
                    let k = b.settings_index_of(g);
                    assert(a.settings_rows()[k].server_id == g);
                }
            }
        }
    }

    /// When row `i` carries this key, the abstract limits are that row's
    /// limits, because keys are unique.
    proof fn lemma_limit_row_agrees(self, user_id: u64, server_id: u64, i: int)
        requires
            self.wf(),
            0 <= i < self.limit_rows().len(),
            self.limit_rows()[i].user_id == user_id,
            self.limit_rows()[i].server_id == server_id,
        ensures
            self.has_limit_row(user_id, server_id),
            self.limit_index_of(user_id, server_id) == i,
            self.limits_of(user_id, server_id) == self.limit_rows()[i].limits,
    {
        assert(self.has_limit_row(user_id, server_id));
        let j = self.limit_index_of(user_id, server_id);
        if i != j {
            if i < j {
                assert(!(self.limit_rows()[i].user_id == self.limit_rows()[j].user_id
                    && self.limit_rows()[i].server_id == self.limit_rows()[j].server_id));
            } else {
                assert(!(self.limit_rows()[j].user_id == self.limit_rows()[i].user_id
                    && self.limit_rows()[j].server_id == self.limit_rows()[i].server_id));
            }
        }
    }

    /// Find the rate-limit row for a key, or report that none exists.
    fn find_limit_idx(&self, user_id: u64, server_id: u64) -> (r: Option<usize>)
        ensures
            match r {
                Some(i) => i < self.limit_rows().len() && self.limit_rows()[i as int].user_id
                    == user_id && self.limit_rows()[i as int].server_id == server_id,
                None => !self.has_limit_row(user_id, server_id),
            },
    {
        let n = self.user_limits.len();
        let mut i: usize = 0;
        while i < n
            invariant
                n == self.limit_rows().len(),
                i <= n,
                forall|k: int|
                    0 <= k < i ==> !((#[trigger] self.limit_rows()[k]).user_id == user_id
                        && self.limit_rows()[k].server_id == server_id),
            decreases n - i,
        {
            if self.user_limits[i].user_id == user_id && self.user_limits[i].server_id == server_id
            {
                return Some(i);
            }
            i = i + 1;
        }
        None
    }

    /// The action timestamps recorded for a user in a guild; all absent when
    /// no row exists.
    fn get_limits(&self, user_id: u64, server_id: u64) -> (r: UserLimits)
        requires
            self.wf(),
        ensures
            r == self.limits_of(user_id, server_id),
    {
        match self.find_limit_idx(user_id, server_id) {
            Some(i) => {
                proof {
                    self.lemma_limit_row_agrees(user_id, server_id, i as int);
                }
                self.user_limits[i].limits
            },
            None => UserLimits { last_steal: None, last_daily: None, last_gamble: None },
        }
    }

    /// Overwrite (or create) the whole rate-limit record of one key, leaving
    /// every other row untouched.
    fn set_limits_row(&mut self, user_id: u64, server_id: u64, limits: UserLimits)
        requires
            old(self).wf(),
        ensures
            final(self).wf(),
            final(self).paw_rows() == old(self).paw_rows(),
            final(self).settings_rows() == old(self).settings_rows(),
            final(self).limits_of(user_id, server_id) == limits,
            forall|u: u64, g: u64|
                !(u == user_id && g == server_id) ==> #[trigger] final(self).limits_of(u, g)
                    == old(self).limits_of(u, g),
    {
        let ghost pre = *self;
        match self.find_limit_idx(user_id, server_id) {
            Some(i) => {
                self.user_limits.set(i, LimitRow { user_id, server_id, limits });
                proof {
                    self.lemma_limit_update_frame(pre, user_id, server_id, i as int);
                }
            },
            None => {
                self.user_limits.push(LimitRow { user_id, server_id, limits });
                proof {
                    self.lemma_limit_push_frame(pre, user_id, server_id);
                }
            },
        }
    }

    /// After replacing rate-limit row `i` with a row of the same key, only
    /// that key's limits differ between the two stores.
    proof fn lemma_limit_update_frame(self, pre: Store, user_id: u64, server_id: u64, i: int)
        requires
            pre.wf(),
            0 <= i < pre.limit_rows().len(),
            pre.limit_rows()[i].user_id == user_id,
            pre.limit_rows()[i].server_id == server_id,
            self.limit_rows() == pre.limit_rows().update(
                i,
                LimitRow { user_id, server_id, limits: self.limit_rows()[i].limits },
            ),
            self.paw_rows() == pre.paw_rows(),
            self.settings_rows() == pre.settings_rows(),
        ensures
            self.wf(),
            self.limits_of(user_id, server_id) == self.limit_rows()[i].limits,
            forall|u: u64, g: u64|
                !(u == user_id && g == server_id) ==> #[trigger] self.limits_of(u, g)
                    == pre.limits_of(u, g),
    {
        self.lemma_limit_row_agrees(user_id, server_id, i);
        assert forall|u: u64, g: u64| !(u == user_id && g == server_id) implies #[trigger] self
            .limits_of(u, g) == pre.limits_of(u, g) by {
            if pre.has_limit_row(u, g) {
                let k = pre.limit_index_of(u, g);
                assert(k != i);
                assert(self.limit_rows()[k].user_id == u && self.limit_rows()[k].server_id == g);
                self.lemma_limit_row_agrees(u, g, k);
                pre.lemma_limit_row_agrees(u, g, k);
            } else {
                if self.has_limit_row(u, g) {
                    let k = self.limit_index_of(u, g);
                    assert(pre.limit_rows()[k].user_id == u && pre.limit_rows()[k].server_id == g);
                }
            }
        }
    }

    /// After appending a rate-limit row with a key that was absent, only that
    /// key's limits differ between the two stores.
    proof fn lemma_limit_push_frame(self, pre: Store, user_id: u64, server_id: u64)
        requires
            pre.wf(),
            !pre.has_limit_row(user_id, server_id),
            self.limit_rows() == pre.limit_rows().push(
                LimitRow {
                    user_id,
                    server_id,
                    limits: self.limit_rows()[pre.limit_rows().len() as int].limits,
                },
            ),
            self.paw_rows() == pre.paw_rows(),
            self.settings_rows() == pre.settings_rows(),
        ensures
            self.wf(),
            self.limits_of(user_id, server_id) == self.limit_rows()[
                pre.limit_rows().len() as int].limits,
            forall|u: u64, g: u64|
                !(u == user_id && g == server_id) ==> #[trigger] self.limits_of(u, g)
                    == pre.limits_of(u, g),
    {
        let n = pre.limit_rows().len() as int;
        self.lemma_limit_row_agrees(user_id, server_id, n);
        assert forall|u: u64, g: u64| !(u == user_id && g == server_id) implies #[trigger] self
            .limits_of(u, g) == pre.limits_of(u, g) by {
            if pre.has_limit_row(u, g) {
                let k = pre.limit_index_of(u, g);
                assert(self.limit_rows()[k].user_id == u && self.limit_rows()[k].server_id == g);
                self.lemma_limit_row_agrees(u, g, k);
                pre.lemma_limit_row_agrees(u, g, k);
            } else {
                if self.has_limit_row(u, g) {
                    let k = self.limit_index_of(u, g);
                    assert(k != n);
                    assert(pre.limit_rows()[k].user_id == u && pre.limit_rows()[k].server_id == g);
                }
            }
        }
    }

    /// When this user last claimed a daily paw in this guild; a fixed moment
    /// far in the past when they never did, so a first claim is always
    /// allowed.
    pub fn db_get_last_daily(&self, user_id: u64, server_id: u64) -> (r: i64)
        requires
            self.wf(),
        ensures
            r == self.last_daily_of(user_id, server_id),
    {
        match self.get_limits(user_id, server_id).last_daily {
            Some(t) => t,
            None => DAILY_SENTINEL_SECS,
        }
    }

    /// When this user last stole in this guild; a fixed moment far in the
    /// past when they never did.
    pub fn db_get_last_steal(&self, user_id: u64, server_id: u64) -> (r: i64)
        requires
            self.wf(),
        ensures
            r == self.last_steal_of(user_id, server_id),
    {
        match self.get_limits(user_id, server_id).last_steal {
            Some(t) => t,
            None => LIMIT_SENTINEL_SECS,
        }
    }

    /// When this user last gambled in this guild; a fixed moment far in the
    /// past when they never did.
    pub fn db_get_last_gamble(&self, user_id: u64, server_id: u64) -> (r: i64)
        requires
            self.wf(),
        ensures
            r == self.last_gamble_of(user_id, server_id),
    {
        match self.get_limits(user_id, server_id).last_gamble {
            Some(t) => t,
            None => LIMIT_SENTINEL_SECS,
        }
    }

    /// Record the time of a daily claim, leaving the other two timestamps of
    /// the key untouched (and unset on a fresh row). Returns the stored time.
    pub fn db_update_last_daily(&mut self, user_id: u64, server_id: u64, time: i64) -> (r: i64)
        requires
            old(self).wf(),
        ensures
            final(self).wf(),
            r == time,
            final(self).paw_rows() == old(self).paw_rows(),
            final(self).settings_rows() == old(self).settings_rows(),
            final(self).limits_of(user_id, server_id).last_daily == Some(time),
            final(self).limits_of(user_id, server_id).last_steal == old(self).limits_of(
                user_id,
                server_id,
            ).last_steal,
            final(self).limits_of(user_id, server_id).last_gamble == old(self).limits_of(
                user_id,
                server_id,
            ).last_gamble,
            forall|u: u64, g: u64|
                !(u == user_id && g == server_id) ==> #[trigger] final(self).limits_of(u, g)
                    == old(self).limits_of(u, g),
    {
        let cur = self.get_limits(user_id, server_id);
        self.set_limits_row(
            user_id,
            server_id,
            UserLimits { last_steal: cur.last_steal, last_daily: Some(time), last_gamble: cur.last_gamble },
        );
        time
    }

    /// Record the time of a steal, leaving the other two timestamps of the
    /// key untouched (and unset on a fresh row). Returns the stored time.
    pub fn db_update_last_steal(&mut self, user_id: u64, server_id: u64, time: i64) -> (r: i64)
        requires
            old(self).wf(),
        ensures
            final(self).wf(),
            r == time,
            final(self).paw_rows() == old(self).paw_rows(),
            final(self).settings_rows() == old(self).settings_rows(),
            final(self).limits_of(user_id, server_id).last_steal == Some(time),
            final(self).limits_of(user_id, server_id).last_daily == old(self).limits_of(
                user_id,
                server_id,
            ).last_daily,
            final(self).limits_of(user_id, server_id).last_gamble == old(self).limits_of(
                user_id,
                server_id,
            ).last_gamble,
            forall|u: u64, g: u64|
                !(u == user_id && g == server_id) ==> #[trigger] final(self).limits_of(u, g)
                    == old(self).limits_of(u, g),
    {
        let cur = self.get_limits(user_id, server_id);
        self.set_limits_row(
            user_id,
            server_id,
            UserLimits { last_steal: Some(time), last_daily: cur.last_daily, last_gamble: cur.last_gamble },
        );
        time
    }

    /// Record the time of a gamble, leaving the other two timestamps of the
    /// key untouched (and unset on a fresh row). Returns the stored time.
    pub fn db_update_last_gamble(&mut self, user_id: u64, server_id: u64, time: i64) -> (r: i64)
        requires
            old(self).wf(),
        ensures
            final(self).wf(),
            r == time,
            final(self).paw_rows() == old(self).paw_rows(),
            final(self).settings_rows() == old(self).settings_rows(),
            final(self).limits_of(user_id, server_id).last_gamble == Some(time),
            final(self).limits_of(user_id, server_id).last_daily == old(self).limits_of(
                user_id,
                server_id,
            ).last_daily,
            final(self).limits_of(user_id, server_id).last_steal == old(self).limits_of(
                user_id,
                server_id,
            ).last_steal,
            forall|u: u64, g: u64|
                !(u == user_id && g == server_id) ==> #[trigger] final(self).limits_of(u, g)
                    == old(self).limits_of(u, g),
    {
        let cur = self.get_limits(user_id, server_id);
        self.set_limits_row(
            user_id,
            server_id,
            UserLimits { last_steal: cur.last_steal, last_daily: cur.last_daily, last_gamble: Some(time) },
        );
        time
    }

    /// The settings in force for a guild: its row if one exists, otherwise
    /// the documented defaults (no steal cool-down, ten-minute gamble
    /// cool-down, both chances at fifty percent).
    pub fn db_get_server_settings(&self, server_id: u64) -> (r: ServerSettings)
        requires
            self.wf(),
        ensures
            r == self.settings_of(server_id),
            r.wf(),
    {
        let n = self.server_settings.len();
        let mut i: usize = 0;
        while i < n
            invariant
                self.wf(),
                n == self.settings_rows().len(),
                i <= n,
                forall|k: int|
                    0 <= k < i ==> (#[trigger] self.settings_rows()[k]).server_id != server_id,
            decreases n - i,
        {
            if self.server_settings[i].server_id == server_id {
                proof {
                    self.lemma_settings_row_agrees(server_id, i as int);
                }
                return self.server_settings[i].settings;
            }
            i = i + 1;
        }
        ServerSettings {
            steal_interval: MyDuration(0),
            gamble_interval: MyDuration(DEFAULT_GAMBLE_INTERVAL_SECS),
            gamble_chance: DEFAULT_CHANCE,
            steal_chance: DEFAULT_CHANCE,
        }
    }

    /// When row `i` carries this guild, the settings in force are that row's
    /// settings, because guild keys are unique.
    proof fn lemma_settings_row_agrees(self, server_id: u64, i: int)
        requires
            self.wf(),
            0 <= i < self.settings_rows().len(),
            self.settings_rows()[i].server_id == server_id,
        ensures
            self.has_settings_row(server_id),
            self.settings_index_of(server_id) == i,
            self.settings_of(server_id) == self.settings_rows()[i].settings,
    {
        assert(self.has_settings_row(server_id));
        let j = self.settings_index_of(server_id);
        if i < j {
            assert(self.settings_rows()[i].server_id != self.settings_rows()[j].server_id);
        } else if j < i {
            assert(self.settings_rows()[j].server_id != self.settings_rows()[i].server_id);
        }
    }

    /// Provision (create or overwrite) the settings row of a guild. The core
    /// actions never call this: settings reach the store from outside, here
    /// modelled as one keyed upsert.
    pub fn set_server_settings(&mut self, server_id: u64, settings: ServerSettings)
        requires
            old(self).wf(),
            settings.wf(),
        ensures
            final(self).wf(),
            final(self).paw_rows() == old(self).paw_rows(),
            final(self).limit_rows() == old(self).limit_rows(),
            final(self).settings_of(server_id) == settings,
            forall|g: u64|
                g != server_id ==> #[trigger] final(self).settings_of(g) == old(self).settings_of(
                    g,
                ),
    {
        let ghost pre = *self;
        let n = self.server_settings.len();
        let mut i: usize = 0;
        while i < n
            invariant
                *self == pre,
                pre == *old(self),
                pre.wf(),
                settings.wf(),
                n == self.settings_rows().len(),
                i <= n,
                forall|k: int|
                    0 <= k < i ==> (#[trigger] self.settings_rows()[k]).server_id != server_id,
            decreases n - i,
        {
            if self.server_settings[i].server_id == server_id {
                self.server_settings.set(i, SettingsRow { server_id, settings });
                proof {
                    self.lemma_settings_update_frame(pre, server_id, i as int);
                }
                return ;
            }
            i = i + 1;
        }
        self.server_settings.push(SettingsRow { server_id, settings });
        proof {
            self.lemma_settings_push_frame(pre, server_id);
        }
    }

    /// After replacing settings row `i` with a row of the same guild, only
    /// that guild's settings differ between the two stores.
    proof fn lemma_settings_update_frame(self, pre: Store, server_id: u64, i: int)
        requires
            pre.wf(),
            0 <= i < pre.settings_rows().len(),
            pre.settings_rows()[i].server_id == server_id,
            self.settings_rows() == pre.settings_rows().update(
                i,
                SettingsRow { server_id, settings: self.settings_rows()[i].settings },
            ),
            self.settings_rows()[i].settings.wf(),
            self.paw_rows() == pre.paw_rows(),
            self.limit_rows() == pre.limit_rows(),
        ensures
            self.wf(),
            self.settings_of(server_id) == self.settings_rows()[i].settings,
            forall|g: u64|
                g != server_id ==> #[trigger] self.settings_of(g) == pre.settings_of(g),
    {
        self.lemma_settings_row_agrees(server_id, i);
        assert forall|g: u64| g != server_id implies #[trigger] self.settings_of(g)
            == pre.settings_of(g) by {
            if pre.has_settings_row(g) {
                let k = pre.settings_index_of(g);
                assert(k != i);
                assert(self.settings_rows()[k].server_id == g);
                self.lemma_settings_row_agrees(g, k);
                pre.lemma_settings_row_agrees(g, k);
            } else {
                if self.has_settings_row(g) {
                    let k = self.settings_index_of(g);
                    assert(pre.settings_rows()[k].server_id == g);
                }
            }
        }
    }

    /// After appending a settings row for a guild that had none, only that
    /// guild's settings differ between the two stores.
    proof fn lemma_settings_push_frame(self, pre: Store, server_id: u64)
        requires
            pre.wf(),
            !pre.has_settings_row(server_id),
            self.settings_rows() == pre.settings_rows().push(
                SettingsRow {
                    server_id,
                    settings: self.settings_rows()[pre.settings_rows().len() as int].settings,
                },
            ),
            self.settings_rows()[pre.settings_rows().len() as int].settings.wf(),
            self.paw_rows() == pre.paw_rows(),
            self.limit_rows() == pre.limit_rows(),
        ensures
            self.wf(),
            self.settings_of(server_id) == self.settings_rows()[
                pre.settings_rows().len() as int].settings,
            forall|g: u64|
                g != server_id ==> #[trigger] self.settings_of(g) == pre.settings_of(g),
    {
        let n = pre.settings_rows().len() as int;
        self.lemma_settings_row_agrees(server_id, n);
        assert forall|g: u64| g != server_id implies #[trigger] self.settings_of(g)
            == pre.settings_of(g) by {
            if pre.has_settings_row(g) {
                let k = pre.settings_index_of(g);
                assert(self.settings_rows()[k].server_id == g);
                self.lemma_settings_row_agrees(g, k);
                pre.lemma_settings_row_agrees(g, k);
            } else {
                if self.has_settings_row(g) {
                    let k = self.settings_index_of(g);
                    assert(k != n);
                    assert(pre.settings_rows()[k].server_id == g);
                }
            }
        }
    }
}

} // verus!
