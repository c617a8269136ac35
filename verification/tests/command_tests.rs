use paw_bot::commands::{
    balance, daily, daily_at, gamble_at, give, steal_at, time_left_parts, top, DailyOutcome,
    GambleOutcome, GiveOutcome, StealOutcome, TimeUnit, DAILY_INTERVAL_SECS,
};
use paw_bot::store::{Store, LIMIT_SENTINEL_SECS};
use paw_bot::structs::ServerSettings;
use paw_bot::types::MyDuration;

fn settings(gamble_interval: i64, steal_interval: i64, gamble_chance: i8, steal_chance: i8) -> ServerSettings {
    ServerSettings {
        steal_interval: MyDuration(steal_interval),
        gamble_interval: MyDuration(gamble_interval),
        gamble_chance,
        steal_chance,
    }
}

#[test]
fn daily_grants_then_gates() {
    let mut store = Store::new();
    let t: i64 = 1_700_000_000;
    assert_eq!(
        daily_at(&mut store, 1, 1, t),
        Ok(DailyOutcome::Granted { new_balance: 1 })
    );
    // Too soon: one second short of a day.
    assert_eq!(
        daily_at(&mut store, 1, 1, t + DAILY_INTERVAL_SECS - 1),
        Ok(DailyOutcome::RateLimited { wait_secs: 1 })
    );
    // The denial did not move the recorded time: a full day after the grant
    // is enough.
    assert_eq!(
        daily_at(&mut store, 1, 1, t + DAILY_INTERVAL_SECS),
        Ok(DailyOutcome::Granted { new_balance: 2 })
    );
    assert_eq!(store.db_get_paw_count(1, 1), 2);
}

#[test]
fn daily_with_wall_clock_grants_first_claim() {
    let mut store = Store::new();
    // A fresh key reads the far-past sentinel, so a first claim at the real
    // current time is granted.
    assert_eq!(
        daily(&mut store, 1, 1),
        Ok(DailyOutcome::Granted { new_balance: 1 })
    );
}

#[test]
fn gamble_zero_chance_never_wins() {
    let mut store = Store::new();
    store.set_server_settings(1, settings(0, 0, 0, 0));
    store.db_update_paw_count(1, 1, 300).unwrap();
    let mut expected: u64 = 300;
    for i in 0..200i64 {
        expected -= 1;
        assert_eq!(
            gamble_at(&mut store, 1, 1, 1, 1_700_000_000 + i),
            Ok(GambleOutcome::Played { won: false, new_balance: expected })
        );
    }
    assert_eq!(store.db_get_paw_count(1, 1), 100);
}

#[test]
fn gamble_full_chance_always_wins() {
    let mut store = Store::new();
    store.set_server_settings(1, settings(0, 0, 100, 100));
    store.db_update_paw_count(1, 1, 10).unwrap();
    assert_eq!(
        gamble_at(&mut store, 1, 1, 3, 1_700_000_000),
        Ok(GambleOutcome::Played { won: true, new_balance: 13 })
    );
    let mut expected: u64 = 13;
    for i in 0..199i64 {
        expected += 1;
        assert_eq!(
            gamble_at(&mut store, 1, 1, 1, 1_700_100_000 + i),
            Ok(GambleOutcome::Played { won: true, new_balance: expected })
        );
    }
}

#[test]
fn gamble_gate_denies_and_keeps_stamp() {
    let mut store = Store::new();
    store.set_server_settings(1, settings(600, 0, 100, 50));
    store.db_update_paw_count(1, 1, 10).unwrap();
    let t: i64 = 1_700_000_000;
    assert_eq!(
        gamble_at(&mut store, 1, 1, 2, t),
        Ok(GambleOutcome::Played { won: true, new_balance: 12 })
    );
    assert_eq!(
        gamble_at(&mut store, 1, 1, 2, t + 599),
        Ok(GambleOutcome::RateLimited { wait_secs: 1 })
    );
    // The denied attempt left the stamp at t.
    assert_eq!(store.db_get_last_gamble(1, 1), t);
    assert_eq!(
        gamble_at(&mut store, 1, 1, 2, t + 600),
        Ok(GambleOutcome::Played { won: true, new_balance: 14 })
    );
}

#[test]
fn gamble_refuses_large_stake_and_short_funds() {
    let mut store = Store::new();
    store.set_server_settings(1, settings(0, 0, 100, 50));
    store.db_update_paw_count(1, 1, 5).unwrap();
    assert_eq!(gamble_at(&mut store, 1, 1, 11, 1_700_000_000), Ok(GambleOutcome::InvalidStake));
    assert_eq!(gamble_at(&mut store, 1, 1, 6, 1_700_000_000), Ok(GambleOutcome::InsufficientFunds));
    assert_eq!(store.db_get_paw_count(1, 1), 5);
    assert_eq!(store.db_get_last_gamble(1, 1), LIMIT_SENTINEL_SECS);
}

#[test]
fn give_moves_paws_once() {
    let mut store = Store::new();
    store.db_update_paw_count(1, 1, 10).unwrap();
    assert_eq!(
        give(&mut store, 1, 1, 2, 4),
        Ok(GiveOutcome::Given { new_caller_balance: 6 })
    );
    assert_eq!(store.db_get_paw_count(1, 1), 6);
    assert_eq!(store.db_get_paw_count(2, 1), 4);
}

#[test]
fn give_refuses_self_and_short_funds() {
    let mut store = Store::new();
    store.db_update_paw_count(1, 1, 3).unwrap();
    assert_eq!(give(&mut store, 1, 1, 1, 1), Ok(GiveOutcome::SelfTarget));
    assert_eq!(give(&mut store, 1, 1, 2, 4), Ok(GiveOutcome::InsufficientFunds));
    assert_eq!(store.db_get_paw_count(1, 1), 3);
    assert_eq!(store.db_get_paw_count(2, 1), 0);
}

#[test]
fn steal_target_short_denies_before_any_mutation() {
    let mut store = Store::new();
    store.set_server_settings(1, settings(0, 0, 50, 100));
    store.db_update_paw_count(1, 1, 10).unwrap();
    store.db_update_paw_count(2, 1, 2).unwrap();
    assert_eq!(
        steal_at(&mut store, 1, 1, 2, 5, 1_700_000_000),
        Ok(StealOutcome::InsufficientTarget)
    );
    assert_eq!(store.db_get_paw_count(1, 1), 10);
    assert_eq!(store.db_get_paw_count(2, 1), 2);
    assert_eq!(store.db_get_last_steal(1, 1), LIMIT_SENTINEL_SECS);
}

#[test]
fn steal_won_and_lost_move_the_amount() {
    let mut store = Store::new();
    // Steal chance 100: the thief always wins.
    store.set_server_settings(1, settings(0, 0, 50, 100));
    store.db_update_paw_count(1, 1, 10).unwrap();
    store.db_update_paw_count(2, 1, 8).unwrap();
    assert_eq!(
        steal_at(&mut store, 1, 1, 2, 5, 1_700_000_000),
        Ok(StealOutcome::Played { won: true, new_caller_balance: 15, new_target_balance: 3 })
    );
    // Steal chance 0: the thief always loses the amount to the target.
    store.set_server_settings(2, settings(0, 0, 50, 0));
    store.db_update_paw_count(1, 2, 10).unwrap();
    store.db_update_paw_count(2, 2, 8).unwrap();
    assert_eq!(
        steal_at(&mut store, 1, 2, 2, 5, 1_700_000_000),
        Ok(StealOutcome::Played { won: false, new_caller_balance: 5, new_target_balance: 13 })
    );
}

#[test]
fn steal_refusals() {
    let mut store = Store::new();
    store.set_server_settings(1, settings(0, 3600, 50, 100));
    store.db_update_paw_count(1, 1, 10).unwrap();
    store.db_update_paw_count(2, 1, 10).unwrap();
    assert_eq!(steal_at(&mut store, 1, 1, 1, 1, 1_700_000_000), Ok(StealOutcome::SelfTarget));
    assert_eq!(
        steal_at(&mut store, 1, 1, 2, 11, 1_700_000_000),
        Ok(StealOutcome::InsufficientCaller)
    );
    assert_eq!(
        steal_at(&mut store, 1, 1, 2, 5, 1_700_000_000),
        Ok(StealOutcome::Played { won: true, new_caller_balance: 15, new_target_balance: 5 })
    );
    assert_eq!(
        steal_at(&mut store, 1, 1, 2, 5, 1_700_001_000),
        Ok(StealOutcome::RateLimited { wait_secs: 2600 })
    );
}

#[test]
fn balance_reads_through() {
    let mut store = Store::new();
    assert_eq!(balance(&store, 1, 1), 0);
    store.db_update_paw_count(1, 1, 9).unwrap();
    assert_eq!(balance(&store, 1, 1), 9);
}

#[test]
fn top_combines_page_and_standing() {
    let mut store = Store::new();
    for u in 1..=12u64 {
        store.db_update_paw_count(u, 1, (u * 2) as i64).unwrap();
    }
    let view = top(&store, 1, 1, 3);
    assert_eq!(view.farmer_count, 12);
    assert_eq!(view.total_paws, 156);
    assert_eq!(view.entries.len(), 10);
    assert_eq!(view.entries[0].count, 24);
    assert_eq!(view.caller_balance, 6);
    assert_eq!(view.caller_rank, 10);
}

#[test]
fn time_left_parts_picks_units() {
    assert_eq!(time_left_parts(172800), (2, TimeUnit::Days));
    assert_eq!(time_left_parts(86401), (1, TimeUnit::Days));
    assert_eq!(time_left_parts(86400), (24, TimeUnit::Hours));
    assert_eq!(time_left_parts(7200), (2, TimeUnit::Hours));
    assert_eq!(time_left_parts(3600), (60, TimeUnit::Minutes));
    assert_eq!(time_left_parts(120), (2, TimeUnit::Minutes));
    assert_eq!(time_left_parts(60), (60, TimeUnit::Seconds));
    assert_eq!(time_left_parts(1), (1, TimeUnit::Seconds));
    assert_eq!(time_left_parts(0), (0, TimeUnit::Seconds));
}
