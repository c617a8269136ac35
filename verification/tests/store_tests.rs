use paw_bot::store::{PawError, Store, DAILY_SENTINEL_SECS, LIMIT_SENTINEL_SECS, MAX_PAW_COUNT};
use paw_bot::structs::{PawCount, ServerSettings};
use paw_bot::types::MyDuration;

#[test]
fn fresh_store_balances_are_zero() {
    let store = Store::new();
    assert_eq!(store.db_get_paw_count(1, 1), 0);
    assert_eq!(store.db_get_paw_count(42, 7), 0);
    assert_eq!(store.db_get_paw_count(u64::MAX, u64::MAX), 0);
}

#[test]
fn delta_sequence_sums_and_rejects_negative() {
    let mut store = Store::new();
    assert_eq!(store.db_update_paw_count(1, 1, 5), Ok(5));
    assert_eq!(store.db_update_paw_count(1, 1, -3), Ok(2));
    assert_eq!(
        store.db_update_paw_count(1, 1, -10),
        Err(PawError::InsufficientBalance)
    );
    assert_eq!(store.db_get_paw_count(1, 1), 2);
    assert_eq!(store.db_update_paw_count(1, 1, 2), Ok(4));
    assert_eq!(store.db_get_paw_count(1, 1), 4);
}

#[test]
fn unit_increments_are_never_lost() {
    let mut store = Store::new();
    for _ in 0..100 {
        store.db_update_paw_count(9, 3, 1).unwrap();
    }
    assert_eq!(store.db_get_paw_count(9, 3), 100);
}

#[test]
fn insufficient_balance_leaves_row_unchanged() {
    let mut store = Store::new();
    store.db_update_paw_count(5, 2, 5).unwrap();
    assert_eq!(
        store.db_update_paw_count(5, 2, -10),
        Err(PawError::InsufficientBalance)
    );
    assert_eq!(store.db_get_paw_count(5, 2), 5);
}

#[test]
fn delta_overflow_is_refused() {
    let mut store = Store::new();
    store.db_update_paw_count(1, 1, i64::MAX).unwrap();
    assert_eq!(store.db_get_paw_count(1, 1), MAX_PAW_COUNT);
    assert_eq!(store.db_update_paw_count(1, 1, 1), Err(PawError::Overflow));
    assert_eq!(store.db_get_paw_count(1, 1), MAX_PAW_COUNT);
}

#[test]
fn deltas_are_scoped_to_their_key() {
    let mut store = Store::new();
    store.db_update_paw_count(1, 1, 7).unwrap();
    store.db_update_paw_count(1, 2, 9).unwrap();
    store.db_update_paw_count(2, 1, 11).unwrap();
    assert_eq!(store.db_get_paw_count(1, 1), 7);
    assert_eq!(store.db_get_paw_count(1, 2), 9);
    assert_eq!(store.db_get_paw_count(2, 1), 11);
}

#[test]
fn missing_settings_row_yields_defaults() {
    let store = Store::new();
    let s = store.db_get_server_settings(123);
    assert_eq!(s.steal_interval, MyDuration(0));
    assert_eq!(s.gamble_interval, MyDuration(600));
    assert_eq!(s.steal_chance, 50);
    assert_eq!(s.gamble_chance, 50);
}

#[test]
fn provisioned_settings_are_returned() {
    let mut store = Store::new();
    store.set_server_settings(
        5,
        ServerSettings {
            steal_interval: MyDuration(30),
            gamble_interval: MyDuration(120),
            gamble_chance: 75,
            steal_chance: 25,
        },
    );
    let s = store.db_get_server_settings(5);
    assert_eq!(s.steal_interval, MyDuration(30));
    assert_eq!(s.gamble_interval, MyDuration(120));
    assert_eq!(s.gamble_chance, 75);
    assert_eq!(s.steal_chance, 25);
    // Another guild still sees the defaults.
    let other = store.db_get_server_settings(6);
    assert_eq!(other.gamble_interval, MyDuration(600));
}

#[test]
fn absent_limits_read_as_sentinels() {
    let store = Store::new();
    assert_eq!(store.db_get_last_daily(1, 1), DAILY_SENTINEL_SECS);
    assert_eq!(store.db_get_last_steal(1, 1), LIMIT_SENTINEL_SECS);
    assert_eq!(store.db_get_last_gamble(1, 1), LIMIT_SENTINEL_SECS);
}

#[test]
fn limit_updates_touch_only_their_field() {
    let mut store = Store::new();
    assert_eq!(store.db_update_last_daily(1, 1, 1000), 1000);
    assert_eq!(store.db_get_last_daily(1, 1), 1000);
    assert_eq!(store.db_get_last_steal(1, 1), LIMIT_SENTINEL_SECS);
    assert_eq!(store.db_get_last_gamble(1, 1), LIMIT_SENTINEL_SECS);
    assert_eq!(store.db_update_last_steal(1, 1, 2000), 2000);
    assert_eq!(store.db_update_last_gamble(1, 1, 3000), 3000);
    assert_eq!(store.db_get_last_daily(1, 1), 1000);
    assert_eq!(store.db_get_last_steal(1, 1), 2000);
    assert_eq!(store.db_get_last_gamble(1, 1), 3000);
    // Another key is untouched.
    assert_eq!(store.db_get_last_daily(2, 1), DAILY_SENTINEL_SECS);
}

#[test]
fn rank_counts_strictly_richer_users() {
    let mut store = Store::new();
    store.db_update_paw_count(1, 1, 10).unwrap();
    store.db_update_paw_count(2, 1, 10).unwrap();
    store.db_update_paw_count(3, 1, 5).unwrap();
    assert_eq!(store.db_get_rank(1, 1), 1);
    assert_eq!(store.db_get_rank(2, 1), 1);
    assert_eq!(store.db_get_rank(3, 1), 3);
    // No balance row: unranked.
    assert_eq!(store.db_get_rank(4, 1), 0);
}

#[test]
fn leaderboard_pages_fifteen_users() {
    let mut store = Store::new();
    for u in 1..=15u64 {
        store.db_update_paw_count(u, 7, u as i64).unwrap();
    }
    let (page1, farmers, total) = store.db_get_leaderboard(7, 1);
    assert_eq!(farmers, 15);
    assert_eq!(total, 120);
    assert_eq!(page1.len(), 10);
    let counts1: Vec<u64> = page1.iter().map(|e| e.count).collect();
    assert_eq!(counts1, vec![15, 14, 13, 12, 11, 10, 9, 8, 7, 6]);
    let (page2, farmers2, total2) = store.db_get_leaderboard(7, 2);
    assert_eq!(farmers2, 15);
    assert_eq!(total2, 120);
    assert_eq!(page2.len(), 5);
    let counts2: Vec<u64> = page2.iter().map(|e| e.count).collect();
    assert_eq!(counts2, vec![5, 4, 3, 2, 1]);
    // Distinct counts make the user order deterministic too.
    assert_eq!(page1[0], PawCount { count: 15, user_id: 15 });
    assert_eq!(page2[4], PawCount { count: 1, user_id: 1 });
}

#[test]
fn leaderboard_empty_guild() {
    let store = Store::new();
    let (page, farmers, total) = store.db_get_leaderboard(3, 1);
    assert_eq!(page.len(), 0);
    assert_eq!(farmers, 0);
    assert_eq!(total, 0);
}

#[test]
fn leaderboard_page_past_end_keeps_aggregates() {
    let mut store = Store::new();
    store.db_update_paw_count(1, 4, 3).unwrap();
    store.db_update_paw_count(2, 4, 4).unwrap();
    let (page, farmers, total) = store.db_get_leaderboard(4, 9);
    assert_eq!(page.len(), 0);
    assert_eq!(farmers, 2);
    assert_eq!(total, 7);
}

#[test]
fn transfer_moves_both_balances_atomically() {
    let mut store = Store::new();
    store.db_update_paw_count(1, 1, 10).unwrap();
    store.db_update_paw_count(2, 1, 4).unwrap();
    assert_eq!(store.transfer_paws(1, 2, 1, 3), Ok((7, 7)));
    assert_eq!(store.db_get_paw_count(1, 1), 7);
    assert_eq!(store.db_get_paw_count(2, 1), 7);
    assert_eq!(
        store.transfer_paws(1, 2, 1, 8),
        Err(PawError::InsufficientBalance)
    );
    assert_eq!(store.db_get_paw_count(1, 1), 7);
    assert_eq!(store.db_get_paw_count(2, 1), 7);
}
