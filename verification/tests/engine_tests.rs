use ordering_regret::engine::BlockBuilder;
use ordering_regret::ordering::sort_batch;
use ordering_regret::types::InternalTrade;

fn trade(
    slot: u64,
    amount_in: u64,
    bundled: bool,
    tx_index: u16,
    sig: &str,
    mint: &str,
) -> InternalTrade {
    InternalTrade {
        slot,
        amount_in,
        is_bundled: bundled,
        tx_index,
        tx_signature: sig.to_string(),
        token_mint_in: mint.to_string(),
    }
}

#[test]
fn bundled_precedes_lower_index_mempool_trade() {
    let batch = vec![
        trade(7, 5, false, 0, "first-submitted", "SOL"),
        trade(7, 5, true, 5, "bundled-later", "SOL"),
    ];
    let sorted = sort_batch(batch);
    assert!(sorted[0].is_bundled);
    assert_eq!(sorted[0].tx_index, 5);
    assert!(!sorted[1].is_bundled);
    assert_eq!(sorted[1].tx_index, 0);
}

#[test]
fn sort_groups_bundled_first_then_index_ascending() {
    let batch = vec![
        trade(1, 1, false, 3, "c", "SOL"),
        trade(1, 1, true, 9, "d", "SOL"),
        trade(1, 1, false, 1, "a", "SOL"),
        trade(1, 1, true, 2, "b", "SOL"),
    ];
    let sorted = sort_batch(batch);
    let keys: Vec<(bool, u16)> = sorted.iter().map(|t| (t.is_bundled, t.tx_index)).collect();
    assert_eq!(keys, vec![(true, 2), (true, 9), (false, 1), (false, 3)]);
}

#[test]
fn sort_is_idempotent() {
    let batch = vec![
        trade(1, 1, false, 3, "c", "SOL"),
        trade(1, 1, true, 9, "d", "SOL"),
        trade(1, 1, false, 1, "a", "SOL"),
    ];
    let once = sort_batch(batch);
    let once_sigs: Vec<String> = once.iter().map(|t| t.tx_signature.clone()).collect();
    let twice = sort_batch(once);
    let twice_sigs: Vec<String> = twice.iter().map(|t| t.tx_signature.clone()).collect();
    assert_eq!(once_sigs, twice_sigs);
}

#[test]
fn sort_is_stable_for_equal_keys() {
    let batch = vec![
        trade(1, 10, true, 4, "first", "SOL"),
        trade(1, 20, true, 4, "second", "SOL"),
        trade(1, 30, true, 4, "third", "SOL"),
    ];
    let sorted = sort_batch(batch);
    let sigs: Vec<&str> = sorted.iter().map(|t| t.tx_signature.as_str()).collect();
    assert_eq!(sigs, vec!["first", "second", "third"]);
}

#[test]
fn non_bundled_trader_suffers_extra_slippage() {
    // Two equal-size trades on one asset in one slot: the bundled one
    // jumps the queue (regret 500_000), so the non-bundled trader fills
    // second against a drained pool (regret 83_333). Both conflict.
    let mut b = BlockBuilder::new();
    b.add_trade(trade(7, 1_000_000, false, 0, "mempool", "SOL"));
    b.add_trade(trade(7, 1_000_000, true, 5, "bundle", "SOL"));
    b.flush();
    assert_eq!(b.conflicted_txs(), 2);
    assert_eq!(b.total_regret_units(), 583_333);
}

#[test]
fn slot_boundary_flushes_previous_batch() {
    let mut b = BlockBuilder::new();
    b.add_trade(trade(1, 1_000_000, false, 0, "one", "SOL"));
    // Still buffered: nothing replayed yet.
    assert_eq!(b.conflicted_txs(), 0);
    assert_eq!(b.total_regret_units(), 0);
    b.add_trade(trade(2, 1_000_000, false, 0, "two", "SOL"));
    // The slot-1 batch replayed: one conflicted trade, regret 500_000.
    assert_eq!(b.conflicted_txs(), 1);
    assert_eq!(b.total_regret_units(), 500_000);
    b.flush();
    assert_eq!(b.conflicted_txs(), 2);
    assert_eq!(b.total_regret_units(), 583_333);
}

#[test]
fn flush_on_empty_buffer_is_noop() {
    let mut b = BlockBuilder::new();
    b.flush();
    b.flush();
    assert_eq!(b.conflicted_txs(), 0);
    assert_eq!(b.total_regret_units(), 0);
}

#[test]
fn pools_are_independent_per_asset() {
    // The same trade on two distinct assets meets a fresh pool each
    // time, so each contributes the fresh-pool regret of 500_000.
    let mut b = BlockBuilder::new();
    b.add_trade(trade(1, 1_000_000, false, 0, "x", "SOL"));
    b.add_trade(trade(1, 1_000_000, false, 1, "y", "USDC"));
    b.flush();
    assert_eq!(b.conflicted_txs(), 2);
    assert_eq!(b.total_regret_units(), 1_000_000);
}

#[test]
fn metrics_never_decrease_across_slots() {
    let mut b = BlockBuilder::new();
    let mut last_conflicted = 0u64;
    let mut last_regret = 0u128;
    for slot in 1..6u64 {
        b.add_trade(trade(slot, 1_000_000, slot % 2 == 0, 0, "s", "SOL"));
        assert!(b.conflicted_txs() >= last_conflicted);
        assert!(b.total_regret_units() >= last_regret);
        last_conflicted = b.conflicted_txs();
        last_regret = b.total_regret_units();
    }
    b.flush();
    assert!(b.conflicted_txs() >= last_conflicted);
    assert!(b.total_regret_units() >= last_regret);
}

#[test]
fn lazily_created_pool_replays_the_reference_scenario() {
    // A single 100_000 swap against the lazily created 1_000_000-a-side
    // pool: payout 90_910, theoretical 100_000, regret 9_090, one
    // conflicted trade.
    let mut b = BlockBuilder::new();
    b.add_trade(trade(1, 100_000, false, 0, "solo", "SOL"));
    b.flush();
    assert_eq!(b.conflicted_txs(), 1);
    assert_eq!(b.total_regret_units(), 9_090);
    let pool = b.pool_snapshot(&"SOL".to_string()).unwrap();
    assert_eq!(pool.reserve_base, 1_100_000);
    assert_eq!(pool.reserve_quote, 909_090);
}

#[test]
fn tiny_trade_suffers_no_measurable_regret() {
    // amount 1_000 against the fresh pool pays out exactly the
    // theoretical 1_000: rounding loss is zero, so it is not conflicted.
    let mut b = BlockBuilder::new();
    b.add_trade(trade(3, 1_000, false, 0, "tiny", "SOL"));
    b.flush();
    assert_eq!(b.conflicted_txs(), 0);
    assert_eq!(b.total_regret_units(), 0);
}

#[test]
fn replay_all_matches_incremental_processing() {
    let stream = || {
        vec![
            trade(1, 1_000_000, false, 0, "a", "SOL"),
            trade(1, 2_000_000, true, 7, "b", "SOL"),
            trade(2, 3_000_000, false, 1, "c", "USDC"),
            trade(3, 4_000_000, true, 2, "d", "SOL"),
        ]
    };
    let one_shot = BlockBuilder::replay_all(stream());
    let mut incremental = BlockBuilder::new();
    for t in stream() {
        incremental.add_trade(t);
    }
    incremental.flush();
    assert_eq!(one_shot.conflicted_txs(), incremental.conflicted_txs());
    assert_eq!(one_shot.total_regret_units(), incremental.total_regret_units());
}

#[test]
fn identical_streams_replay_identically() {
    let stream = || {
        vec![
            trade(5, 10_000_000, true, 3, "p", "SOL"),
            trade(5, 20_000_000, false, 1, "q", "BONK"),
            trade(6, 30_000_000, false, 4, "r", "SOL"),
        ]
    };
    let run1 = BlockBuilder::replay_all(stream());
    let run2 = BlockBuilder::replay_all(stream());
    assert_eq!(run1.conflicted_txs(), run2.conflicted_txs());
    assert_eq!(run1.total_regret_units(), run2.total_regret_units());
}

#[test]
fn pool_reserves_persist_between_slots() {
    let mut b = BlockBuilder::new();
    assert!(b.pool_snapshot(&"SOL".to_string()).is_none());
    b.add_trade(trade(1, 1_000_000, false, 0, "one", "SOL"));
    b.flush();
    let after_first = b
        .pool_snapshot(&"SOL".to_string())
        .expect("pool must exist after its asset traded");
    assert_eq!(after_first.reserve_base, 2_000_000);
    assert_eq!(after_first.reserve_quote, 500_000);
    b.add_trade(trade(2, 1_000_000, false, 0, "two", "SOL"));
    b.flush();
    let after_second = b.pool_snapshot(&"SOL".to_string()).unwrap();
    assert_eq!(after_second.reserve_base, 3_000_000);
    assert_eq!(after_second.reserve_quote, 333_333);
    assert_eq!(after_second.k, after_first.k);
}
