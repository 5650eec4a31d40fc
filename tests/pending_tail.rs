use pontos::felt::Felt;
use pontos::tail::{PendingTail, TailAction, TailInput, TailPhase};

fn h(v: u128) -> Felt {
    Felt::from_u128(v)
}

fn poll(t: &mut PendingTail, ts: u64, txs: Vec<u128>) -> TailAction {
    t.step(TailInput::Pending { timestamp: ts, txs: txs.into_iter().map(h).collect() })
}

fn latest(t: &mut PendingTail, n: u64, ts: u64, txs: Vec<u128>) -> TailAction {
    t.step(TailInput::Latest { block_number: n, timestamp: ts, txs: txs.into_iter().map(h).collect() })
}

fn tx(hash: u128, block_number: u64, timestamp: u64) -> TailAction {
    TailAction::ProcessTx { hash: h(hash), block_number, timestamp }
}

#[test]
fn tail_first_poll_processes_pending_txs() {
    let mut t = PendingTail::new();
    assert_eq!(t.action(), TailAction::FetchPending);
    assert_eq!(poll(&mut t, 100, vec![1, 2]), tx(1, 100, 100));
    assert_eq!(t.cache.get_timestamp(), 100);
    assert_eq!(t.step(TailInput::TxProcessed), tx(2, 100, 100));
    assert_eq!(t.step(TailInput::TxProcessed), TailAction::Sleep);
    assert_eq!(t.step(TailInput::Done), TailAction::FetchPending);
    // Same pending block with one new transaction: only that one is handed over.
    assert_eq!(poll(&mut t, 100, vec![1, 2, 3]), tx(3, 100, 100));
    assert_eq!(t.step(TailInput::TxProcessed), TailAction::Sleep);
    assert!(t.cache.is_tx_processed(&h(1)));
    assert!(t.cache.is_tx_processed(&h(3)));
}

#[test]
fn tail_rollover_finishes_latest_then_tracks_new_pending() {
    let mut t = PendingTail::new();
    assert_eq!(poll(&mut t, 100, vec![1, 2]), tx(1, 100, 100));
    assert_eq!(t.step(TailInput::TxProcessed), tx(2, 100, 100));
    assert_eq!(t.step(TailInput::TxProcessed), TailAction::Sleep);
    assert_eq!(t.step(TailInput::Done), TailAction::FetchPending);
    // The pending timestamp moved from 100 to 200.
    assert_eq!(poll(&mut t, 200, vec![7]), TailAction::FetchLatest);
    // Block 42 is the one tracked as 100; transaction 4 arrived after the last poll.
    assert_eq!(latest(&mut t, 42, 100, vec![1, 2, 4]), tx(4, 42, 100));
    assert_eq!(
        t.step(TailInput::TxProcessed),
        TailAction::UpdateLastPendingBlock { block_number: 42, timestamp: 100 }
    );
    assert_eq!(t.step(TailInput::Done), tx(7, 200, 200));
    assert_eq!(t.cache.get_timestamp(), 200);
    assert!(!t.cache.is_tx_processed(&h(1)));
    assert_eq!(t.step(TailInput::TxProcessed), TailAction::Sleep);
    assert_eq!(t.cache.tx_hashes, vec![h(7)]);
}

#[test]
fn tail_rollover_with_nothing_left_promotes_at_once() {
    let mut t = PendingTail::new();
    assert_eq!(poll(&mut t, 100, vec![1]), tx(1, 100, 100));
    assert_eq!(t.step(TailInput::TxProcessed), TailAction::Sleep);
    assert_eq!(t.step(TailInput::Done), TailAction::FetchPending);
    assert_eq!(poll(&mut t, 200, vec![]), TailAction::FetchLatest);
    assert_eq!(
        latest(&mut t, 9, 100, vec![1]),
        TailAction::UpdateLastPendingBlock { block_number: 9, timestamp: 100 }
    );
    assert_eq!(t.step(TailInput::Done), TailAction::Sleep);
    assert_eq!(t.cache.get_timestamp(), 200);
    assert!(t.cache.tx_hashes.is_empty());
}

#[test]
fn tail_desync_cleans_and_recovers() {
    let mut t = PendingTail::new();
    assert_eq!(poll(&mut t, 100, vec![1]), tx(1, 100, 100));
    assert_eq!(t.step(TailInput::TxProcessed), TailAction::Sleep);
    assert_eq!(t.step(TailInput::Done), TailAction::FetchPending);
    assert_eq!(poll(&mut t, 300, vec![5]), TailAction::FetchLatest);
    // The latest block does not carry the tracked timestamp.
    assert_eq!(latest(&mut t, 43, 200, vec![1, 6]), TailAction::CleanBlock { timestamp: 100 });
    assert_eq!(t.step(TailInput::Done), TailAction::FetchPending);
    assert_eq!(t.cache.get_timestamp(), 0);
    assert!(t.cache.tx_hashes.is_empty());
    // Next poll: consistent data, normal processing.
    assert_eq!(poll(&mut t, 300, vec![5]), tx(5, 300, 300));
    assert_eq!(t.step(TailInput::TxProcessed), TailAction::Sleep);
    assert_eq!(t.cache.get_timestamp(), 300);
}

#[test]
fn tail_pending_failure_is_retried() {
    let mut t = PendingTail::new();
    assert_eq!(poll(&mut t, 100, vec![1, 2]), tx(1, 100, 100));
    assert_eq!(t.step(TailInput::TxFailed), tx(2, 100, 100));
    assert_eq!(t.step(TailInput::TxProcessed), TailAction::Sleep);
    assert!(!t.cache.is_tx_processed(&h(1)));
    assert_eq!(t.step(TailInput::Done), TailAction::FetchPending);
    assert_eq!(poll(&mut t, 100, vec![1, 2]), tx(1, 100, 100));
    assert_eq!(t.step(TailInput::TxProcessed), TailAction::Sleep);
    assert!(t.cache.is_tx_processed(&h(1)));
}

#[test]
fn tail_latest_failure_aborts() {
    let mut t = PendingTail::new();
    assert_eq!(poll(&mut t, 100, vec![]), TailAction::Sleep);
    assert_eq!(t.step(TailInput::Done), TailAction::FetchPending);
    assert_eq!(poll(&mut t, 200, vec![]), TailAction::FetchLatest);
    assert_eq!(latest(&mut t, 50, 100, vec![8]), tx(8, 50, 100));
    assert_eq!(t.step(TailInput::TxFailed), TailAction::Abort { hash: h(8) });
    assert_eq!(t.phase, TailPhase::Aborted);
    assert_eq!(t.step(TailInput::Done), TailAction::Abort { hash: h(8) });
}

#[test]
fn tail_duplicate_hash_processed_once() {
    let mut t = PendingTail::new();
    assert_eq!(poll(&mut t, 100, vec![1, 1, 2]), tx(1, 100, 100));
    assert_eq!(t.step(TailInput::TxProcessed), tx(2, 100, 100));
    assert_eq!(t.step(TailInput::TxProcessed), TailAction::Sleep);
    assert_eq!(t.cache.tx_hashes, vec![h(1), h(2)]);
}

#[test]
fn tail_ignores_input_that_does_not_answer() {
    let mut t = PendingTail::new();
    assert_eq!(t.step(TailInput::Done), TailAction::FetchPending);
    assert_eq!(latest(&mut t, 1, 1, vec![1]), TailAction::FetchPending);
    assert_eq!(t.cache.get_timestamp(), 0);
}
