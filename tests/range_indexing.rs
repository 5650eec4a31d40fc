use pontos::range::{RangeAction, RangeIndexer};
use pontos::status::{should_skip_indexing, BlockIndexingStatus};
use std::collections::HashMap;

type Store = HashMap<u64, (BlockIndexingStatus, String)>;

struct Run {
    processed: Vec<u64>,
    actions: Vec<RangeAction>,
    reports: Vec<(u64, f64)>,
}

fn run_range(store: &mut Store, from: u64, to: u64, version: &str, force: bool) -> Run {
    let mut r = RangeIndexer::new(from, to);
    let mut run = Run { processed: Vec::new(), actions: Vec::new(), reports: Vec::new() };
    loop {
        let a = r.action();
        run.actions.push(a);
        let mut skip = false;
        match a {
            RangeAction::CheckSkip { block } => {
                skip = match store.get(&block) {
                    Some((status, v)) => should_skip_indexing(*status, v == version, force),
                    None => false,
                };
            }
            RangeAction::NotifyProcessing { .. } => {}
            RangeAction::MarkProcessing { block } => {
                store.insert(block, (BlockIndexingStatus::Processing, version.to_string()));
            }
            RangeAction::FetchAndProcess { block } => run.processed.push(block),
            RangeAction::MarkTerminated { block } => {
                store.insert(block, (BlockIndexingStatus::Terminated, version.to_string()));
            }
            RangeAction::NotifyTerminated { block, to } => {
                assert_eq!(store.get(&block).map(|e| e.0), Some(BlockIndexingStatus::Terminated));
                run.reports.push((block, block as f64 / to as f64 * 100.0));
            }
            RangeAction::Finished => break,
        }
        r.advance(skip);
    }
    run
}

#[test]
fn range_marks_every_block_terminated() {
    let mut store = Store::new();
    let run = run_range(&mut store, 3, 7, "v1", false);
    assert_eq!(run.processed, vec![3, 4, 5, 6, 7]);
    for n in 3..=7u64 {
        let (status, v) = store.get(&n).unwrap();
        assert_eq!(*status, BlockIndexingStatus::Terminated);
        assert_eq!(v, "v1");
        assert!(should_skip_indexing(*status, v == "v1", false));
    }
    assert!(!store.contains_key(&2));
    assert!(!store.contains_key(&8));
}

#[test]
fn range_second_run_skips_all() {
    let mut store = Store::new();
    run_range(&mut store, 10, 14, "v1", false);
    let again = run_range(&mut store, 10, 14, "v1", false);
    assert!(again.processed.is_empty());
    assert!(again.reports.is_empty());
    assert_eq!(again.actions.len(), 6);
}

#[test]
fn range_forced_reprocesses_all() {
    let mut store = Store::new();
    run_range(&mut store, 10, 14, "v1", false);
    let again = run_range(&mut store, 10, 14, "v1", true);
    assert_eq!(again.processed, vec![10, 11, 12, 13, 14]);
}

#[test]
fn range_new_version_reindexes() {
    let mut store = Store::new();
    run_range(&mut store, 1, 3, "v1", false);
    let again = run_range(&mut store, 1, 3, "v2", false);
    assert_eq!(again.processed, vec![1, 2, 3]);
    assert_eq!(store.get(&2).unwrap().1, "v2");
}

#[test]
fn range_skips_only_terminated_blocks() {
    let mut store = Store::new();
    store.insert(5, (BlockIndexingStatus::Terminated, "v1".to_string()));
    store.insert(6, (BlockIndexingStatus::Processing, "v1".to_string()));
    store.insert(7, (BlockIndexingStatus::NotIndexed, "v1".to_string()));
    let run = run_range(&mut store, 4, 7, "v1", false);
    assert_eq!(run.processed, vec![4, 6, 7]);
}

#[test]
fn range_reports_percentage_after_termination() {
    let mut store = Store::new();
    let run = run_range(&mut store, 5, 8, "v1", false);
    assert_eq!(run.reports, vec![(5, 62.5), (6, 75.0), (7, 87.5), (8, 100.0)]);
    let first_block: Vec<RangeAction> = run.actions[0..7].to_vec();
    assert_eq!(
        first_block,
        vec![
            RangeAction::CheckSkip { block: 5 },
            RangeAction::NotifyProcessing { block: 5 },
            RangeAction::MarkProcessing { block: 5 },
            RangeAction::FetchAndProcess { block: 5 },
            RangeAction::MarkTerminated { block: 5 },
            RangeAction::NotifyTerminated { block: 5, to: 8 },
            RangeAction::CheckSkip { block: 6 },
        ]
    );
}

#[test]
fn range_empty_when_from_above_to() {
    let mut store = Store::new();
    let run = run_range(&mut store, 9, 8, "v1", false);
    assert_eq!(run.actions, vec![RangeAction::Finished]);
    assert!(store.is_empty());
}

#[test]
fn range_single_block() {
    let mut store = Store::new();
    let run = run_range(&mut store, 0, 0, "v1", false);
    assert_eq!(run.processed, vec![0]);
}

#[test]
fn range_ends_at_largest_block_number() {
    let mut store = Store::new();
    let run = run_range(&mut store, u64::MAX - 1, u64::MAX, "v1", false);
    assert_eq!(run.processed, vec![u64::MAX - 1, u64::MAX]);
}

#[test]
fn skip_rule_cases() {
    assert!(should_skip_indexing(BlockIndexingStatus::Terminated, true, false));
    assert!(!should_skip_indexing(BlockIndexingStatus::Terminated, true, true));
    assert!(!should_skip_indexing(BlockIndexingStatus::Terminated, false, false));
    assert!(!should_skip_indexing(BlockIndexingStatus::Processing, true, false));
    assert!(!should_skip_indexing(BlockIndexingStatus::NotIndexed, true, false));
}
