use mempool_monitor::mempool_data::{MempoolDat, MempoolVarInfo, RawMempool};
use mempool_monitor::monitor::{
    record_txs_ascen_descen, txs_mempool_new_not_old, MempoolMonitor, RoundAction, RoundEvent, RoundPhase,
};

fn ids(v: &[&str]) -> Vec<String> {
    v.iter().map(|s| s.to_string()).collect()
}

#[test]
fn new_not_old_keeps_listing_order() {
    let r = txs_mempool_new_not_old(&ids(&["d", "a", "e", "b"]), &ids(&["a", "b", "c"]));
    assert_eq!(r, ids(&["d", "e"]));
}

#[test]
fn law_same_listing_twice_brings_nothing() {
    let mut monitor = MempoolMonitor::new();
    let mut info = MempoolVarInfo::new(String::new());
    let first = monitor.record_mempool_listing(ids(&["x", "y"]), &mut info);
    assert_eq!(first, ids(&["x", "y"]));
    assert_eq!(info.txs_totales, "2");
    let second = monitor.record_mempool_listing(ids(&["x", "y"]), &mut info);
    assert!(second.is_empty());
    assert_eq!(monitor.txs_mempool_old, ids(&["x", "y"]));
}

#[test]
fn record_last_block_detects_new_block() {
    let mut monitor = MempoolMonitor::new();
    assert!(monitor.record_last_block(&"h1".to_string()));
    assert!(!monitor.record_last_block(&"h1".to_string()));
    assert!(monitor.record_last_block(&"h2".to_string()));
    assert_eq!(monitor.last_block_processed_old, "h2");
}

#[test]
fn record_txs_ascen_descen_counts() {
    let mut raw = RawMempool::new();
    for t in ["a", "b", "c"] {
        raw.data.insert(t.to_string(), MempoolDat::new(1, 4, 0, 0, 1, 2));
    }
    let mut info = MempoolVarInfo::new("h".to_string());
    record_txs_ascen_descen(&mut info, &raw);
    assert_eq!(info.txs_ascen_descen, "3");
    assert_eq!(info.last_block, "h");
}

fn added(action: RoundAction) -> Vec<String> {
    match action {
        RoundAction::AddTxs(txs) => txs,
        _ => panic!("expected the transactions to add"),
    }
}

#[test]
fn law_rounds_add_new_and_delete_on_new_block() {
    let mut monitor = MempoolMonitor::new();
    let mut info = MempoolVarInfo::new(String::new());

    // First round: everything listed is new, and any block is new.
    let a = monitor.step(RoundEvent::Listed(ids(&["x", "y"])), &mut info);
    assert_eq!(added(a), ids(&["x", "y"]));
    assert_eq!(info.txs_totales, "2");
    assert!(matches!(monitor.step(RoundEvent::Done, &mut info), RoundAction::AskLastBlock));
    assert!(matches!(
        monitor.step(RoundEvent::LastBlock("h1".to_string()), &mut info),
        RoundAction::FetchBlockTxs
    ));
    match monitor.step(RoundEvent::BlockTxs(ids(&["x"])), &mut info) {
        RoundAction::DeleteTxs(txs) => assert_eq!(txs, ids(&["x"])),
        _ => panic!("expected the block's transactions to delete"),
    }
    assert!(matches!(monitor.step(RoundEvent::Done, &mut info), RoundAction::Recompute));
    assert!(matches!(monitor.step(RoundEvent::Done, &mut info), RoundAction::Sleep));
    assert!(matches!(monitor.step(RoundEvent::Done, &mut info), RoundAction::ListMempool));
    assert!(monitor.phase == RoundPhase::Listing);

    // Second round: only what the first listing lacked is added, and the
    // same block is not processed again.
    let a = monitor.step(RoundEvent::Listed(ids(&["y", "z", "w"])), &mut info);
    assert_eq!(added(a), ids(&["z", "w"]));
    assert_eq!(info.txs_totales, "3");
    assert!(matches!(monitor.step(RoundEvent::Done, &mut info), RoundAction::AskLastBlock));
    assert!(matches!(
        monitor.step(RoundEvent::LastBlock("h1".to_string()), &mut info),
        RoundAction::Recompute
    ));
    assert!(matches!(monitor.step(RoundEvent::Done, &mut info), RoundAction::Sleep));
    assert!(matches!(monitor.step(RoundEvent::Done, &mut info), RoundAction::ListMempool));

    // Third round: another block is processed.
    let a = monitor.step(RoundEvent::Listed(ids(&["y", "z", "w"])), &mut info);
    assert!(added(a).is_empty());
    assert!(matches!(monitor.step(RoundEvent::Done, &mut info), RoundAction::AskLastBlock));
    assert!(matches!(
        monitor.step(RoundEvent::LastBlock("h2".to_string()), &mut info),
        RoundAction::FetchBlockTxs
    ));
    assert_eq!(monitor.last_block_processed_old, "h2");
}
