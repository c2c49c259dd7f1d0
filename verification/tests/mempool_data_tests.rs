use std::collections::HashMap;
use mempool_monitor::mempool_data::{
    AscenDescenForTxid, MempoolDat, MempoolVarInfo, RangeWeights, RawMempool, WeightTX,
};

#[test]
fn ascen_descen_new_and_delete() {
    let mut a = AscenDescenForTxid::new();
    assert_eq!(a.descen.len(), 0);
    assert_eq!(a.ascen.len(), 0);
    a.descen.insert("t".to_string(), vec!["d1".to_string()]);
    a.ascen.insert("t".to_string(), vec!["a1".to_string()]);
    a.delete();
    assert_eq!(a.descen.len(), 0);
    assert_eq!(a.ascen.len(), 0);
}

#[test]
fn mempool_dat_new_keeps_fields() {
    let d = MempoolDat::new(1, 2, 3, 0.5f64.to_bits(), 4, 5);
    assert_eq!(d.vsize, 1);
    assert_eq!(d.weight, 2);
    assert_eq!(d.time, 3);
    assert_eq!(f64::from_bits(d.fees_base_bits), 0.5);
    assert_eq!(d.num_ascen, 4);
    assert_eq!(d.num_descen, 5);
}

#[test]
fn raw_mempool_txid_exists() {
    let mut r = RawMempool::new();
    assert!(!r.txid_exists("t1"));
    r.data.insert("t1".to_string(), MempoolDat::new(1, 4, 0, 0, 1, 2));
    assert!(r.txid_exists("t1"));
    assert!(!r.txid_exists("t2"));
}

#[test]
fn mempool_var_info_new() {
    let v = MempoolVarInfo::new("00ab".to_string());
    assert_eq!(v.last_block, "00ab");
    assert_eq!(v.txs_totales, "");
    assert_eq!(v.txs_ascen_descen, "");
}

#[test]
fn weight_tx_new_and_erase() {
    let mut w = WeightTX::new();
    assert!(w.weight_tx.is_empty());
    w.weight_tx.insert(4, vec!["a".to_string()]);
    w.erase_weight_tx();
    assert!(w.weight_tx.is_empty());
}

#[test]
fn sort_by_weight_keeps_the_groups() {
    let mut w = WeightTX::new();
    w.weight_tx.insert(400, vec!["a".to_string(), "b".to_string()]);
    w.weight_tx.insert(900, vec!["c".to_string()]);
    w.weight_tx.insert(100, vec![]);
    let before = w.weight_tx.clone();
    w.sort_by_weight();
    assert_eq!(w.weight_tx, before);
}

#[test]
fn weights_heaviest_first_sorts_down() {
    let mut w = WeightTX::new();
    for weight in [400u64, 900, 100, 650] {
        w.weight_tx.insert(weight, vec![]);
    }
    assert_eq!(w.weights_heaviest_first(), vec![900, 650, 400, 100]);
    assert!(WeightTX::new().weights_heaviest_first().is_empty());
}

#[test]
fn range_weights_add_keeps_first_count() {
    let mut r = RangeWeights::new();
    r.add_range_data(700, 250);
    r.add_range_data(700, 3);
    r.add_range_data(800, 9);
    let mut expected = HashMap::new();
    expected.insert(700u64, 250u64);
    expected.insert(800u64, 9u64);
    assert_eq!(r.rang_data, expected);
    r.erase_range_data();
    assert!(r.rang_data.is_empty());
}
