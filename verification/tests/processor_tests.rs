use std::collections::HashMap;
use mempool_monitor::mempool_data::{MempoolDat, MempoolVarInfo, RangeWeights, RawMempool, WeightTX};
use mempool_monitor::mempool_processor::{
    add_txs_mempool_new_not_old, delete_txs_last_block, get_descendant_count, get_last_block,
    get_range_weights, get_txs_last_block, get_weight_tx, ranges_from_walk, MempoolEntry,
    MempoolError,
};

fn dat(weight: u64, num_descen: u64) -> MempoolDat {
    MempoolDat::new(weight / 4, weight, 1700000000, 0.0001f64.to_bits(), 1, num_descen)
}

fn ranges(walk: Vec<(u64, usize)>) -> HashMap<u64, u64> {
    let mut r = RangeWeights::new();
    ranges_from_walk(&mut r, &walk);
    r.rang_data
}

#[test]
fn ranges_of_an_empty_walk() {
    let mut expected = HashMap::new();
    expected.insert(0u64, 1u64);
    assert_eq!(ranges(vec![]), expected);
}

#[test]
fn ranges_close_past_the_limit() {
    // 1 + 150 = 151, then 151 + 60 = 211 > 200 closes a range under 9;
    // then 1 + 10 = 11 would go under the heaviest weight, 9, which has one.
    let mut expected = HashMap::new();
    expected.insert(9u64, 211u64);
    assert_eq!(ranges(vec![(5, 150), (9, 60), (3, 10)]), expected);
}

#[test]
fn ranges_last_count_under_heaviest_weight() {
    // 1 + 250 = 251 closes under 2; then 1 + 3 = 4 goes under the heaviest, 7.
    let mut expected = HashMap::new();
    expected.insert(2u64, 251u64);
    expected.insert(7u64, 4u64);
    assert_eq!(ranges(vec![(2, 250), (7, 3)]), expected);
}

#[test]
fn ranges_without_closing() {
    let mut expected = HashMap::new();
    expected.insert(2u64, 31u64);
    assert_eq!(ranges(vec![(1, 10), (2, 20)]), expected);
}

#[test]
fn ranges_law_every_other_range_is_full() {
    let walk: Vec<(u64, usize)> = vec![(10, 120), (4, 90), (30, 5), (7, 300), (2, 1)];
    let r = ranges(walk.clone());
    let heaviest = walk.iter().map(|p| p.0).max().unwrap();
    assert!(r.contains_key(&heaviest));
    for (w, n) in &r {
        assert!(*n >= 1);
        if *w != heaviest {
            assert!(*n > 200);
            assert!(walk.iter().any(|p| p.0 == *w));
        }
    }
}

#[test]
fn get_range_weights_of_groups() {
    let mut w = WeightTX::new();
    w.weight_tx.insert(1, vec!["a".to_string()]);
    w.weight_tx.insert(2, vec!["b".to_string()]);
    let mut r = RangeWeights::new();
    r.add_range_data(99, 99);
    get_range_weights(&mut r, &w);
    let mut expected = HashMap::new();
    expected.insert(2u64, 3u64);
    assert_eq!(r.rang_data, expected);
}

#[test]
fn get_range_weights_twice_gives_same_ranges() {
    let mut w = WeightTX::new();
    for weight in 1..40u64 {
        let ids: Vec<String> = (0..weight * 7).map(|i| format!("t{}-{}", weight, i)).collect();
        w.weight_tx.insert(weight * 10, ids);
    }
    let mut first = RangeWeights::new();
    get_range_weights(&mut first, &w);
    let mut second = RangeWeights::new();
    second.add_range_data(5, 5);
    second.add_range_data(123456, 1);
    get_range_weights(&mut second, &w);
    assert_eq!(first.rang_data, second.rang_data);
    get_range_weights(&mut second, &w);
    assert_eq!(first.rang_data, second.rang_data);
}

#[test]
fn get_weight_tx_groups_ids_by_weight() {
    let mut raw = RawMempool::new();
    raw.data.insert("t1".to_string(), dat(800, 2));
    raw.data.insert("t2".to_string(), dat(400, 3));
    raw.data.insert("t3".to_string(), dat(800, 5));
    let mut w = WeightTX::new();
    w.weight_tx.insert(1, vec!["old".to_string()]);
    get_weight_tx(&mut w, &raw);
    let mut expected = HashMap::new();
    expected.insert(800u64, vec!["t1".to_string(), "t3".to_string()]);
    expected.insert(400u64, vec!["t2".to_string()]);
    assert_eq!(w.weight_tx, expected);
}

#[test]
fn delete_txs_last_block_counts_removed() {
    let mut raw = RawMempool::new();
    raw.data.insert("t1".to_string(), dat(800, 2));
    raw.data.insert("t2".to_string(), dat(400, 3));
    raw.data.insert("t3".to_string(), dat(800, 5));
    let block = vec!["t3".to_string(), "zz".to_string(), "t1".to_string(), "t3".to_string()];
    let n = delete_txs_last_block(block, &mut raw);
    assert_eq!(n, 2);
    assert_eq!(raw.data.keys().clone(), vec!["t2".to_string()]);
    assert_eq!(raw.data.get("t2"), Some(&dat(400, 3)));
}

#[test]
fn get_descendant_count_with_descendants() {
    let entry = MempoolEntry {
        vsize: Some(141),
        weight: Some(561),
        time: Some(1700000001),
        fees_base_bits: Some(0.00002f64.to_bits()),
        ancestorcount: Some(1),
        descendantcount: Some(3),
    };
    let d = get_descendant_count(Some(entry));
    assert_eq!(d, MempoolDat::new(141, 561, 1700000001, 0.00002f64.to_bits(), 1, 3));
}

#[test]
fn get_descendant_count_missing_fields_are_zero() {
    let entry = MempoolEntry {
        vsize: None,
        weight: Some(561),
        time: None,
        fees_base_bits: None,
        ancestorcount: None,
        descendantcount: Some(2),
    };
    assert_eq!(get_descendant_count(Some(entry)), MempoolDat::new(0, 561, 0, 0, 0, 2));
}

#[test]
fn get_descendant_count_without_descendants_is_zero() {
    let entry = MempoolEntry {
        vsize: Some(141),
        weight: Some(561),
        time: Some(5),
        fees_base_bits: Some(7),
        ancestorcount: Some(4),
        descendantcount: Some(1),
    };
    assert_eq!(get_descendant_count(Some(entry)), MempoolDat::new(0, 0, 0, 0, 0, 0));
    assert_eq!(get_descendant_count(None), MempoolDat::new(0, 0, 0, 0, 0, 0));
}

#[test]
fn add_txs_puts_in_only_txs_with_descendants() {
    let mut raw = RawMempool::new();
    raw.data.insert("t0".to_string(), dat(100, 2));
    let fetched = vec![
        ("t1".to_string(), dat(800, 2)),
        ("t2".to_string(), dat(400, 1)),
        ("t3".to_string(), MempoolDat::new(0, 0, 0, 0, 0, 0)),
        ("t1".to_string(), dat(900, 4)),
    ];
    let n = add_txs_mempool_new_not_old(&mut raw, fetched);
    assert_eq!(n, 2);
    assert_eq!(raw.data.keys().clone(), vec!["t0".to_string(), "t1".to_string()]);
    assert_eq!(raw.data.get("t1"), Some(&dat(900, 4)));
}

#[test]
fn law_added_then_deleted_is_gone() {
    let mut raw = RawMempool::new();
    add_txs_mempool_new_not_old(&mut raw, vec![("t1".to_string(), dat(800, 2))]);
    assert!(raw.txid_exists("t1"));
    delete_txs_last_block(vec!["t1".to_string()], &mut raw);
    assert!(!raw.txid_exists("t1"));
}

#[test]
fn get_txs_last_block_reads_ids() {
    let txs = get_txs_last_block(Some(vec![Some("aa".to_string()), None, Some("bb".to_string())]));
    assert_eq!(txs, Ok(vec!["aa".to_string(), "".to_string(), "bb".to_string()]));
}

#[test]
fn get_txs_last_block_without_tx_array() {
    assert_eq!(get_txs_last_block(None), Err(MempoolError::NoTxArray));
}

#[test]
fn get_last_block_records_hash() {
    let mut info = MempoolVarInfo::new(String::new());
    info.txs_totales = "5".to_string();
    let h = get_last_block("00ff".to_string(), &mut info);
    assert_eq!(h, "00ff");
    assert_eq!(info.last_block, "00ff");
    assert_eq!(info.txs_totales, "5");
}
