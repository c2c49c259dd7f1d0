use mempool_monitor::apis::{ascen_descen_for_txid, get_index, get_txs_range_weights, JsonResponse};
use mempool_monitor::mempool_data::{MempoolDat, RawMempool, WeightTX};
use mempool_monitor::mempool_processor::get_weight_tx;

#[test]
fn apis_index_page() {
    let page = get_index();
    assert_eq!(
        page.0,
        "<!DOCTYPE html>\n         <html>\n             \n             <head>\n                 <script src='/static/p5.min.js'></script>\n             </head>\n             <body>\n                <script align='center' src='/sketch_js'></script>\n             </body>\n             \n         </html>"
    );
}

#[test]
fn ascen_descen_lists_under_txid() {
    let a = ascen_descen_for_txid(
        "t".to_string(),
        vec!["d1".to_string(), "d2".to_string()],
        vec!["a1".to_string()],
    );
    assert_eq!(a.descen.keys().clone(), vec!["t".to_string()]);
    assert_eq!(a.descen.get("t"), Some(&vec!["d1".to_string(), "d2".to_string()]));
    assert_eq!(a.ascen.get("t"), Some(&vec!["a1".to_string()]));
}

#[test]
fn txs_range_weights_picks_records_in_range() {
    let mut raw = RawMempool::new();
    raw.data.insert("a".to_string(), MempoolDat::new(100, 400, 0, 0, 1, 2));
    raw.data.insert("b".to_string(), MempoolDat::new(200, 800, 0, 0, 1, 3));
    raw.data.insert("c".to_string(), MempoolDat::new(300, 1200, 0, 0, 1, 4));
    let mut w = WeightTX::new();
    w.weight_tx.insert(400, vec!["a".to_string(), "gone".to_string()]);
    w.weight_tx.insert(800, vec!["b".to_string()]);
    w.weight_tx.insert(1200, vec!["c".to_string()]);
    let txs = get_txs_range_weights(400, 800, &w, &raw);
    assert_eq!(txs.len(), 2);
    assert_eq!(txs.get("a"), Some(&MempoolDat::new(100, 400, 0, 0, 1, 2)));
    assert_eq!(txs.get("b"), Some(&MempoolDat::new(200, 800, 0, 0, 1, 3)));
    assert!(!txs.contains_key("c"));
    assert!(!txs.contains_key("gone"));
}

#[test]
fn law_range_finds_mempool_txs_of_those_weights() {
    let mut raw = RawMempool::new();
    raw.data.insert("a".to_string(), MempoolDat::new(100, 400, 0, 0, 1, 2));
    raw.data.insert("b".to_string(), MempoolDat::new(200, 800, 0, 0, 1, 3));
    raw.data.insert("c".to_string(), MempoolDat::new(300, 1200, 0, 0, 1, 4));
    raw.data.insert("d".to_string(), MempoolDat::new(150, 600, 0, 0, 1, 2));
    let mut w = WeightTX::new();
    get_weight_tx(&mut w, &raw);
    let txs = get_txs_range_weights(500, 1200, &w, &raw);
    let mut found: Vec<String> = txs.keys().clone();
    found.sort();
    assert_eq!(found, vec!["b".to_string(), "c".to_string(), "d".to_string()]);
    for k in &found {
        assert_eq!(txs.get(k), raw.data.get(k));
    }
}

#[test]
fn json_response_holds_text() {
    let r = JsonResponse("{}".to_string());
    assert_eq!(r.0, "{}");
}
