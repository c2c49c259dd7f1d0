use mempool_monitor::api::{
    descen_document_of, descen_objects, get_descen_html, get_descen_json, get_index, get_mempool_datos, get_mempool_txs,
    get_tx_mempool_data, index_page, mempool_json_cookies, push_tx_line, select_mempool_datos,
    DescenObject, LastBlock, TxFields, MempoolData, MempoolNews, SeparatedTxGraph, PARENT_GAP, PARENT_LABEL,
    PARENT_START, TX_STYLE,
};
use mempool_monitor::str_map::StrMap;
use jsonwebtoken::{decode, Algorithm, DecodingKey, Validation};

fn strings(v: &[&str]) -> Vec<String> {
    v.iter().map(|s| s.to_string()).collect()
}

fn sample_graph() -> SeparatedTxGraph {
    let mut parent_child_edges = StrMap::new();
    parent_child_edges.insert("p1".to_string(), strings(&["c1", "c2"]));
    parent_child_edges.insert("p2".to_string(), strings(&[]));
    let mut child_grandchild_edges = StrMap::new();
    child_grandchild_edges.insert("c1".to_string(), strings(&["g1"]));
    SeparatedTxGraph { parent_child_edges, child_grandchild_edges }
}

fn sample_data() -> MempoolData {
    let mut data = MempoolData::new();
    data.entries.insert("p1".to_string(), strings(&["100", "400"]));
    data.entries.insert("c1".to_string(), strings(&["50", "200"]));
    data.entries.insert("g1".to_string(), strings(&["25", "100"]));
    data
}

#[test]
fn mempool_txs_page() {
    let page = get_mempool_txs();
    assert!(page.0.contains("<script src='script_js'></script>"));
    assert!(page.0.starts_with("<!DOCTYPE html>"));
    assert!(page.0.ends_with("</html>"));
}

#[test]
fn api_index_page_carries_sample() {
    let page = get_index();
    assert!(page.0.contains(
        "<script>let datosDescendientes = {\"descendientes\":[\"1\",\"2\",\"3\"]};</script>"
    ));
    assert!(page.0.ends_with("<div id='apiResult'>Cargando...</div>\n             </body>\n             \n         </html>"));
}

#[test]
fn index_page_wraps_json() {
    let page = index_page("{}");
    assert!(page.0.contains("<script>let datosDescendientes = {};</script>"));
}

#[test]
fn push_tx_line_writes_one_line() {
    let mut s = "x".to_string();
    push_tx_line(
        &mut s,
        PARENT_START,
        12,
        PARENT_LABEL,
        "\"id\"",
        PARENT_GAP,
        &("140".to_string(), "560".to_string()),
    );
    assert_eq!(s, "x<p class='tx-padre'> 12:Tx padre: \"id\"  ( vsize: 140 - weight: 560 )</p>");
}

#[test]
fn tx_mempool_data_page() {
    let mut data = MempoolData::new();
    data.entries.insert("t1".to_string(), strings(&["100", "400"]));
    data.entries.insert("t2".to_string(), strings(&["7"]));
    let page = get_tx_mempool_data(&data);
    let expected = format!(
        "<html><body><h1>Datos de las Txs de la Mempool</h1><p>t1 - 100</p><p>t2 - 7</p>{}</body></html>",
        TX_STYLE
    );
    assert_eq!(page.0, expected);
}

#[test]
fn get_entry_looks_up() {
    let data = sample_data();
    assert_eq!(data.get_entry("c1"), Some(&strings(&["50", "200"])));
    assert_eq!(data.get_entry("c2"), None);
}

#[test]
fn descen_html_page() {
    let page = get_descen_html(&sample_graph(), &sample_data());
    let expected = String::new()
        + "<html><body><h1>Txs de la Mempool</h1><h3> Total transacciones padre: 2 </h3>"
        + TX_STYLE
        + "<p class='tx-padre'> 1:Tx padre: \"p1\"  ( vsize: 100 - weight: 400 )</p>"
        + "<p class='tx-hijo'>&nbsp;&nbsp; 1:Tx hijo: \"c1\" ( vsize: 50 - weight: 200 )</p>"
        + "<p class='tx-nieto'>&nbsp;&nbsp;&nbsp;&nbsp; 1:Tx nieto: \"g1\" ( vsize: 25 - weight: 100 )</p>"
        + "<p class='tx-hijo'>&nbsp;&nbsp; 2:Tx hijo: \"c2\" ( vsize: Default Value - weight: Default Value )</p>"
        + "<p class='tx-padre'> 2:Tx padre: \"p2\"  ( vsize: Default Value - weight: Default Value )</p>"
        + "\n<p > Total líneas listado  5 : </p></body></html>";
    assert_eq!(page.0, expected);
}

#[test]
fn descen_html_quotes_ids_as_debug() {
    let mut parent_child_edges = StrMap::new();
    parent_child_edges.insert("a\"b".to_string(), strings(&[]));
    let graph = SeparatedTxGraph { parent_child_edges, child_grandchild_edges: StrMap::new() };
    let page = get_descen_html(&graph, &MempoolData::new());
    assert!(page.0.contains("1:Tx padre: \"a\\\"b\"  ( vsize"));
}

#[test]
fn descen_json_keeps_last_object() {
    let objects = descen_objects(&sample_graph(), &sample_data());
    assert_eq!(objects.len(), 2);
    match &objects[0] {
        DescenObject::Pair(p, c) => {
            assert_eq!((p.id.as_str(), p.vsize.as_str(), p.weight.as_str()), ("p1", "100", "400"));
            assert_eq!(
                (c.id.as_str(), c.vsize.as_str(), c.weight.as_str()),
                ("c2", "Default Value", "Default Value")
            );
        }
        _ => panic!("expected a parent and a child"),
    }
    assert!(matches!(objects[1], DescenObject::Empty));
}

#[test]
fn descen_json_triple_when_last_child_has_grandchildren() {
    let mut parent_child_edges = StrMap::new();
    parent_child_edges.insert("p1".to_string(), strings(&["c2", "c1"]));
    let mut child_grandchild_edges = StrMap::new();
    child_grandchild_edges.insert("c1".to_string(), strings(&["g0", "g1"]));
    let graph = SeparatedTxGraph { parent_child_edges, child_grandchild_edges };
    let objects = descen_objects(&graph, &sample_data());
    match &objects[0] {
        DescenObject::Triple(p, c, g) => {
            assert_eq!(p.id, "p1");
            assert_eq!(c.id, "c1");
            assert_eq!((g.id.as_str(), g.vsize.as_str(), g.weight.as_str()), ("g1", "25", "100"));
        }
        _ => panic!("expected three generations"),
    }
}

#[test]
fn descen_json_one_parent_one_child() {
    let mut parent_child_edges = StrMap::new();
    parent_child_edges.insert("p".to_string(), strings(&["c"]));
    let graph = SeparatedTxGraph { parent_child_edges, child_grandchild_edges: StrMap::new() };
    let mut data = MempoolData::new();
    data.entries.insert("p".to_string(), strings(&["10", "40"]));
    data.entries.insert("c".to_string(), strings(&["5", "20"]));
    let doc = get_descen_json(&graph, &data);
    assert_eq!(doc.0, r#"{"transacciones":[{"0":["p","10","40"],"1":["c","5","20"]}]}"#);
}

#[test]
fn descen_json_document_of_sample() {
    let doc = get_descen_json(&sample_graph(), &sample_data());
    assert_eq!(
        doc.0,
        r#"{"transacciones":[{"0":["p1","100","400"],"1":["c2","Default Value","Default Value"]},{}]}"#
    );
}

#[test]
fn descen_json_document_with_grandchild() {
    let mut parent_child_edges = StrMap::new();
    parent_child_edges.insert("p1".to_string(), strings(&["c1"]));
    let mut child_grandchild_edges = StrMap::new();
    child_grandchild_edges.insert("c1".to_string(), strings(&["g1"]));
    let graph = SeparatedTxGraph { parent_child_edges, child_grandchild_edges };
    let doc = get_descen_json(&graph, &sample_data());
    assert_eq!(
        doc.0,
        r#"{"transacciones":[{"0":["p1","100","400"],"1":["c1","50","200"],"2":["g1","25","100"]}]}"#
    );
}

#[test]
fn descen_json_empty_graph() {
    let graph = SeparatedTxGraph { parent_child_edges: StrMap::new(), child_grandchild_edges: StrMap::new() };
    assert_eq!(get_descen_json(&graph, &MempoolData::new()).0, r#"{"transacciones":[]}"#);
}

#[test]
fn descen_json_escapes_ids() {
    let fields = |id: &str| TxFields { id: id.to_string(), vsize: "1".to_string(), weight: "4".to_string() };
    let objects = vec![DescenObject::Pair(fields("a\"b"), fields("c\\d"))];
    assert_eq!(
        descen_document_of(&objects).0,
        r#"{"transacciones":[{"0":["a\"b","1","4"],"1":["c\\d","1","4"]}]}"#
    );
}

#[test]
fn mempool_datos_by_kind() {
    let graph = sample_graph();
    let news = MempoolNews { txs: strings(&["n1", "n2"]) };
    let block = LastBlock { block: "bh".to_string() };
    assert_eq!(get_mempool_datos(&graph, &news, &block, 1), "[\"p1\",\"p2\"]");
    assert_eq!(get_mempool_datos(&graph, &news, &block, 2), "[\"n1\",\"n2\"]");
    assert_eq!(get_mempool_datos(&graph, &news, &block, 3), "[\"n1\"]");
    assert_eq!(get_mempool_datos(&graph, &news, &block, 4), "[\"bh\"]");
    assert_eq!(get_mempool_datos(&graph, &news, &block, 7), "[]");
    assert_eq!(select_mempool_datos(&graph, &news, &block, 2), strings(&["n1", "n2"]));
}

#[test]
fn mempool_datos_escapes_json() {
    let graph = sample_graph();
    let news = MempoolNews { txs: strings(&["a\"b"]) };
    let block = LastBlock { block: String::new() };
    assert_eq!(get_mempool_datos(&graph, &news, &block, 2), "[\"a\\\"b\"]");
}

#[test]
fn cookies_for_new_visitor() {
    let c = mempool_json_cookies(false, 1700000000, 0);
    assert_eq!(c.tipo_tx, "0");
    assert_eq!(c.now_time, "0");
}

#[test]
fn cookies_after_long_pause() {
    let c = mempool_json_cookies(true, 100, 70);
    assert_eq!(c.tipo_tx, "1");
    assert_eq!(c.now_time, "100");
}

#[test]
fn cookies_after_short_pause() {
    let c = mempool_json_cookies(true, 100, 80);
    assert_eq!(c.tipo_tx, "2");
    assert_eq!(c.now_time, "100");
}

#[test]
fn generate_token_signs_claims() {
    let token = mempool_monitor::api::generate_token().unwrap();
    assert_eq!(token.split('.').count(), 3);
    let data = decode::<serde_json::Value>(
        &token,
        &DecodingKey::from_secret("secret".as_ref()),
        &Validation::new(Algorithm::HS256),
    )
    .unwrap();
    let claims = data.claims;
    assert_eq!(claims["company"], "b2p5");
    assert_eq!(claims["exp"], 10000000000u64);
    let sub = claims["sub"].as_str().unwrap();
    assert_eq!(sub.len(), 36);
    assert_eq!(&sub[14..15], "4");
    let other = mempool_monitor::api::generate_token().unwrap();
    assert_ne!(token, other);
}
