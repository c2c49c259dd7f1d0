use mempool_monitor::str_map::StrMap;

fn keys_of(m: &StrMap<u64>) -> Vec<String> {
    m.keys().clone()
}

#[test]
fn str_map_starts_empty() {
    let m: StrMap<u64> = StrMap::new();
    assert_eq!(m.len(), 0);
    assert!(!m.contains_key("a"));
    assert_eq!(m.get("a"), None);
}

#[test]
fn str_map_keeps_insertion_order() {
    let mut m = StrMap::new();
    m.insert("b".to_string(), 2u64);
    m.insert("a".to_string(), 1u64);
    m.insert("c".to_string(), 3u64);
    assert_eq!(keys_of(&m), vec!["b", "a", "c"]);
    assert_eq!(m.len(), 3);
    assert_eq!(m.get("a"), Some(&1));
}

#[test]
fn str_map_insert_existing_key_keeps_place() {
    let mut m = StrMap::new();
    m.insert("b".to_string(), 2u64);
    m.insert("a".to_string(), 1u64);
    m.insert("b".to_string(), 20u64);
    assert_eq!(keys_of(&m), vec!["b", "a"]);
    assert_eq!(m.get("b"), Some(&20));
    assert_eq!(m.len(), 2);
}

#[test]
fn str_map_remove_keeps_order_of_others() {
    let mut m = StrMap::new();
    for (k, v) in [("x", 1u64), ("y", 2), ("z", 3)] {
        m.insert(k.to_string(), v);
    }
    m.remove(&"y".to_string());
    assert_eq!(keys_of(&m), vec!["x", "z"]);
    assert!(!m.contains_key("y"));
    m.remove(&"absent".to_string());
    assert_eq!(keys_of(&m), vec!["x", "z"]);
}

#[test]
fn str_map_clear_empties() {
    let mut m = StrMap::new();
    m.insert("x".to_string(), 1u64);
    m.clear();
    assert_eq!(m.len(), 0);
    assert!(keys_of(&m).is_empty());
}
