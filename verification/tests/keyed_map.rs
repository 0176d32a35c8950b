use axum_oas::keyed_map::StrMap;
use axum_oas::text::{key_less, str_equal};

fn keys<V>(m: &StrMap<V>) -> Vec<String> {
    m.as_slice().iter().map(|(k, _)| k.clone()).collect()
}

#[test]
fn keys_come_out_sorted_whatever_the_insertion_order() {
    let mut m = StrMap::new();
    for k in ["put", "get", "delete", "post"] {
        m.insert(k.to_string(), k.len());
    }
    assert_eq!(keys(&m), vec!["delete", "get", "post", "put"]);
    let mut n = StrMap::new();
    for k in ["post", "delete", "put", "get"] {
        n.insert(k.to_string(), k.len());
    }
    assert_eq!(m, n);
}

#[test]
fn a_read_gives_back_the_last_write() {
    let mut m = StrMap::new();
    assert!(m.is_empty());
    m.insert("200".to_string(), "OK");
    m.insert("201".to_string(), "Created");
    m.insert("200".to_string(), "Still OK");
    assert_eq!(m.len(), 2);
    assert_eq!(m.get("200"), Some(&"Still OK"));
    assert_eq!(m.get("201"), Some(&"Created"));
    assert_eq!(m.get("204"), None);
}

#[test]
fn remove_hands_back_the_value() {
    let mut m = StrMap::new();
    m.insert("a".to_string(), 1);
    m.insert("b".to_string(), 2);
    assert_eq!(m.remove("a"), Some(1));
    assert_eq!(m.remove("a"), None);
    assert_eq!(keys(&m), vec!["b"]);
    assert_eq!(m.into_entries(), vec![("b".to_string(), 2)]);
}

#[test]
fn singleton_holds_one_entry() {
    let m = StrMap::singleton("application/json".to_string(), 7);
    assert_eq!(m.len(), 1);
    assert_eq!(m.get("application/json"), Some(&7));
}

#[test]
fn key_order_is_by_code_point() {
    assert!(key_less("/pets", "/pets/{id}"));
    assert!(!key_less("/pets/{id}", "/pets"));
    assert!(key_less("Z", "a"));
    assert!(key_less("a", "é"));
    assert!(!key_less("same", "same"));
    assert!(key_less("", "x"));
    assert!(str_equal("ü", "ü"));
    assert!(!str_equal("u", "ü"));
}
