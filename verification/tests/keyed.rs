use executive::keyed::{IdMap, TextMap};

#[test]
fn id_map_insert_get_remove() {
    let mut map: IdMap<&str> = IdMap::new();
    map.insert(5, "five");
    map.insert(9, "nine");
    map.insert(5, "FIVE");
    assert_eq!(map.len(), 2);
    assert_eq!(map.get(5), Some(&"FIVE"));
    assert!(map.contains_key(9));
    assert_eq!(map.remove(9), Some("nine"));
    assert_eq!(map.remove(9), None);
    assert!(!map.contains_key(9));
    assert_eq!(map.len(), 1);
}

#[test]
fn text_map_keeps_insertion_order() {
    let mut map: TextMap<u32> = TextMap::new();
    map.insert("b".into(), 2);
    map.insert("a".into(), 1);
    map.insert("b".into(), 20);
    assert_eq!(map.len(), 2);
    assert_eq!(map.index_of("b"), Some(0));
    assert_eq!(map.index_of("a"), Some(1));
    assert_eq!(*map.value_at(0), 20);
    assert_eq!(map.get("a"), Some(&1));
    assert_eq!(map.remove("b"), Some(20));
    assert_eq!(map.get("b"), None);
    assert_eq!(map.count(), 1);
    map.set_value_at(0, 11);
    assert_eq!(map.get("a"), Some(&11));
}
