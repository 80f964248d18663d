use indexer_fees::order::{key_order, KeyOrder};
use indexer_fees::sorted_map::SortedMap;

#[test]
fn smaller_first_byte_comes_before() {
    assert_eq!(key_order("a", "b"), KeyOrder::Before);
    assert_eq!(key_order("b", "a"), KeyOrder::After);
}

#[test]
fn same_text_is_same_key() {
    assert_eq!(key_order("http://a.example/", "http://a.example/"), KeyOrder::Same);
    assert_eq!(key_order("", ""), KeyOrder::Same);
}

#[test]
fn proper_prefix_comes_before() {
    assert_eq!(key_order("http://a.example/", "http://a.example/x"), KeyOrder::Before);
    assert_eq!(key_order("http://a.example/x", "http://a.example/"), KeyOrder::After);
    assert_eq!(key_order("", "a"), KeyOrder::Before);
}

#[test]
fn first_difference_decides() {
    assert_eq!(key_order("abz", "aca"), KeyOrder::Before);
    assert_eq!(key_order("B", "a"), KeyOrder::Before);
}

#[test]
fn order_is_that_of_the_encoded_bytes() {
    // 'z' is one byte, 0x7a; 'é' starts with 0xc3.
    assert_eq!(key_order("z", "é"), KeyOrder::Before);
    assert_eq!(key_order("é", "z"), KeyOrder::After);
    // The order agrees with that of `str`.
    let words = ["", "a", "ab", "b", "é", "z", "http://x/", "http://x:80/", "日本"];
    for a in words {
        for b in words {
            let expected = match a.cmp(b) {
                std::cmp::Ordering::Less => KeyOrder::Before,
                std::cmp::Ordering::Equal => KeyOrder::Same,
                std::cmp::Ordering::Greater => KeyOrder::After,
            };
            assert_eq!(key_order(a, b), expected);
        }
    }
}

#[test]
fn new_map_is_empty() {
    let map: SortedMap<u64> = SortedMap::new();
    assert_eq!(map.len(), 0);
    assert!(map.entries().is_empty());
    assert!(!map.contains_key("a"));
    assert!(map.get("a").is_none());
}

#[test]
fn entries_come_out_in_key_order() {
    let mut map: SortedMap<u64> = SortedMap::new();
    for (key, value) in [("m", 1u64), ("c", 2), ("x", 3), ("a", 4), ("d", 5)] {
        assert_eq!(map.insert(key.to_string(), value), None);
    }
    assert_eq!(map.len(), 5);
    let keys: Vec<&str> = map.entries().iter().map(|e| e.key.as_str()).collect();
    assert_eq!(keys, vec!["a", "c", "d", "m", "x"]);
    let values: Vec<u64> = map.entries().iter().map(|e| e.value).collect();
    assert_eq!(values, vec![4, 2, 5, 1, 3]);
    assert_eq!(map.key_at(0), "a");
    assert_eq!(*map.value_at(0), 4);
    assert_eq!(map.key_at(4), "x");
    assert_eq!(*map.value_at(4), 3);
}

#[test]
fn insertion_order_does_not_show() {
    let mut one: SortedMap<u64> = SortedMap::new();
    let mut other: SortedMap<u64> = SortedMap::new();
    for key in ["b", "a", "c"] {
        one.insert(key.to_string(), key.len() as u64);
    }
    for key in ["c", "b", "a"] {
        other.insert(key.to_string(), key.len() as u64);
    }
    let left: Vec<(&str, u64)> = one.entries().iter().map(|e| (e.key.as_str(), e.value)).collect();
    let right: Vec<(&str, u64)> =
        other.entries().iter().map(|e| (e.key.as_str(), e.value)).collect();
    assert_eq!(left, right);
}

#[test]
fn known_key_gets_the_new_value() {
    let mut map: SortedMap<u64> = SortedMap::new();
    map.insert("a".to_string(), 1);
    map.insert("b".to_string(), 2);
    assert_eq!(map.insert("a".to_string(), 7), Some(1));
    assert_eq!(map.len(), 2);
    assert_eq!(map.get("a"), Some(&7));
    assert_eq!(map.get("b"), Some(&2));
}

#[test]
fn lookup_finds_what_was_put_in() {
    let mut map: SortedMap<u64> = SortedMap::new();
    for n in 0..50u64 {
        map.insert(format!("key{:02}", (n * 7) % 50), n);
    }
    assert_eq!(map.len(), 50);
    for n in 0..50u64 {
        let key = format!("key{:02}", (n * 7) % 50);
        assert!(map.contains_key(&key));
        assert_eq!(map.get(&key), Some(&n));
    }
    assert!(!map.contains_key("key50"));
    assert_eq!(map.get("key"), None);
    let keys: Vec<String> = map.entries().iter().map(|e| e.key.clone()).collect();
    let mut sorted = keys.clone();
    sorted.sort();
    assert_eq!(keys, sorted);
}
