use exchange_rate_path::registry::{Index, IndexHashMap};

#[test]
fn creates_entries_and_uses_its_methods_for_fetching() {
    let mut index_hash_map: IndexHashMap<String> = IndexHashMap::new();

    let key_1 = "Key 1".to_string();

    assert_eq!(None, index_hash_map.get(&key_1));
    assert_eq!(false, index_hash_map.contains(&key_1));
    assert_eq!(None, index_hash_map.get_index(&0_usize));
    assert_eq!(false, index_hash_map.contains_index(&0_usize));

    assert_eq!(Index::Inserted(0_usize), index_hash_map.entry(key_1));
    assert_eq!(1_usize, index_hash_map.len());

    // insert second key
    let key_2 = "Key 2".to_string();
    assert_eq!(Index::Inserted(1_usize), index_hash_map.entry(key_2));
    assert_eq!(2_usize, index_hash_map.len());

    let key_1_check = "Key 1".to_string();
    // check for existence of keys
    assert_eq!(Some(&0_usize), index_hash_map.get(&key_1_check));
    assert_eq!(true, index_hash_map.contains(&key_1_check));
    assert_eq!(Some(&key_1_check), index_hash_map.get_index(&0_usize));
    assert_eq!(true, index_hash_map.contains_index(&0_usize));
    assert_eq!(Index::Fetched(0_usize), index_hash_map.entry(key_1_check));
    assert_eq!(2_usize, index_hash_map.len());

    let key_2_check = "Key 2".to_string();
    // check for existence of keys
    let key_2_index_check = 1_usize;

    assert_eq!(Some(&key_2_index_check), index_hash_map.get(&key_2_check));
    assert_eq!(true, index_hash_map.contains(&key_2_check));
    assert_eq!(Some(&key_2_check), index_hash_map.get_index(&key_2_index_check));
    assert_eq!(true, index_hash_map.contains_index(&key_2_index_check));
    assert_eq!(Index::Fetched(1_usize), index_hash_map.entry(key_2_check));
    assert_eq!(2_usize, index_hash_map.len());
}

#[test]
fn distinct_keys_get_distinct_ids_and_repeats_are_fetched() {
    let mut registry: IndexHashMap<(String, String)> = IndexHashMap::new();
    let a = registry.entry(("KRAKEN".to_string(), "USD".to_string()));
    let b = registry.entry(("KRAKEN".to_string(), "EUR".to_string()));
    let c = registry.entry(("GDAX".to_string(), "USD".to_string()));
    assert_ne!(a.get_value(), b.get_value());
    assert_ne!(a.get_value(), c.get_value());
    assert_ne!(b.get_value(), c.get_value());
    assert_eq!(Index::Inserted(0), a);
    assert_eq!(Index::Inserted(1), b);
    assert_eq!(Index::Inserted(2), c);
    assert_eq!(Index::Fetched(1), registry.entry(("KRAKEN".to_string(), "EUR".to_string())));
    assert_eq!(Index::Fetched(1), registry.entry(("KRAKEN".to_string(), "EUR".to_string())));
    assert_eq!(3, registry.len());
}

#[test]
fn many_keys_keep_dense_ids_in_first_seen_order() {
    let mut registry: IndexHashMap<String> = IndexHashMap::new();
    for i in 0..200usize {
        assert_eq!(Index::Inserted(i), registry.entry(format!("key {}", i)));
    }
    for i in 0..200usize {
        assert_eq!(Some(&i), registry.get(&format!("key {}", i)));
        assert_eq!(Some(&format!("key {}", i)), registry.get_index(&i));
    }
    assert_eq!(None, registry.get(&"key 200".to_string()));
    assert_eq!(false, registry.contains_index(&200));
    let listed: Vec<&String> = registry.iter().collect();
    assert_eq!(200, listed.len());
    assert_eq!("key 0", listed[0].as_str());
    assert_eq!("key 199", listed[199].as_str());
}

#[test]
fn empty_key_is_a_key_like_any_other() {
    let mut registry: IndexHashMap<String> = IndexHashMap::new();
    assert_eq!(Index::Inserted(0), registry.entry(String::new()));
    assert_eq!(Index::Fetched(0), registry.entry(String::new()));
    assert_eq!(Index::Inserted(1), registry.entry(" ".to_string()));
}
