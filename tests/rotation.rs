use std::collections::HashMap;

use cfnts::rotation::{be_bytes, key_id_value, CacheError, RotatingKeys, RotationError, VecMap};

struct HashMapVecMap {
    table: HashMap<String, Option<Vec<u8>>>,
}

impl VecMap for HashMapVecMap {
    fn get(&mut self, key: &str) -> Result<Option<Vec<u8>>, CacheError> {
        Ok(self.table[&key.to_owned()].clone())
    }
}

struct FailingVecMap;

impl VecMap for FailingVecMap {
    fn get(&mut self, _key: &str) -> Result<Option<Vec<u8>>, CacheError> {
        Err(CacheError)
    }
}

fn test_map() -> HashMapVecMap {
    let mut testmap = HashMapVecMap { table: HashMap::new() };
    testmap.table.insert("test/1".to_string(), Some(vec![1; 32]));
    testmap.table.insert("test/2".to_string(), Some(vec![2; 32]));
    testmap.table.insert("test/3".to_string(), Some(vec![3; 32]));
    testmap.table.insert("test/4".to_string(), Some(vec![4; 32]));
    testmap.table.insert("test/5".to_string(), None);
    testmap.table.insert("test/0".to_string(), None);
    testmap
}

fn test_rotor() -> RotatingKeys {
    RotatingKeys {
        memcache_url: "unused".to_owned(),
        prefix: "test".to_owned(),
        duration: 1,
        forward_periods: 1,
        backward_periods: 1,
        master_key: vec![0, 32],
        latest: [1, 2, 3, 4],
        keys: HashMap::new(),
    }
}

fn slot(epoch: i64) -> u32 {
    key_id_value(&be_bytes(epoch))
}

#[test]
fn test_rotation() {
    let mut testmap = test_map();
    let mut test_rotor = test_rotor();
    test_rotor.internal_rotate(&mut testmap, 2).unwrap();
    let old_latest = test_rotor.latest;
    test_rotor.internal_rotate(&mut testmap, 3).unwrap();
    let new_latest = test_rotor.latest;
    assert_ne!(old_latest, new_latest);
    let res = test_rotor.internal_rotate(&mut testmap, 1);
    if let Ok(_) = res {
        panic!("Success should not have happened!")
    }
    let res = test_rotor.internal_rotate(&mut testmap, 4);
    if let Ok(_) = res {
        panic!("Success should not have happened!")
    }
}

#[test]
fn rotation_basic_window() {
    let mut testmap = test_map();
    let mut rotor = test_rotor();
    rotor.internal_rotate(&mut testmap, 2).unwrap();
    assert_eq!(rotor.keys.len(), 3);
    for epoch in [1i64, 2, 3] {
        assert!(rotor.keys.contains_key(&slot(epoch)));
    }
    assert_eq!(rotor.latest, [0, 0, 0, 2]);
    rotor.internal_rotate(&mut testmap, 3).unwrap();
    assert_eq!(rotor.keys.len(), 3);
    for epoch in [2i64, 3, 4] {
        assert!(rotor.keys.contains_key(&slot(epoch)));
    }
    assert_eq!(rotor.latest, [0, 0, 0, 3]);
    let (id, key) = rotor.latest();
    assert_eq!(id, [0, 0, 0, 3]);
    assert_eq!(key.len(), 32);
}

#[test]
fn retirement() {
    let mut testmap = test_map();
    let mut rotor = test_rotor();
    rotor.internal_rotate(&mut testmap, 2).unwrap();
    assert!(rotor.keys.contains_key(&slot(1)));
    rotor.internal_rotate(&mut testmap, 3).unwrap();
    assert!(!rotor.keys.contains_key(&slot(1)));
}

#[test]
fn missing_slot_still_publishes() {
    let mut testmap = test_map();
    let mut rotor = test_rotor();
    assert_eq!(
        rotor.internal_rotate(&mut testmap, 4),
        Err(RotationError::CacheMissFailure)
    );
    assert_eq!(rotor.latest, [0, 0, 0, 4]);
    assert!(rotor.keys.contains_key(&slot(3)));
    assert!(rotor.keys.contains_key(&slot(4)));
    assert!(!rotor.keys.contains_key(&slot(5)));
    assert_eq!(rotor.keys.len(), 2);
}

#[test]
fn keys_are_wrapped() {
    let mut testmap = HashMapVecMap { table: HashMap::new() };
    testmap.table.insert("jefe/9".to_string(), Some(b"what do ya want for nothing?".to_vec()));
    let mut rotor = RotatingKeys {
        memcache_url: String::new(),
        prefix: "jefe".to_owned(),
        duration: 3,
        forward_periods: 0,
        backward_periods: 0,
        master_key: b"Jefe".to_vec(),
        latest: [0; 4],
        keys: HashMap::new(),
    };
    rotor.internal_rotate(&mut testmap, 10).unwrap();
    let expected: Vec<u8> = vec![
        0x5b, 0xdc, 0xc1, 0x46, 0xbf, 0x60, 0x75, 0x4e, 0x6a, 0x04, 0x24, 0x26, 0x08, 0x95, 0x75,
        0xc7, 0x5a, 0x00, 0x3f, 0x08, 0x9d, 0x27, 0x39, 0x83, 0x9d, 0xec, 0x58, 0xb9, 0x64, 0xec,
        0x38, 0x43,
    ];
    assert_eq!(rotor.keys[&9], expected);
    assert_eq!(rotor.latest, [0, 0, 0, 9]);
}

#[test]
fn clock_and_transport_failures() {
    let mut rotor = test_rotor();
    let mut testmap = test_map();
    assert_eq!(rotor.rotate_keys(&mut testmap, None), Err(RotationError::ClockFailure));
    assert_eq!(rotor.internal_rotate(&mut testmap, -5), Err(RotationError::ClockFailure));
    assert_eq!(rotor.latest, [1, 2, 3, 4]);
    assert_eq!(
        rotor.internal_rotate(&mut FailingVecMap, 2),
        Err(RotationError::CacheTransportFailure)
    );
    assert!(rotor.keys.is_empty());
    assert_eq!(rotor.rotate_keys(&mut testmap, Some(2)), Ok(()));
    assert_eq!(rotor.keys.len(), 3);
}

#[test]
fn key_id_encoding() {
    assert_eq!(be_bytes(0x0102_0304), [1, 2, 3, 4]);
    assert_eq!(be_bytes(0x7_0A0B_0C0D), [0x0A, 0x0B, 0x0C, 0x0D]);
    assert_eq!(be_bytes(0), [0, 0, 0, 0]);
    assert_eq!(be_bytes(-1), [0xFF, 0xFF, 0xFF, 0xFF]);
    assert_eq!(key_id_value(&[1, 2, 3, 4]), 0x0102_0304);
}

#[test]
fn cache_key_names() {
    let rotor = test_rotor();
    assert_eq!(rotor.cache_key(3), "test/3");
    assert_eq!(rotor.cache_key(-20), "test/-20");
    assert_eq!(rotor.cache_key(1700000000), "test/1700000000");
}

#[test]
fn latest_changes_between_periods() {
    let mut rotor = RotatingKeys {
        memcache_url: String::new(),
        prefix: "p".to_owned(),
        duration: 60,
        forward_periods: 0,
        backward_periods: 0,
        master_key: vec![7],
        latest: [0; 4],
        keys: HashMap::new(),
    };
    let mut testmap = HashMapVecMap { table: HashMap::new() };
    testmap.table.insert("p/120".to_string(), Some(vec![1]));
    testmap.table.insert("p/180".to_string(), Some(vec![2]));
    rotor.internal_rotate(&mut testmap, 150).unwrap();
    let first = rotor.latest;
    rotor.internal_rotate(&mut testmap, 179).unwrap();
    assert_eq!(rotor.latest, first);
    rotor.internal_rotate(&mut testmap, 181).unwrap();
    assert_ne!(rotor.latest, first);
    assert_eq!(rotor.latest, [0, 0, 0, 180]);
}

#[test]
fn cache_key_extremes() {
    let rotor = test_rotor();
    assert_eq!(rotor.cache_key(0), "test/0");
    assert_eq!(rotor.cache_key(10), "test/10");
    assert_eq!(rotor.cache_key(i64::MAX), "test/9223372036854775807");
    assert_eq!(rotor.cache_key(i64::MIN), "test/-9223372036854775808");
}

#[test]
fn settings_and_window_range() {
    let mut rotor = test_rotor();
    assert!(rotor.is_well_formed());
    assert!(rotor.window_fits(2));
    assert!(rotor.window_fits(i64::MAX - 1));
    assert!(!rotor.window_fits(i64::MAX));
    rotor.duration = 1 << 62;
    assert!(rotor.window_fits(0));
    assert!(!rotor.window_fits(1 << 62));
    rotor.duration = 0;
    assert!(!rotor.is_well_formed());
    rotor.duration = 1;
    rotor.backward_periods = -1;
    assert!(!rotor.is_well_formed());
}

#[test]
fn missing_slot_keeps_old_entry() {
    let mut testmap = test_map();
    let mut rotor = test_rotor();
    rotor.internal_rotate(&mut testmap, 2).unwrap();
    let old_three = rotor.keys[&slot(3)].clone();
    testmap.table.insert("test/3".to_string(), None);
    testmap.table.insert("test/4".to_string(), Some(vec![9; 32]));
    assert_eq!(
        rotor.internal_rotate(&mut testmap, 3),
        Err(RotationError::CacheMissFailure)
    );
    assert_eq!(rotor.keys[&slot(3)], old_three);
    assert_eq!(rotor.keys[&slot(4)].len(), 32);
    assert_ne!(rotor.keys[&slot(4)], vec![9; 32]);
    assert!(!rotor.keys.contains_key(&slot(1)));
    assert_eq!(rotor.latest, [0, 0, 0, 3]);
}
