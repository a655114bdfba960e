use orexis::dictionary::{Dictionary, DictionaryEntry};

fn dict() -> Dictionary<u32, u64> {
    let e = |hash_code: i32, key: u32, value: u64| DictionaryEntry { hash_code, next: -1, key, value };
    Dictionary {
        entries: vec![e(11, 1, 100), e(-1, 2, 200), e(33, 3, 300), e(44, 2, 400)],
        count: 3,
        version: 7,
        free_list: 1,
        free_count: 1,
    }
}

#[test]
fn occupied_slots_only() {
    let d = dict();
    assert_eq!(d.get_count(), 3);
    assert_eq!(d.get_entries().len(), 4);
    assert!(d.get_entry(1).is_none());
    assert_eq!(d.get_entry(2).unwrap().value, 300);
    assert!(d.get_entry(9).is_none());
    assert_eq!(d.get_key(0), Some(1));
    assert_eq!(d.get_value(3), Some(400));
    assert_eq!(d.get_value(1), None);
    assert_eq!(d.get_keys(), vec![1, 3, 2]);
    assert_eq!(d.get_values(), vec![100, 300, 400]);
}

#[test]
fn lookup_skips_free_slots() {
    let d = dict();
    assert_eq!(d.find_entry(2), Some(3));
    assert!(d.contains_key(3));
    assert!(!d.contains_key(5));
    assert_eq!(d.try_get_value(2), Some(400));
    assert_eq!(d.try_get_value(1), Some(100));
    assert_eq!(d.try_get_value(5), None);
}
