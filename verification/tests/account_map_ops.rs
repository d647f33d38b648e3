use safe_harbor::account_map::AccountMap;
use safe_harbor::types::Identity;

fn id(tag: u8) -> Identity {
    Identity::new([tag; 32])
}

#[test]
fn test_account_map_insert_get() {
    let mut map = AccountMap::new();
    assert!(map.is_empty());
    assert_eq!(map.get(id(1)), None);
    map.insert(id(1), id(10));
    map.insert(id(2), id(20));
    assert_eq!(map.len(), 2);
    assert_eq!(map.get(id(1)), Some(id(10)));
    assert_eq!(map.get(id(2)), Some(id(20)));
    assert!(map.contains_key(id(1)));
    assert!(!map.contains_key(id(3)));
}

#[test]
fn test_account_map_insert_overwrites_in_place() {
    let mut map = AccountMap::new();
    map.insert(id(1), id(10));
    map.insert(id(2), id(20));
    map.insert(id(1), id(11));
    assert_eq!(map.len(), 2);
    assert_eq!(map.get(id(1)), Some(id(11)));
    // the overwritten entry keeps its position
    assert_eq!(map.items[0].key, id(1));
    assert_eq!(map.items[0].value, id(11));
}

#[test]
fn test_account_map_remove() {
    let mut map = AccountMap::new();
    map.insert(id(1), id(10));
    map.insert(id(2), id(20));
    assert!(map.remove(id(1)));
    assert_eq!(map.len(), 1);
    assert_eq!(map.get(id(1)), None);
    assert_eq!(map.get(id(2)), Some(id(20)));
    assert!(!map.remove(id(1)));
    assert_eq!(map.len(), 1);
}

#[test]
fn test_account_map_default() {
    let map = AccountMap::default();
    assert!(map.is_empty());
    assert_eq!(map.len(), 0);
}
