use wherever::discovery::{discover_role, pick_discovery_words, DiscoverRole, DiscoveryTable, TableIdx};

#[test]
fn reserve_until_full() {
    let mut t: DiscoveryTable<&str> = DiscoveryTable::new(3);
    let a = t.reserve("a").unwrap();
    let b = t.reserve("b").unwrap();
    let c = t.reserve("c").unwrap();
    assert!(t.reserve("d").is_none());
    let mut seen = vec![a.0, b.0, c.0];
    seen.sort();
    assert_eq!(seen, vec![0, 1, 2]);
}

#[test]
fn lookup_gives_back_reservation() {
    let mut t: DiscoveryTable<String> = DiscoveryTable::new(2);
    let i = t.reserve("chan".to_string()).unwrap();
    assert_eq!(t.lookup(i), Some("chan".to_string()));
    assert_eq!(t.lookup(i), None);
    assert!(t.reserve("x".to_string()).is_some());
    assert!(t.reserve("y".to_string()).is_some());
    assert!(t.reserve("z".to_string()).is_none());
}

#[test]
fn lookup_with_puts_slot_back() {
    let mut t: DiscoveryTable<u8> = DiscoveryTable::new(1);
    let i = t.reserve(7).unwrap();
    assert_eq!(i, TableIdx(0));
    assert_eq!(t.lookup_with(i, false), Some(7));
    assert_eq!(t.reserve(8), Some(TableIdx(0)));
    assert_eq!(t.lookup_with(TableIdx(5), true), None);
}

#[test]
fn empty_table_is_full() {
    let mut t: DiscoveryTable<u8> = DiscoveryTable::new(0);
    assert!(t.reserve(1).is_none());
}

#[test]
fn roles_from_path() {
    assert_eq!(discover_role(""), Some(DiscoverRole::Initiator));
    assert_eq!(discover_role("17"), Some(DiscoverRole::Responder(TableIdx(17))));
    assert_eq!(discover_role("abc"), None);
    assert_eq!(discover_role("-1"), None);
}

#[test]
fn words_come_from_the_list() {
    let list = ["apple", "berry"];
    let w = pick_discovery_words(&list).unwrap();
    let parts: Vec<&str> = w.split('-').collect();
    assert_eq!(parts.len(), 3);
    assert!(parts.iter().all(|p| list.contains(p)));
    assert_eq!(pick_discovery_words(&[]), None);
}
