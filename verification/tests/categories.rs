use toot::categories::CategoryMap;

#[test]
fn empty_map_resolves_nothing() {
    let cats = CategoryMap::new();
    assert!(cats.hashtag_for(&"async".to_string()).is_none());
}

#[test]
fn lookup_is_exact_match() {
    let mut cats = CategoryMap::new();
    assert!(cats.insert("async".to_string(), "AsyncRust".to_string()));
    assert_eq!(cats.hashtag_for(&"async".to_string()).unwrap(), "AsyncRust");
    assert!(cats.hashtag_for(&"Async".to_string()).is_none());
    assert!(cats.hashtag_for(&"asyn".to_string()).is_none());
}

#[test]
fn duplicate_tag_keeps_first_binding() {
    let mut cats = CategoryMap::new();
    assert!(cats.insert("web".to_string(), "WebDev".to_string()));
    assert!(!cats.insert("web".to_string(), "Other".to_string()));
    assert_eq!(cats.hashtag_for(&"web".to_string()).unwrap(), "WebDev");
}
