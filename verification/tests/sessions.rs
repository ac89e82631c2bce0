use rhema::sessions::SessionTable;

#[test]
fn table_keeps_one_session_per_id() {
    let mut t: SessionTable<u32> = SessionTable::new();
    assert!(t.is_empty());
    assert_eq!(t.insert("main".to_string(), 1), None);
    assert_eq!(t.insert("side".to_string(), 2), None);
    assert!(t.contains("main"));
    assert!(!t.contains("mai"));
    assert_eq!(t.get("side"), Some(&2));
    assert_eq!(t.insert("main".to_string(), 3), Some(1));
    assert_eq!(t.get("main"), Some(&3));
    assert_eq!(t.remove("main"), Some(3));
    assert!(!t.contains("main"));
    assert_eq!(t.remove("main"), None);
    assert!(!t.is_empty());
    let mut drained = t.drain();
    drained.sort();
    assert_eq!(drained, vec![("side".to_string(), 2)]);
    assert!(t.is_empty());
    assert_eq!(t.get("side"), None);
}
