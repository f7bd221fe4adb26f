use phone::devices::{contains_string, DeviceTable};

fn table(rows: &[(&str, &str)]) -> DeviceTable {
    DeviceTable::from_rows(rows.iter().map(|(a, b)| (a.to_string(), b.to_string())).collect())
}

#[test]
fn new_table_is_empty() {
    let t = DeviceTable::new();
    assert!(t.is_empty());
    assert_eq!(t.len(), 0);
    assert_eq!(t.get("192.168.1.2"), None);
}

#[test]
fn insert_then_get_gives_the_name() {
    let mut t = DeviceTable::new();
    t.insert("192.168.1.2".to_string(), "pixel".to_string());
    t.insert("192.168.1.3".to_string(), "tablet".to_string());
    assert_eq!(t.get("192.168.1.2"), Some("pixel".to_string()));
    assert_eq!(t.get("192.168.1.3"), Some("tablet".to_string()));
    assert!(t.contains_key("192.168.1.3"));
    assert!(!t.contains_key("192.168.1.4"));
    assert_eq!(t.len(), 2);
}

#[test]
fn insert_of_a_known_address_renames_in_place() {
    let mut t = table(&[("a", "1"), ("b", "2")]);
    t.insert("a".to_string(), "3".to_string());
    assert_eq!(t.len(), 2);
    assert_eq!(t.get("a"), Some("3".to_string()));
    assert_eq!(t.ip_list(), vec!["a".to_string(), "b".to_string()]);
}

#[test]
fn later_row_wins() {
    let t = table(&[("a", "old"), ("b", "x"), ("a", "new")]);
    assert_eq!(t.len(), 2);
    assert_eq!(t.get("a"), Some("new".to_string()));
}

#[test]
fn retain_keeps_listed_addresses() {
    let mut t = table(&[("a", "1"), ("b", "2"), ("c", "3")]);
    t.retain_ips(&vec!["c".to_string(), "a".to_string(), "z".to_string()]);
    assert_eq!(t.ip_list(), vec!["a".to_string(), "c".to_string()]);
    assert_eq!(t.get("b"), None);
}

#[test]
fn entries_in_order() {
    let t = table(&[("a", "1"), ("b", "2")]);
    assert_eq!(t.entry_count(), 2);
    assert_eq!(t.entry(1), ("b".to_string(), "2".to_string()));
}

#[test]
fn contains_string_finds_exact_matches() {
    let v = vec!["ab".to_string(), "c".to_string()];
    assert!(contains_string(&v, "c"));
    assert!(!contains_string(&v, "a"));
}

#[test]
fn rows_are_listed_in_order_of_first_appearance() {
    let t = table(&[("b", "1"), ("a", "2"), ("b", "3")]);
    assert_eq!(t.ip_list(), vec!["b".to_string(), "a".to_string()]);
    assert_eq!(t.get("b"), Some("3".to_string()));
}
