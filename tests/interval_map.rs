use versionitis::interval_map::IntervalMap;
use versionitis::version_number_interval::VersionNumberInterval;

#[test]
fn insert_replaces_and_remove_takes_out() {
    let a = VersionNumberInterval::from_str("1.0<2.0").unwrap();
    let b = VersionNumberInterval::from_str("3.0").unwrap();
    let mut m = IntervalMap::new();
    assert_eq!(m.insert("fred", a.clone()), None);
    assert_eq!(m.insert("barney", b.clone()), None);
    assert_eq!(m.len(), 2);
    assert_eq!(m.insert("fred", b.clone()), Some(a.clone()));
    assert_eq!(m.get("fred"), Some(&b));
    assert!(m.contains_key("barney"));
    assert_eq!(m.remove("barney"), Some(b.clone()));
    assert_eq!(m.remove("barney"), None);
    assert!(!m.contains_key("barney"));
    assert_eq!(m.len(), 1);
    let mut keys = m.keys();
    keys.sort();
    assert_eq!(keys, vec!["fred".to_string()]);
    assert_eq!(m.values(), vec![b.clone()]);
    let drained = m.drain();
    assert_eq!(drained, vec![("fred".to_string(), b)]);
    assert_eq!(m.len(), 0);
    let mut c = IntervalMap::with_capacity(4);
    c.insert("x", a);
    assert_eq!(c.iter().len(), 1);
    c.clear();
    assert_eq!(c.len(), 0);
}

#[test]
fn room_changes_keep_entries() {
    let a = VersionNumberInterval::from_str("1.0").unwrap();
    let mut m = IntervalMap::with_capacity(2);
    m.insert("a", a.clone());
    m.reserve(10);
    assert!(m.capacity() >= 1);
    m.shrink_to_fit();
    assert_eq!(m.get("a"), Some(&a));
    assert_eq!(m.len(), 1);
}

#[test]
fn equality_ignores_insertion_order() {
    let a = VersionNumberInterval::from_str("1.0<2.0").unwrap();
    let b = VersionNumberInterval::from_str("3.0").unwrap();
    let mut m1 = IntervalMap::new();
    m1.insert("fred", a.clone());
    m1.insert("barney", b.clone());
    let mut m2 = IntervalMap::new();
    m2.insert("barney", b.clone());
    m2.insert("fred", a.clone());
    assert_eq!(m1, m2);
    m2.insert("fred", b.clone());
    assert_ne!(m1, m2);
    m2.remove("fred");
    assert_ne!(m1, m2);
}
