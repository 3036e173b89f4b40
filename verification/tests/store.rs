use resource_indexer::store::ResourceStore;

#[test]
fn empty_store() {
    let s = ResourceStore::new();
    assert_eq!(s.resource_count(), 0);
    assert!(s.get_resource(&String::from("missing")).is_none());
}

#[test]
fn add_then_get() {
    let mut s = ResourceStore::new();
    s.add_resources(vec![
        (String::from("k1"), String::from("v1")),
        (String::from("k2"), String::from("v2")),
    ]);
    assert_eq!(s.resource_count(), 2);
    assert_eq!(s.get_resource(&String::from("k1")).unwrap(), "v1");
    assert_eq!(s.get_resource(&String::from("k2")).unwrap(), "v2");
}

#[test]
fn later_row_wins_within_one_bulk_insert() {
    let mut s = ResourceStore::new();
    s.add_resources(vec![
        (String::from("k"), String::from("first")),
        (String::from("k"), String::from("second")),
    ]);
    assert_eq!(s.resource_count(), 1);
    assert_eq!(s.get_resource(&String::from("k")).unwrap(), "second");
}

#[test]
fn later_insert_overwrites_earlier() {
    let mut s = ResourceStore::new();
    s.add_resources(vec![(String::from("k"), String::from("old"))]);
    s.add_resources(vec![(String::from("k"), String::from("new"))]);
    assert_eq!(s.resource_count(), 1);
    assert_eq!(s.get_resource(&String::from("k")).unwrap(), "new");
}

#[test]
fn clear_resources_leaves_cache() {
    let mut s = ResourceStore::new();
    s.add_resources(vec![(String::from("k"), String::from("v"))]);
    s.put_cached(String::from("derived"), String::from("d"));
    s.clear_resources();
    assert_eq!(s.resource_count(), 0);
    assert!(s.get_resource(&String::from("k")).is_none());
    assert_eq!(s.get_cached(&String::from("derived")).unwrap(), "d");
}

#[test]
fn clear_data_cache_leaves_resources() {
    let mut s = ResourceStore::new();
    s.add_resources(vec![(String::from("k"), String::from("v"))]);
    s.put_cached(String::from("derived"), String::from("d"));
    s.clear_data_cache();
    assert!(s.get_cached(&String::from("derived")).is_none());
    assert_eq!(s.get_resource(&String::from("k")).unwrap(), "v");
}
