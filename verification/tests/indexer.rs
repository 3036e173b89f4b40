use resource_indexer::fingerprint::resource_id;
use resource_indexer::indexer::assemble_entries;
use resource_indexer::indexer::index_resources;
use resource_indexer::model::ResourceReader;
use resource_indexer::model::RootScan;
use resource_indexer::model::ScannedFile;
use resource_indexer::store::ResourceStore;

fn file(path: &str, captured_at: Option<u64>) -> ScannedFile {
    ScannedFile { path: String::from(path), captured_at }
}

fn two_file_scan() -> Vec<RootScan> {
    vec![
        RootScan {
            root: String::from("/a"),
            files: vec![file("/a/x.jpg", Some(1_600_000_000)), file("/a/y.txt", None)],
        },
        RootScan { root: String::from("/missing"), files: vec![] },
    ]
}

#[test]
fn reader_holds_configured_paths() {
    let reader = ResourceReader::new(vec![String::from("/a"), String::from("/missing")]);
    assert_eq!(reader.local_resource_paths, vec!["/a", "/missing"]);
    let cloned = reader.clone();
    assert_eq!(cloned.local_resource_paths, reader.local_resource_paths);
}

#[test]
fn single_run_scenario() {
    let scans = two_file_scan();
    let mut store = ResourceStore::new();
    index_resources(&scans, &mut store);
    assert_eq!(store.resource_count(), 2);
    assert!(store.get_resource(&resource_id("/a/x.jpg")).is_some());
    assert!(store.get_resource(&resource_id("/a/y.txt")).is_some());
    assert!(store.get_resource(&resource_id("/missing")).is_none());
}

#[test]
fn run_is_idempotent() {
    let scans = two_file_scan();
    let mut store = ResourceStore::new();
    index_resources(&scans, &mut store);
    let first_x = store.get_resource(&resource_id("/a/x.jpg")).unwrap();
    let first_count = store.resource_count();
    index_resources(&scans, &mut store);
    assert_eq!(store.resource_count(), first_count);
    assert_eq!(store.get_resource(&resource_id("/a/x.jpg")).unwrap(), first_x);
    assert!(store.get_resource(&resource_id("/a/y.txt")).is_some());
}

#[test]
fn completed_run_leaves_no_stale_entries() {
    let first_roots = vec![RootScan {
        root: String::from("/old"),
        files: vec![file("/old/gone.jpg", Some(5))],
    }];
    let second_roots = vec![RootScan {
        root: String::from("/new"),
        files: vec![file("/new/kept.jpg", Some(6))],
    }];
    let mut store = ResourceStore::new();
    index_resources(&first_roots, &mut store);
    index_resources(&second_roots, &mut store);
    assert_eq!(store.resource_count(), 1);
    assert!(store.get_resource(&resource_id("/old/gone.jpg")).is_none());
    assert!(store.get_resource(&resource_id("/new/kept.jpg")).is_some());
}

#[test]
fn run_purges_derived_cache() {
    let mut store = ResourceStore::new();
    store.put_cached(String::from("derived"), String::from("stale"));
    index_resources(&two_file_scan(), &mut store);
    assert!(store.get_cached(&String::from("derived")).is_none());
}

#[test]
fn missing_root_contributes_nothing() {
    let with_missing = two_file_scan();
    let valid_only = vec![RootScan {
        root: String::from("/a"),
        files: vec![file("/a/x.jpg", Some(1_600_000_000)), file("/a/y.txt", None)],
    }];
    let mut s1 = ResourceStore::new();
    let mut s2 = ResourceStore::new();
    index_resources(&with_missing, &mut s1);
    index_resources(&valid_only, &mut s2);
    assert_eq!(s1.resource_count(), s2.resource_count());
    assert_eq!(
        s1.get_resource(&resource_id("/a/x.jpg")),
        s2.get_resource(&resource_id("/a/x.jpg"))
    );
    assert_eq!(
        s1.get_resource(&resource_id("/a/y.txt")),
        s2.get_resource(&resource_id("/a/y.txt"))
    );
}

#[test]
fn failed_augmentation_still_indexed() {
    let scans = vec![RootScan {
        root: String::from("/a"),
        files: vec![file("/a/broken.bin", None), file("/a/fine.jpg", Some(42))],
    }];
    let mut store = ResourceStore::new();
    index_resources(&scans, &mut store);
    assert_eq!(store.resource_count(), 2);
    let broken = store.get_resource(&resource_id("/a/broken.bin")).unwrap();
    assert!(broken.contains("\"captured_at\":null"));
    let fine = store.get_resource(&resource_id("/a/fine.jpg")).unwrap();
    assert!(fine.contains("\"captured_at\":42"));
}

#[test]
fn stable_identifier_across_runs() {
    let scans = vec![RootScan {
        root: String::from("/a"),
        files: vec![file("/a/x.jpg", Some(1))],
    }];
    let mut s1 = ResourceStore::new();
    let mut s2 = ResourceStore::new();
    index_resources(&scans, &mut s1);
    index_resources(&scans, &mut s2);
    let key = resource_id("/a/x.jpg");
    assert!(s1.get_resource(&key).is_some());
    assert!(s2.get_resource(&key).is_some());
}

#[test]
fn interleaved_runs_union_with_overwrite() {
    let run_a = vec![RootScan {
        root: String::from("/a"),
        files: vec![file("/shared.jpg", Some(1)), file("/only-a.jpg", Some(2))],
    }];
    let run_b = vec![RootScan {
        root: String::from("/b"),
        files: vec![file("/shared.jpg", Some(3)), file("/only-b.jpg", Some(4))],
    }];
    let entries_a = assemble_entries(&run_a);
    let entries_b = assemble_entries(&run_b);
    let mut store = ResourceStore::new();
    // Both runs purge first, then their bulk inserts interleave.
    store.clear_resources();
    store.clear_resources();
    store.add_resources(entries_a);
    store.add_resources(entries_b);
    assert_eq!(store.resource_count(), 3);
    assert!(store.get_resource(&resource_id("/only-a.jpg")).is_some());
    assert!(store.get_resource(&resource_id("/only-b.jpg")).is_some());
    let shared = store.get_resource(&resource_id("/shared.jpg")).unwrap();
    assert!(shared.contains("\"captured_at\":3"));
}
