use sheetpipe::registry::Registry;

#[test]
fn keys_grow_and_listing_follows_insertion_order() {
    let mut r = Registry::new();
    assert!(r.can_mint());
    let a = r.insert("out/a.xlsx".to_string());
    let b = r.insert("out/b.xlsx".to_string());
    assert_eq!(a, 0);
    assert_eq!(b, 1);
    assert_eq!(r.names(), vec!["out/a.xlsx".to_string(), "out/b.xlsx".to_string()]);
}

#[test]
fn registering_a_path_twice_keeps_its_key() {
    let mut r = Registry::new();
    let a = r.insert("out/a.xlsx".to_string());
    let again = r.insert("out/a.xlsx".to_string());
    assert_eq!(a, again);
    assert_eq!(r.names().len(), 1);
}

#[test]
fn delete_then_listing_no_longer_holds_the_path() {
    let mut r = Registry::new();
    let a = r.insert("out/a.xlsx".to_string());
    let _b = r.insert("out/b.xlsx".to_string());
    let removed = r.remove(a);
    assert_eq!(removed, Some("out/a.xlsx".to_string()));
    let names = r.names();
    assert!(!names.contains(&"out/a.xlsx".to_string()));
    assert_eq!(names, vec!["out/b.xlsx".to_string()]);
    // A second delete of the same key reports absence.
    assert_eq!(r.remove(a), None);
}

#[test]
fn removed_keys_are_never_reused() {
    let mut r = Registry::new();
    let a = r.insert("out/a.xlsx".to_string());
    r.remove(a);
    let c = r.insert("out/c.xlsx".to_string());
    assert_ne!(a, c);
    assert_eq!(c, 1);
}

#[test]
fn failed_delete_restores_the_entry() {
    let mut r = Registry::new();
    let a = r.insert("out/a.xlsx".to_string());
    let b = r.insert("out/b.xlsx".to_string());
    let name = r.remove(a).unwrap();
    // The backing file could not be deleted: the entry goes back in
    // under its old key, in key order.
    assert!(r.restore(a, name));
    assert_eq!(r.names(), vec!["out/a.xlsx".to_string(), "out/b.xlsx".to_string()]);
    assert_eq!(r.remove(a), Some("out/a.xlsx".to_string()));
    assert_eq!(r.remove(b), Some("out/b.xlsx".to_string()));
}

#[test]
fn restore_declines_when_the_registry_moved_on() {
    let mut r = Registry::new();
    let a = r.insert("out/a.xlsx".to_string());
    let name = r.remove(a).unwrap();
    // The path was adopted again from disk under a fresh key before the
    // restore: the entry stays out, under either its key or its path.
    r.adopt(&vec!["out/a.xlsx".to_string()]);
    assert!(!r.restore(a, name.clone()));
    assert_eq!(r.names(), vec!["out/a.xlsx".to_string()]);
    // A key never minted is declined too.
    let mut fresh = Registry::new();
    assert!(!fresh.restore(5, "out/x.xlsx".to_string()));
    assert_eq!(fresh.names().len(), 0);
}

#[test]
fn adoption_skips_known_paths_and_mints_for_new_ones() {
    let mut r = Registry::new();
    r.insert("out/a.xlsx".to_string());
    let found = vec![
        "out/a.xlsx".to_string(),
        "out/b.xlsx".to_string(),
        "out/c.xlsx".to_string(),
        "out/b.xlsx".to_string(),
    ];
    r.adopt(&found);
    assert_eq!(
        r.names(),
        vec!["out/a.xlsx".to_string(), "out/b.xlsx".to_string(), "out/c.xlsx".to_string()]
    );
}
