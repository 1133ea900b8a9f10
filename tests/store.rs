use jetraay::{HistoryEntry, Jet, Store, StoreError};

fn s(x: &str) -> String {
    x.to_string()
}

fn jet(id: &str, name: Option<&str>, method: &str, url: &str, headers: &[&str], body: Option<&str>) -> Jet {
    Jet {
        id: s(id),
        name: name.map(s),
        method: s(method),
        url: s(url),
        headers: headers.iter().map(|h| s(h)).collect(),
        body: body.map(s),
    }
}

fn versions(h: &[HistoryEntry]) -> Vec<u64> {
    h.iter().map(|e| e.version).collect()
}

fn current(store: &Store, id: &str) -> Jet {
    store.load_jets().iter().find(|j| j.id == id).expect("record present").clone()
}

#[test]
fn scenario_dedup_and_revert() {
    let mut store = Store::new();
    let a = store.create_jet(s("GET"), s("http://x"), vec![s("Accept: */*")], None, s("t1"));
    let h = store.fetch_jet_history(&a);
    assert_eq!(versions(&h), vec![1]);

    let mut renamed = current(&store, &a);
    renamed.name = Some(s("Foo"));
    assert!(!store.save_jet_history(renamed, s("t2")));
    assert_eq!(store.fetch_jet_history(&a).len(), 1);
    assert_eq!(current(&store, &a).name, Some(s("Foo")));

    let mut with_body = current(&store, &a);
    with_body.body = Some(s("payload"));
    assert!(store.save_jet_history(with_body, s("t3")));
    assert_eq!(versions(&store.fetch_jet_history(&a)), vec![2, 1]);

    assert_eq!(store.revert_jet_to_version(&a, 1), Ok(()));
    assert_eq!(current(&store, &a).body, None);
    assert_eq!(versions(&store.fetch_jet_history(&a)), vec![2, 1]);
}

#[test]
fn create_records_version_one_with_snapshot() {
    let mut store = Store::new();
    let id = store.create_jet(s("POST"), s("http://y"), vec![s("A: 1")], Some(s("b")), s("now"));
    let h = store.fetch_jet_history(&id);
    assert_eq!(h.len(), 1);
    assert_eq!(h[0].version, 1);
    assert_eq!(h[0].jet_id, id);
    assert_eq!(h[0].timestamp, "now");
    let created = current(&store, &id);
    assert_eq!(created.name, None);
    assert_eq!(created.method, "POST");
    assert_eq!(jetraay::decode_snapshot(&h[0].data), Some(created));
}

#[test]
fn created_ids_are_distinct() {
    let mut store = Store::new();
    let a = store.create_jet(s("GET"), s("u"), vec![], None, s("t"));
    let b = store.create_jet(s("GET"), s("u"), vec![], None, s("t"));
    assert_ne!(a, b);
    assert_eq!(a.len(), 36);
    assert_eq!(store.load_jets().len(), 2);
}

#[test]
fn accepted_saves_number_versions_without_gaps() {
    let mut store = Store::new();
    for n in 0..5 {
        let body = format!("body {}", n);
        assert!(store.save_jet_history(jet("j", None, "GET", "u", &[], Some(&body)), s("t")));
        // a repeat of the same state is deduplicated
        assert!(!store.save_jet_history(jet("j", None, "GET", "u", &[], Some(&body)), s("t")));
    }
    assert_eq!(versions(&store.fetch_jet_history(&s("j"))), vec![5, 4, 3, 2, 1]);
    assert_eq!(store.latest_version(&s("j")), 5);
    assert_eq!(store.latest_version(&s("other")), 0);
}

#[test]
fn unchanged_save_keeps_history_and_writes_fields() {
    let mut store = Store::new();
    assert!(store.save_jet_history(jet("j", None, "GET", "u1", &["a", "b"], None), s("t")));
    assert!(!store.save_jet_history(jet("j", Some("n"), "PUT", "u2", &["b", "a"], None), s("t")));
    assert_eq!(store.fetch_jet_history(&s("j")).len(), 1);
    assert_eq!(current(&store, "j"), jet("j", Some("n"), "PUT", "u2", &["b", "a"], None));
}

#[test]
fn header_comparison_checks_one_direction_only() {
    let mut store = Store::new();
    assert!(store.save_jet_history(jet("j", None, "GET", "u", &["a", "a"], None), s("t")));
    assert!(!store.save_jet_history(jet("j", None, "GET", "u", &["a", "b"], None), s("t")));
    assert!(store.save_jet_history(jet("j", None, "GET", "u", &["b", "c"], None), s("t")));
    assert_eq!(versions(&store.fetch_jet_history(&s("j"))), vec![2, 1]);
}

#[test]
fn body_change_to_absent_is_a_change() {
    let mut store = Store::new();
    assert!(store.save_jet_history(jet("j", None, "GET", "u", &[], Some("")), s("t")));
    assert!(store.save_jet_history(jet("j", None, "GET", "u", &[], None), s("t")));
    assert_eq!(store.latest_version(&s("j")), 2);
}

#[test]
fn revert_restores_snapshot_without_new_version() {
    let mut store = Store::new();
    let v1 = jet("j", Some("first"), "GET", "u1", &["h: 1"], None);
    store.save_jet_history(v1.clone(), s("t1"));
    store.save_jet_history(jet("j", Some("second"), "POST", "u2", &[], Some("x")), s("t2"));
    assert_eq!(store.revert_jet_to_version(&s("j"), 1), Ok(()));
    assert_eq!(current(&store, "j"), v1);
    assert_eq!(store.latest_version(&s("j")), 2);
    assert_eq!(store.load_jets().len(), 1);
}

#[test]
fn revert_of_missing_version_is_not_found() {
    let mut store = Store::new();
    store.save_jet_history(jet("j", None, "GET", "u", &[], None), s("t"));
    assert_eq!(store.revert_jet_to_version(&s("j"), 2), Err(StoreError::NotFound));
    assert_eq!(store.revert_jet_to_version(&s("k"), 1), Err(StoreError::NotFound));
    assert_eq!(store.revert_jet_to_version(&s("j"), 0), Err(StoreError::NotFound));
}

#[test]
fn revert_of_corrupt_snapshot_is_a_serialization_error() {
    let mut store = Store::new();
    let entry = HistoryEntry { jet_id: s("j"), version: 1, data: s("not json"), timestamp: s("t") };
    assert!(store.restore_entry(entry));
    assert_eq!(store.revert_jet_to_version(&s("j"), 1), Err(StoreError::Serialization));
    assert_eq!(store.load_jets().len(), 0);
}

#[test]
fn revert_resurrects_deleted_record() {
    let mut store = Store::new();
    let v1 = jet("j", None, "GET", "u", &[], Some("b"));
    store.save_jet_history(v1.clone(), s("t"));
    store.delete_jet(&s("j"));
    assert_eq!(store.load_jets().len(), 0);
    assert_eq!(store.revert_jet_to_version(&s("j"), 1), Ok(()));
    assert_eq!(current(&store, "j"), v1);
}

#[test]
fn history_is_listed_newest_first_per_jet() {
    let mut store = Store::new();
    store.save_jet_history(jet("a", None, "GET", "u", &[], Some("1")), s("t"));
    store.save_jet_history(jet("b", None, "GET", "u", &[], Some("1")), s("t"));
    store.save_jet_history(jet("a", None, "GET", "u", &[], Some("2")), s("t"));
    store.save_jet_history(jet("a", None, "GET", "u", &[], Some("3")), s("t"));
    let h = store.fetch_jet_history(&s("a"));
    assert_eq!(versions(&h), vec![3, 2, 1]);
    assert!(h.iter().all(|e| e.jet_id == "a"));
    assert_eq!(versions(&store.fetch_jet_history(&s("b"))), vec![1]);
    assert!(store.fetch_jet_history(&s("c")).is_empty());
}

#[test]
fn history_outlives_delete() {
    let mut store = Store::new();
    store.save_jet_history(jet("j", None, "GET", "u", &[], Some("1")), s("t"));
    store.save_jet_history(jet("j", None, "GET", "u", &[], Some("2")), s("t"));
    store.delete_jet(&s("j"));
    assert!(store.load_jets().is_empty());
    assert_eq!(versions(&store.fetch_jet_history(&s("j"))), vec![2, 1]);
    // deleting again is not an error
    store.delete_jet(&s("j"));
    assert!(store.load_jets().is_empty());
}

#[test]
fn rename_changes_only_the_name() {
    let mut store = Store::new();
    store.save_jet_history(jet("j", None, "GET", "u", &["h"], None), s("t"));
    assert_eq!(store.rename_jet(&s("j"), s("Named")), Ok(()));
    assert_eq!(current(&store, "j"), jet("j", Some("Named"), "GET", "u", &["h"], None));
    assert_eq!(store.latest_version(&s("j")), 1);
    assert_eq!(store.rename_jet(&s("missing"), s("x")), Err(StoreError::NotFound));
}

#[test]
fn restore_refuses_duplicates_and_gaps() {
    let mut store = Store::new();
    assert!(store.restore_jet(jet("j", None, "GET", "u", &[], None)));
    assert!(!store.restore_jet(jet("j", Some("again"), "GET", "u", &[], None)));
    assert_eq!(store.load_jets().len(), 1);
    let e = |v: u64| HistoryEntry { jet_id: s("j"), version: v, data: s("[]"), timestamp: s("t") };
    assert!(!store.restore_entry(e(2)));
    assert!(!store.restore_entry(e(0)));
    assert!(store.restore_entry(e(1)));
    assert!(!store.restore_entry(e(1)));
    assert!(store.restore_entry(e(2)));
    assert_eq!(store.latest_version(&s("j")), 2);
}

#[test]
fn restored_record_without_history_dedups() {
    let mut store = Store::new();
    store.restore_jet(jet("j", None, "GET", "u", &[], None));
    assert!(!store.save_jet_history(jet("j", Some("n"), "GET", "u", &[], None), s("t")));
    assert!(store.fetch_jet_history(&s("j")).is_empty());
}
