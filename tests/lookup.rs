use symbol_history::entry::VersionEntry;
use symbol_history::error::Error;
use symbol_history::lookup::find_last_entry;
use symbol_history::registry::{contains_version, insert_version, versions_from_records};
use symbol_history::store::plan_insert;
use symbol_history::version::VersionId;

fn stored(ordinal: u32, snapshot: bool, name: &str) -> Vec<u8> {
    VersionEntry { id: VersionId::new(ordinal, snapshot), name: name.to_string() }.write_bytes()
}

fn name_at(values: &Vec<Vec<u8>>, ordinal: u32) -> Option<String> {
    find_last_entry("k", values, VersionId::new(ordinal, false)).unwrap().map(|e| e.name)
}

#[test]
fn as_of_ignores_store_order() {
    let values = vec![stored(5, false, "c"), stored(1, false, "a"), stored(3, false, "b")];
    assert_eq!(name_at(&values, 4), Some("b".to_string()));
    assert_eq!(name_at(&values, 0), None);
    assert_eq!(name_at(&values, 10), Some("c".to_string()));
}

#[test]
fn as_of_ignores_snapshot_flag() {
    let values = vec![stored(2, true, "snap"), stored(6, false, "stable")];
    assert_eq!(name_at(&values, 3), Some("snap".to_string()));
    let found = find_last_entry("k", &values, VersionId::new(3, true)).unwrap().unwrap();
    assert_eq!(found.name, "snap");
}

#[test]
fn as_of_tie_goes_to_later_record() {
    let values = vec![stored(4, false, "first"), stored(4, true, "second")];
    assert_eq!(name_at(&values, 4), Some("second".to_string()));
}

#[test]
fn as_of_empty_is_not_found() {
    let values: Vec<Vec<u8>> = Vec::new();
    assert_eq!(name_at(&values, 4), None);
}

#[test]
fn malformed_entry_reports_first_bad_record() {
    let values = vec![stored(1, false, "a"), vec![1, 2], vec![0, 0, 0, 0, 0xff]];
    match find_last_entry("key", &values, VersionId::new(9, false)) {
        Err(Error::MalformedEntry { key, bytes }) => {
            assert_eq!(key, "key");
            assert_eq!(bytes, vec![1, 2]);
        }
        other => panic!("unexpected {:?}", other),
    }
}

#[test]
fn registry_keeps_ordinal_order() {
    let mut list: Vec<VersionId> = Vec::new();
    insert_version(&mut list, VersionId::new(5, false));
    insert_version(&mut list, VersionId::new(2, true));
    insert_version(&mut list, VersionId::new(9, false));
    insert_version(&mut list, VersionId::new(5, true));
    assert_eq!(
        list,
        vec![VersionId::new(2, true), VersionId::new(5, false), VersionId::new(5, true), VersionId::new(9, false)]
    );
    assert!(contains_version(&list, VersionId::new(5, true)));
    assert!(!contains_version(&list, VersionId::new(2, false)));
}

#[test]
fn plan_insert_new_identifier_writes_entry() {
    let values: Vec<Vec<u8>> = Vec::new();
    let planned = plan_insert("k", &values, VersionId::new(2, false), "n").unwrap();
    assert_eq!(planned, Some(stored(2, false, "n")));
}

#[test]
fn plan_insert_same_name_writes_nothing() {
    let values = vec![stored(1, false, "n")];
    assert_eq!(plan_insert("k", &values, VersionId::new(2, false), "n"), Ok(None));
}

#[test]
fn plan_insert_compares_with_entry_in_effect() {
    let values = vec![stored(1, false, "n"), stored(5, false, "m")];
    assert_eq!(plan_insert("k", &values, VersionId::new(3, false), "n"), Ok(None));
    assert_eq!(plan_insert("k", &values, VersionId::new(6, false), "n"), Ok(Some(stored(6, false, "n"))));
}

#[test]
fn plan_insert_duplicate_record() {
    let values = vec![stored(4, false, "a"), stored(4, false, "b")];
    assert_eq!(plan_insert("k", &values, VersionId::new(4, false), "a"), Err(Error::DuplicateEntry));
}

#[test]
fn plan_insert_malformed_record() {
    let values = vec![vec![9u8]];
    assert_eq!(
        plan_insert("k", &values, VersionId::new(4, false), "a"),
        Err(Error::MalformedEntry { key: "k".to_string(), bytes: vec![9] })
    );
}

#[test]
fn registry_from_records_sorts_by_ordinal() {
    let values = vec![
        VersionId::new(9, false).write_bytes().to_vec(),
        VersionId::new(1, true).write_bytes().to_vec(),
        VersionId::new(4, false).write_bytes().to_vec(),
    ];
    assert_eq!(
        versions_from_records("known_versions", &values),
        Ok(vec![VersionId::new(1, true), VersionId::new(4, false), VersionId::new(9, false)])
    );
}

#[test]
fn registry_from_records_rejects_short_record() {
    let values = vec![VersionId::new(9, false).write_bytes().to_vec(), vec![1, 2]];
    assert_eq!(
        versions_from_records("known_versions", &values),
        Err(Error::MalformedEntry { key: "known_versions".to_string(), bytes: vec![1, 2] })
    );
}
