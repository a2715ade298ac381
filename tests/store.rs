use symbol_history::entry::McpRecord;
use symbol_history::error::Error;
use symbol_history::pool::NameCache;
use symbol_history::store::MemStore;
use symbol_history::version::VersionId;

fn v(ordinal: u32) -> VersionId {
    VersionId::new(ordinal, false)
}

fn row(serage: &str, name: &str) -> Option<McpRecord> {
    Some(McpRecord { serage: serage.to_string(), name: name.to_string(), side: 0 })
}

fn resolve(store: &MemStore, key: &str, ordinal: u32) -> Option<String> {
    store.get_renamed(v(ordinal), key).unwrap()
}

#[test]
fn as_of_scenario() {
    let mut store = MemStore::new();
    store.import_version(v(1), &vec![row("K", "a")]).unwrap();
    store.import_version(v(3), &vec![row("K", "b")]).unwrap();
    store.import_version(v(5), &vec![row("K", "c")]).unwrap();
    assert_eq!(resolve(&store, "K", 4), Some("b".to_string()));
    assert_eq!(resolve(&store, "K", 0), None);
    assert_eq!(resolve(&store, "K", 10), Some("c".to_string()));
    assert_eq!(resolve(&store, "K", 3), Some("b".to_string()));
}

#[test]
fn dedup_writes_nothing() {
    let mut store = MemStore::new();
    store.import_version(v(1), &vec![row("K", "same")]).unwrap();
    store.import_version(v(4), &vec![row("K", "same"), row("J", "other")]).unwrap();
    assert_eq!(store.values_of("K").len(), 1);
    assert_eq!(store.values_of("J").len(), 1);
    for q in 1..=4 {
        assert_eq!(resolve(&store, "K", q), Some("same".to_string()));
    }
}

#[test]
fn changed_name_is_written() {
    let mut store = MemStore::new();
    store.import_version(v(1), &vec![row("K", "old")]).unwrap();
    store.import_version(v(2), &vec![row("K", "new")]).unwrap();
    assert_eq!(store.values_of("K").len(), 2);
    assert_eq!(resolve(&store, "K", 1), Some("old".to_string()));
    assert_eq!(resolve(&store, "K", 2), Some("new".to_string()));
}

#[test]
fn second_import_of_version_is_rejected() {
    let mut store = MemStore::new();
    store.import_version(v(7), &vec![row("K", "a")]).unwrap();
    let err = store.import_version(v(7), &vec![row("K", "z"), row("N", "n")]).unwrap_err();
    assert_eq!(err, Error::AlreadyImported(v(7)));
    assert_eq!(store.values_of("K").len(), 1);
    assert_eq!(store.values_of("N").len(), 0);
    assert_eq!(resolve(&store, "K", 7), Some("a".to_string()));
    assert_eq!(store.list_known_versions(), vec![v(7)]);
}

#[test]
fn malformed_row_rolls_back_batch() {
    let mut store = MemStore::new();
    store.import_version(v(1), &vec![row("A", "a1")]).unwrap();
    let batch = vec![row("A", "a2"), row("B", "b2"), None, row("C", "c2")];
    let err = store.import_version(v(2), &batch).unwrap_err();
    assert_eq!(err, Error::MalformedRecord(2));
    assert_eq!(resolve(&store, "A", 2), Some("a1".to_string()));
    assert_eq!(resolve(&store, "B", 2), None);
    assert_eq!(resolve(&store, "C", 2), None);
    assert!(!store.is_known_version(v(2)));
    assert_eq!(store.values_of("A").len(), 1);
}

#[test]
fn duplicate_entry_aborts_batch() {
    let mut store = MemStore::new();
    let batch = vec![row("K", "a"), row("K", "b"), row("K", "a")];
    let err = store.import_version(v(5), &batch).unwrap_err();
    assert_eq!(err, Error::DuplicateEntry);
    assert_eq!(store.values_of("K").len(), 0);
    assert!(store.list_known_versions().is_empty());
}

#[test]
fn insert_reports_duplicate() {
    let mut store = MemStore::new();
    store.insert("K", v(5), "a").unwrap();
    store.insert("K", v(5), "b").unwrap();
    assert_eq!(store.insert("K", v(5), "a"), Err(Error::DuplicateEntry));
    assert_eq!(store.values_of("K").len(), 2);
}

#[test]
fn known_versions_listed_by_ordinal() {
    let mut store = MemStore::new();
    store.import_version(VersionId::new(8, true), &vec![]).unwrap();
    store.import_version(v(3), &vec![]).unwrap();
    store.import_version(v(20), &vec![]).unwrap();
    assert!(store.is_known_version(v(3)));
    assert!(!store.is_known_version(v(8)));
    assert!(store.is_known_version(VersionId::new(8, true)));
    assert_eq!(store.list_known_versions(), vec![v(3), VersionId::new(8, true), v(20)]);
}

fn names(list: &[&str]) -> Vec<String> {
    list.iter().map(|s| s.to_string()).collect()
}

#[test]
fn cache_serves_cached_indices_and_refreshes_once() {
    let mut cache = NameCache::new();
    let mut pool = names(&["a", "b", "c"]);
    assert_eq!(cache.resolve(&pool, 0), Ok("a".to_string()));
    assert_eq!(cache.len(), 3);
    pool.push("d".to_string());
    pool.push("e".to_string());
    assert_eq!(cache.resolve(&pool, 2), Ok("c".to_string()));
    assert_eq!(cache.len(), 3);
    assert_eq!(cache.resolve(&pool, 3), Ok("d".to_string()));
    assert_eq!(cache.len(), 5);
    let empty: Vec<String> = Vec::new();
    for (i, expected) in ["a", "b", "c", "d", "e"].iter().enumerate() {
        assert_eq!(cache.resolve(&empty, i), Ok(expected.to_string()));
    }
}

#[test]
fn cache_out_of_bounds_index() {
    let mut cache = NameCache::new();
    let pool = names(&["a"]);
    assert_eq!(cache.resolve(&pool, 1), Err(Error::InvalidNameReference(1)));
    assert_eq!(cache.len(), 1);
}

#[test]
fn cache_detects_rewritten_pool() {
    let mut cache = NameCache::new();
    assert_eq!(cache.resolve(&names(&["a", "b"]), 0), Ok("a".to_string()));
    assert_eq!(cache.resolve(&names(&["a", "x", "c"]), 2), Err(Error::CacheCorruption));
    assert_eq!(cache.resolve(&names(&["a"]), 2), Err(Error::CacheCorruption));
    assert_eq!(cache.len(), 2);
}
