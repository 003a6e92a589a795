use prompt_store::errors::StoreError;
use prompt_store::ids::PromptId;
use prompt_store::store::PromptStore;

fn open_env(dir: &tempfile::TempDir) -> heed::Env {
    heed::EnvOpenOptions::new()
        .map_size(10 * 1024 * 1024)
        .max_dbs(8)
        .open(dir.path())
        .expect("environment must open")
}

#[test]
fn saved_body_loads_normalized_and_metadata_is_cached() {
    let dir = tempfile::tempdir().unwrap();
    let mut store = PromptStore::new(open_env(&dir)).unwrap();
    let id = PromptId::new();
    store
        .save_at(id, Some(String::from("Notes")), false, String::from("line1\r\nline2\rend"), 42)
        .unwrap();
    let body = store.load(id).unwrap();
    assert_eq!(body, "line1\nline2\nend");
    let m = store.metadata(id).expect("cache must hold the record");
    assert_eq!(m.title.as_deref(), Some("Notes"));
    assert!(!m.default);
    assert_eq!(m.saved_at, 42);
    assert_eq!(store.prompt_count(), 1);
}

#[test]
fn builtin_entries_reject_save_and_delete() {
    let dir = tempfile::tempdir().unwrap();
    let mut store = PromptStore::new(open_env(&dir)).unwrap();
    let r = store.save(PromptId::EditWorkflow, Some(String::from("t")), false, String::new());
    assert!(matches!(r, Err(StoreError::PermissionDenied)));
    let r = store.delete(PromptId::EditWorkflow);
    assert!(matches!(r, Err(StoreError::PermissionDenied)));
}

#[test]
fn builtin_metadata_save_keeps_stored_title() {
    let dir = tempfile::tempdir().unwrap();
    let mut store = PromptStore::new(open_env(&dir)).unwrap();
    // No stored title for the built-in entry: the passed title is ignored.
    store
        .save_metadata_at(PromptId::EditWorkflow, Some(String::from("Renamed")), true, 9)
        .unwrap();
    let m = store.metadata(PromptId::EditWorkflow).unwrap();
    assert_eq!(m.title, None);
    assert!(m.default);
    // A second toggle still cannot smuggle a title in.
    store
        .save_metadata_at(PromptId::EditWorkflow, Some(String::from("Again")), false, 10)
        .unwrap();
    let m = store.metadata(PromptId::EditWorkflow).unwrap();
    assert_eq!(m.title, None);
    assert!(!m.default);
}

#[test]
fn metadata_only_save_keeps_body() {
    let dir = tempfile::tempdir().unwrap();
    let mut store = PromptStore::new(open_env(&dir)).unwrap();
    let id = PromptId::new();
    store.save_at(id, Some(String::from("T")), false, String::from("the body"), 1).unwrap();
    store.save_metadata_at(id, Some(String::from("T2")), true, 2).unwrap();
    assert_eq!(store.load(id).unwrap(), "the body");
    let m = store.metadata(id).unwrap();
    assert_eq!(m.title.as_deref(), Some("T2"));
    assert!(m.default);
}

#[test]
fn deleted_entries_vanish_from_cache_and_store() {
    let dir = tempfile::tempdir().unwrap();
    let mut store = PromptStore::new(open_env(&dir)).unwrap();
    let id = PromptId::new();
    store.save_at(id, Some(String::from("Doomed")), false, String::from("b"), 1).unwrap();
    assert_eq!(store.prompt_count(), 1);
    store.delete(id).unwrap();
    assert_eq!(store.prompt_count(), 0);
    assert!(store.metadata(id).is_none());
    assert!(matches!(store.load(id), Err(StoreError::NotFound)));
}

#[test]
fn loading_an_unknown_identifier_is_not_found() {
    let dir = tempfile::tempdir().unwrap();
    let store = PromptStore::new(open_env(&dir)).unwrap();
    assert!(matches!(store.load(PromptId::new()), Err(StoreError::NotFound)));
}

#[test]
fn saved_entries_survive_reopening() {
    let dir = tempfile::tempdir().unwrap();
    let id = PromptId::new();
    {
        let mut store = PromptStore::new(open_env(&dir)).unwrap();
        store
            .save_at(id, Some(String::from("Kept")), true, String::from("still here"), 5)
            .unwrap();
    }
    let store = PromptStore::new(open_env(&dir)).unwrap();
    assert_eq!(store.load(id).unwrap(), "still here");
    let m = store.metadata(id).unwrap();
    assert_eq!(m.title.as_deref(), Some("Kept"));
    assert!(m.default);
    assert_eq!(m.saved_at, 5);
}

#[test]
fn id_for_title_finds_exact_titles() {
    let dir = tempfile::tempdir().unwrap();
    let mut store = PromptStore::new(open_env(&dir)).unwrap();
    let id = PromptId::new();
    store.save_at(id, Some(String::from("Exact")), false, String::new(), 1).unwrap();
    assert_eq!(store.id_for_title("Exact"), Some(id));
    assert_eq!(store.id_for_title("exact"), None);
    assert_eq!(store.id_for_title("Exac"), None);
}

#[test]
fn default_listing_holds_flagged_entries_only() {
    let dir = tempfile::tempdir().unwrap();
    let mut store = PromptStore::new(open_env(&dir)).unwrap();
    let a = PromptId::new();
    let b = PromptId::new();
    store.save_at(a, Some(String::from("A")), true, String::new(), 1).unwrap();
    store.save_at(b, Some(String::from("B")), false, String::new(), 1).unwrap();
    let defaults = store.default_prompt_metadata();
    assert_eq!(defaults.len(), 1);
    assert_eq!(defaults[0].title.as_deref(), Some("A"));
}

#[test]
fn first_follows_listing_order() {
    let dir = tempfile::tempdir().unwrap();
    let mut store = PromptStore::new(open_env(&dir)).unwrap();
    assert!(store.first().is_none());
    let a = PromptId::new();
    let b = PromptId::new();
    store.save_at(a, Some(String::from("Zoo")), false, String::new(), 1).unwrap();
    store.save_at(b, None, false, String::new(), 1).unwrap();
    // entries without a title sort first
    assert_eq!(store.first().unwrap().id, b);
}

#[test]
fn duplicate_copies_body_and_disambiguates_title() {
    let dir = tempfile::tempdir().unwrap();
    let mut store = PromptStore::new(open_env(&dir)).unwrap();
    let src = PromptId::new();
    store.save_at(src, Some(String::from("Foo")), false, String::from("payload"), 1).unwrap();
    let d1 = store.duplicate(src).unwrap();
    assert_eq!(store.metadata(d1).unwrap().title.as_deref(), Some("Foo copy"));
    assert_eq!(store.load(d1).unwrap(), "payload");
    let d2 = store.duplicate(src).unwrap();
    assert_eq!(store.metadata(d2).unwrap().title.as_deref(), Some("Foo copy 1"));
    let d3 = store.duplicate(src).unwrap();
    assert_eq!(store.metadata(d3).unwrap().title.as_deref(), Some("Foo copy 2"));
}

#[test]
fn duplicating_a_missing_entry_is_not_found() {
    let dir = tempfile::tempdir().unwrap();
    let mut store = PromptStore::new(open_env(&dir)).unwrap();
    assert!(matches!(store.duplicate(PromptId::new()), Err(StoreError::NotFound)));
}

#[test]
fn created_entries_are_stored_and_cached() {
    let dir = tempfile::tempdir().unwrap();
    let mut store = PromptStore::new(open_env(&dir)).unwrap();
    let id = store.create(Some(String::from("Fresh")), true, String::from("first body")).unwrap();
    assert!(!id.is_built_in());
    let m = store.metadata(id).unwrap();
    assert_eq!(m.title.as_deref(), Some("Fresh"));
    assert!(m.default);
    assert_eq!(store.load(id).unwrap(), "first body");
}

#[test]
fn duplicating_an_entry_whose_title_is_free_appends_only_the_suffix() {
    let dir = tempfile::tempdir().unwrap();
    let mut store = PromptStore::new(open_env(&dir)).unwrap();
    let src = PromptId::new();
    store.save_at(src, Some(String::from("Foo")), false, String::from("b"), 1).unwrap();
    // a mere prefix relation is no collision
    let other = PromptId::new();
    store.save_at(other, Some(String::from("Food")), false, String::new(), 1).unwrap();
    let d = store.duplicate(src).unwrap();
    assert_eq!(store.metadata(d).unwrap().title.as_deref(), Some("Foo copy"));
}
