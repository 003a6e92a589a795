use prompt_store::hex::hex_enc;
use prompt_store::ids::PromptId;
use prompt_store::store::PromptStore;

fn open_env(dir: &tempfile::TempDir) -> heed::Env {
    heed::EnvOpenOptions::new()
        .map_size(10 * 1024 * 1024)
        .max_dbs(8)
        .open(dir.path())
        .expect("environment must open")
}

fn legacy_record(uuid: u128, title: &str, default: bool, saved_at: u64) -> (String, String) {
    let key = hex_enc(uuid, 32);
    let flag = if default { "1" } else { "0" };
    let value = format!("{}\n{}\n{}\nt{}", key, flag, hex_enc(saved_at as u128, 16), title);
    (key, value)
}

fn write_legacy(env: &heed::Env, records: &[(String, String)], bodies: &[(String, String)]) {
    let meta_db: heed::Database<heed::types::Str, heed::types::Str> =
        env.create_database(Some("metadata")).unwrap();
    let body_db: heed::Database<heed::types::Str, heed::types::Str> =
        env.create_database(Some("bodies")).unwrap();
    let mut txn = env.write_txn().unwrap();
    for (k, v) in records {
        meta_db.put(&mut txn, k, v).unwrap();
    }
    for (k, v) in bodies {
        body_db.put(&mut txn, k, v).unwrap();
    }
    txn.commit().unwrap();
}

#[test]
fn legacy_entries_fold_forward() {
    let dir = tempfile::tempdir().unwrap();
    let env = open_env(&dir);
    let (k, v) = legacy_record(11, "From the old days", true, 100);
    write_legacy(&env, &[(k.clone(), v)], &[(k, String::from("old body"))]);
    let store = PromptStore::new(env).unwrap();
    let id = PromptId::User { uuid: 11 };
    let m = store.metadata(id).expect("migrated record must be cached");
    assert_eq!(m.title.as_deref(), Some("From the old days"));
    assert!(m.default);
    assert_eq!(m.saved_at, 100);
    assert_eq!(store.load(id).unwrap(), "old body");
}

#[test]
fn legacy_records_without_a_body_are_skipped() {
    let dir = tempfile::tempdir().unwrap();
    let env = open_env(&dir);
    let (k, v) = legacy_record(12, "No body", false, 100);
    write_legacy(&env, &[(k, v)], &[]);
    let store = PromptStore::new(env).unwrap();
    assert!(store.metadata(PromptId::User { uuid: 12 }).is_none());
}

#[test]
fn newer_current_record_wins_over_older_legacy() {
    let dir = tempfile::tempdir().unwrap();
    let env = open_env(&dir);
    let id = PromptId::User { uuid: 13 };
    {
        let mut store = PromptStore::new(env.clone()).unwrap();
        store
            .save_at(id, Some(String::from("Current")), false, String::from("current body"), 200)
            .unwrap();
    }
    let (k, v) = legacy_record(13, "Legacy", true, 100);
    write_legacy(&env, &[(k.clone(), v)], &[(k, String::from("legacy body"))]);
    let store = PromptStore::new(env).unwrap();
    let m = store.metadata(id).unwrap();
    assert_eq!(m.title.as_deref(), Some("Current"));
    assert_eq!(m.saved_at, 200);
    assert_eq!(store.load(id).unwrap(), "current body");
}

#[test]
fn newer_legacy_record_overwrites_older_current() {
    let dir = tempfile::tempdir().unwrap();
    let env = open_env(&dir);
    let id = PromptId::User { uuid: 14 };
    {
        let mut store = PromptStore::new(env.clone()).unwrap();
        store
            .save_at(id, Some(String::from("Current")), false, String::from("current body"), 100)
            .unwrap();
    }
    let (k, v) = legacy_record(14, "Legacy", true, 300);
    write_legacy(&env, &[(k.clone(), v)], &[(k, String::from("legacy body"))]);
    let store = PromptStore::new(env).unwrap();
    let m = store.metadata(id).unwrap();
    assert_eq!(m.title.as_deref(), Some("Legacy"));
    assert!(m.default);
    assert_eq!(m.saved_at, 300);
    assert_eq!(store.load(id).unwrap(), "legacy body");
}

#[test]
fn migration_is_idempotent_across_reopens() {
    let dir = tempfile::tempdir().unwrap();
    let env = open_env(&dir);
    let id = PromptId::User { uuid: 15 };
    let (k, v) = legacy_record(15, "Twice", false, 100);
    write_legacy(&env, &[(k.clone(), v)], &[(k, String::from("twice body"))]);
    let snapshot = {
        let store = PromptStore::new(env.clone()).unwrap();
        let m = store.metadata(id).unwrap();
        (m.title, m.default, m.saved_at, store.load(id).unwrap(), store.prompt_count())
    };
    // The legacy tables are still on disk: a second open re-runs migration.
    let store = PromptStore::new(env).unwrap();
    let m = store.metadata(id).unwrap();
    assert_eq!((m.title, m.default, m.saved_at, store.load(id).unwrap(), store.prompt_count()), snapshot);
}

#[test]
fn a_fresh_store_has_nothing_to_migrate() {
    let dir = tempfile::tempdir().unwrap();
    let store = PromptStore::new(open_env(&dir)).unwrap();
    assert_eq!(store.prompt_count(), 0);
}
