use prompt_store::cache::MetadataCache;
use prompt_store::ids::PromptId;
use prompt_store::metadata::PromptMetadata;
use prompt_store::search::search_records;
use prompt_store::dupe::duplicate_title;
use prompt_store::coalescer::{SaveQueue, SaveRequest, SAVE_THROTTLE_MILLIS};

fn rec(uuid: u128, title: Option<&str>, default: bool, saved_at: u64) -> PromptMetadata {
    PromptMetadata {
        id: PromptId::User { uuid },
        title: title.map(String::from),
        default,
        saved_at,
    }
}

fn titles(v: &[PromptMetadata]) -> Vec<Option<String>> {
    v.iter().map(|m| m.title.clone()).collect()
}

#[test]
fn empty_query_returns_all_in_title_then_recency_order() {
    let mut c = MetadataCache::new();
    c.insert(rec(1, Some("Beta"), false, 10));
    c.insert(rec(2, Some("Alpha"), false, 5));
    c.insert(rec(3, Some("Alpha"), false, 9));
    let r = search_records(&c, "");
    assert_eq!(r.len(), 3);
    let t = titles(&r);
    assert_eq!(t[0].as_deref(), Some("Alpha"));
    assert_eq!(t[1].as_deref(), Some("Alpha"));
    assert_eq!(t[2].as_deref(), Some("Beta"));
    assert_eq!(r[0].saved_at, 9);
    assert_eq!(r[1].saved_at, 5);
}

#[test]
fn no_matching_title_yields_empty() {
    let mut c = MetadataCache::new();
    c.insert(rec(1, Some("Alpha"), false, 1));
    c.insert(rec(2, None, false, 1));
    let r = search_records(&c, "zzz");
    assert!(r.is_empty());
}

#[test]
fn matching_is_a_case_insensitive_subsequence() {
    let mut c = MetadataCache::new();
    c.insert(rec(1, Some("Shopping List"), false, 1));
    c.insert(rec(2, Some("Errands"), false, 1));
    c.insert(rec(3, None, false, 1));
    let r = search_records(&c, "shl");
    assert_eq!(r.len(), 1);
    assert_eq!(r[0].title.as_deref(), Some("Shopping List"));
    let r = search_records(&c, "ERR");
    assert_eq!(r.len(), 1);
    assert_eq!(r[0].title.as_deref(), Some("Errands"));
}

#[test]
fn untitled_entries_are_not_candidates() {
    let mut c = MetadataCache::new();
    c.insert(rec(1, None, true, 1));
    let r = search_records(&c, "a");
    assert!(r.is_empty());
    // but they do come back for the empty query
    let r = search_records(&c, "");
    assert_eq!(r.len(), 1);
}

#[test]
fn default_entries_precede_the_rest() {
    let mut c = MetadataCache::new();
    c.insert(rec(1, Some("Able"), false, 1));
    c.insert(rec(2, Some("Ache"), true, 1));
    c.insert(rec(3, Some("Acid"), false, 1));
    let r = search_records(&c, "a");
    assert_eq!(r.len(), 3);
    assert!(r[0].default);
    assert_eq!(r[0].title.as_deref(), Some("Ache"));
    assert!(!r[1].default && !r[2].default);
    assert_eq!(r[1].title.as_deref(), Some("Able"));
    assert_eq!(r[2].title.as_deref(), Some("Acid"));
    // the empty query applies the same partition
    let r = search_records(&c, "");
    assert!(r[0].default);
}

#[test]
fn results_are_capped_for_nonempty_queries() {
    let mut c = MetadataCache::new();
    let mut i: u128 = 0;
    while i < 120 {
        c.insert(rec(i + 1, Some(&format!("title {:03}", i)), false, 1));
        i += 1;
    }
    assert_eq!(search_records(&c, "title").len(), 100);
    assert_eq!(search_records(&c, "").len(), 120);
}

#[test]
fn duplicate_titles_get_the_copy_suffix() {
    let t = String::from("Foo");
    assert_eq!(duplicate_title(&t, &vec![]), "Foo copy");
    assert_eq!(duplicate_title(&t, &vec![String::from("Bar")]), "Foo copy");
    assert_eq!(duplicate_title(&t, &vec![String::from("Foo copy")]), "Foo copy 1");
    assert_eq!(
        duplicate_title(&t, &vec![String::from("Foo copy"), String::from("Foo copy 1")]),
        "Foo copy 2"
    );
    // only a collision of the suffixed title itself brings the counter in
    assert_eq!(duplicate_title(&t, &vec![String::from("Foobar")]), "Foo copy");
    assert_eq!(duplicate_title(&t, &vec![String::from("Food")]), "Foo copy");
    // a gap in the counters is taken before a fresh one
    assert_eq!(
        duplicate_title(&t, &vec![String::from("Foo copy"), String::from("Foo copy 2")]),
        "Foo copy 1"
    );
}

#[test]
fn coalescing_persists_only_the_last_edit() {
    let mut q = SaveQueue::new();
    let started = q.submit(SaveRequest { title: Some(String::from("v1")), body: String::from("b1") });
    assert!(started);
    let started = q.submit(SaveRequest { title: Some(String::from("v2")), body: String::from("b2") });
    assert!(!started);
    let started = q.submit(SaveRequest { title: Some(String::from("v3")), body: String::from("b3") });
    assert!(!started);
    // the drain loop, with a store double that counts durable writes
    let mut writes = 0;
    let mut last_written: Option<SaveRequest> = None;
    loop {
        match q.take() {
            Some(r) => {
                writes += 1;
                last_written = Some(r);
                // a real loop would wait SAVE_THROTTLE_MILLIS here
                assert_eq!(SAVE_THROTTLE_MILLIS, 500);
            }
            None => break,
        }
    }
    assert_eq!(writes, 1);
    let last = last_written.unwrap();
    assert_eq!(last.title.as_deref(), Some("v3"));
    assert_eq!(last.body, "b3");
    // a fresh edit starts a fresh loop
    let started = q.submit(SaveRequest { title: None, body: String::from("b4") });
    assert!(started);
    assert_eq!(q.take().unwrap().body, "b4");
    assert!(q.take().is_none());
}

#[test]
fn subsequence_matching_needs_order() {
    let mut c = MetadataCache::new();
    c.insert(rec(1, Some("backward"), false, 1));
    // the characters appear, but not in this order
    assert!(search_records(&c, "draw").is_empty());
    assert_eq!(search_records(&c, "bkwd").len(), 1);
}

#[test]
fn ties_in_relevance_keep_listing_order() {
    let mut c = MetadataCache::new();
    c.insert(rec(1, Some("note b"), false, 1));
    c.insert(rec(2, Some("note a"), false, 1));
    let r = search_records(&c, "note");
    assert_eq!(r.len(), 2);
    assert_eq!(r[0].title.as_deref(), Some("note a"));
    assert_eq!(r[1].title.as_deref(), Some("note b"));
}
