use prompt_store::cache::{MetadataCache, str_eq, str_lt};
use prompt_store::ids::PromptId;
use prompt_store::metadata::PromptMetadata;

fn rec(uuid: u128, title: Option<&str>, default: bool, saved_at: u64) -> PromptMetadata {
    PromptMetadata {
        id: PromptId::User { uuid },
        title: title.map(String::from),
        default,
        saved_at,
    }
}

fn titles(c: &MetadataCache) -> Vec<Option<String>> {
    let mut out = Vec::new();
    let mut i = 0;
    while i < c.len() {
        out.push(c.get(i).title);
        i += 1;
    }
    out
}

#[test]
fn string_order_helpers() {
    assert!(str_lt("abc", "abd"));
    assert!(str_lt("ab", "abc"));
    assert!(!str_lt("abc", "abc"));
    assert!(!str_lt("b", "abc"));
    assert!(str_eq("same", "same"));
    assert!(!str_eq("same", "sames"));
}

#[test]
fn listing_is_sorted_by_title_then_recency() {
    let mut c = MetadataCache::new();
    c.insert(rec(1, Some("Beta"), false, 10));
    c.insert(rec(2, Some("Alpha"), false, 10));
    c.insert(rec(3, None, false, 10));
    c.insert(rec(4, Some("Alpha"), false, 20));
    let t = titles(&c);
    assert_eq!(t.len(), 4);
    assert_eq!(t[0], None);
    assert_eq!(t[1].as_deref(), Some("Alpha"));
    assert_eq!(t[2].as_deref(), Some("Alpha"));
    assert_eq!(t[3].as_deref(), Some("Beta"));
    // equal titles: most recent save first
    assert_eq!(c.get(1).saved_at, 20);
    assert_eq!(c.get(2).saved_at, 10);
}

#[test]
fn insert_replaces_by_identifier() {
    let mut c = MetadataCache::new();
    c.insert(rec(5, Some("One"), false, 1));
    c.insert(rec(5, Some("Two"), true, 2));
    assert_eq!(c.len(), 1);
    let m = c.get(0);
    assert_eq!(m.title.as_deref(), Some("Two"));
    assert!(m.default);
    assert_eq!(m.saved_at, 2);
}

#[test]
fn remove_drops_only_the_identifier() {
    let mut c = MetadataCache::new();
    c.insert(rec(1, Some("A"), false, 1));
    c.insert(rec(2, Some("B"), false, 1));
    c.remove(PromptId::User { uuid: 1 });
    assert_eq!(c.len(), 1);
    assert_eq!(c.get(0).title.as_deref(), Some("B"));
    // removing an absent identifier changes nothing
    c.remove(PromptId::User { uuid: 99 });
    assert_eq!(c.len(), 1);
}

#[test]
fn lookup_and_first() {
    let mut c = MetadataCache::new();
    assert!(c.first().is_none());
    c.insert(rec(1, Some("Zed"), false, 1));
    c.insert(rec(2, Some("Ant"), false, 1));
    let first = c.first().unwrap();
    assert_eq!(first.title.as_deref(), Some("Ant"));
    let found = c.lookup(PromptId::User { uuid: 1 }).unwrap();
    assert_eq!(found.title.as_deref(), Some("Zed"));
    assert!(c.lookup(PromptId::User { uuid: 3 }).is_none());
}

#[test]
fn reinserting_the_same_record_changes_nothing() {
    let mut c = MetadataCache::new();
    c.insert(rec(1, Some("Tie"), false, 5));
    c.insert(rec(2, Some("Tie"), false, 5));
    c.insert(rec(3, None, true, 1));
    let before: Vec<PromptMetadata> = (0..c.len()).map(|i| c.get(i)).collect();
    c.insert(rec(2, Some("Tie"), false, 5));
    assert_eq!(c.len(), before.len());
    for (i, b) in before.iter().enumerate() {
        let a = c.get(i);
        assert_eq!(a.id, b.id);
        assert_eq!(a.title, b.title);
        assert_eq!(a.default, b.default);
        assert_eq!(a.saved_at, b.saved_at);
    }
}

#[test]
fn insert_grows_by_one_exactly_when_absent() {
    let mut c = MetadataCache::new();
    c.insert(rec(1, Some("A"), false, 1));
    assert_eq!(c.len(), 1);
    c.insert(rec(1, Some("B"), true, 2));
    assert_eq!(c.len(), 1);
    c.insert(rec(2, Some("C"), false, 1));
    assert_eq!(c.len(), 2);
}

#[test]
fn remove_keeps_the_order_of_the_rest() {
    let mut c = MetadataCache::new();
    c.insert(rec(1, Some("A"), false, 1));
    c.insert(rec(2, Some("B"), false, 1));
    c.insert(rec(3, Some("C"), false, 1));
    c.remove(PromptId::User { uuid: 2 });
    assert_eq!(c.len(), 2);
    assert_eq!(c.get(0).title.as_deref(), Some("A"));
    assert_eq!(c.get(1).title.as_deref(), Some("C"));
}
