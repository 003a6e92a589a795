//! The prompt store: durable, transactional storage of metadata records and
//! body text keyed by identifier, mirrored by the in-memory metadata cache.
//!
//! The cache is updated synchronously before the durable write is attempted
//! (an optimistic-write design): a failed durable write reports an error but
//! leaves the cache already reflecting the edit. A process that dies between
//! the cache update and the durable write loses that one edit.

use vstd::prelude::*;
use crate::ids::{PromptId, enc_id, lemma_enc_id_injective};
use crate::metadata::{
    PromptMetadata, MetaView, enc_meta, dec_meta, encode_meta, decode_meta,
    lemma_meta_round_trip,
};
use crate::cache::{MetadataCache, str_eq};
use crate::db::{StoreDb, meta_table, body_table, lists_table};
use crate::errors::StoreError;
use crate::norm::{norm, normalize_line_endings};
use crate::search::{spec_search, rec_views, search_records, lemma_filter_push};
use crate::dupe::{dup_title_ok, str_views, duplicate_title};

verus! {

/// The characters of an optional title.
pub open spec fn title_view(t: Option<String>) -> Option<Seq<char>> {
    match t {
        Some(s) => Some(s@),
        None => None,
    }
}

/// The record a save with these arguments writes.
pub open spec fn saved_record(
    id: PromptId,
    title: Option<Seq<char>>,
    default: bool,
    saved_at: u64,
) -> MetaView {
    MetaView { id, title, default, saved_at }
}

/// Every value in the metadata table decodes, and sits under the key that
/// its own identifier renders to.
pub open spec fn table_ok(t: Map<Seq<char>, Seq<char>>) -> bool {
    forall|k: Seq<char>| #[trigger] t.dom().contains(k)
        ==> dec_meta(t[k]) is Some && enc_id(dec_meta(t[k]).unwrap().id) == k
}

/// The record is stored in the table under its identifier's key.
pub open spec fn entry_stored(t: Map<Seq<char>, Seq<char>>, m: MetaView) -> bool {
    t.dom().contains(enc_id(m.id)) && dec_meta(t[enc_id(m.id)]) == Some(m)
}

/// The cache lists exactly the records of the metadata table.
pub open spec fn cache_matches(c: Seq<MetaView>, t: Map<Seq<char>, Seq<char>>) -> bool {
    (forall|i: int| 0 <= i < c.len() ==> entry_stored(t, #[trigger] c[i]))
    && (forall|k: Seq<char>| #[trigger] t.dom().contains(k)
        ==> exists|i: int| 0 <= i < c.len() && #[trigger] enc_id(c[i].id) == k)
}

/// Writing a record's encoding under its identifier's key keeps every
/// stored value decodable under its own key.
proof fn lemma_table_ok_insert(t: Map<Seq<char>, Seq<char>>, mv: MetaView)
    requires
        table_ok(t),
    ensures
        table_ok(t.insert(enc_id(mv.id), enc_meta(mv))),
{
    lemma_meta_round_trip(mv);
    let t2 = t.insert(enc_id(mv.id), enc_meta(mv));
    assert forall|k: Seq<char>| #[trigger] t2.dom().contains(k)
        implies dec_meta(t2[k]) is Some && enc_id(dec_meta(t2[k]).unwrap().id) == k by {
        if k == enc_id(mv.id) {
            assert(t2[k] == enc_meta(mv));
        } else {
            assert(t.dom().contains(k));
            assert(t2[k] == t[k]);
        }
    }
}

/// Removing a key keeps every remaining value decodable under its own key.
proof fn lemma_table_ok_remove(t: Map<Seq<char>, Seq<char>>, k0: Seq<char>)
    requires
        table_ok(t),
    ensures
        table_ok(t.remove(k0)),
{
    let t2 = t.remove(k0);
    assert forall|k: Seq<char>| #[trigger] t2.dom().contains(k)
        implies dec_meta(t2[k]) is Some && enc_id(dec_meta(t2[k]).unwrap().id) == k by {
        assert(t.dom().contains(k));
        assert(t2[k] == t[k]);
    }
}

/// A cache that matched the table still matches it after one record is
/// replaced in both: in the cache by membership, in the table under the
/// record's key.
proof fn lemma_sync_insert(
    pre_c: Seq<MetaView>,
    post_c: Seq<MetaView>,
    t: Map<Seq<char>, Seq<char>>,
    mv: MetaView,
)
    requires
        cache_matches(pre_c, t),
        post_c.contains(mv),
        forall|x: MetaView| #[trigger] post_c.contains(x)
            ==> x == mv || (pre_c.contains(x) && x.id != mv.id),
        forall|x: MetaView| pre_c.contains(x) && x.id != mv.id ==> post_c.contains(x),
    ensures
        cache_matches(post_c, t.insert(enc_id(mv.id), enc_meta(mv))),
{
    lemma_meta_round_trip(mv);
    let t2 = t.insert(enc_id(mv.id), enc_meta(mv));
    assert forall|ci: int| 0 <= ci < post_c.len() implies entry_stored(
        t2,
        #[trigger] post_c[ci],
    ) by {
        let x = post_c[ci];
        assert(post_c.contains(x));
        if x == mv {
            assert(t2[enc_id(mv.id)] == enc_meta(mv));
        } else {
            assert(pre_c.contains(x) && x.id != mv.id);
            assert(entry_stored(t, x));
            if enc_id(x.id) == enc_id(mv.id) {
                lemma_enc_id_injective(x.id, mv.id);
            }
            assert(t2[enc_id(x.id)] == t[enc_id(x.id)]);
        }
    }
    assert forall|k: Seq<char>| #[trigger] t2.dom().contains(k)
        implies exists|ci: int|
            0 <= ci < post_c.len() && #[trigger] enc_id(post_c[ci].id) == k by {
        if k == enc_id(mv.id) {
            let ci = choose|ci: int| 0 <= ci < post_c.len() && post_c[ci] == mv;
            assert(enc_id(post_c[ci].id) == k);
        } else {
            assert(t.dom().contains(k));
            let pi = choose|pi: int|
                0 <= pi < pre_c.len() && #[trigger] enc_id(pre_c[pi].id) == k;
            let x = pre_c[pi];
            assert(pre_c.contains(x));
            if x.id == mv.id {
                assert(enc_id(x.id) == enc_id(mv.id));
                assert(false);
            }
            assert(post_c.contains(x));
            let ci = choose|ci: int| 0 <= ci < post_c.len() && post_c[ci] == x;
            assert(enc_id(post_c[ci].id) == k);
        }
    }
}

/// A cache that matched the table still matches it after one identifier is
/// dropped from both.
proof fn lemma_sync_remove(
    pre_c: Seq<MetaView>,
    post_c: Seq<MetaView>,
    t: Map<Seq<char>, Seq<char>>,
    id: PromptId,
)
    requires
        cache_matches(pre_c, t),
        forall|x: MetaView| #[trigger] post_c.contains(x) ==> pre_c.contains(x) && x.id != id,
        forall|x: MetaView| pre_c.contains(x) && x.id != id ==> post_c.contains(x),
    ensures
        cache_matches(post_c, t.remove(enc_id(id))),
{
    let t2 = t.remove(enc_id(id));
    assert forall|ci: int| 0 <= ci < post_c.len() implies entry_stored(
        t2,
        #[trigger] post_c[ci],
    ) by {
        let x = post_c[ci];
        assert(post_c.contains(x));
        assert(pre_c.contains(x) && x.id != id);
        assert(entry_stored(t, x));
        if enc_id(x.id) == enc_id(id) {
            lemma_enc_id_injective(x.id, id);
        }
        assert(t2.dom().contains(enc_id(x.id)));
        assert(t2[enc_id(x.id)] == t[enc_id(x.id)]);
    }
    assert forall|k: Seq<char>| #[trigger] t2.dom().contains(k)
        implies exists|ci: int|
            0 <= ci < post_c.len() && #[trigger] enc_id(post_c[ci].id) == k by {
        assert(t.dom().contains(k) && k != enc_id(id));
        let pi = choose|pi: int|
            0 <= pi < pre_c.len() && #[trigger] enc_id(pre_c[pi].id) == k;
        let x = pre_c[pi];
        assert(pre_c.contains(x));
        if x.id == id {
            assert(enc_id(x.id) == k);
            assert(false);
        }
        assert(post_c.contains(x));
        let ci = choose|ci: int| 0 <= ci < post_c.len() && post_c[ci] == x;
        assert(enc_id(post_c[ci].id) == k);
    }
}

/// What one save with the given arguments and timestamp does to the store:
/// the cache holds the new record (and everything else it held, with only
/// this identifier's old record gone), and on success the two tables hold
/// the encoded record and the body under the identifier's key; on a failed
/// durable write the tables are unchanged while the cache is already
/// updated.
pub open spec fn save_post(
    pre: PromptStore,
    post: PromptStore,
    id: PromptId,
    title: Option<Seq<char>>,
    default: bool,
    body: Seq<char>,
    ts: u64,
    r: Result<(), StoreError>,
) -> bool {
    let m = saved_record(id, title, default, ts);
    post.cache@.contains(m)
    && (forall|x: MetaView| #[trigger] post.cache@.contains(x)
        ==> x == m || (pre.cache@.contains(x) && x.id != id))
    && (forall|x: MetaView| pre.cache@.contains(x) && x.id != id
        ==> post.cache@.contains(x))
    && match r {
        Ok(()) => meta_table(&post.db) == meta_table(&pre.db).insert(enc_id(id), enc_meta(m))
            && body_table(&post.db) == body_table(&pre.db).insert(enc_id(id), body)
            && (pre.synced() ==> post.synced()),
        Err(e) => e == StoreError::Storage && meta_table(&post.db) == meta_table(&pre.db)
            && body_table(&post.db) == body_table(&pre.db),
    }
}

/// The prompt store: the durable tables and the metadata cache.
pub struct PromptStore {
    pub db: StoreDb,
    pub cache: MetadataCache,
}

impl PromptStore {
    /// The cache is sorted with one record per identifier, and everything
    /// durably stored decodes to a record that matches its key.
    pub open spec fn wf(&self) -> bool {
        self.cache.wf() && table_ok(meta_table(&self.db))
    }

    /// The cache equals the latest known durable state. A failed durable
    /// write breaks this until the next successful one: the cache is
    /// deliberately updated first.
    pub open spec fn synced(&self) -> bool {
        cache_matches(self.cache@, meta_table(&self.db))
    }

    /// Opens the store inside the given environment: purges the deprecated
    /// built-in workflow entry, folds the legacy generation forward
    /// (best-effort: a migration failure leaves the store usable), and
    /// builds the metadata cache by scanning the metadata table.
    pub fn new(env: heed::Env) -> (r: Result<PromptStore, StoreError>)
        ensures
            match r {
                Ok(s) => s.wf() && s.synced() && !meta_table(&s.db).dom().contains(
                    enc_id(PromptId::EditWorkflow),
                ) && !body_table(&s.db).dom().contains(enc_id(PromptId::EditWorkflow)),
                Err(e) => e == StoreError::Storage,
            },
    {
        let mut db = match StoreDb::open(env) {
            Ok(d) => d,
            Err(_) => {
                return Err(StoreError::Storage);
            },
        };
        // Purge the deprecated built-in workflow entry from both tables.
        let wkey = PromptId::EditWorkflow.encode();
        match db.delete_pair(&wkey) {
            Ok(()) => {},
            Err(_) => {
                return Err(StoreError::Storage);
            },
        }
        // Fold the legacy generation forward; failures are tolerated.
        match crate::migration::migrate(&mut db) {
            Ok(_) => {},
            Err(_) => {},
        }
        // Build the cache from one scan of the metadata table.
        let pairs = match db.scan_meta() {
            Ok(p) => p,
            Err(_) => {
                return Err(StoreError::Storage);
            },
        };
        let ghost t = meta_table(&db);
        let mut cache = MetadataCache::new();
        let n = pairs.len();
        let mut i: usize = 0;
        while i < n
            invariant
                i <= n,
                n == pairs@.len(),
                t == meta_table(&db),
                lists_table(pairs@, t),
                cache.wf(),
                forall|j: int| 0 <= j < i ==> dec_meta((#[trigger] pairs@[j]).1@) is Some
                    && enc_id(dec_meta(pairs@[j].1@).unwrap().id) == pairs@[j].0@,
                forall|j: int| 0 <= j < i
                    ==> cache@.contains(dec_meta((#[trigger] pairs@[j]).1@).unwrap()),
                forall|x: MetaView| #[trigger] cache@.contains(x)
                    ==> exists|j: int| 0 <= j < i && dec_meta((#[trigger] pairs@[j]).1@) == Some(x),
            decreases n - i,
        {
            let m = match decode_meta(pairs[i].1.as_str()) {
                Some(m) => m,
                None => {
                    return Err(StoreError::Storage);
                },
            };
            let k2 = m.id.encode();
            if !str_eq(k2.as_str(), pairs[i].0.as_str()) {
                return Err(StoreError::Storage);
            }
            let ghost mv = m@;
            let ghost pre = cache@;
            cache.insert(m);
            proof {
                assert(enc_id(mv.id) == pairs@[i as int].0@);
                assert forall|j: int| 0 <= j < i + 1 implies cache@.contains(
                    dec_meta((#[trigger] pairs@[j]).1@).unwrap(),
                ) by {
                    if j < i {
                        let d = dec_meta(pairs@[j].1@).unwrap();
                        if d.id == mv.id {
                            assert(enc_id(d.id) == pairs@[j].0@);
                            assert(pairs@[j].0@ == pairs@[i as int].0@);
                            assert(false);
                        } else {
                            assert(pre.contains(d));
                            assert(cache@.contains(d));
                        }
                    } else {
                        assert(dec_meta(pairs@[j].1@) == Some(mv));
                    }
                }
                assert forall|x: MetaView| #[trigger] cache@.contains(x)
                    implies exists|j: int|
                        0 <= j < i + 1 && dec_meta((#[trigger] pairs@[j]).1@) == Some(x) by {
                    if x == mv {
                        assert(dec_meta(pairs@[i as int].1@) == Some(x));
                    } else {
                        assert(pre.contains(x));
                    }
                }
            }
            i += 1;
        }
        let s = PromptStore { db, cache };
        proof {
            assert(table_ok(t)) by {
                assert forall|k: Seq<char>| #[trigger] t.dom().contains(k)
                    implies dec_meta(t[k]) is Some && enc_id(dec_meta(t[k]).unwrap().id)
                        == k by {
                    let j = choose|j: int| 0 <= j < pairs@.len() && pairs@[j].0@ == k;
                    assert(t[pairs@[j].0@] == pairs@[j].1@);
                }
            }
            assert(cache_matches(s.cache@, t)) by {
                assert forall|ci: int| 0 <= ci < s.cache@.len() implies entry_stored(
                    t,
                    #[trigger] s.cache@[ci],
                ) by {
                    let x = s.cache@[ci];
                    assert(s.cache@.contains(x));
                    let j = choose|j: int|
                        0 <= j < pairs@.len() && dec_meta((#[trigger] pairs@[j]).1@) == Some(x);
                    assert(t.dom().contains(pairs@[j].0@));
                    assert(t[pairs@[j].0@] == pairs@[j].1@);
                    assert(enc_id(x.id) == pairs@[j].0@);
                }
                assert forall|k: Seq<char>| #[trigger] t.dom().contains(k)
                    implies exists|ci: int|
                        0 <= ci < s.cache@.len() && #[trigger] enc_id(s.cache@[ci].id) == k by {
                    let j = choose|j: int| 0 <= j < pairs@.len() && pairs@[j].0@ == k;
                    let d = dec_meta(pairs@[j].1@).unwrap();
                    assert(s.cache@.contains(d));
                    let ci = choose|ci: int| 0 <= ci < s.cache@.len() && s.cache@[ci] == d;
                    assert(enc_id(s.cache@[ci].id) == k);
                }
            }
        }
        Ok(s)
    }

    /// The number of cached entries.
    pub fn prompt_count(&self) -> (r: usize)
        ensures
            r == self.cache@.len(),
    {
        self.cache.len()
    }

    /// The cached metadata record for the given identifier.
    pub fn metadata(&self, id: PromptId) -> (r: Option<PromptMetadata>)
        ensures
            match r {
                Some(m) => self.cache@.contains(m@) && m@.id == id,
                None => forall|i: int| 0 <= i < self.cache@.len() ==> self.cache@[i].id != id,
            },
    {
        self.cache.lookup(id)
    }

    /// The first cached record in listing order.
    pub fn first(&self) -> (r: Option<PromptMetadata>)
        ensures
            match r {
                Some(m) => self.cache@.len() > 0 && m@ == self.cache@[0],
                None => self.cache@.len() == 0,
            },
    {
        self.cache.first()
    }

    /// Reads the body stored for the identifier, normalizing line endings.
    /// `NotFound` exactly when no body is stored, barring an engine failure.
    pub fn load(&self, id: PromptId) -> (r: Result<String, StoreError>)
        ensures
            match r {
                Ok(s) => body_table(&self.db).dom().contains(enc_id(id)) && s@ == norm(
                    body_table(&self.db)[enc_id(id)],
                ),
                Err(StoreError::NotFound) => !body_table(&self.db).dom().contains(enc_id(id)),
                Err(StoreError::Storage) => true,
                Err(_) => false,
            },
    {
        let key = id.encode();
        match self.db.get_body(&key) {
            Ok(Some(raw)) => Ok(normalize_line_endings(raw.as_str())),
            Ok(None) => Err(StoreError::NotFound),
            Err(_) => Err(StoreError::Storage),
        }
    }

    /// Writes metadata and body for a user entry in one transaction, with
    /// the given save timestamp, updating the cache first.
    pub fn save_at(
        &mut self,
        id: PromptId,
        title: Option<String>,
        default: bool,
        body: String,
        saved_at: u64,
    ) -> (r: Result<(), StoreError>)
        requires
            !id.spec_is_built_in(),
            old(self).wf(),
        ensures
            final(self).wf(),
            save_post(*old(self), *final(self), id, title_view(title), default, body@, saved_at, r),
    {
        let m = PromptMetadata { id, title, default, saved_at };
        let ghost mv = m@;
        let key = m.id.encode();
        let rec = encode_meta(&m);
        let ghost pre_cache = self.cache@;
        let ghost pre_meta = meta_table(&self.db);
        let ghost pre_body = body_table(&self.db);
        self.cache.insert(m);
        let wrote = self.db.put_pair(&key, &rec, &body);
        proof {
            lemma_meta_round_trip(mv);
            if wrote is Ok {
                lemma_table_ok_insert(pre_meta, mv);
                if cache_matches(pre_cache, pre_meta) {
                    lemma_sync_insert(pre_cache, self.cache@, pre_meta, mv);
                }
            }
        }
        match wrote {
            Ok(()) => Ok(()),
            Err(_) => Err(StoreError::Storage),
        }
    }

    /// Writes metadata and body for an entry, stamping the save with the
    /// clock's current time. Rejected with `PermissionDenied` for built-in
    /// entries, which cannot be saved.
    pub fn save(&mut self, id: PromptId, title: Option<String>, default: bool, body: String) -> (r:
        Result<(), StoreError>)
        requires
            old(self).wf(),
        ensures
            final(self).wf(),
            id.spec_is_built_in() ==> r == Err::<(), StoreError>(StoreError::PermissionDenied)
                && *final(self) == *old(self),
            !id.spec_is_built_in() ==> (exists|ts: u64|
                save_post(
                    *old(self),
                    *final(self),
                    id,
                    title_view(title),
                    default,
                    body@,
                    ts,
                    r,
                )),
    {
        if id.is_built_in() {
            return Err(StoreError::PermissionDenied);
        }
        let ts = now_timestamp();
        let ghost pre = *self;
        let r = self.save_at(id, title, default, body, ts);
        proof {
            assert(save_post(pre, *self, id, title_view(title), default, body@, ts, r));
        }
        r
    }

    /// Removes the metadata record and the body for an entry, in one
    /// transaction, dropping it from the cache first. Rejected with
    /// `PermissionDenied` for built-in entries, which cannot be deleted.
    pub fn delete(&mut self, id: PromptId) -> (r: Result<(), StoreError>)
        requires
            old(self).wf(),
        ensures
            final(self).wf(),
            id.spec_is_built_in() ==> r == Err::<(), StoreError>(StoreError::PermissionDenied)
                && *final(self) == *old(self),
            !id.spec_is_built_in() ==> delete_post(*old(self), *final(self), id, r),
    {
        if id.is_built_in() {
            return Err(StoreError::PermissionDenied);
        }
        let key = id.encode();
        let ghost pre_cache = self.cache@;
        let ghost pre_meta = meta_table(&self.db);
        self.cache.remove(id);
        let wrote = self.db.delete_pair(&key);
        proof {
            if wrote is Ok {
                lemma_table_ok_remove(pre_meta, enc_id(id));
                if cache_matches(pre_cache, pre_meta) {
                    lemma_sync_remove(pre_cache, self.cache@, pre_meta, id);
                }
            }
        }
        match wrote {
            Ok(()) => Ok(()),
            Err(_) => Err(StoreError::Storage),
        }
    }
}

/// What one delete of a user entry does to the store: the cache no longer
/// lists the identifier (everything else kept, in order), and on success
/// both tables have the identifier's key removed; on a failed durable write
/// the tables are unchanged while the cache is already updated.
pub open spec fn delete_post(
    pre: PromptStore,
    post: PromptStore,
    id: PromptId,
    r: Result<(), StoreError>,
) -> bool {
    (forall|i: int| 0 <= i < post.cache@.len() ==> post.cache@[i].id != id)
    && (forall|x: MetaView| #[trigger] post.cache@.contains(x)
        ==> pre.cache@.contains(x) && x.id != id)
    && (forall|x: MetaView| pre.cache@.contains(x) && x.id != id
        ==> post.cache@.contains(x))
    && match r {
        Ok(()) => meta_table(&post.db) == meta_table(&pre.db).remove(enc_id(id))
            && body_table(&post.db) == body_table(&pre.db).remove(enc_id(id))
            && (pre.synced() ==> post.synced()),
        Err(e) => e == StoreError::Storage && meta_table(&post.db) == meta_table(&pre.db)
            && body_table(&post.db) == body_table(&pre.db),
    }
}

/// The title of the cached record for `id`, `None` when none is cached.
pub open spec fn cached_title(c: Seq<MetaView>, id: PromptId) -> Option<Seq<char>> {
    if exists|i: int| 0 <= i < c.len() && (#[trigger] c[i]).id == id {
        c[choose|i: int| 0 <= i < c.len() && (#[trigger] c[i]).id == id].title
    } else {
        None
    }
}

/// The titles, in listing order, of the cached entries other than
/// `source`: the candidates a duplicate's title must not collide with.
pub open spec fn other_titles(c: Seq<MetaView>, source: PromptId) -> Seq<Seq<char>> {
    c.filter(|m: MetaView| m.id != source && m.title is Some).map_values(
        |m: MetaView| m.title.unwrap(),
    )
}

/// The title a duplicate derives from: the source's cached title, or the
/// empty title where it has none.
pub open spec fn dup_source_title(c: Seq<MetaView>, source: PromptId) -> Seq<char> {
    match cached_title(c, source) {
        Some(t) => t,
        None => Seq::empty(),
    }
}

/// What one metadata-only save does to the store. For a built-in entry the
/// given title is ignored and the previously stored title is kept: only the
/// default-flag of a built-in entry is mutable. The body table is never
/// touched.
pub open spec fn save_meta_post(
    pre: PromptStore,
    post: PromptStore,
    id: PromptId,
    title: Option<Seq<char>>,
    default: bool,
    ts: u64,
    r: Result<(), StoreError>,
) -> bool {
    let eff = if id.spec_is_built_in() {
        cached_title(pre.cache@, id)
    } else {
        title
    };
    let m = saved_record(id, eff, default, ts);
    post.cache@.contains(m)
    && (forall|x: MetaView| #[trigger] post.cache@.contains(x)
        ==> x == m || (pre.cache@.contains(x) && x.id != id))
    && (forall|x: MetaView| pre.cache@.contains(x) && x.id != id
        ==> post.cache@.contains(x))
    && body_table(&post.db) == body_table(&pre.db)
    && match r {
        Ok(()) => meta_table(&post.db) == meta_table(&pre.db).insert(enc_id(id), enc_meta(m))
            && (pre.synced() ==> post.synced()),
        Err(e) => e == StoreError::Storage && meta_table(&post.db) == meta_table(&pre.db),
    }
}

impl PromptStore {
    /// Writes a metadata record alone, with the given save timestamp,
    /// leaving the stored body untouched; for a built-in entry the stored
    /// title is preserved and only the default-flag changes.
    pub fn save_metadata_at(
        &mut self,
        id: PromptId,
        title: Option<String>,
        default: bool,
        saved_at: u64,
    ) -> (r: Result<(), StoreError>)
        requires
            old(self).wf(),
        ensures
            final(self).wf(),
            save_meta_post(
                *old(self),
                *final(self),
                id,
                title_view(title),
                default,
                saved_at,
                r,
            ),
    {
        let ghost pre_cache = self.cache@;
        let ghost pre_meta = meta_table(&self.db);
        let eff_title: Option<String> = if id.is_built_in() {
            match self.cache.lookup(id) {
                Some(found) => found.title,
                None => None,
            }
        } else {
            title
        };
        proof {
            if id.spec_is_built_in() {
                let spec_eff = cached_title(pre_cache, id);
                if exists|i: int| 0 <= i < pre_cache.len() && (#[trigger] pre_cache[i]).id == id {
                    let ch = choose|i: int|
                        0 <= i < pre_cache.len() && (#[trigger] pre_cache[i]).id == id;
                    assert(title_view(eff_title) == pre_cache[ch].title);
                }
            }
        }
        let m = PromptMetadata { id, title: eff_title, default, saved_at };
        let ghost mv = m@;
        let key = m.id.encode();
        let rec = encode_meta(&m);
        self.cache.insert(m);
        let wrote = self.db.put_meta(&key, &rec);
        proof {
            lemma_meta_round_trip(mv);
            if wrote is Ok {
                lemma_table_ok_insert(pre_meta, mv);
                if cache_matches(pre_cache, pre_meta) {
                    lemma_sync_insert(pre_cache, self.cache@, pre_meta, mv);
                }
            }
        }
        match wrote {
            Ok(()) => Ok(()),
            Err(_) => Err(StoreError::Storage),
        }
    }

    /// Writes a metadata record alone, stamping the save with the clock's
    /// current time; for a built-in entry the stored title is preserved and
    /// only the default-flag changes.
    pub fn save_metadata(&mut self, id: PromptId, title: Option<String>, default: bool) -> (r:
        Result<(), StoreError>)
        requires
            old(self).wf(),
        ensures
            final(self).wf(),
            exists|ts: u64|
                save_meta_post(
                    *old(self),
                    *final(self),
                    id,
                    title_view(title),
                    default,
                    ts,
                    r,
                ),
    {
        let ts = now_timestamp();
        let ghost pre = *self;
        let r = self.save_metadata_at(id, title, default, ts);
        proof {
            assert(save_meta_post(pre, *self, id, title_view(title), default, ts, r));
        }
        r
    }
}

impl PromptStore {
    /// Ranks the cached entries against the query, per the search policy.
    pub fn search(&self, query: &String) -> (r: Vec<PromptMetadata>)
        ensures
            rec_views(r@) == spec_search(self.cache@, query@),
    {
        search_records(&self.cache, query.as_str())
    }

    /// The identifier of the first cached entry, in listing order, bearing
    /// exactly this title.
    pub fn id_for_title(&self, title: &str) -> (r: Option<PromptId>)
        ensures
            match r {
                Some(id) => exists|i: int|
                    0 <= i < self.cache@.len() && (#[trigger] self.cache@[i]).id == id
                        && self.cache@[i].title == Some(title@) && (forall|j: int|
                        0 <= j < i ==> (#[trigger] self.cache@[j]).title != Some(title@)),
                None => forall|i: int|
                    0 <= i < self.cache@.len()
                        ==> (#[trigger] self.cache@[i]).title != Some(title@),
            },
    {
        let n = self.cache.len();
        let mut i: usize = 0;
        while i < n
            invariant
                i <= n,
                n == self.cache@.len(),
                forall|j: int| 0 <= j < i
                    ==> (#[trigger] self.cache@[j]).title != Some(title@),
            decreases n - i,
        {
            let m = self.cache.get(i);
            match &m.title {
                Option::Some(t) => {
                    if str_eq(t.as_str(), title) {
                        return Some(m.id);
                    }
                },
                Option::None => {},
            }
            i += 1;
        }
        None
    }

    /// Every cached entry flagged as default, in listing order.
    pub fn default_prompt_metadata(&self) -> (r: Vec<PromptMetadata>)
        ensures
            rec_views(r@) == self.cache@.filter(|m: MetaView| m.default),
    {
        let ghost c = self.cache@;
        let n = self.cache.len();
        let mut out: Vec<PromptMetadata> = Vec::new();
        let mut i: usize = 0;
        proof {
            reveal(Seq::filter);
            assert(c.take(0).filter(|m: MetaView| m.default) =~= Seq::<MetaView>::empty());
            assert(rec_views(out@) =~= Seq::<MetaView>::empty());
        }
        while i < n
            invariant
                i <= n,
                n == c.len(),
                c == self.cache@,
                rec_views(out@) == c.take(i as int).filter(|m: MetaView| m.default),
            decreases n - i,
        {
            let m = self.cache.get(i);
            proof {
                crate::search::lemma_filter_push(
                    c.take(i as int),
                    |m: MetaView| m.default,
                    c[i as int],
                );
                assert(c.take(i as int).push(c[i as int]) =~= c.take(i as int + 1));
            }
            if m.default {
                let ghost pre = out@;
                out.push(m);
                proof {
                    assert(rec_views(out@) =~= rec_views(pre).push(c[i as int]));
                }
            }
            i += 1;
        }
        proof {
            assert(c.take(n as int) =~= c);
        }
        out
    }
}

impl PromptStore {
    /// Creates a new entry: allocates a fresh user identifier and writes
    /// its first save. A failed durable write reports `Storage` with the
    /// cache already holding the attempted record and the tables unchanged,
    /// per the optimistic-write design.
    pub fn create(&mut self, title: Option<String>, default: bool, body: String) -> (r: Result<
        PromptId,
        StoreError,
    >)
        requires
            old(self).wf(),
        ensures
            final(self).wf(),
            match r {
                Ok(nid) => !nid.spec_is_built_in() && (exists|ts: u64|
                    save_post(
                        *old(self),
                        *final(self),
                        nid,
                        title_view(title),
                        default,
                        body@,
                        ts,
                        Ok(()),
                    )),
                Err(e) => e == StoreError::Storage && (exists|nid: PromptId, ts: u64|
                    !nid.spec_is_built_in() && save_post(
                        *old(self),
                        *final(self),
                        nid,
                        title_view(title),
                        default,
                        body@,
                        ts,
                        Err(StoreError::Storage),
                    )),
            },
    {
        let id = PromptId::new();
        let ts = now_timestamp();
        let ghost tv = title_view(title);
        let ghost bv = body@;
        let ghost pre = *self;
        let wrote = self.save_at(id, title, default, body, ts);
        proof {
            match wrote {
                Ok(()) => {
                    assert(save_post(pre, *self, id, tv, default, bv, ts, Ok(())));
                },
                Err(e) => {
                    assert(save_post(pre, *self, id, tv, default, bv, ts, wrote));
                    assert(e == StoreError::Storage);
                    assert(save_post(pre, *self, id, tv, default, bv, ts, Err(StoreError::Storage)));
                },
            }
        }
        match wrote {
            Ok(()) => Ok(id),
            Err(_) => Err(StoreError::Storage),
        }
    }

    /// Duplicates an entry: derives the new title from the source's cached
    /// title and the other entries' cached titles per the disambiguation
    /// policy, copies the stored body, and saves both under a fresh user
    /// identifier. `NotFound` means the source had no cached record or no
    /// stored body, and nothing changed; a failed durable write reports
    /// `Storage` with the cache already holding the new record.
    #[verifier::rlimit(100)]
    pub fn duplicate(&mut self, source: PromptId) -> (r: Result<PromptId, StoreError>)
        requires
            old(self).wf(),
        ensures
            final(self).wf(),
            (forall|i: int|
                0 <= i < old(self).cache@.len() ==> (#[trigger] old(self).cache@[i]).id
                    != source) ==> r == Err::<PromptId, StoreError>(StoreError::NotFound),
            match r {
                Ok(nid) => !nid.spec_is_built_in() && body_table(
                    &old(self).db,
                ).dom().contains(enc_id(source)) && (exists|ts: u64, t: Seq<char>|
                    save_post(
                        *old(self),
                        *final(self),
                        nid,
                        Some(t),
                        false,
                        norm(body_table(&old(self).db)[enc_id(source)]),
                        ts,
                        Ok(()),
                    ) && dup_title_ok(
                        t,
                        dup_source_title(old(self).cache@, source),
                        other_titles(old(self).cache@, source),
                    )),
                Err(StoreError::NotFound) => *final(self) == *old(self) && ((forall|i: int|
                    0 <= i < old(self).cache@.len() ==> (#[trigger] old(self).cache@[i]).id
                        != source) || !body_table(&old(self).db).dom().contains(enc_id(source))),
                Err(StoreError::Storage) => *final(self) == *old(self) || (body_table(
                    &old(self).db,
                ).dom().contains(enc_id(source)) && (exists|nid: PromptId, ts: u64, t: Seq<char>|
                    !nid.spec_is_built_in() && save_post(
                        *old(self),
                        *final(self),
                        nid,
                        Some(t),
                        false,
                        norm(body_table(&old(self).db)[enc_id(source)]),
                        ts,
                        Err(StoreError::Storage),
                    ) && dup_title_ok(
                        t,
                        dup_source_title(old(self).cache@, source),
                        other_titles(old(self).cache@, source),
                    ))),
                Err(_) => false,
            },
    {
        let ghost c0 = self.cache@;
        let source_meta = match self.metadata(source) {
            Some(m) => m,
            None => {
                return Err(StoreError::NotFound);
            },
        };
        let ghost smv = source_meta@;
        proof {
            // The source is cached, at exactly one position.
            let idx = choose|k: int| 0 <= k < c0.len() && c0[k] == smv;
            assert((#[trigger] c0[idx]).id == source);
            let ch = choose|k: int| 0 <= k < c0.len() && (#[trigger] c0[k]).id == source;
            if ch < idx {
                assert(c0[ch].id != c0[idx].id);
            } else if ch > idx {
                assert(c0[idx].id != c0[ch].id);
            }
            assert(cached_title(c0, source) == smv.title);
        }
        let body = match self.load(source) {
            Ok(b) => b,
            Err(StoreError::NotFound) => {
                return Err(StoreError::NotFound);
            },
            Err(_) => {
                return Err(StoreError::Storage);
            },
        };
        // The other entries' titles, in listing order, for disambiguation.
        let ghost pred = |m: MetaView| m.id != source && m.title is Some;
        let ghost tf = |m: MetaView| m.title.unwrap();
        let n = self.cache.len();
        let mut titles: Vec<String> = Vec::new();
        let mut i: usize = 0;
        proof {
            assert(c0.take(0).filter(pred) =~= Seq::<MetaView>::empty()) by {
                reveal(Seq::filter);
            }
            assert(str_views(titles@) =~= c0.take(0).filter(pred).map_values(tf));
        }
        while i < n
            invariant
                i <= n,
                n == c0.len(),
                c0 == self.cache@,
                pred == (|m: MetaView| m.id != source && m.title is Some),
                tf == (|m: MetaView| m.title.unwrap()),
                titles@.len() <= i,
                (exists|k: int| 0 <= k < i && (#[trigger] c0[k]).id == source)
                    ==> titles@.len() < i,
                str_views(titles@) == c0.take(i as int).filter(pred).map_values(tf),
            decreases n - i,
        {
            let m = self.cache.get(i);
            proof {
                lemma_filter_push(c0.take(i as int), pred, c0[i as int]);
                assert(c0.take(i as int).push(c0[i as int]) =~= c0.take(i as int + 1));
            }
            if !(m.id == source) {
                match m.title {
                    Option::Some(t) => {
                        let ghost pre_titles = titles@;
                        titles.push(t);
                        proof {
                            assert(str_views(titles@) =~= str_views(pre_titles).push(
                                tf(c0[i as int]),
                            ));
                            assert(c0.take(i as int).filter(pred).push(c0[i as int]).map_values(
                                tf,
                            ) =~= c0.take(i as int).filter(pred).map_values(tf).push(
                                tf(c0[i as int]),
                            ));
                        }
                    },
                    Option::None => {},
                }
            } else {
                proof {
                    assert((#[trigger] c0[i as int]).id == source);
                }
            }
            i += 1;
        }
        proof {
            assert(self.cache@.contains(smv));
            let k = choose|k: int| 0 <= k < self.cache@.len() && self.cache@[k] == smv;
            assert(self.cache@[k].id == source);
            assert(titles@.len() < n);
            assert(c0.take(n as int) =~= c0);
            assert(str_views(titles@) == other_titles(c0, source));
        }
        let source_title = match source_meta.title {
            Option::Some(t) => t,
            Option::None => String::new(),
        };
        proof {
            assert(source_title@ == dup_source_title(c0, source));
        }
        let new_title = duplicate_title(&source_title, &titles);
        let new_id = PromptId::new();
        let ghost tv = new_title@;
        let ghost bodyv = body@;
        let ghost pre = *self;
        let ts = now_timestamp();
        let wrote = self.save_at(new_id, Option::Some(new_title), false, body, ts);
        proof {
            assert(pre == *old(self));
            assert(dup_title_ok(tv, dup_source_title(c0, source), other_titles(c0, source)));
            match wrote {
                Ok(()) => {
                    assert(save_post(pre, *self, new_id, Some(tv), false, bodyv, ts, Ok(())));
                    assert(bodyv == norm(body_table(&pre.db)[enc_id(source)]));
                },
                Err(e) => {
                    assert(save_post(pre, *self, new_id, Some(tv), false, bodyv, ts, wrote));
                    assert(e == StoreError::Storage);
                    assert(save_post(
                        pre,
                        *self,
                        new_id,
                        Some(tv),
                        false,
                        bodyv,
                        ts,
                        Err(StoreError::Storage),
                    ));
                },
            }
        }
        match wrote {
            Ok(()) => Ok(new_id),
            Err(_) => Err(StoreError::Storage),
        }
    }
}

/// After a successful save, the body table holds the saved body under the
/// identifier's key and the cache holds the saved record — so by the
/// contract of `load`, a load of that identifier that does not hit an
/// engine failure returns exactly the saved body, line-ending normalized.
pub proof fn lemma_save_then_load(
    pre: PromptStore,
    post: PromptStore,
    id: PromptId,
    title: Option<Seq<char>>,
    default: bool,
    body: Seq<char>,
    ts: u64,
)
    requires
        save_post(pre, post, id, title, default, body, ts, Ok(())),
    ensures
        body_table(&post.db).dom().contains(enc_id(id)),
        norm(body_table(&post.db)[enc_id(id)]) == norm(body),
        post.cache@.contains(saved_record(id, title, default, ts)),
{
    assert(body_table(&post.db) == body_table(&pre.db).insert(enc_id(id), body));
}

/// After a successful delete, neither table holds the identifier's key and
/// the cache no longer lists it — so by the contract of `load`, a load of
/// that identifier cannot succeed, and short of an engine failure it
/// reports `NotFound`.
pub proof fn lemma_delete_then_load(pre: PromptStore, post: PromptStore, id: PromptId)
    requires
        delete_post(pre, post, id, Ok(())),
    ensures
        !body_table(&post.db).dom().contains(enc_id(id)),
        !meta_table(&post.db).dom().contains(enc_id(id)),
        forall|i: int| 0 <= i < post.cache@.len() ==> post.cache@[i].id != id,
{
}

/// Built-in entries keep their stored title: a metadata-only save of one
/// carries the previously cached title forward, whatever title was passed,
/// and changes only the default-flag and the timestamp.
pub proof fn lemma_builtin_title_preserved(
    pre: PromptStore,
    post: PromptStore,
    id: PromptId,
    title: Option<Seq<char>>,
    default: bool,
    ts: u64,
    r: Result<(), StoreError>,
)
    requires
        id.spec_is_built_in(),
        save_meta_post(pre, post, id, title, default, ts, r),
    ensures
        post.cache@.contains(saved_record(id, cached_title(pre.cache@, id), default, ts)),
{
}

/// Relies on chrono::Utc::now and timestamp_millis: a wall-clock reading in
/// milliseconds since the epoch. Nothing is promised of the value; the call
/// panics only on a pre-epoch system clock, an environmental failure of the
/// same class as exhausted memory.
#[verifier::external_body]
fn now_raw() -> i64 {
    chrono::Utc::now().timestamp_millis()
}

/// The clock's reading as an unsigned save timestamp, clamped to zero for
/// readings before the epoch.
fn now_timestamp() -> u64 {
    let t = now_raw();
    if t < 0 {
        0u64
    } else {
        t as u64
    }
}

} // verus!
