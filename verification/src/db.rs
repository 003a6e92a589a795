//! The durable layer: one transactional LMDB environment holding the two
//! current keyspaces (metadata and bodies) and, where a legacy generation
//! exists on disk, its two keyspaces as well. Keys and values are UTF-8
//! strings; each table is modelled as a map from key characters to value
//! characters, and every operation here is a single transaction, so a pair
//! of writes becomes visible together or not at all.

use vstd::prelude::*;
use crate::errors::StoreError;

verus! {

#[verifier::external_type_specification]
#[verifier::external_body]
pub struct ExEnv(heed::Env);

/// A handle on the transactional environment and its tables. The fields are
/// hidden; the tables are reached only through the operations below, whose
/// contracts speak of the table models. Each model is a function of this
/// handle's value, faithful while the handle is the environment's only
/// user: a second handle on the same directory, or another process, could
/// change a table between two operations here.
#[verifier::external_body]
pub struct StoreDb {
    env: heed::Env,
    meta: heed::Database<heed::types::Str, heed::types::Str>,
    bodies: heed::Database<heed::types::Str, heed::types::Str>,
    legacy_meta: Option<heed::Database<heed::types::Str, heed::types::Str>>,
    legacy_bodies: Option<heed::Database<heed::types::Str, heed::types::Str>>,
}

/// What the current metadata table holds.
pub uninterp spec fn meta_table(db: &StoreDb) -> Map<Seq<char>, Seq<char>>;

/// What the current body table holds.
pub uninterp spec fn body_table(db: &StoreDb) -> Map<Seq<char>, Seq<char>>;

/// What the legacy metadata table holds.
pub uninterp spec fn legacy_meta_table(db: &StoreDb) -> Map<Seq<char>, Seq<char>>;

/// What the legacy body table holds.
pub uninterp spec fn legacy_body_table(db: &StoreDb) -> Map<Seq<char>, Seq<char>>;

/// Whether the legacy metadata table exists on disk in this environment.
pub uninterp spec fn legacy_meta_present(db: &StoreDb) -> bool;

/// Whether the legacy body table exists on disk in this environment.
pub uninterp spec fn legacy_body_present(db: &StoreDb) -> bool;

/// Whether the legacy generation of `a` — both tables and their presence —
/// is that of `b`.
pub open spec fn legacy_unchanged(a: &StoreDb, b: &StoreDb) -> bool {
    legacy_meta_table(a) == legacy_meta_table(b) && legacy_body_table(a) == legacy_body_table(b)
        && legacy_meta_present(a) == legacy_meta_present(b) && legacy_body_present(a)
        == legacy_body_present(b)
}

/// Whether the current tables of `a` are those of `b`.
pub open spec fn current_unchanged(a: &StoreDb, b: &StoreDb) -> bool {
    meta_table(a) == meta_table(b) && body_table(a) == body_table(b)
}

/// Whether `v` lists exactly the pairs of `t`, each key once.
pub open spec fn lists_table(v: Seq<(String, String)>, t: Map<Seq<char>, Seq<char>>) -> bool {
    (forall|i: int| 0 <= i < v.len()
        ==> t.dom().contains((#[trigger] v[i]).0@) && t[v[i].0@] == v[i].1@)
    && (forall|k: Seq<char>| #[trigger] t.dom().contains(k)
        ==> exists|i: int| 0 <= i < v.len() && (#[trigger] v[i].0@) == k)
    && (forall|i: int, j: int| 0 <= i < j < v.len()
        ==> (#[trigger] v[i]).0@ != (#[trigger] v[j]).0@)
}

/// The map after writing every (key, metadata) pair of `es` in order.
pub open spec fn after_meta_writes(
    m: Map<Seq<char>, Seq<char>>,
    es: Seq<(String, String, String)>,
) -> Map<Seq<char>, Seq<char>>
    decreases es.len(),
{
    if es.len() == 0 {
        m
    } else {
        after_meta_writes(m, es.drop_last()).insert(es.last().0@, es.last().1@)
    }
}

/// The map after writing every (key, body) pair of `es` in order.
pub open spec fn after_body_writes(
    m: Map<Seq<char>, Seq<char>>,
    es: Seq<(String, String, String)>,
) -> Map<Seq<char>, Seq<char>>
    decreases es.len(),
{
    if es.len() == 0 {
        m
    } else {
        after_body_writes(m, es.drop_last()).insert(es.last().0@, es.last().2@)
    }
}

impl StoreDb {
    /// Relies on heed::Env::create_database and Env::open_database: opens,
    /// creating them if absent, the two current tables, and opens the two
    /// legacy tables where that generation exists on disk. Nothing is
    /// promised of any table's contents: they are whatever the environment
    /// holds.
    #[verifier::external_body]
    pub(crate) fn open(env: heed::Env) -> (r: Result<StoreDb, StoreError>) {
        let meta = env.create_database(Some("metadata.v2")).map_err(|_| StoreError::Storage)?;
        let bodies = env.create_database(Some("bodies.v2")).map_err(|_| StoreError::Storage)?;
        let legacy_meta = env.open_database(Some("metadata")).map_err(|_| StoreError::Storage)?;
        let legacy_bodies = env.open_database(Some("bodies")).map_err(|_| StoreError::Storage)?;
        Ok(StoreDb { env, meta, bodies, legacy_meta, legacy_bodies })
    }

    /// Relies on heed::Database::put and RwTxn::commit: writes the metadata
    /// record and the body under one key in one transaction. An aborted
    /// transaction leaves every table as it was.
    #[verifier::external_body]
    pub(crate) fn put_pair(&mut self, key: &String, meta_rec: &String, body: &String) -> (r: Result<
        (),
        StoreError,
    >)
        ensures
            legacy_unchanged(old(self), final(self)),
            match r {
                Ok(()) => meta_table(final(self)) == meta_table(old(self)).insert(
                    key@,
                    meta_rec@,
                ) && body_table(final(self)) == body_table(old(self)).insert(key@, body@),
                Err(e) => e == StoreError::Storage && current_unchanged(old(self), final(self)),
            },
    {
        let mut txn = self.env.write_txn().map_err(|_| StoreError::Storage)?;
        self.meta.put(&mut txn, key.as_str(), meta_rec.as_str()).map_err(|_| StoreError::Storage)?;
        self.bodies.put(&mut txn, key.as_str(), body.as_str()).map_err(|_| StoreError::Storage)?;
        txn.commit().map_err(|_| StoreError::Storage)
    }

    /// Relies on heed::Database::put and RwTxn::commit: writes one metadata
    /// record in one transaction, leaving the body table untouched.
    #[verifier::external_body]
    pub(crate) fn put_meta(&mut self, key: &String, meta_rec: &String) -> (r: Result<
        (),
        StoreError,
    >)
        ensures
            legacy_unchanged(old(self), final(self)),
            body_table(final(self)) == body_table(old(self)),
            match r {
                Ok(()) => meta_table(final(self)) == meta_table(old(self)).insert(
                    key@,
                    meta_rec@,
                ),
                Err(e) => e == StoreError::Storage && meta_table(final(self)) == meta_table(
                    old(self),
                ),
            },
    {
        let mut txn = self.env.write_txn().map_err(|_| StoreError::Storage)?;
        self.meta.put(&mut txn, key.as_str(), meta_rec.as_str()).map_err(|_| StoreError::Storage)?;
        txn.commit().map_err(|_| StoreError::Storage)
    }

    /// Relies on heed::Database::put and RwTxn::commit: writes every
    /// (key, metadata, body) triple of `entries` in one transaction,
    /// committing once at the end; all of the writes land or none do.
    #[verifier::external_body]
    pub(crate) fn put_pairs(&mut self, entries: &Vec<(String, String, String)>) -> (r: Result<
        (),
        StoreError,
    >)
        ensures
            legacy_unchanged(old(self), final(self)),
            match r {
                Ok(()) => meta_table(final(self)) == after_meta_writes(
                    meta_table(old(self)),
                    entries@,
                ) && body_table(final(self)) == after_body_writes(
                    body_table(old(self)),
                    entries@,
                ),
                Err(e) => e == StoreError::Storage && current_unchanged(old(self), final(self)),
            },
    {
        let mut txn = self.env.write_txn().map_err(|_| StoreError::Storage)?;
        for e in entries.iter() {
            self.meta.put(&mut txn, e.0.as_str(), e.1.as_str()).map_err(|_| StoreError::Storage)?;
            self.bodies.put(&mut txn, e.0.as_str(), e.2.as_str()).map_err(|_| StoreError::Storage)?;
        }
        txn.commit().map_err(|_| StoreError::Storage)
    }

    /// Relies on heed::Database::delete and RwTxn::commit: removes the
    /// metadata record and the body under one key in one transaction; a key
    /// that is absent from a table is simply not there afterwards either.
    #[verifier::external_body]
    pub(crate) fn delete_pair(&mut self, key: &String) -> (r: Result<(), StoreError>)
        ensures
            legacy_unchanged(old(self), final(self)),
            match r {
                Ok(()) => meta_table(final(self)) == meta_table(old(self)).remove(key@)
                    && body_table(final(self)) == body_table(old(self)).remove(key@),
                Err(e) => e == StoreError::Storage && current_unchanged(old(self), final(self)),
            },
    {
        let mut txn = self.env.write_txn().map_err(|_| StoreError::Storage)?;
        self.meta.delete(&mut txn, key.as_str()).map_err(|_| StoreError::Storage)?;
        self.bodies.delete(&mut txn, key.as_str()).map_err(|_| StoreError::Storage)?;
        txn.commit().map_err(|_| StoreError::Storage)
    }

    /// Relies on heed::Database::get in a read transaction: returns the body
    /// stored under the key, `None` exactly when the table has no such key.
    #[verifier::external_body]
    pub(crate) fn get_body(&self, key: &String) -> (r: Result<Option<String>, StoreError>)
        ensures
            match r {
                Ok(Some(v)) => body_table(self).dom().contains(key@) && v@ == body_table(self)[key@],
                Ok(None) => !body_table(self).dom().contains(key@),
                Err(e) => e == StoreError::Storage,
            },
    {
        let txn = self.env.read_txn().map_err(|_| StoreError::Storage)?;
        match self.bodies.get(&txn, key.as_str()) {
            Ok(Some(v)) => Ok(Some(v.to_owned())),
            Ok(None) => Ok(None),
            Err(_) => Err(StoreError::Storage),
        }
    }

    /// Relies on heed::Database::iter in a read transaction: lists every
    /// (key, record) pair of the current metadata table, each key once.
    #[verifier::external_body]
    pub(crate) fn scan_meta(&self) -> (r: Result<Vec<(String, String)>, StoreError>)
        ensures
            match r {
                Ok(v) => lists_table(v@, meta_table(self)),
                Err(e) => e == StoreError::Storage,
            },
    {
        let txn = self.env.read_txn().map_err(|_| StoreError::Storage)?;
        let iter = self.meta.iter(&txn).map_err(|_| StoreError::Storage)?;
        let mut out = Vec::new();
        for entry in iter {
            let (k, v) = entry.map_err(|_| StoreError::Storage)?;
            out.push((k.to_owned(), v.to_owned()));
        }
        Ok(out)
    }

    /// Relies on heed::Database::iter in a read transaction: lists every
    /// pair of the legacy metadata table, or `None` where that generation is
    /// absent from disk.
    #[verifier::external_body]
    pub(crate) fn scan_legacy_meta(&self) -> (r: Result<Option<Vec<(String, String)>>, StoreError>)
        ensures
            match r {
                Ok(Some(v)) => legacy_meta_present(self) && lists_table(
                    v@,
                    legacy_meta_table(self),
                ),
                Ok(None) => !legacy_meta_present(self),
                Err(e) => e == StoreError::Storage,
            },
    {
        let db = match &self.legacy_meta {
            Some(d) => *d,
            None => return Ok(None),
        };
        let txn = self.env.read_txn().map_err(|_| StoreError::Storage)?;
        let iter = db.iter(&txn).map_err(|_| StoreError::Storage)?;
        let mut out = Vec::new();
        for entry in iter {
            let (k, v) = entry.map_err(|_| StoreError::Storage)?;
            out.push((k.to_owned(), v.to_owned()));
        }
        Ok(Some(out))
    }

    /// Relies on heed::Database::iter in a read transaction: lists every
    /// pair of the legacy body table, or `None` where that generation is
    /// absent from disk.
    #[verifier::external_body]
    pub(crate) fn scan_legacy_bodies(&self) -> (r: Result<
        Option<Vec<(String, String)>>,
        StoreError,
    >)
        ensures
            match r {
                Ok(Some(v)) => legacy_body_present(self) && lists_table(
                    v@,
                    legacy_body_table(self),
                ),
                Ok(None) => !legacy_body_present(self),
                Err(e) => e == StoreError::Storage,
            },
    {
        let db = match &self.legacy_bodies {
            Some(d) => *d,
            None => return Ok(None),
        };
        let txn = self.env.read_txn().map_err(|_| StoreError::Storage)?;
        let iter = db.iter(&txn).map_err(|_| StoreError::Storage)?;
        let mut out = Vec::new();
        for entry in iter {
            let (k, v) = entry.map_err(|_| StoreError::Storage)?;
            out.push((k.to_owned(), v.to_owned()));
        }
        Ok(Some(out))
    }
}

} // verus!
