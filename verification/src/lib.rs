//! A persistent prompt library: durable storage of user-authored text
//! snippets and their metadata, an in-memory metadata cache kept sorted for
//! listing and search, a legacy-schema migration that resolves conflicts by
//! recency, and a per-entry save coalescer that collapses bursts of edits
//! into a bounded-rate sequence of durable writes.
//!
//! Records are stored under the library's own self-describing text format
//! (see the metadata module): a store written under any other encoding is
//! not readable here. Search ranks by a deterministic policy of its own —
//! an ASCII-case-insensitive subsequence match in listing order — rather
//! than by an external matcher's scoring.

use vstd::prelude::*;

pub mod hex;
pub mod ids;
pub mod metadata;
pub mod norm;
pub mod cache;
pub mod errors;
pub mod db;
pub mod migration;
pub mod store;
pub mod search;
pub mod coalescer;
pub mod dupe;
pub mod display;

verus! {

} // verus!
