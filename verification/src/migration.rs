//! The one-per-open migration: folds the legacy on-disk generation (entries
//! keyed by a bare UUID) into the current tagged-identifier generation,
//! resolving conflicts by recency, and commits all of its writes at once.
//! It is safe to run on every open: with no legacy data it is a no-op, and
//! re-running it over already-folded data changes nothing.

use vstd::prelude::*;
use crate::ids::{PromptId, enc_id, lemma_enc_id_injective};
use crate::metadata::{
    PromptMetadata, MetaView, enc_meta, dec_meta, dec_legacy_meta, encode_meta, decode_meta,
    decode_legacy_meta, lemma_meta_round_trip,
};
use crate::cache::{str_eq, unique_ids};
use crate::search::rec_views;
use crate::db::{
    StoreDb, meta_table, body_table, legacy_meta_table, legacy_body_table, legacy_meta_present,
    legacy_body_present, legacy_unchanged, current_unchanged, lists_table, after_meta_writes,
    after_body_writes,
};
use crate::store::{cache_matches, entry_stored};
use crate::errors::StoreError;
use crate::hex::hex_enc;

verus! {

/// Recency-wins: a legacy record is folded forward when the current schema
/// has nothing for its identifier, or holds something strictly older.
pub open spec fn legacy_wins(cur: Option<MetaView>, legacy_ts: u64) -> bool {
    match cur {
        None => true,
        Some(c) => legacy_ts > c.saved_at,
    }
}

/// Whether one migration pass folds the legacy record for `id` forward: the
/// legacy generation must hold both its record and its body, and the record
/// must win by recency.
pub open spec fn folds(
    cur: Map<PromptId, MetaView>,
    leg: Map<PromptId, MetaView>,
    legb: Set<PromptId>,
    id: PromptId,
) -> bool {
    leg.dom().contains(id) && legb.contains(id) && legacy_wins(
        if cur.dom().contains(id) {
            Some(cur[id])
        } else {
            None
        },
        leg[id].saved_at,
    )
}

/// The current-generation records after one migration pass over the given
/// legacy records and bodies.
pub open spec fn spec_merge(
    cur: Map<PromptId, MetaView>,
    leg: Map<PromptId, MetaView>,
    legb: Set<PromptId>,
) -> Map<PromptId, MetaView> {
    Map::new(
        |id: PromptId| cur.dom().contains(id) || folds(cur, leg, legb, id),
        |id: PromptId|
            if folds(cur, leg, legb, id) {
                leg[id]
            } else {
                cur[id]
            },
    )
}

/// Running the merge twice over the same legacy data yields the state one
/// run yields: after the first pass, nothing that remains to fold is
/// strictly newer than what the current generation holds.
pub proof fn lemma_merge_idempotent(
    cur: Map<PromptId, MetaView>,
    leg: Map<PromptId, MetaView>,
    legb: Set<PromptId>,
)
    ensures
        spec_merge(spec_merge(cur, leg, legb), leg, legb) == spec_merge(cur, leg, legb),
{
    let m1 = spec_merge(cur, leg, legb);
    let m2 = spec_merge(m1, leg, legb);
    assert forall|id: PromptId| #[trigger] m1.dom().contains(id)
        implies !folds(m1, leg, legb, id) by {
        if folds(cur, leg, legb, id) {
            assert(m1[id] == leg[id]);
        }
    }
    assert forall|id: PromptId| !m1.dom().contains(id)
        implies !folds(m1, leg, legb, id) by {
        assert(!folds(cur, leg, legb, id));
    }
    assert(m2 =~= m1);
}

/// Recency-wins, stated of one identifier present on both sides: a strictly
/// newer legacy record overwrites the current one, anything else leaves the
/// current record untouched.
pub proof fn lemma_merge_recency(
    cur: Map<PromptId, MetaView>,
    leg: Map<PromptId, MetaView>,
    legb: Set<PromptId>,
    id: PromptId,
)
    requires
        cur.dom().contains(id),
        leg.dom().contains(id),
        legb.contains(id),
    ensures
        leg[id].saved_at > cur[id].saved_at ==> spec_merge(cur, leg, legb)[id] == leg[id],
        leg[id].saved_at <= cur[id].saved_at ==> spec_merge(cur, leg, legb)[id] == cur[id],
{
}

/// With no legacy data at all, the merge is a no-op.
pub proof fn lemma_merge_empty(cur: Map<PromptId, MetaView>, legb: Set<PromptId>)
    ensures
        spec_merge(cur, Map::empty(), legb) == cur,
{
    assert(spec_merge(cur, Map::empty(), legb) =~= cur);
}

/// The record the current listing holds for `id`, if any.
pub open spec fn seq_lookup(c: Seq<MetaView>, id: PromptId) -> Option<MetaView> {
    if exists|i: int| 0 <= i < c.len() && (#[trigger] c[i]).id == id {
        Some(c[choose|i: int| 0 <= i < c.len() && (#[trigger] c[i]).id == id])
    } else {
        None
    }
}

proof fn lemma_seq_lookup_at(c: Seq<MetaView>, id: PromptId, i: int)
    requires
        unique_ids(c),
        0 <= i < c.len(),
        c[i].id == id,
    ensures
        seq_lookup(c, id) == Some(c[i]),
{
    let ch = choose|k: int| 0 <= k < c.len() && (#[trigger] c[k]).id == id;
    if ch < i {
        assert(c[ch].id != c[i].id);
    } else if ch > i {
        assert(c[i].id != c[ch].id);
    }
}

/// Whether some legacy body sits under this key.
pub open spec fn has_body(legb: Seq<(String, String)>, key: Seq<char>) -> bool {
    exists|b: int| 0 <= b < legb.len() && (#[trigger] legb[b]).0@ == key
}

/// The legacy body under this key.
pub open spec fn body_of(legb: Seq<(String, String)>, key: Seq<char>) -> Seq<char> {
    legb[choose|b: int| 0 <= b < legb.len() && (#[trigger] legb[b]).0@ == key].1@
}

/// Whether the `j`-th legacy record folds forward: it decodes, its body is
/// there, and it wins by recency over what the current listing holds.
pub open spec fn folds_forward(
    leg: Seq<(String, String)>,
    legb: Seq<(String, String)>,
    cur: Seq<MetaView>,
    j: int,
) -> bool {
    let d = dec_legacy_meta(leg[j].1@);
    d is Some && has_body(legb, leg[j].0@) && legacy_wins(
        seq_lookup(cur, d.unwrap().id),
        d.unwrap().saved_at,
    )
}

/// One planned write: the encoded record and the body of a legacy entry
/// that folds forward.
#[verifier::opaque]
pub open spec fn planned_write_ok(
    w: (String, String, String),
    leg: Seq<(String, String)>,
    legb: Seq<(String, String)>,
    cur: Seq<MetaView>,
) -> bool {
    exists|j: int|
        0 <= j < leg.len() && #[trigger] folds_forward(leg, legb, cur, j) && w.0@ == enc_id(
            dec_legacy_meta(leg[j].1@).unwrap().id,
        ) && w.1@ == enc_meta(dec_legacy_meta(leg[j].1@).unwrap()) && w.2@ == body_of(
            legb,
            leg[j].0@,
        )
}

/// The recency decision, computed.
fn wins(cur: Option<&PromptMetadata>, legacy_ts: u64) -> (r: bool)
    ensures
        r == legacy_wins(
            match cur {
                Some(c) => Some(c@),
                None => None,
            },
            legacy_ts,
        ),
{
    match cur {
        None => true,
        Some(c) => legacy_ts > c.saved_at,
    }
}

/// The first position whose key holds exactly these characters.
fn find_pair_index(v: &Vec<(String, String)>, key: &str) -> (r: Option<usize>)
    ensures
        match r {
            Some(i) => i < v@.len() && v@[i as int].0@ == key@,
            None => forall|i: int| 0 <= i < v@.len() ==> (#[trigger] v@[i]).0@ != key@,
        },
{
    let n = v.len();
    let mut i: usize = 0;
    while i < n
        invariant
            i <= n,
            n == v@.len(),
            forall|j: int| 0 <= j < i ==> (#[trigger] v@[j]).0@ != key@,
        decreases n - i,
    {
        if str_eq(v[i].0.as_str(), key) {
            return Some(i);
        }
        i += 1;
    }
    None
}

/// The first position whose record bears this identifier.
fn find_record_index(v: &Vec<PromptMetadata>, id: PromptId) -> (r: Option<usize>)
    ensures
        match r {
            Some(i) => i < v@.len() && rec_views(v@)[i as int].id == id,
            None => forall|i: int|
                0 <= i < rec_views(v@).len() ==> rec_views(v@)[i].id != id,
        },
{
    let n = v.len();
    let mut i: usize = 0;
    while i < n
        invariant
            i <= n,
            n == v@.len(),
            forall|j: int| 0 <= j < i ==> rec_views(v@)[j].id != id,
        decreases n - i,
    {
        if v[i].id == id {
            return Some(i);
        }
        i += 1;
    }
    None
}

proof fn lemma_new_write_ok(
    leg: Seq<(String, String)>,
    legb: Seq<(String, String)>,
    cur: Seq<MetaView>,
    li: int,
    w: (String, String, String),
    b: int,
)
    requires
        0 <= li < leg.len(),
        dec_legacy_meta(leg[li].1@) is Some,
        w.0@ == enc_id(dec_legacy_meta(leg[li].1@).unwrap().id),
        w.1@ == enc_meta(dec_legacy_meta(leg[li].1@).unwrap()),
        0 <= b < legb.len(),
        legb[b].0@ == leg[li].0@,
        w.2@ == legb[b].1@,
        forall|a1: int, b1: int|
            0 <= a1 < b1 < legb.len() ==> (#[trigger] legb[a1]).0@ != (#[trigger] legb[b1]).0@,
        legacy_wins(
            seq_lookup(cur, dec_legacy_meta(leg[li].1@).unwrap().id),
            dec_legacy_meta(leg[li].1@).unwrap().saved_at,
        ),
    ensures
        planned_write_ok(w, leg, legb, cur),
        folds_forward(leg, legb, cur, li),
{
    reveal(planned_write_ok);
    assert(has_body(legb, leg[li].0@)) by {
        assert(legb[b].0@ == leg[li].0@);
    }
    assert(body_of(legb, leg[li].0@) == legb[b].1@) by {
        let ch = choose|c: int| 0 <= c < legb.len() && (#[trigger] legb[c]).0@ == leg[li].0@;
        if ch < b {
            assert(legb[ch].0@ != legb[b].0@);
        } else if ch > b {
            assert(legb[b].0@ != legb[ch].0@);
        }
    }
    assert(folds_forward(leg, legb, cur, li));
}

proof fn lemma_writes_push_sound(
    pre: Seq<(String, String, String)>,
    w: (String, String, String),
    leg: Seq<(String, String)>,
    legb: Seq<(String, String)>,
    cur: Seq<MetaView>,
)
    requires
        forall|i: int| 0 <= i < pre.len() ==> planned_write_ok(#[trigger] pre[i], leg, legb, cur),
        planned_write_ok(w, leg, legb, cur),
    ensures
        forall|i: int|
            0 <= i < pre.push(w).len() ==> planned_write_ok(
                #[trigger] pre.push(w)[i],
                leg,
                legb,
                cur,
            ),
{
    assert forall|i: int| 0 <= i < pre.push(w).len() implies planned_write_ok(
        #[trigger] pre.push(w)[i],
        leg,
        legb,
        cur,
    ) by {
        if i < pre.len() {
            assert(pre.push(w)[i] == pre[i]);
        } else {
            assert(pre.push(w)[i] == w);
        }
    }
}

proof fn lemma_writes_push_complete(
    pre: Seq<(String, String, String)>,
    w: (String, String, String),
    leg: Seq<(String, String)>,
    legb: Seq<(String, String)>,
    cur: Seq<MetaView>,
    li: int,
)
    requires
        forall|j: int|
            0 <= j < li && folds_forward(leg, legb, cur, j) ==> exists|i: int|
                0 <= i < pre.len() && (#[trigger] pre[i]).0@ == enc_id(
                    dec_legacy_meta(leg[j].1@).unwrap().id,
                ),
        0 <= li < leg.len(),
        w.0@ == enc_id(dec_legacy_meta(leg[li].1@).unwrap().id),
    ensures
        forall|j: int|
            0 <= j < li + 1 && folds_forward(leg, legb, cur, j) ==> exists|i: int|
                0 <= i < pre.push(w).len() && (#[trigger] pre.push(w)[i]).0@ == enc_id(
                    dec_legacy_meta(leg[j].1@).unwrap().id,
                ),
{
    assert forall|j: int|
        0 <= j < li + 1 && folds_forward(leg, legb, cur, j) implies exists|i: int|
            0 <= i < pre.push(w).len() && (#[trigger] pre.push(w)[i]).0@ == enc_id(
                dec_legacy_meta(leg[j].1@).unwrap().id,
            ) by {
        if j < li {
            let i0 = choose|i: int|
                0 <= i < pre.len() && (#[trigger] pre[i]).0@ == enc_id(
                    dec_legacy_meta(leg[j].1@).unwrap().id,
                );
            assert(pre.push(w)[i0] == pre[i0]);
        } else {
            assert(pre.push(w)[pre.len() as int] == w);
        }
    }
}

/// The bare legacy key of an identifier: a user entry's UUID as 32 hex
/// digits. Only user entries exist in the legacy generation.
pub open spec fn bare_of(id: PromptId) -> Seq<char> {
    match id {
        PromptId::User { uuid } => crate::hex::hex_of(uuid as int, 32),
        PromptId::EditWorkflow => Seq::empty(),
    }
}

/// A well-formed legacy listing: every record decodes, and sits under the
/// bare rendering of its own identifier.
pub open spec fn legacy_listing_ok(leg: Seq<(String, String)>) -> bool {
    forall|j: int| 0 <= j < leg.len() ==> {
        let d = dec_legacy_meta((#[trigger] leg[j]).1@);
        d is Some && leg[j].0@ == bare_of(d.unwrap().id)
    }
}

/// No two writes share a key.
pub open spec fn writes_distinct(ws: Seq<(String, String, String)>) -> bool {
    forall|a: int, b: int| 0 <= a < b < ws.len()
        ==> (#[trigger] ws[a]).0@ != (#[trigger] ws[b]).0@
}

/// A correct plan: each write comes from a legacy record that folds
/// forward, and every legacy record that folds forward is written.
pub open spec fn plan_ok(
    ws: Seq<(String, String, String)>,
    leg: Seq<(String, String)>,
    legb: Seq<(String, String)>,
    cur: Seq<MetaView>,
) -> bool {
    (forall|i: int| 0 <= i < ws.len() ==> planned_write_ok(#[trigger] ws[i], leg, legb, cur))
    && (forall|j: int|
        0 <= j < leg.len() && folds_forward(leg, legb, cur, j) ==> exists|i: int|
            0 <= i < ws.len() && (#[trigger] ws[i]).0@ == enc_id(
                dec_legacy_meta(leg[j].1@).unwrap().id,
            ))
}

/// Plans one migration pass: exactly the legacy records that fold forward
/// become writes, each carrying its encoded record and its body. Rejects,
/// without planning anything, legacy records that do not decode or whose
/// key is not the bare rendering of their own identifier.
#[verifier::rlimit(100)]
#[verifier::spinoff_prover]
pub fn plan_migration(
    leg: &Vec<(String, String)>,
    legb: &Vec<(String, String)>,
    current: &Vec<PromptMetadata>,
) -> (r: Result<Vec<(String, String, String)>, StoreError>)
    requires
        unique_ids(rec_views(current@)),
        forall|a: int, b: int|
            0 <= a < b < leg@.len() ==> (#[trigger] leg@[a]).0@ != (#[trigger] leg@[b]).0@,
        forall|a: int, b: int|
            0 <= a < b < legb@.len() ==> (#[trigger] legb@[a]).0@ != (#[trigger] legb@[b]).0@,
    ensures
        match r {
            Ok(ws) => plan_ok(ws@, leg@, legb@, rec_views(current@)) && writes_distinct(ws@)
                && legacy_listing_ok(leg@),
            Err(e) => e == StoreError::Storage,
        },
        legacy_listing_ok(leg@) ==> r is Ok,
{
    let mut writes: Vec<(String, String, String)> = Vec::new();
    let nl = leg.len();
    let mut li: usize = 0;
    while li < nl
        invariant
            li <= nl,
            nl == leg@.len(),
            unique_ids(rec_views(current@)),
            forall|a: int, b: int|
                0 <= a < b < leg@.len() ==> (#[trigger] leg@[a]).0@ != (#[trigger] leg@[b]).0@,
            forall|a: int, b: int|
                0 <= a < b < legb@.len() ==> (#[trigger] legb@[a]).0@ != (#[trigger] legb@[b]).0@,
            forall|i: int| 0 <= i < writes@.len() ==> planned_write_ok(
                #[trigger] writes@[i],
                leg@,
                legb@,
                rec_views(current@),
            ),
            forall|j: int|
                0 <= j < li && folds_forward(leg@, legb@, rec_views(current@), j) ==> exists|i: int|
                    0 <= i < writes@.len() && (#[trigger] writes@[i]).0@ == enc_id(
                        dec_legacy_meta(leg@[j].1@).unwrap().id,
                    ),
            forall|j: int| 0 <= j < li ==> {
                let d = dec_legacy_meta((#[trigger] leg@[j]).1@);
                d is Some && leg@[j].0@ == bare_of(d.unwrap().id)
            },
            forall|i: int| 0 <= i < writes@.len() ==> exists|j: int|
                0 <= j < li && (#[trigger] writes@[i]).0@ == enc_id(
                    dec_legacy_meta(leg@[j].1@).unwrap().id,
                ),
            writes_distinct(writes@),
        decreases nl - li,
    {
        let lm = match decode_legacy_meta(leg[li].1.as_str()) {
            Some(m) => m,
            None => {
                proof {
                    if legacy_listing_ok(leg@) {
                        assert(dec_legacy_meta((#[trigger] leg@[li as int]).1@) is Some);
                        assert(false);
                    }
                }
                return Err(StoreError::Storage);
            },
        };
        // The legacy key must be the bare rendering of the record's own
        // identifier. A record that decodes always bears a user identifier,
        // so the second arm is unreachable.
        let bare = match lm.id {
            PromptId::User { uuid } => hex_enc(uuid, 32),
            PromptId::EditWorkflow => {
                proof {
                    assert(dec_legacy_meta(leg@[li as int].1@) == Some(lm@));
                    assert(lm@.id is User);
                    assert(false);
                }
                return Err(StoreError::Storage);
            },
        };
        if !str_eq(bare.as_str(), leg[li].0.as_str()) {
            proof {
                if legacy_listing_ok(leg@) {
                    assert(dec_legacy_meta((#[trigger] leg@[li as int]).1@) is Some);
                    assert(leg@[li as int].0@ == bare_of(lm@.id));
                    assert(false);
                }
            }
            return Err(StoreError::Storage);
        }
        proof {
            assert(leg@[li as int].0@ == bare_of(lm@.id));
        }
        match find_pair_index(legb, bare.as_str()) {
            None => {
                proof {
                    assert(!has_body(legb@, leg@[li as int].0@));
                    assert(!folds_forward(leg@, legb@, rec_views(current@), li as int));
                }
            },
            Some(bix) => {
                let folded = match find_record_index(current, lm.id) {
                    Some(cix) => {
                        proof {
                            lemma_seq_lookup_at(rec_views(current@), lm@.id, cix as int);
                            assert(current@[cix as int]@ == rec_views(current@)[cix as int]);
                        }
                        wins(Some(&current[cix]), lm.saved_at)
                    },
                    None => {
                        proof {
                            assert(seq_lookup(rec_views(current@), lm@.id) is None);
                        }
                        wins(None, lm.saved_at)
                    },
                };
                if folded {
                    let key = lm.id.encode();
                    let rec = encode_meta(&lm);
                    let body = legb[bix].1.clone();
                    let ghost pre = writes@;
                    writes.push((key, rec, body));
                    proof {
                        let wexec = (writes@[pre.len() as int]);
                        lemma_new_write_ok(
                            leg@,
                            legb@,
                            rec_views(current@),
                            li as int,
                            wexec,
                            bix as int,
                        );
                        lemma_writes_push_sound(pre, wexec, leg@, legb@, rec_views(current@));
                        lemma_writes_push_complete(
                            pre,
                            wexec,
                            leg@,
                            legb@,
                            rec_views(current@),
                            li as int,
                        );
                        assert(writes@ =~= pre.push(wexec));
                        assert(wexec.0@ == enc_id(
                            dec_legacy_meta(leg@[li as int].1@).unwrap().id,
                        ));
                        assert forall|i: int| 0 <= i < writes@.len() implies exists|j: int|
                            0 <= j < li + 1 && (#[trigger] writes@[i]).0@ == enc_id(
                                dec_legacy_meta(leg@[j].1@).unwrap().id,
                            ) by {
                            if i < pre.len() {
                                assert(writes@[i] == pre[i]);
                            } else {
                                assert(writes@[i].0@ == enc_id(
                                    dec_legacy_meta(leg@[li as int].1@).unwrap().id,
                                ));
                            }
                        }
                        assert(writes_distinct(writes@)) by {
                            assert forall|a: int, b: int| 0 <= a < b < writes@.len()
                                implies (#[trigger] writes@[a]).0@ != (
                            #[trigger] writes@[b]).0@ by {
                                if b < pre.len() {
                                    assert(writes@[a] == pre[a] && writes@[b] == pre[b]);
                                } else {
                                    assert(writes@[a] == pre[a]);
                                    let ja = choose|j: int|
                                        0 <= j < li && (#[trigger] pre[a]).0@ == enc_id(
                                            dec_legacy_meta(leg@[j].1@).unwrap().id,
                                        );
                                    let da = dec_legacy_meta(leg@[ja].1@).unwrap();
                                    if enc_id(da.id) == enc_id(lm@.id) {
                                        lemma_enc_id_injective(da.id, lm@.id);
                                        assert(leg@[ja].0@ == bare_of(da.id));
                                        assert(leg@[ja].0@ == leg@[li as int].0@);
                                        assert(false);
                                    }
                                }
                            }
                        }
                    }
                } else {
                    proof {
                        assert(!folds_forward(leg@, legb@, rec_views(current@), li as int));
                    }
                }
            },
        }
        li += 1;
    }
    proof {
        assert(plan_ok(writes@, leg@, legb@, rec_views(current@)));
    }
    Ok(writes)
}

/// Every planned write carries a user-entry key.
proof fn lemma_planned_writes_are_user_keys(
    ws: Seq<(String, String, String)>,
    leg: Seq<(String, String)>,
    legb: Seq<(String, String)>,
    cur: Seq<MetaView>,
)
    requires
        forall|i: int| 0 <= i < ws.len() ==> planned_write_ok(#[trigger] ws[i], leg, legb, cur),
    ensures
        forall|i: int| 0 <= i < ws.len() ==> (#[trigger] ws[i]).0@ != enc_id(
            PromptId::EditWorkflow,
        ),
{
    reveal(planned_write_ok);
    assert forall|i: int| 0 <= i < ws.len() implies (#[trigger] ws[i]).0@ != enc_id(
        PromptId::EditWorkflow,
    ) by {
        let j = choose|j: int|
            0 <= j < leg.len() && #[trigger] folds_forward(leg, legb, cur, j) && ws[i].0@
                == enc_id(dec_legacy_meta(leg[j].1@).unwrap().id) && ws[i].1@ == enc_meta(
                dec_legacy_meta(leg[j].1@).unwrap(),
            ) && ws[i].2@ == body_of(legb, leg[j].0@);
        let d = dec_legacy_meta(leg[j].1@).unwrap();
        assert(d.id is User);
        if enc_id(d.id) == enc_id(PromptId::EditWorkflow) {
            lemma_enc_id_injective(d.id, PromptId::EditWorkflow);
        }
    }
}

/// Decodes a scanned metadata table, checking each record against its key;
/// distinct keys then force one record per identifier.
fn decode_current(pairs: &Vec<(String, String)>) -> (r: Result<Vec<PromptMetadata>, StoreError>)
    requires
        forall|a: int, b: int|
            0 <= a < b < pairs@.len() ==> (#[trigger] pairs@[a]).0@ != (#[trigger] pairs@[b]).0@,
    ensures
        match r {
            Ok(v) => v@.len() == pairs@.len() && unique_ids(rec_views(v@)) && (forall|j: int|
                0 <= j < pairs@.len() ==> enc_id(rec_views(v@)[j].id) == (#[trigger] pairs@[j]).0@
                    && dec_meta(pairs@[j].1@) == Some(rec_views(v@)[j])),
            Err(e) => e == StoreError::Storage,
        },
{
    let mut out: Vec<PromptMetadata> = Vec::new();
    let nc = pairs.len();
    let mut ci: usize = 0;
    while ci < nc
        invariant
            ci <= nc,
            nc == pairs@.len(),
            out@.len() == ci,
            forall|a: int, b: int|
                0 <= a < b < pairs@.len() ==> (#[trigger] pairs@[a]).0@ != (
                #[trigger] pairs@[b]).0@,
            forall|j: int| 0 <= j < ci ==> enc_id(rec_views(out@)[j].id)
                == (#[trigger] pairs@[j]).0@ && dec_meta(pairs@[j].1@) == Some(
                rec_views(out@)[j],
            ),
        decreases nc - ci,
    {
        let m = match decode_meta(pairs[ci].1.as_str()) {
            Some(m) => m,
            None => {
                return Err(StoreError::Storage);
            },
        };
        let k2 = m.id.encode();
        if !str_eq(k2.as_str(), pairs[ci].0.as_str()) {
            return Err(StoreError::Storage);
        }
        let ghost pre = out@;
        out.push(m);
        proof {
            assert forall|j: int| 0 <= j < ci + 1 implies enc_id(rec_views(out@)[j].id)
                == (#[trigger] pairs@[j]).0@ && dec_meta(pairs@[j].1@) == Some(
                rec_views(out@)[j],
            ) by {
                if j < ci {
                    assert(rec_views(out@)[j] == rec_views(pre)[j]);
                }
            }
        }
        ci += 1;
    }
    proof {
        assert forall|a: int, b: int| 0 <= a < b < rec_views(out@).len()
            implies (#[trigger] rec_views(out@)[a]).id != (#[trigger] rec_views(out@)[b]).id by {
            if rec_views(out@)[a].id == rec_views(out@)[b].id {
                assert(pairs@[a].0@ == pairs@[b].0@);
            }
        }
    }
    Ok(out)
}

/// A batch leaves untouched keys exactly as they were.
proof fn lemma_writes_keep_other_keys(
    m: Map<Seq<char>, Seq<char>>,
    es: Seq<(String, String, String)>,
    k: Seq<char>,
)
    requires
        forall|i: int| 0 <= i < es.len() ==> (#[trigger] es[i]).0@ != k,
    ensures
        after_meta_writes(m, es).dom().contains(k) == m.dom().contains(k),
        after_body_writes(m, es).dom().contains(k) == m.dom().contains(k),
        m.dom().contains(k) ==> after_meta_writes(m, es)[k] == m[k],
        m.dom().contains(k) ==> after_body_writes(m, es)[k] == m[k],
    decreases es.len(),
{
    if es.len() > 0 {
        assert(es.drop_last().len() == es.len() - 1);
        assert forall|i: int| 0 <= i < es.drop_last().len()
            implies (#[trigger] es.drop_last()[i]).0@ != k by {
            assert(es.drop_last()[i] == es[i]);
        }
        lemma_writes_keep_other_keys(m, es.drop_last(), k);
        assert(es.last() == es[es.len() - 1]);
    }
}

/// What one completed migration pass did: for the exact contents of the
/// legacy generation and of the current metadata table before the pass,
/// the current tables afterwards hold the writes of a correct plan over
/// them, all applied at once.
pub open spec fn migration_effect(
    pre: StoreDb,
    post: StoreDb,
    ws: Seq<(String, String, String)>,
    leg: Seq<(String, String)>,
    legb: Seq<(String, String)>,
    cur: Seq<MetaView>,
) -> bool {
    lists_table(leg, legacy_meta_table(&pre)) && lists_table(legb, legacy_body_table(&pre))
        && cache_matches(cur, meta_table(&pre)) && unique_ids(cur) && plan_ok(ws, leg, legb, cur)
        && writes_distinct(ws) && legacy_listing_ok(leg) && meta_table(&post)
        == after_meta_writes(meta_table(&pre), ws) && body_table(&post) == after_body_writes(
        body_table(&pre),
        ws,
    )
}

/// Folds the legacy generation into the current one: scans both
/// generations, plans the recency-wins merge, and commits every planned
/// write in one transaction. Returns `Ok(false)` when no legacy generation
/// exists on disk; decode failures and engine failures surface as errors
/// and leave the current tables unwritten.
pub fn migrate(db: &mut StoreDb) -> (r: Result<bool, StoreError>)
    ensures
        legacy_unchanged(old(db), final(db)),
        !meta_table(&*old(db)).dom().contains(enc_id(PromptId::EditWorkflow))
            ==> !meta_table(&*final(db)).dom().contains(enc_id(PromptId::EditWorkflow)),
        !body_table(&*old(db)).dom().contains(enc_id(PromptId::EditWorkflow))
            ==> !body_table(&*final(db)).dom().contains(enc_id(PromptId::EditWorkflow)),
        match r {
            Ok(folded) => (folded ==> exists|
                ws: Seq<(String, String, String)>,
                leg: Seq<(String, String)>,
                legb: Seq<(String, String)>,
                cur: Seq<MetaView>,
            | migration_effect(*old(db), *final(db), ws, leg, legb, cur)) && (!folded
                ==> current_unchanged(old(db), final(db)) && (!legacy_meta_present(&*old(db))
                    || !legacy_body_present(&*old(db)))),
            Err(_) => current_unchanged(old(db), final(db)),
        },
{
    let legacy_meta_pairs = match db.scan_legacy_meta() {
        Ok(Some(v)) => v,
        Ok(None) => {
            return Ok(false);
        },
        Err(e) => {
            return Err(e);
        },
    };
    let legacy_body_pairs = match db.scan_legacy_bodies() {
        Ok(Some(v)) => v,
        Ok(None) => {
            return Ok(false);
        },
        Err(e) => {
            return Err(e);
        },
    };
    let current_pairs = match db.scan_meta() {
        Ok(v) => v,
        Err(e) => {
            return Err(e);
        },
    };
    // Decode the current generation's records, each checked against its key.
    let current = match decode_current(&current_pairs) {
        Ok(v) => v,
        Err(e) => {
            return Err(e);
        },
    };
    // Plan the recency-wins merge and commit it at once.
    let writes = match plan_migration(&legacy_meta_pairs, &legacy_body_pairs, &current) {
        Ok(w) => w,
        Err(e) => {
            return Err(e);
        },
    };
    proof {
        lemma_planned_writes_are_user_keys(
            writes@,
            legacy_meta_pairs@,
            legacy_body_pairs@,
            rec_views(current@),
        );
    }
    let ghost ws = writes@;
    let ghost pre_meta = meta_table(&*db);
    let ghost pre_body = body_table(&*db);
    let ghost pre_db = *db;
    match db.put_pairs(&writes) {
        Ok(()) => {
            proof {
                lemma_writes_keep_other_keys(pre_meta, ws, enc_id(PromptId::EditWorkflow));
                lemma_writes_keep_other_keys(pre_body, ws, enc_id(PromptId::EditWorkflow));
                assert(cache_matches(rec_views(current@), meta_table(&pre_db))) by {
                    assert forall|k: Seq<char>| #[trigger] meta_table(
                        &pre_db,
                    ).dom().contains(k) implies exists|i: int|
                        0 <= i < rec_views(current@).len() && #[trigger] enc_id(
                            rec_views(current@)[i].id,
                        ) == k by {
                        let j = choose|j: int|
                            0 <= j < current_pairs@.len() && (#[trigger] current_pairs@[j]).0@
                                == k;
                        assert(enc_id(rec_views(current@)[j].id) == k);
                    }
                    assert forall|i: int| 0 <= i < rec_views(current@).len() implies entry_stored(
                        meta_table(&pre_db),
                        #[trigger] rec_views(current@)[i],
                    ) by {
                        assert(meta_table(&pre_db)[current_pairs@[i].0@]
                            == current_pairs@[i].1@);
                    }
                }
                assert(migration_effect(
                    pre_db,
                    *db,
                    ws,
                    legacy_meta_pairs@,
                    legacy_body_pairs@,
                    rec_views(current@),
                ));
            }
            Ok(true)
        },
        Err(e) => Err(e),
    }
}

/// Each write of a batch with distinct keys lands: afterwards its key holds
/// its record and its body.
proof fn lemma_after_writes_at(
    m: Map<Seq<char>, Seq<char>>,
    b: Map<Seq<char>, Seq<char>>,
    es: Seq<(String, String, String)>,
    i: int,
)
    requires
        writes_distinct(es),
        0 <= i < es.len(),
    ensures
        after_meta_writes(m, es).dom().contains(es[i].0@),
        after_meta_writes(m, es)[es[i].0@] == es[i].1@,
        after_body_writes(b, es).dom().contains(es[i].0@),
        after_body_writes(b, es)[es[i].0@] == es[i].2@,
    decreases es.len(),
{
    assert(es.last() == es[es.len() - 1]);
    if i == es.len() - 1 {
    } else {
        assert(es.drop_last().len() == es.len() - 1);
        assert(writes_distinct(es.drop_last())) by {
            assert forall|a1: int, b1: int| 0 <= a1 < b1 < es.drop_last().len()
                implies (#[trigger] es.drop_last()[a1]).0@ != (
            #[trigger] es.drop_last()[b1]).0@ by {
                assert(es.drop_last()[a1] == es[a1] && es.drop_last()[b1] == es[b1]);
            }
        }
        assert(es.drop_last()[i] == es[i]);
        lemma_after_writes_at(m, b, es.drop_last(), i);
        assert(es[i].0@ != es[es.len() - 1].0@);
    }
}

/// The records a metadata table holds, by identifier: the entries whose
/// value decodes to a record bearing the identifier of its own key.
pub open spec fn table_records(t: Map<Seq<char>, Seq<char>>) -> Map<PromptId, MetaView> {
    Map::new(
        |id: PromptId| t.dom().contains(enc_id(id)) && dec_meta(t[enc_id(id)]) is Some
            && dec_meta(t[enc_id(id)]).unwrap().id == id,
        |id: PromptId| dec_meta(t[enc_id(id)]).unwrap(),
    )
}

/// The `j`-th legacy entry decodes to a record for `id`.
pub open spec fn is_legacy_rec(leg: Seq<(String, String)>, j: int, id: PromptId) -> bool {
    0 <= j < leg.len() && dec_legacy_meta(leg[j].1@) is Some && dec_legacy_meta(
        leg[j].1@,
    ).unwrap().id == id
}

/// The decoded legacy records, by identifier.
pub open spec fn legacy_map(leg: Seq<(String, String)>) -> Map<PromptId, MetaView> {
    Map::new(
        |id: PromptId| exists|j: int| #[trigger] is_legacy_rec(leg, j, id),
        |id: PromptId| dec_legacy_meta(
            leg[choose|j: int| #[trigger] is_legacy_rec(leg, j, id)].1@,
        ).unwrap(),
    )
}

/// The identifiers whose legacy body is on disk.
pub open spec fn legacy_body_ids(legb: Seq<(String, String)>) -> Set<PromptId> {
    Set::new(|id: PromptId| id is User && has_body(legb, bare_of(id)))
}

/// In a well-formed legacy listing, one identifier has one entry.
proof fn lemma_legacy_rec_unique(
    leg: Seq<(String, String)>,
    j1: int,
    j2: int,
    id: PromptId,
)
    requires
        legacy_listing_ok(leg),
        forall|a: int, b: int|
            0 <= a < b < leg.len() ==> (#[trigger] leg[a]).0@ != (#[trigger] leg[b]).0@,
        is_legacy_rec(leg, j1, id),
        is_legacy_rec(leg, j2, id),
    ensures
        j1 == j2,
{
    assert(leg[j1].0@ == bare_of(id));
    assert(leg[j2].0@ == bare_of(id));
    if j1 < j2 {
        assert(leg[j1].0@ != leg[j2].0@);
    } else if j2 < j1 {
        assert(leg[j2].0@ != leg[j1].0@);
    }
}

/// A synchronized listing and its table hold the same records: a lookup in
/// the listing is a lookup among the table's records.
proof fn lemma_cur_table(cur: Seq<MetaView>, t0: Map<Seq<char>, Seq<char>>, id: PromptId)
    requires
        cache_matches(cur, t0),
        unique_ids(cur),
    ensures
        table_records(t0).dom().contains(id) == (seq_lookup(cur, id) is Some),
        seq_lookup(cur, id) is Some ==> table_records(t0)[id] == seq_lookup(cur, id).unwrap(),
{
    if exists|i: int| 0 <= i < cur.len() && (#[trigger] cur[i]).id == id {
        let ci = choose|i: int| 0 <= i < cur.len() && (#[trigger] cur[i]).id == id;
        lemma_seq_lookup_at(cur, id, ci);
        assert(entry_stored(t0, cur[ci]));
    } else {
        assert(seq_lookup(cur, id) is None);
        if table_records(t0).dom().contains(id) {
            assert(t0.dom().contains(enc_id(id)));
            let ci = choose|i: int|
                0 <= i < cur.len() && #[trigger] enc_id(cur[i].id) == enc_id(id);
            if enc_id(cur[ci].id) == enc_id(id) {
                lemma_enc_id_injective(cur[ci].id, id);
            }
            assert(false);
        }
    }
}

/// Applying a correct plan is the recency-wins merge: the records of the
/// current metadata table afterwards are exactly the merge of its records
/// before with the decoded legacy generation. With `lemma_merge_idempotent`
/// this also makes a second migration pass over the same legacy data a
/// no-op, and with `lemma_merge_recency` it pins which record survives a
/// conflict.
pub proof fn lemma_plan_realizes_merge(
    ws: Seq<(String, String, String)>,
    leg: Seq<(String, String)>,
    legb: Seq<(String, String)>,
    cur: Seq<MetaView>,
    t0: Map<Seq<char>, Seq<char>>,
)
    requires
        plan_ok(ws, leg, legb, cur),
        writes_distinct(ws),
        legacy_listing_ok(leg),
        forall|a: int, b: int|
            0 <= a < b < leg.len() ==> (#[trigger] leg[a]).0@ != (#[trigger] leg[b]).0@,
        cache_matches(cur, t0),
        unique_ids(cur),
    ensures
        table_records(after_meta_writes(t0, ws)) == spec_merge(
            table_records(t0),
            legacy_map(leg),
            legacy_body_ids(legb),
        ),
{
    let t1 = after_meta_writes(t0, ws);
    let lhs = table_records(t1);
    let tr0 = table_records(t0);
    let lmap = legacy_map(leg);
    let lbids = legacy_body_ids(legb);
    let rhs = spec_merge(tr0, lmap, lbids);
    assert forall|id: PromptId|
        #[trigger] lhs.dom().contains(id) == rhs.dom().contains(id) && (lhs.dom().contains(id)
            ==> lhs[id] == rhs[id]) by {
        lemma_cur_table(cur, t0, id);
        if exists|i: int| 0 <= i < ws.len() && (#[trigger] ws[i]).0@ == enc_id(id) {
            let i = choose|i: int| 0 <= i < ws.len() && (#[trigger] ws[i]).0@ == enc_id(id);
            reveal(planned_write_ok);
            assert(planned_write_ok(ws[i], leg, legb, cur));
            let j = choose|j: int|
                0 <= j < leg.len() && #[trigger] folds_forward(leg, legb, cur, j) && ws[i].0@
                    == enc_id(dec_legacy_meta(leg[j].1@).unwrap().id) && ws[i].1@ == enc_meta(
                    dec_legacy_meta(leg[j].1@).unwrap(),
                ) && ws[i].2@ == body_of(legb, leg[j].0@);
            let d = dec_legacy_meta(leg[j].1@).unwrap();
            if enc_id(d.id) == enc_id(id) {
                lemma_enc_id_injective(d.id, id);
            }
            assert(d.id == id);
            lemma_after_writes_at(t0, t0, ws, i);
            lemma_meta_round_trip(d);
            assert(t1[enc_id(id)] == enc_meta(d));
            assert(lhs.dom().contains(id) && lhs[id] == d);
            assert(is_legacy_rec(leg, j, id));
            assert(lmap.dom().contains(id));
            let jc = choose|j2: int| #[trigger] is_legacy_rec(leg, j2, id);
            lemma_legacy_rec_unique(leg, jc, j, id);
            assert(lmap[id] == d);
            assert(leg[j].0@ == bare_of(id));
            assert(d.id is User);
            assert(lbids.contains(id));
            assert(legacy_wins(seq_lookup(cur, id), d.saved_at));
            assert(folds(tr0, lmap, lbids, id));
            assert(rhs.dom().contains(id) && rhs[id] == d);
        } else {
            assert(forall|i: int| 0 <= i < ws.len() ==> (#[trigger] ws[i]).0@ != enc_id(id));
            lemma_writes_keep_other_keys(t0, ws, enc_id(id));
            assert(lhs.dom().contains(id) == tr0.dom().contains(id));
            assert(tr0.dom().contains(id) ==> lhs[id] == tr0[id]);
            if folds(tr0, lmap, lbids, id) {
                assert(lmap.dom().contains(id));
                let j = choose|j2: int| #[trigger] is_legacy_rec(leg, j2, id);
                let d = dec_legacy_meta(leg[j].1@).unwrap();
                assert(lmap[id] == d) by {
                    lemma_legacy_rec_unique(
                        leg,
                        choose|j2: int| #[trigger] is_legacy_rec(leg, j2, id),
                        j,
                        id,
                    );
                }
                assert(leg[j].0@ == bare_of(id));
                assert(has_body(legb, leg[j].0@));
                assert(legacy_wins(seq_lookup(cur, id), d.saved_at));
                assert(folds_forward(leg, legb, cur, j));
                let iw = choose|i: int|
                    0 <= i < ws.len() && (#[trigger] ws[i]).0@ == enc_id(
                        dec_legacy_meta(leg[j].1@).unwrap().id,
                    );
                assert(ws[iw].0@ == enc_id(id));
                assert(false);
            }
            assert(rhs.dom().contains(id) == tr0.dom().contains(id));
            assert(tr0.dom().contains(id) ==> rhs[id] == tr0[id]);
        }
    }
    assert(lhs =~= rhs);
}

} // verus!
