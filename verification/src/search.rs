//! Search over the cached metadata titles. The policy is deterministic: a
//! query matches a title when the query's characters appear in the title in
//! order, compared ASCII-case-insensitively; matches keep the cache's
//! listing order and are capped at a fixed maximum; and regardless of the
//! query, entries flagged as default precede the others, each group keeping
//! its relative order. An empty query returns every cached entry, uncapped.

use vstd::prelude::*;
use vstd::string::StrSliceExecFns;
use crate::metadata::{PromptMetadata, MetaView};
use crate::cache::{MetadataCache, sorted, meta_le};

verus! {

/// At most this many entries come back for a non-empty query.
pub const MAX_SEARCH_RESULTS: usize = 100;

/// ASCII case folding: `A` through `Z` fold to lower case, all else stays.
pub open spec fn lower_char(c: char) -> char {
    if c == 'A' { 'a' }
    else if c == 'B' { 'b' }
    else if c == 'C' { 'c' }
    else if c == 'D' { 'd' }
    else if c == 'E' { 'e' }
    else if c == 'F' { 'f' }
    else if c == 'G' { 'g' }
    else if c == 'H' { 'h' }
    else if c == 'I' { 'i' }
    else if c == 'J' { 'j' }
    else if c == 'K' { 'k' }
    else if c == 'L' { 'l' }
    else if c == 'M' { 'm' }
    else if c == 'N' { 'n' }
    else if c == 'O' { 'o' }
    else if c == 'P' { 'p' }
    else if c == 'Q' { 'q' }
    else if c == 'R' { 'r' }
    else if c == 'S' { 's' }
    else if c == 'T' { 't' }
    else if c == 'U' { 'u' }
    else if c == 'V' { 'v' }
    else if c == 'W' { 'w' }
    else if c == 'X' { 'x' }
    else if c == 'Y' { 'y' }
    else if c == 'Z' { 'z' }
    else { c }
}

/// The sequence folded to lower case.
pub open spec fn lower(s: Seq<char>) -> Seq<char> {
    Seq::new(s.len(), |i: int| lower_char(s[i]))
}

/// Whether `q` appears in `t` in order (a subsequence, matched greedily).
pub open spec fn is_subseq(q: Seq<char>, t: Seq<char>) -> bool
    decreases t.len(),
{
    if q.len() == 0 {
        true
    } else if t.len() == 0 {
        false
    } else if q[0] == t[0] {
        is_subseq(q.skip(1), t.skip(1))
    } else {
        is_subseq(q, t.skip(1))
    }
}

/// Whether the query matches the record: entries without a title are never
/// candidates.
pub open spec fn matches_query(q: Seq<char>, m: MetaView) -> bool {
    match m.title {
        Some(t) => is_subseq(lower(q), lower(t)),
        None => false,
    }
}

/// What a search returns: all of the cache for an empty query; otherwise
/// the matching entries in cache order, capped; in either case re-ordered
/// stably so that default entries precede non-default ones.
pub open spec fn spec_search(c: Seq<MetaView>, q: Seq<char>) -> Seq<MetaView> {
    let base = if q.len() == 0 {
        c
    } else {
        let hits = c.filter(|m: MetaView| matches_query(q, m));
        if hits.len() > MAX_SEARCH_RESULTS {
            hits.take(MAX_SEARCH_RESULTS as int)
        } else {
            hits
        }
    };
    base.filter(|m: MetaView| m.default) + base.filter(|m: MetaView| !m.default)
}

pub proof fn lemma_filter_push(s: Seq<MetaView>, pred: spec_fn(MetaView) -> bool, x: MetaView)
    ensures
        pred(x) ==> s.push(x).filter(pred) == s.filter(pred).push(x),
        !pred(x) ==> s.push(x).filter(pred) == s.filter(pred),
{
    reveal(Seq::filter);
    assert(s.push(x).drop_last() =~= s);
    assert(s.push(x).last() == x);
}

/// Every element of a filtered sequence comes from the sequence.
pub proof fn lemma_filter_elements(s: Seq<MetaView>, pred: spec_fn(MetaView) -> bool)
    ensures
        forall|j: int| 0 <= j < s.filter(pred).len() ==> s.contains(#[trigger] s.filter(pred)[j]),
    decreases s.len(),
{
    reveal(Seq::filter);
    if s.len() > 0 {
        lemma_filter_elements(s.drop_last(), pred);
        assert forall|j: int| 0 <= j < s.filter(pred).len() implies s.contains(
            #[trigger] s.filter(pred)[j],
        ) by {
            let f = s.filter(pred);
            let fd = s.drop_last().filter(pred);
            if j < fd.len() {
                assert(fd[j] == f[j]);
                assert(s.drop_last().contains(fd[j]));
                let k = choose|k: int|
                    0 <= k < s.drop_last().len() && s.drop_last()[k] == fd[j];
                assert(s[k] == fd[j]);
            } else {
                assert(f[j] == s.last());
                assert(s[s.len() - 1] == s.last());
            }
        }
    }
}

/// Filtering a sorted listing leaves it sorted: kept entries keep their
/// relative order.
pub proof fn lemma_filter_sorted(s: Seq<MetaView>, pred: spec_fn(MetaView) -> bool)
    requires
        sorted(s),
    ensures
        sorted(s.filter(pred)),
    decreases s.len(),
{
    reveal(Seq::filter);
    if s.len() > 0 {
        assert(sorted(s.drop_last())) by {
            assert forall|i: int, j: int| 0 <= i < j < s.drop_last().len() implies meta_le(
                #[trigger] s.drop_last()[i],
                #[trigger] s.drop_last()[j],
            ) by {
                assert(s.drop_last()[i] == s[i] && s.drop_last()[j] == s[j]);
            }
        }
        lemma_filter_sorted(s.drop_last(), pred);
        if pred(s.last()) {
            let fd = s.drop_last().filter(pred);
            lemma_filter_elements(s.drop_last(), pred);
            assert forall|i: int, j: int| 0 <= i < j < s.filter(pred).len() implies meta_le(
                #[trigger] s.filter(pred)[i],
                #[trigger] s.filter(pred)[j],
            ) by {
                if j < fd.len() {
                    assert(s.filter(pred)[i] == fd[i] && s.filter(pred)[j] == fd[j]);
                } else {
                    assert(s.filter(pred)[j] == s.last());
                    assert(s.filter(pred)[i] == fd[i]);
                    assert(s.drop_last().contains(fd[i]));
                    let k = choose|k: int|
                        0 <= k < s.drop_last().len() && s.drop_last()[k] == fd[i];
                    assert(s[k] == fd[i]);
                    assert(meta_le(s[k], s[s.len() - 1]));
                }
            }
        }
    }
}

/// A query that matches no cached title returns nothing.
pub proof fn lemma_filter_none(s: Seq<MetaView>, pred: spec_fn(MetaView) -> bool)
    requires
        forall|i: int| 0 <= i < s.len() ==> !pred(#[trigger] s[i]),
    ensures
        s.filter(pred) == Seq::<MetaView>::empty(),
    decreases s.len(),
{
    reveal(Seq::filter);
    if s.len() > 0 {
        assert forall|i: int| 0 <= i < s.drop_last().len() implies !pred(
            #[trigger] s.drop_last()[i],
        ) by {
            assert(s.drop_last()[i] == s[i]);
        }
        lemma_filter_none(s.drop_last(), pred);
        assert(!pred(s.last()));
    }
}

/// A sequence splits into the entries a predicate keeps and those it
/// drops: nothing is lost.
pub proof fn lemma_partition_len(
    s: Seq<MetaView>,
    p: spec_fn(MetaView) -> bool,
    np: spec_fn(MetaView) -> bool,
)
    requires
        forall|m: MetaView| #[trigger] np(m) == !p(m),
    ensures
        s.filter(p).len() + s.filter(np).len() == s.len(),
    decreases s.len(),
{
    reveal(Seq::filter);
    if s.len() > 0 {
        lemma_partition_len(s.drop_last(), p, np);
        assert(np(s.last()) == !p(s.last()));
    }
}

/// An empty query returns every cached entry: those flagged default in
/// listing (title-then-recency) order, then the rest in listing order.
pub proof fn lemma_search_empty_query(c: Seq<MetaView>, q: Seq<char>)
    requires
        q.len() == 0,
        sorted(c),
    ensures
        spec_search(c, q) == c.filter(|m: MetaView| m.default) + c.filter(
            |m: MetaView| !m.default,
        ),
        spec_search(c, q).len() == c.len(),
        sorted(c.filter(|m: MetaView| m.default)),
        sorted(c.filter(|m: MetaView| !m.default)),
{
    lemma_partition_len(c, |m: MetaView| m.default, |m: MetaView| !m.default);
    lemma_filter_sorted(c, |m: MetaView| m.default);
    lemma_filter_sorted(c, |m: MetaView| !m.default);
}

/// A non-empty query that matches no cached title returns nothing.
pub proof fn lemma_search_no_match(c: Seq<MetaView>, q: Seq<char>)
    requires
        q.len() > 0,
        forall|i: int| 0 <= i < c.len() ==> !matches_query(q, #[trigger] c[i]),
    ensures
        spec_search(c, q) == Seq::<MetaView>::empty(),
{
    reveal(Seq::filter);
    lemma_filter_none(c, |m: MetaView| matches_query(q, m));
    let hits = c.filter(|m: MetaView| matches_query(q, m));
    assert(hits.len() == 0);
    assert(hits.filter(|m: MetaView| m.default) =~= Seq::<MetaView>::empty());
    assert(hits.filter(|m: MetaView| !m.default) =~= Seq::<MetaView>::empty());
    assert(spec_search(c, q) =~= Seq::<MetaView>::empty());
}

/// The listing splits at `k`: default entries before it, the rest after.
pub open spec fn default_split(r: Seq<MetaView>, k: int) -> bool {
    0 <= k <= r.len() && (forall|i: int| 0 <= i < k ==> (#[trigger] r[i]).default) && (forall|
        i: int,
    | k <= i < r.len() ==> !(#[trigger] r[i]).default)
}

/// Whatever the query, every entry flagged default stands before every
/// entry that is not: the result splits at one point.
pub proof fn lemma_search_default_first(c: Seq<MetaView>, q: Seq<char>)
    ensures
        exists|k: int| #[trigger] default_split(spec_search(c, q), k),
{
    let base = if q.len() == 0 {
        c
    } else {
        let hits = c.filter(|m: MetaView| matches_query(q, m));
        if hits.len() > MAX_SEARCH_RESULTS {
            hits.take(MAX_SEARCH_RESULTS as int)
        } else {
            hits
        }
    };
    let d = base.filter(|m: MetaView| m.default);
    let nd = base.filter(|m: MetaView| !m.default);
    let r = spec_search(c, q);
    assert(r == d + nd);
    base.filter_lemma(|m: MetaView| m.default);
    base.filter_lemma(|m: MetaView| !m.default);
    let k = d.len() as int;
    assert forall|i: int| 0 <= i < k implies (#[trigger] r[i]).default by {
        assert(r[i] == d[i]);
    }
    assert forall|i: int| k <= i < r.len() implies !(#[trigger] r[i]).default by {
        assert(r[i] == nd[i - k]);
    }
    assert(default_split(r, k));
}

/// Whether the lowered query appears in order in the lowered title.
pub fn subseq_ci(q: &str, t: &str) -> (r: bool)
    ensures
        r == is_subseq(lower(q@), lower(t@)),
{
    let qn = q.unicode_len();
    let tn = t.unicode_len();
    let ghost lq = lower(q@);
    let ghost lt = lower(t@);
    let mut qi: usize = 0;
    let mut ti: usize = 0;
    proof {
        assert(lq.skip(0) =~= lq);
        assert(lt.skip(0) =~= lt);
    }
    while qi < qn && ti < tn
        invariant
            qi <= qn,
            ti <= tn,
            qn == q@.len(),
            tn == t@.len(),
            lq == lower(q@),
            lt == lower(t@),
            is_subseq(lq, lt) == is_subseq(lq.skip(qi as int), lt.skip(ti as int)),
        decreases tn - ti,
    {
        let qc = lower_char_exec(q.get_char(qi));
        let tc = lower_char_exec(t.get_char(ti));
        proof {
            assert(lq.skip(qi as int).len() == qn - qi);
            assert(lt.skip(ti as int).len() == tn - ti);
            assert(lq.skip(qi as int)[0] == lq[qi as int]);
            assert(lt.skip(ti as int)[0] == lt[ti as int]);
            assert(lq[qi as int] == lower_char(q@[qi as int]));
            assert(lt[ti as int] == lower_char(t@[ti as int]));
            assert(lq.skip(qi as int).skip(1) =~= lq.skip(qi as int + 1));
            assert(lt.skip(ti as int).skip(1) =~= lt.skip(ti as int + 1));
        }
        if qc == tc {
            qi += 1;
            ti += 1;
        } else {
            ti += 1;
        }
    }
    proof {
        assert(lq.skip(qi as int).len() == qn - qi);
        assert(lt.skip(ti as int).len() == tn - ti);
    }
    qi == qn
}

/// ASCII case folding, computed.
pub fn lower_char_exec(c: char) -> (r: char)
    ensures
        r == lower_char(c),
{
    match c {
        'A' => 'a',
        'B' => 'b',
        'C' => 'c',
        'D' => 'd',
        'E' => 'e',
        'F' => 'f',
        'G' => 'g',
        'H' => 'h',
        'I' => 'i',
        'J' => 'j',
        'K' => 'k',
        'L' => 'l',
        'M' => 'm',
        'N' => 'n',
        'O' => 'o',
        'P' => 'p',
        'Q' => 'q',
        'R' => 'r',
        'S' => 's',
        'T' => 't',
        'U' => 'u',
        'V' => 'v',
        'W' => 'w',
        'X' => 'x',
        'Y' => 'y',
        'Z' => 'z',
        _ => c,
    }
}

/// The views of a listing of records.
pub open spec fn rec_views(s: Seq<PromptMetadata>) -> Seq<MetaView> {
    Seq::new(s.len(), |i: int| s[i]@)
}

/// Ranks the cached entries against the query, per the search policy.
pub fn search_records(cache: &MetadataCache, query: &str) -> (r: Vec<PromptMetadata>)
    ensures
        rec_views(r@) == spec_search(cache@, query@),
{
    let ghost c = cache@;
    let ghost q = query@;
    let ghost mq = |m: MetaView| matches_query(q, m);
    let n = cache.len();
    let qn = query.unicode_len();
    let mut base: Vec<PromptMetadata> = Vec::new();
    let mut i: usize = 0;
    if qn == 0 {
        while i < n
            invariant
                i <= n,
                n == c.len(),
                c == cache@,
                rec_views(base@) == c.take(i as int),
            decreases n - i,
        {
            let m = cache.get(i);
            let ghost pre = base@;
            base.push(m);
            proof {
                assert(rec_views(base@) =~= rec_views(pre).push(c[i as int]));
                assert(rec_views(pre).push(c[i as int]) =~= c.take(i as int + 1));
            }
            i += 1;
        }
        proof {
            assert(c.take(n as int) =~= c);
        }
    } else {
        proof {
            reveal(Seq::filter);
            assert(c.take(0).filter(mq) =~= Seq::<MetaView>::empty());
            assert(rec_views(base@) =~= Seq::<MetaView>::empty());
        }
        while i < n
            invariant
                i <= n,
                n == c.len(),
                c == cache@,
                q == query@,
                mq == (|m: MetaView| matches_query(q, m)),
                rec_views(base@) == c.take(i as int).filter(mq),
            decreases n - i,
        {
            let m = cache.get(i);
            let hit = match &m.title {
                Option::Some(t) => subseq_ci(query, t.as_str()),
                Option::None => false,
            };
            proof {
                assert(hit == matches_query(q, c[i as int]));
                lemma_filter_push(c.take(i as int), mq, c[i as int]);
                assert(c.take(i as int).push(c[i as int]) =~= c.take(i as int + 1));
            }
            if hit {
                let ghost pre = base@;
                base.push(m);
                proof {
                    assert(rec_views(base@) =~= rec_views(pre).push(c[i as int]));
                }
            }
            i += 1;
        }
        proof {
            assert(c.take(n as int) =~= c);
        }
        if base.len() > MAX_SEARCH_RESULTS {
            let ghost pre = base@;
            base.truncate(MAX_SEARCH_RESULTS);
            proof {
                assert(rec_views(base@) =~= rec_views(pre).take(MAX_SEARCH_RESULTS as int));
            }
        }
    }
    // Stable partition: default entries first.
    let ghost bv = rec_views(base@);
    let nb = base.len();
    let mut out: Vec<PromptMetadata> = Vec::new();
    let mut j: usize = 0;
    proof {
        reveal(Seq::filter);
        assert(bv.take(0).filter(|m: MetaView| m.default) =~= Seq::<MetaView>::empty());
        assert(rec_views(out@) =~= Seq::<MetaView>::empty());
    }
    while j < nb
        invariant
            j <= nb,
            nb == base@.len(),
            bv == rec_views(base@),
            rec_views(out@) == bv.take(j as int).filter(|m: MetaView| m.default),
        decreases nb - j,
    {
        let m = base[j].copied();
        proof {
            lemma_filter_push(bv.take(j as int), |m: MetaView| m.default, bv[j as int]);
            assert(bv.take(j as int).push(bv[j as int]) =~= bv.take(j as int + 1));
        }
        if m.default {
            let ghost pre = out@;
            out.push(m);
            proof {
                assert(rec_views(out@) =~= rec_views(pre).push(bv[j as int]));
            }
        }
        j += 1;
    }
    proof {
        assert(bv.take(nb as int) =~= bv);
    }
    let ghost defs = bv.filter(|m: MetaView| m.default);
    let mut k: usize = 0;
    proof {
        reveal(Seq::filter);
        assert(bv.take(0).filter(|m: MetaView| !m.default) =~= Seq::<MetaView>::empty());
        assert(rec_views(out@) =~= defs + bv.take(0).filter(|m: MetaView| !m.default));
    }
    while k < nb
        invariant
            k <= nb,
            nb == base@.len(),
            bv == rec_views(base@),
            defs == bv.filter(|m: MetaView| m.default),
            rec_views(out@) == defs + bv.take(k as int).filter(|m: MetaView| !m.default),
        decreases nb - k,
    {
        let m = base[k].copied();
        proof {
            lemma_filter_push(bv.take(k as int), |m: MetaView| !m.default, bv[k as int]);
            assert(bv.take(k as int).push(bv[k as int]) =~= bv.take(k as int + 1));
        }
        if !m.default {
            let ghost pre = out@;
            out.push(m);
            proof {
                assert(rec_views(out@) =~= rec_views(pre).push(bv[k as int]));
                assert(rec_views(pre).push(bv[k as int]) =~= defs + bv.take(
                    k as int + 1,
                ).filter(|m: MetaView| !m.default));
            }
        }
        k += 1;
    }
    proof {
        assert(bv.take(nb as int) =~= bv);
        assert(rec_views(out@) == spec_search(c, q));
    }
    out
}

} // verus!
