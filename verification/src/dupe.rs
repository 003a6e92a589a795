//! Title disambiguation for duplicated entries: the new title is the old
//! one with ` copy` appended; where that suffixed title itself collides
//! with an existing title, a numeric counter is appended instead
//! (` copy 1`, ` copy 2`, ...), the smallest counter whose title is not
//! yet taken.

use vstd::prelude::*;
use vstd::string::StringExecFns;
use vstd::set_lib::lemma_len_subset;
use vstd::seq_lib::seq_to_set_is_finite;
use crate::hex::hex_digit_char;
use crate::cache::str_eq;

verus! {

/// The disambiguating suffix.
pub open spec fn copy_suffix() -> Seq<char> {
    seq![' ', 'c', 'o', 'p', 'y']
}

/// The decimal rendering of a counter.
pub open spec fn dec_of(n: nat) -> Seq<char>
    decreases n,
{
    if n < 10 {
        seq![hex_digit_char(n as int)]
    } else {
        dec_of(n / 10).push(hex_digit_char((n % 10) as int))
    }
}

pub proof fn lemma_dec_of_len(n: nat)
    ensures
        dec_of(n).len() >= 1,
        n >= 10 ==> dec_of(n).len() >= 2,
    decreases n,
{
    if n >= 10 {
        lemma_dec_of_len(n / 10);
    }
}

pub proof fn lemma_dec_of_injective(a: nat, b: nat)
    requires
        dec_of(a) == dec_of(b),
    ensures
        a == b,
    decreases a + b,
{
    lemma_dec_of_len(a);
    lemma_dec_of_len(b);
    if a < 10 && b < 10 {
        assert(dec_of(a)[0] == hex_digit_char(a as int));
        assert(dec_of(b)[0] == hex_digit_char(b as int));
    } else if a >= 10 && b >= 10 {
        assert(dec_of(a).last() == hex_digit_char((a % 10) as int));
        assert(dec_of(b).last() == hex_digit_char((b % 10) as int));
        assert(a % 10 == b % 10);
        assert(dec_of(a).drop_last() =~= dec_of(a / 10)) by {
            assert(dec_of(a) == dec_of(a / 10).push(hex_digit_char((a % 10) as int)));
        }
        assert(dec_of(b).drop_last() =~= dec_of(b / 10)) by {
            assert(dec_of(b) == dec_of(b / 10).push(hex_digit_char((b % 10) as int)));
        }
        lemma_dec_of_injective(a / 10, b / 10);
    } else if a < 10 {
        assert(dec_of(a).len() == 1 && dec_of(b).len() >= 2);
    } else {
        assert(dec_of(b).len() == 1 && dec_of(a).len() >= 2);
    }
}

/// The `i`-th numbered candidate title.
pub open spec fn dup_candidate(title: Seq<char>, i: nat) -> Seq<char> {
    title + copy_suffix() + seq![' '] + dec_of(i)
}

pub proof fn lemma_candidate_injective(title: Seq<char>, a: nat, b: nat)
    requires
        dup_candidate(title, a) == dup_candidate(title, b),
    ensures
        a == b,
{
    let p = title.len() + 6;
    let ca = dup_candidate(title, a);
    let cb = dup_candidate(title, b);
    assert(ca.len() == p + dec_of(a).len());
    assert(cb.len() == p + dec_of(b).len());
    assert(ca.subrange(p as int, ca.len() as int) =~= dec_of(a));
    assert(cb.subrange(p as int, cb.len() as int) =~= dec_of(b));
    lemma_dec_of_injective(a, b);
}

/// How the title of a duplicated entry relates to the source title and the
/// other existing titles: the source title with ` copy` appended, unless
/// that title is already taken, in which case the numbered candidate with
/// the smallest free counter.
pub open spec fn dup_title_ok(t: Seq<char>, title: Seq<char>, ev: Seq<Seq<char>>) -> bool {
    if ev.contains(title + copy_suffix()) {
        exists|i: nat|
            1 <= i && t == dup_candidate(title, i) && !ev.contains(
                #[trigger] dup_candidate(title, i),
            ) && (forall|j: nat| 1 <= j < i ==> ev.contains(#[trigger] dup_candidate(title, j)))
    } else {
        t == title + copy_suffix()
    }
}

/// The characters of each string.
pub open spec fn str_views(s: Seq<String>) -> Seq<Seq<char>> {
    Seq::new(s.len(), |i: int| s[i]@)
}

/// More candidates than titles: some candidate among the first
/// `ev.len() + 1` is not taken.
proof fn lemma_candidates_pigeonhole(ev: Seq<Seq<char>>, title: Seq<char>, m: int)
    requires
        m == ev.len() + 1,
    ensures
        exists|j: int|
            1 <= j <= m && !ev.contains(#[trigger] dup_candidate(title, j as nat)),
{
    if exists|j: int| 1 <= j <= m && !ev.contains(#[trigger] dup_candidate(title, j as nat)) {
        return;
    }
    assert forall|j: int| 1 <= j <= m implies ev.contains(
        #[trigger] dup_candidate(title, j as nat),
    ) by {}
    let cs = Seq::new(m as nat, |j: int| dup_candidate(title, (j + 1) as nat));
    assert(cs.no_duplicates()) by {
        assert forall|p: int, q: int| 0 <= p < cs.len() && 0 <= q < cs.len() && p != q
            implies cs[p] != cs[q] by {
            if cs[p] == cs[q] {
                lemma_candidate_injective(title, (p + 1) as nat, (q + 1) as nat);
            }
        }
    }
    cs.unique_seq_to_set();
    assert(cs.to_set().len() == m);
    assert(cs.to_set().subset_of(ev.to_set())) by {
        assert forall|x: Seq<char>| cs.to_set().contains(x) implies ev.to_set().contains(x) by {
            assert(cs.contains(x));
            let j = choose|j: int| 0 <= j < cs.len() && cs[j] == x;
            assert(x == dup_candidate(title, (j + 1) as nat));
            assert(ev.contains(x));
        }
    }
    seq_to_set_is_finite(ev);
    lemma_len_subset(cs.to_set(), ev.to_set());
    ev.lemma_cardinality_of_set();
}

/// Renders a counter in decimal.
fn dec_enc(n: u64) -> (r: String)
    ensures
        r@ == dec_of(n as nat),
    decreases n,
{
    if n < 10 {
        let d = crate::hex::hex_digit_str(n as u8);
        let r = d.to_owned();
        proof {
            assert(r@ =~= dec_of(n as nat));
        }
        r
    } else {
        let mut s = dec_enc(n / 10);
        s.append(crate::hex::hex_digit_str((n % 10) as u8));
        proof {
            assert(s@ =~= dec_of(n as nat));
        }
        s
    }
}

/// Whether any of the strings holds exactly these characters.
fn contains_str(v: &Vec<String>, x: &str) -> (r: bool)
    ensures
        r == str_views(v@).contains(x@),
{
    let n = v.len();
    let mut i: usize = 0;
    while i < n
        invariant
            i <= n,
            n == v@.len(),
            forall|j: int| 0 <= j < i ==> str_views(v@)[j] != x@,
        decreases n - i,
    {
        if str_eq(v[i].as_str(), x) {
            proof {
                assert(str_views(v@)[i as int] == x@);
            }
            return true;
        }
        i += 1;
    }
    proof {
        if str_views(v@).contains(x@) {
            let j = choose|j: int| 0 <= j < str_views(v@).len() && str_views(v@)[j] == x@;
            assert(false);
        }
    }
    false
}

/// The `i`-th numbered candidate, rendered.
fn make_candidate(title: &String, i: u64) -> (r: String)
    ensures
        r@ == dup_candidate(title@, i as nat),
{
    proof {
        reveal_strlit(" copy ");
    }
    let mut s = title.clone();
    s.append(" copy ");
    let d = dec_enc(i);
    s.append(d.as_str());
    proof {
        assert(s@ =~= dup_candidate(title@, i as nat));
    }
    s
}

/// Derives the title of a duplicated entry: the source title with ` copy`
/// appended, or — where that title already exists — the source title with
/// ` copy i` appended, for the smallest counter `i >= 1` whose candidate is
/// not among the existing titles.
pub fn duplicate_title(title: &String, existing: &Vec<String>) -> (r: String)
    requires
        existing@.len() < usize::MAX,
    ensures
        dup_title_ok(r@, title@, str_views(existing@)),
{
    let ghost ev = str_views(existing@);
    proof {
        reveal_strlit(" copy");
    }
    let mut base = title.clone();
    base.append(" copy");
    proof {
        assert(base@ =~= title@ + copy_suffix());
    }
    let n = existing.len();
    if !contains_str(existing, base.as_str()) {
        return base;
    }
    // The suffixed title is taken: the smallest free counter names the
    // copy; with n titles taken, one of the first n + 1 candidates must be
    // free.
    let mut c: usize = 1;
    while c <= n
        invariant
            1 <= c <= n + 1,
            n == existing@.len(),
            n < usize::MAX,
            ev == str_views(existing@),
            ev.contains(title@ + copy_suffix()),
            forall|j: nat| 1 <= j < c ==> ev.contains(#[trigger] dup_candidate(title@, j)),
        decreases n + 1 - c,
    {
        let cand = make_candidate(title, c as u64);
        if !contains_str(existing, cand.as_str()) {
            proof {
                let w: nat = c as nat;
                assert(cand@ == dup_candidate(title@, w));
                assert(!ev.contains(dup_candidate(title@, w)));
                assert(forall|j: nat| 1 <= j < w
                    ==> ev.contains(#[trigger] dup_candidate(title@, j)));
            }
            return cand;
        }
        c += 1;
    }
    let cand = make_candidate(title, c as u64);
    proof {
        lemma_candidates_pigeonhole(ev, title@, c as int);
        let j = choose|j: int|
            1 <= j <= c && !ev.contains(#[trigger] dup_candidate(title@, j as nat));
        assert(j == c as int);
        let w: nat = c as nat;
        assert(cand@ == dup_candidate(title@, w));
        assert(!ev.contains(dup_candidate(title@, w)));
        assert(forall|jj: nat| 1 <= jj < w
            ==> ev.contains(#[trigger] dup_candidate(title@, jj)));
    }
    cand
}

} // verus!
