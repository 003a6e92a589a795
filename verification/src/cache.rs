//! The in-memory metadata cache: every entry's metadata record, kept sorted
//! by title (entries without a title first, then lexicographically by code
//! point) with ties broken by most recent save first.

use vstd::prelude::*;
use vstd::string::StrSliceExecFns;
use crate::ids::PromptId;
use crate::metadata::{PromptMetadata, MetaView};

verus! {

/// Strict lexicographic order on character sequences, by code point; a
/// proper prefix sorts first.
pub open spec fn seq_lt(a: Seq<char>, b: Seq<char>) -> bool
    decreases a.len(),
{
    if b.len() == 0 {
        false
    } else if a.len() == 0 {
        true
    } else if (a[0] as int) < (b[0] as int) {
        true
    } else if (a[0] as int) > (b[0] as int) {
        false
    } else {
        seq_lt(a.skip(1), b.skip(1))
    }
}

/// Strict order on optional titles: an absent title sorts before every
/// present one.
pub open spec fn title_lt(a: Option<Seq<char>>, b: Option<Seq<char>>) -> bool {
    match (a, b) {
        (None, None) => false,
        (None, Some(_)) => true,
        (Some(_), None) => false,
        (Some(x), Some(y)) => seq_lt(x, y),
    }
}

/// The listing order: by title, ties broken by `saved_at` descending.
pub open spec fn meta_le(a: MetaView, b: MetaView) -> bool {
    title_lt(a.title, b.title) || (a.title == b.title && a.saved_at >= b.saved_at)
}

pub proof fn lemma_seq_lt_trichotomy(a: Seq<char>, b: Seq<char>)
    ensures
        seq_lt(a, b) || a == b || seq_lt(b, a),
        seq_lt(a, b) ==> a != b,
        seq_lt(a, b) ==> !seq_lt(b, a),
    decreases a.len() + b.len(),
{
    if a.len() > 0 && b.len() > 0 && a[0] == b[0] {
        assert(a.skip(1).len() == a.len() - 1);
        assert(b.skip(1).len() == b.len() - 1);
        lemma_seq_lt_trichotomy(a.skip(1), b.skip(1));
        assert(seq_lt(a, b) == seq_lt(a.skip(1), b.skip(1)));
        assert(seq_lt(b, a) == seq_lt(b.skip(1), a.skip(1)));
        if a.skip(1) == b.skip(1) {
            assert forall|i: int| 0 <= i < a.len() implies a[i] == b[i] by {
                if i > 0 {
                    assert(a.skip(1)[i - 1] == a[i]);
                    assert(b.skip(1)[i - 1] == b[i]);
                }
            }
            assert(a =~= b);
        }
        if a == b {
            assert(a.skip(1) =~= b.skip(1));
        }
    } else if a.len() > 0 && b.len() > 0 {
        assert((a[0] as int) == (b[0] as int) ==> a[0] == b[0]);
        assert((a[0] as int) < (b[0] as int) || (a[0] as int) > (b[0] as int));
    } else if a.len() == 0 && b.len() == 0 {
        assert(a =~= b);
    }
}

pub proof fn lemma_seq_lt_trans(a: Seq<char>, b: Seq<char>, c: Seq<char>)
    requires
        seq_lt(a, b),
        seq_lt(b, c),
    ensures
        seq_lt(a, c),
    decreases a.len() + b.len() + c.len(),
{
    if a.len() == 0 {
        assert(c.len() > 0);
        assert(seq_lt(a, c));
    } else {
        assert(b.len() > 0 && c.len() > 0);
        assert(a.skip(1).len() == a.len() - 1);
        assert(b.skip(1).len() == b.len() - 1);
        assert(c.skip(1).len() == c.len() - 1);
        if a[0] == b[0] && b[0] == c[0] {
            lemma_seq_lt_trans(a.skip(1), b.skip(1), c.skip(1));
            assert(seq_lt(a, c));
        } else {
            assert((a[0] as int) == (b[0] as int) ==> a[0] == b[0]);
            assert((b[0] as int) == (c[0] as int) ==> b[0] == c[0]);
            assert((a[0] as int) <= (b[0] as int) && (b[0] as int) <= (c[0] as int));
            assert((a[0] as int) < (c[0] as int));
            assert(seq_lt(a, c));
        }
    }
}

pub proof fn lemma_meta_le_total(a: MetaView, b: MetaView)
    ensures
        meta_le(a, b) || meta_le(b, a),
{
    match (a.title, b.title) {
        (Some(x), Some(y)) => {
            lemma_seq_lt_trichotomy(x, y);
        },
        _ => {},
    }
}

pub proof fn lemma_meta_le_trans(a: MetaView, b: MetaView, c: MetaView)
    requires
        meta_le(a, b),
        meta_le(b, c),
    ensures
        meta_le(a, c),
{
    match (a.title, b.title, c.title) {
        (Some(x), Some(y), Some(z)) => {
            if seq_lt(x, y) && seq_lt(y, z) {
                lemma_seq_lt_trans(x, y, z);
            }
        },
        _ => {},
    }
}

/// Whether two strings hold the same characters.
pub fn str_eq(a: &str, b: &str) -> (r: bool)
    ensures
        r == (a@ == b@),
{
    let na = a.unicode_len();
    let nb = b.unicode_len();
    if na != nb {
        return false;
    }
    let mut i: usize = 0;
    while i < na
        invariant
            i <= na,
            na == a@.len(),
            na == b@.len(),
            forall|j: int| 0 <= j < i ==> a@[j] == b@[j],
        decreases na - i,
    {
        if a.get_char(i) != b.get_char(i) {
            return false;
        }
        i += 1;
    }
    proof {
        assert(a@ =~= b@);
    }
    true
}

/// Whether `a@` sorts strictly before `b@` in the lexicographic order.
pub fn str_lt(a: &str, b: &str) -> (r: bool)
    ensures
        r == seq_lt(a@, b@),
{
    let na = a.unicode_len();
    let nb = b.unicode_len();
    let mut i: usize = 0;
    proof {
        assert(a@.skip(0) =~= a@);
        assert(b@.skip(0) =~= b@);
    }
    while i < na && i < nb
        invariant
            i <= na,
            i <= nb,
            na == a@.len(),
            nb == b@.len(),
            seq_lt(a@, b@) == seq_lt(a@.skip(i as int), b@.skip(i as int)),
        decreases na - i,
    {
        let ca = a.get_char(i);
        let cb = b.get_char(i);
        proof {
            assert(a@.skip(i as int).len() == na - i);
            assert(b@.skip(i as int).len() == nb - i);
            assert(a@.skip(i as int)[0] == ca);
            assert(b@.skip(i as int)[0] == cb);
            assert(a@.skip(i as int).skip(1) =~= a@.skip(i as int + 1));
            assert(b@.skip(i as int).skip(1) =~= b@.skip(i as int + 1));
        }
        if (ca as u32) < (cb as u32) {
            proof {
                assert((ca as int) < (cb as int));
            }
            return true;
        }
        if (ca as u32) > (cb as u32) {
            proof {
                assert((ca as int) > (cb as int));
            }
            return false;
        }
        i += 1;
    }
    proof {
        assert(a@.skip(i as int).len() == na - i);
        assert(b@.skip(i as int).len() == nb - i);
    }
    i < nb
}

/// Whether `a@` sorts no later than `b@` in the listing order.
pub fn meta_le_exec(a: &PromptMetadata, b: &PromptMetadata) -> (r: bool)
    ensures
        r == meta_le(a@, b@),
{
    match (&a.title, &b.title) {
        (Option::None, Option::None) => a.saved_at >= b.saved_at,
        (Option::None, Option::Some(_)) => true,
        (Option::Some(_), Option::None) => false,
        (Option::Some(x), Option::Some(y)) => {
            if str_eq(x.as_str(), y.as_str()) {
                proof {
                    lemma_seq_lt_trichotomy(x@, y@);
                }
                a.saved_at >= b.saved_at
            } else {
                str_lt(x.as_str(), y.as_str())
            }
        },
    }
}

/// Sorted in the listing order.
pub open spec fn sorted(s: Seq<MetaView>) -> bool {
    forall|i: int, j: int| 0 <= i < j < s.len() ==> meta_le(#[trigger] s[i], #[trigger] s[j])
}

/// At most one record per identifier.
pub open spec fn unique_ids(s: Seq<MetaView>) -> bool {
    forall|i: int, j: int| 0 <= i < j < s.len() ==> (#[trigger] s[i]).id != (#[trigger] s[j]).id
}

impl PromptMetadata {
    /// A copy whose fields equal this record's.
    pub fn copied(&self) -> (r: PromptMetadata)
        ensures
            r == *self,
    {
        PromptMetadata {
            id: self.id,
            title: match &self.title {
                Option::Some(t) => Option::Some(t.clone()),
                Option::None => Option::None,
            },
            default: self.default,
            saved_at: self.saved_at,
        }
    }
}

/// Whether two records hold equal fields.
pub fn records_equal(a: &PromptMetadata, b: &PromptMetadata) -> (r: bool)
    ensures
        r == (a@ == b@),
{
    let titles_eq = match (&a.title, &b.title) {
        (Option::None, Option::None) => true,
        (Option::Some(x), Option::Some(y)) => str_eq(x.as_str(), y.as_str()),
        _ => false,
    };
    titles_eq && a.id == b.id && a.default == b.default && a.saved_at == b.saved_at
}

/// The in-memory mirror of all stored metadata records.
pub struct MetadataCache {
    entries: Vec<PromptMetadata>,
}

impl View for MetadataCache {
    type V = Seq<MetaView>;

    closed spec fn view(&self) -> Seq<MetaView> {
        Seq::new(self.entries@.len(), |i: int| self.entries@[i]@)
    }
}

impl MetadataCache {
    pub open spec fn wf(&self) -> bool {
        sorted(self@) && unique_ids(self@)
    }

    pub fn new() -> (r: MetadataCache)
        ensures
            r@ == Seq::<MetaView>::empty(),
            r.wf(),
    {
        let r = MetadataCache { entries: Vec::new() };
        proof {
            assert(r@ =~= Seq::<MetaView>::empty());
        }
        r
    }

    pub fn len(&self) -> (r: usize)
        ensures
            r == self@.len(),
    {
        self.entries.len()
    }

    /// A copy of the record at the given listing position.
    pub fn get(&self, i: usize) -> (r: PromptMetadata)
        requires
            i < self@.len(),
        ensures
            r@ == self@[i as int],
    {
        self.entries[i].copied()
    }

    /// The first record in listing order, if any.
    pub fn first(&self) -> (r: Option<PromptMetadata>)
        ensures
            match r {
                Some(m) => self@.len() > 0 && m@ == self@[0],
                None => self@.len() == 0,
            },
    {
        if self.entries.len() == 0 {
            None
        } else {
            Some(self.get(0))
        }
    }

    /// A copy of the record for the given identifier, if one is cached.
    pub fn lookup(&self, id: PromptId) -> (r: Option<PromptMetadata>)
        ensures
            match r {
                Some(m) => self@.contains(m@) && m@.id == id,
                None => forall|i: int| 0 <= i < self@.len() ==> self@[i].id != id,
            },
    {
        match self.position_of(id) {
            Some(i) => Some(self.get(i)),
            None => None,
        }
    }

    /// The position of the record for the given identifier, if one is
    /// cached.
    fn position_of(&self, id: PromptId) -> (r: Option<usize>)
        ensures
            match r {
                Some(i) => i < self@.len() && self@[i as int].id == id,
                None => forall|j: int| 0 <= j < self@.len() ==> self@[j].id != id,
            },
    {
        let n = self.entries.len();
        let mut i: usize = 0;
        while i < n
            invariant
                i <= n,
                n == self@.len(),
                forall|j: int| 0 <= j < i ==> self@[j].id != id,
            decreases n - i,
        {
            if self.entries[i].id == id {
                return Some(i);
            }
            i += 1;
        }
        None
    }

    /// The first listing position whose record does not sort before `m`.
    fn insert_pos(&self, m: &PromptMetadata) -> (r: usize)
        ensures
            r <= self@.len(),
            forall|k: int| 0 <= k < r ==> meta_le(#[trigger] self@[k], m@),
            r < self@.len() ==> !meta_le(self@[r as int], m@),
    {
        let n = self.entries.len();
        let mut j: usize = 0;
        while j < n
            invariant
                j <= n,
                n == self@.len(),
                forall|k: int| 0 <= k < j ==> meta_le(#[trigger] self@[k], m@),
            decreases n - j,
        {
            if !meta_le_exec(&self.entries[j], m) {
                return j;
            }
            j += 1;
        }
        j
    }

    /// Replaces or adds the record for `m.id`, keeping the listing sorted.
    /// Re-inserting a record the cache already holds changes nothing, and
    /// the listing grows by one entry exactly when the identifier was
    /// absent.
    #[verifier::rlimit(100)]
    pub fn insert(&mut self, m: PromptMetadata)
        requires
            old(self).wf(),
        ensures
            final(self).wf(),
            final(self)@.contains(m@),
            forall|x: MetaView| #[trigger] final(self)@.contains(x)
                ==> x == m@ || (old(self)@.contains(x) && x.id != m@.id),
            forall|x: MetaView| old(self)@.contains(x) && x.id != m@.id
                ==> final(self)@.contains(x),
            final(self)@.len() >= 1,
            old(self)@.contains(m@) ==> final(self)@ == old(self)@,
            (exists|i: int| 0 <= i < old(self)@.len() && (#[trigger] old(self)@[i]).id == m@.id)
                ==> final(self)@.len() == old(self)@.len(),
            !(exists|i: int| 0 <= i < old(self)@.len() && (#[trigger] old(self)@[i]).id == m@.id)
                ==> final(self)@.len() == old(self)@.len() + 1,
    {
        let ghost v0 = self@;
        // Drop any existing record with the same identifier; where the cache
        // already holds this very record, there is nothing to do.
        match self.position_of(m.id) {
            Some(i) => {
                if records_equal(&self.entries[i], &m) {
                    proof {
                        assert(self@[i as int] == m@);
                        assert(self@.contains(m@));
                        assert forall|x: MetaView| #[trigger] self@.contains(x)
                            implies x == m@ || (v0.contains(x) && x.id != m@.id) by {
                            let k = choose|k: int| 0 <= k < self@.len() && self@[k] == x;
                            if x.id == m@.id {
                                if k < i as int {
                                    assert(self@[k].id != self@[i as int].id);
                                } else if k > i as int {
                                    assert(self@[i as int].id != self@[k].id);
                                }
                                assert(k == i as int);
                            }
                        }
                    }
                    return;
                }
                proof {
                    if v0.contains(m@) {
                        let k = choose|k: int| 0 <= k < v0.len() && v0[k] == m@;
                        if k < i as int {
                            assert(v0[k].id != v0[i as int].id);
                        } else if k > i as int {
                            assert(v0[i as int].id != v0[k].id);
                        }
                        assert(self@[i as int] == m@);
                        assert(false);
                    }
                }
                self.entries.remove(i);
                proof {
                    assert(self@ =~= v0.remove(i as int));
                    v0.remove_ensures(i as int);
                    let v1 = self@;
                    let d = i as int;
                    assert forall|x: MetaView| #[trigger] v1.contains(x)
                        implies v0.contains(x) && x.id != m@.id by {
                        let k = choose|k: int| 0 <= k < v1.len() && v1[k] == x;
                        if k < d {
                            assert(v0[k] == x);
                            assert(v0[k].id != v0[d].id);
                        } else {
                            assert(v0[k + 1] == x);
                            assert(v0[d].id != v0[k + 1].id);
                        }
                    }
                    assert forall|x: MetaView| v0.contains(x) && x.id != m@.id
                        implies v1.contains(x) by {
                        let k = choose|k: int| 0 <= k < v0.len() && v0[k] == x;
                        assert(k != d);
                        if k < d {
                            assert(v1[k] == x);
                        } else {
                            assert(v1[k - 1] == x);
                        }
                    }
                    assert(sorted(v1) && unique_ids(v1)) by {
                        assert forall|p: int, q: int| 0 <= p < q < v1.len()
                            implies meta_le(v1[p], v1[q]) && v1[p].id != v1[q].id by {
                            let p0 = if p < d { p } else { p + 1 };
                            let q0 = if q < d { q } else { q + 1 };
                            assert(v1[p] == v0[p0] && v1[q] == v0[q0]);
                        }
                    }
                }
            },
            None => {
                proof {
                    if v0.contains(m@) {
                        let k = choose|k: int| 0 <= k < v0.len() && v0[k] == m@;
                        assert(v0[k].id != m@.id);
                        assert(false);
                    }
                }
            },
        }
        let ghost v1 = self@;
        proof {
            assert forall|x: MetaView| #[trigger] v1.contains(x)
                implies v0.contains(x) && x.id != m@.id by {
                if v1 == v0 {
                    let k = choose|k: int| 0 <= k < v1.len() && v1[k] == x;
                    assert(v0[k].id != m@.id);
                }
            }
        }
        // Insert at the sorted position.
        let j = self.insert_pos(&m);
        proof {
            if (j as int) < v1.len() {
                lemma_meta_le_total(v1[j as int], m@);
                assert(meta_le(m@, v1[j as int]));
            }
        }
        let ghost jj = j as int;
        self.entries.insert(j, m);
        proof {
            let v2 = self@;
            let mv = v1.insert(jj, m@);
            assert(v2 =~= mv);
            v1.insert_ensures(jj, m@);
            assert(v2[jj] == m@);
            assert(v2.contains(m@));
            assert forall|x: MetaView| #[trigger] v2.contains(x)
                implies x == m@ || (v0.contains(x) && x.id != m@.id) by {
                let k = choose|k: int| 0 <= k < v2.len() && v2[k] == x;
                if k < jj {
                    assert(v1[k] == x);
                } else if k > jj {
                    assert(v1[k - 1] == x);
                }
            }
            assert forall|x: MetaView| v0.contains(x) && x.id != m@.id
                implies v2.contains(x) by {
                assert(v1.contains(x));
                let k = choose|k: int| 0 <= k < v1.len() && v1[k] == x;
                if k < jj {
                    assert(v2[k] == x);
                } else {
                    assert(v2[k + 1] == x);
                }
            }
            assert(sorted(v2)) by {
                assert forall|p: int, q: int| 0 <= p < q < v2.len()
                    implies meta_le(v2[p], v2[q]) by {
                    if p < jj && q == jj {
                        assert(v2[p] == v1[p]);
                        assert(meta_le(v1[p], m@));
                    } else if p == jj && q > jj {
                        assert(v2[q] == v1[q - 1]);
                        if q - 1 > jj {
                            assert(meta_le(v1[jj], v1[q - 1]));
                            lemma_meta_le_trans(m@, v1[jj], v1[q - 1]);
                        }
                    } else if p < jj && q > jj {
                        assert(v2[p] == v1[p] && v2[q] == v1[q - 1]);
                        if q - 1 == p {
                            lemma_meta_le_total(v1[p], v1[p]);
                        } else {
                            assert(meta_le(v1[p], v1[q - 1]));
                        }
                    } else if q < jj {
                        assert(v2[p] == v1[p] && v2[q] == v1[q]);
                    } else if p > jj {
                        assert(v2[p] == v1[p - 1] && v2[q] == v1[q - 1]);
                    }
                }
            }
            assert(unique_ids(v2)) by {
                assert forall|p: int, q: int| 0 <= p < q < v2.len()
                    implies v2[p].id != v2[q].id by {
                    if p != jj && q != jj {
                        let p0 = if p < jj { p } else { p - 1 };
                        let q0 = if q < jj { q } else { q - 1 };
                        assert(v2[p] == v1[p0] && v2[q] == v1[q0]);
                    } else if p == jj {
                        assert(v2[q] == v1[q - 1]);
                        assert(v1.contains(v1[q - 1]));
                    } else {
                        assert(v2[p] == v1[p]);
                        assert(v1.contains(v1[p]));
                    }
                }
            }
        }
    }

    /// Drops the record for the given identifier, if one is cached; the
    /// listing order of the rest is unchanged, and removing an absent
    /// identifier changes nothing.
    pub fn remove(&mut self, id: PromptId)
        requires
            old(self).wf(),
        ensures
            final(self).wf(),
            forall|i: int| 0 <= i < final(self)@.len() ==> final(self)@[i].id != id,
            forall|x: MetaView| #[trigger] final(self)@.contains(x)
                ==> old(self)@.contains(x) && x.id != id,
            forall|x: MetaView| old(self)@.contains(x) && x.id != id
                ==> final(self)@.contains(x),
            (forall|i: int| 0 <= i < old(self)@.len() ==> (#[trigger] old(self)@[i]).id != id)
                ==> final(self)@ == old(self)@,
            (exists|k: int| 0 <= k < old(self)@.len() && (#[trigger] old(self)@[k]).id == id)
                ==> exists|k: int|
                0 <= k < old(self)@.len() && (#[trigger] old(self)@[k]).id == id && final(self)@
                    == old(self)@.remove(k),
    {
        let ghost v0 = self@;
        match self.position_of(id) {
            Some(i) => {
                self.entries.remove(i);
                proof {
                    assert(self@ =~= v0.remove(i as int));
                    v0.remove_ensures(i as int);
                    let v1 = self@;
                    let d = i as int;
                    assert(v0[d].id == id);
                    assert forall|k: int| 0 <= k < v1.len() implies v1[k].id != id by {
                        if k < d {
                            assert(v1[k] == v0[k]);
                        } else {
                            assert(v1[k] == v0[k + 1]);
                        }
                    }
                    assert forall|x: MetaView| #[trigger] v1.contains(x)
                        implies v0.contains(x) && x.id != id by {
                        let k = choose|k: int| 0 <= k < v1.len() && v1[k] == x;
                        if k < d {
                            assert(v0[k] == x);
                        } else {
                            assert(v0[k + 1] == x);
                        }
                    }
                    assert forall|x: MetaView| v0.contains(x) && x.id != id
                        implies v1.contains(x) by {
                        let k = choose|k: int| 0 <= k < v0.len() && v0[k] == x;
                        assert(k != d);
                        if k < d {
                            assert(v1[k] == x);
                        } else {
                            assert(v1[k - 1] == x);
                        }
                    }
                    assert(sorted(v1) && unique_ids(v1)) by {
                        assert forall|p: int, q: int| 0 <= p < q < v1.len()
                            implies meta_le(v1[p], v1[q]) && v1[p].id != v1[q].id by {
                            let p0 = if p < d { p } else { p + 1 };
                            let q0 = if q < d { q } else { q + 1 };
                            assert(v1[p] == v0[p0] && v1[q] == v0[q0]);
                        }
                    }
                }
            },
            None => {},
        }
    }
}

} // verus!
