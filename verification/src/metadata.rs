//! The metadata record kept for every prompt entry: identifier, optional
//! title, default-flag and the timestamp of the last persisted save; and the
//! self-describing text format under which a record is stored durably.
//!
//! A stored record reads, in order: the identifier key, a line break, `1` or
//! `0` for the default-flag, a line break, the save timestamp as 16 hex
//! digits, a line break, and `t` followed by the title (or the single letter
//! `n` when the entry has none). The title stands last and unterminated, so
//! it may contain any character.

use vstd::prelude::*;
use vstd::string::StrSliceExecFns;
use vstd::string::StringExecFns;
use crate::ids::{PromptId, enc_id};
use crate::hex::{
    pow16, hex_of, hex_val, all_hex, hex_enc, hex_dec, lemma_hex_of_len,
    lemma_hex_of_all_hex, lemma_hex_val_of, lemma_hex_val_bound, lemma_pow16_32_huge,
};

verus! {

/// One entry's descriptive record.
#[derive(Clone, Debug)]
pub struct PromptMetadata {
    pub id: PromptId,
    pub title: Option<String>,
    pub default: bool,
    pub saved_at: u64,
}

/// The mathematical value of a metadata record.
pub ghost struct MetaView {
    pub id: PromptId,
    pub title: Option<Seq<char>>,
    pub default: bool,
    pub saved_at: u64,
}

impl View for PromptMetadata {
    type V = MetaView;

    open spec fn view(&self) -> MetaView {
        MetaView {
            id: self.id,
            title: match self.title {
                Some(t) => Some(t@),
                None => None,
            },
            default: self.default,
            saved_at: self.saved_at,
        }
    }
}

/// Sixteen hex digits cover every 64-bit timestamp.
pub proof fn lemma_pow16_16_value()
    ensures
        pow16(16) == 0x10000000000000000int,
{
    reveal_with_fuel(pow16, 17);
}

/// The stored rendering of a record.
pub open spec fn enc_meta(m: MetaView) -> Seq<char> {
    enc_id(m.id) + seq!['\n'] + (if m.default {
        seq!['1']
    } else {
        seq!['0']
    }) + seq!['\n'] + hex_of(m.saved_at as int, 16) + seq!['\n'] + (match m.title {
        Some(t) => seq!['t'] + t,
        None => seq!['n'],
    })
}

/// The fields that follow an identifier of length `l` in a stored record.
pub open spec fn dec_fields(s: Seq<char>, l: int, id: PromptId) -> Option<MetaView> {
    if s.len() >= l + 21 && s[l] == '\n' && (s[l + 1] == '0' || s[l + 1] == '1')
        && s[l + 2] == '\n' && all_hex(s.subrange(l + 3, l + 19)) && s[l + 19] == '\n'
        && (s[l + 20] == 'n' || s[l + 20] == 't') && (s[l + 20] == 'n' ==> s.len() == l + 21) {
        Some(
            MetaView {
                id,
                title: if s[l + 20] == 't' {
                    Some(s.subrange(l + 21, s.len() as int))
                } else {
                    None
                },
                default: s[l + 1] == '1',
                saved_at: hex_val(s.subrange(l + 3, l + 19)) as u64,
            },
        )
    } else {
        None
    }
}

/// What a stored string denotes, if it is a well-formed record.
pub open spec fn dec_meta(s: Seq<char>) -> Option<MetaView> {
    if s.len() >= 33 && s[0] == 'u' && all_hex(s.subrange(1, 33)) {
        dec_fields(s, 33, PromptId::User { uuid: hex_val(s.subrange(1, 33)) as u128 })
    } else if s.len() >= 1 && s[0] == 'w' {
        dec_fields(s, 1, PromptId::EditWorkflow)
    } else {
        None
    }
}

/// Renders a record in the stored format.
pub fn encode_meta(m: &PromptMetadata) -> (r: String)
    ensures
        r@ == enc_meta(m@),
{
    proof {
        reveal_strlit("\n");
        reveal_strlit("0");
        reveal_strlit("1");
        reveal_strlit("t");
        reveal_strlit("n");
    }
    let mut s = m.id.encode();
    s.append("\n");
    if m.default {
        s.append("1");
    } else {
        s.append("0");
    }
    s.append("\n");
    let h = hex_enc(m.saved_at as u128, 16);
    s.append(h.as_str());
    s.append("\n");
    match &m.title {
        Some(t) => {
            s.append("t");
            s.append(t.as_str());
        },
        None => {
            s.append("n");
        },
    }
    proof {
        assert(s@ =~= enc_meta(m@));
    }
    s
}

fn decode_fields(s: &str, l: usize, id: PromptId, n: usize) -> (r: Option<PromptMetadata>)
    requires
        n == s@.len(),
        l <= 33,
    ensures
        match r {
            Some(m) => dec_fields(s@, l as int, id) == Some(m@),
            None => dec_fields(s@, l as int, id) is None,
        },
{
    proof {
        reveal_strlit("\n");
    }
    if n < l + 21 {
        return None;
    }
    if !(s.get_char(l) == '\n') {
        return None;
    }
    let d = s.get_char(l + 1);
    if !(d == '0' || d == '1') {
        return None;
    }
    if !(s.get_char(l + 2) == '\n') {
        return None;
    }
    let ts = match hex_dec(s, l + 3, 16) {
        None => {
            return None;
        },
        Some(v) => v,
    };
    if !(s.get_char(l + 19) == '\n') {
        return None;
    }
    proof {
        lemma_hex_val_bound(s@.subrange(l as int + 3, l as int + 19));
        lemma_pow16_16_value();
    }
    let tag = s.get_char(l + 20);
    if tag == 'n' {
        if n != l + 21 {
            return None;
        }
        Some(PromptMetadata { id, title: None, default: d == '1', saved_at: ts as u64 })
    } else if tag == 't' {
        let t = s.substring_char(l + 21, n).to_owned();
        Some(PromptMetadata { id, title: Some(t), default: d == '1', saved_at: ts as u64 })
    } else {
        None
    }
}

/// Reads a record back from the stored format; `None` on anything
/// malformed.
pub fn decode_meta(s: &str) -> (r: Option<PromptMetadata>)
    ensures
        match r {
            Some(m) => dec_meta(s@) == Some(m@),
            None => dec_meta(s@) is None,
        },
{
    proof {
        reveal_strlit("u");
        reveal_strlit("w");
    }
    let n = s.unicode_len();
    if n == 0 {
        return None;
    }
    let c0 = s.get_char(0);
    if c0 == 'u' {
        if n < 54 {
            return None;
        }
        match hex_dec(s, 1, 32) {
            None => None,
            Some(u) => decode_fields(s, 33, PromptId::User { uuid: u }, n),
        }
    } else if c0 == 'w' {
        decode_fields(s, 1, PromptId::EditWorkflow, n)
    } else {
        None
    }
}

/// What a legacy-schema record denotes. The legacy layout keyed entries by
/// a bare 32-hex-digit UUID without a tag, and a record opens with that bare
/// identifier; the fields that follow it are laid out as in the current
/// schema.
pub open spec fn dec_legacy_meta(s: Seq<char>) -> Option<MetaView> {
    if s.len() >= 32 && all_hex(s.subrange(0, 32)) {
        dec_fields(s, 32, PromptId::User { uuid: hex_val(s.subrange(0, 32)) as u128 })
    } else {
        None
    }
}

/// Reads a legacy-schema record; `None` on anything malformed.
pub fn decode_legacy_meta(s: &str) -> (r: Option<PromptMetadata>)
    ensures
        match r {
            Some(m) => dec_legacy_meta(s@) == Some(m@),
            None => dec_legacy_meta(s@) is None,
        },
{
    let n = s.unicode_len();
    if n < 32 {
        return None;
    }
    match hex_dec(s, 0, 32) {
        None => None,
        Some(u) => decode_fields(s, 32, PromptId::User { uuid: u }, n),
    }
}

/// Decoding a rendered record recovers the record.
pub proof fn lemma_meta_round_trip(m: MetaView)
    ensures
        dec_meta(enc_meta(m)) == Some(m),
{
    let e = enc_meta(m);
    let idp = enc_id(m.id);
    let dfl: Seq<char> = if m.default {
        seq!['1']
    } else {
        seq!['0']
    };
    let hx = hex_of(m.saved_at as int, 16);
    let tail: Seq<char> = match m.title {
        Some(t) => seq!['t'] + t,
        None => seq!['n'],
    };
    lemma_pow16_16_value();
    lemma_pow16_32_huge();
    lemma_hex_of_len(m.saved_at as int, 16);
    lemma_hex_of_all_hex(m.saved_at as int, 16);
    lemma_hex_val_of(m.saved_at as int, 16);
    let l = idp.len() as int;
    match m.id {
        PromptId::User { uuid } => {
            lemma_hex_of_len(uuid as int, 32);
            lemma_hex_of_all_hex(uuid as int, 32);
            lemma_hex_val_of(uuid as int, 32);
            assert(l == 33);
        },
        PromptId::EditWorkflow => {
            assert(l == 1);
        },
    }
    assert(e.len() == l + 20 + tail.len());
    assert(e.subrange(0, l) =~= idp);
    assert(e[l] == '\n');
    assert(e[l + 1] == dfl[0]);
    assert(e[l + 2] == '\n');
    assert(e.subrange(l + 3, l + 19) =~= hx);
    assert(e[l + 19] == '\n');
    assert(e[l + 20] == tail[0]);
    assert(e.subrange(l + 21, e.len() as int) =~= tail.subrange(1, tail.len() as int));
    match m.id {
        PromptId::User { uuid } => {
            assert(e[0] == 'u');
            assert(e.subrange(1, 33) =~= hex_of(uuid as int, 32));
            assert(hex_val(e.subrange(1, 33)) as u128 == uuid);
        },
        PromptId::EditWorkflow => {
            assert(e[0] == 'w');
            assert(e[0] != 'u');
        },
    }
    assert(hex_val(e.subrange(l + 3, l + 19)) as u64 == m.saved_at);
    match m.title {
        Some(t) => {
            assert(tail[0] == 't');
            assert(e.subrange(l + 21, e.len() as int) =~= t);
        },
        None => {
            assert(tail[0] == 'n');
            assert(e.len() == l + 21);
        },
    }
    assert(dec_meta(e) == Some(m));
}

} // verus!
