//! Identifiers for prompt entries.
//!
//! An identifier is either a freshly generated random 128-bit value (a user
//! entry) or one of a small fixed set of built-in kinds. Built-in entries are
//! immutable: they reject mutation and deletion.

use vstd::prelude::*;
use vstd::string::StringExecFns;
use crate::hex::{hex_of, hex_enc, lemma_hex_of_len, lemma_hex_val_of, lemma_pow16_32_huge};

verus! {

/// A stable key naming one prompt entry, tagged as user-generated or
/// built-in.
#[derive(Clone, Copy, Debug, PartialEq, Eq, Hash, Structural)]
pub enum PromptId {
    User { uuid: u128 },
    EditWorkflow,
}

impl PromptId {
    /// Whether this identifier names a built-in entry.
    pub open spec fn spec_is_built_in(&self) -> bool {
        !(self is User)
    }

    #[verifier::when_used_as_spec(spec_is_built_in)]
    pub fn is_built_in(&self) -> (r: bool)
        ensures
            r == self.spec_is_built_in(),
    {
        !matches!(self, PromptId::User { .. })
    }

    /// Allocates a fresh user identifier from a random 128-bit value.
    pub fn new() -> (r: PromptId)
        ensures
            !r.spec_is_built_in(),
    {
        PromptId::User { uuid: fresh_uuid() }
    }
}

/// Relies on uuid::Uuid::new_v4, which draws a random version-4 UUID; nothing
/// is promised of the value.
#[verifier::external_body]
fn fresh_uuid() -> u128 {
    uuid::Uuid::new_v4().as_u128()
}

/// The key under which an identifier is stored: `u` followed by 32 hex
/// digits for a user entry, the single letter `w` for the built-in one.
pub open spec fn enc_id(id: PromptId) -> Seq<char> {
    match id {
        PromptId::User { uuid } => seq!['u'] + hex_of(uuid as int, 32),
        PromptId::EditWorkflow => seq!['w'],
    }
}

/// Distinct identifiers have distinct keys.
pub proof fn lemma_enc_id_injective(a: PromptId, b: PromptId)
    requires
        enc_id(a) == enc_id(b),
    ensures
        a == b,
{
    lemma_pow16_32_huge();
    match (a, b) {
        (PromptId::User { uuid: ua }, PromptId::User { uuid: ub }) => {
            let ha = hex_of(ua as int, 32);
            let hb = hex_of(ub as int, 32);
            lemma_hex_of_len(ua as int, 32);
            lemma_hex_of_len(ub as int, 32);
            assert(ha =~= hb) by {
                assert(forall|i: int| 0 <= i < 32 ==> #[trigger] ha[i] == (seq!['u'] + ha)[i + 1]);
                assert(forall|i: int| 0 <= i < 32 ==> #[trigger] hb[i] == (seq!['u'] + hb)[i + 1]);
                assert(seq!['u'] + ha == seq!['u'] + hb);
            }
            lemma_hex_val_of(ua as int, 32);
            lemma_hex_val_of(ub as int, 32);
            assert(ua as int == ub as int);
            assert(a == b);
        },
        (PromptId::User { uuid: ua }, PromptId::EditWorkflow) => {
            lemma_hex_of_len(ua as int, 32);
            assert(enc_id(a).len() == 33);
            assert(enc_id(b).len() == 1);
            assert(false);
        },
        (PromptId::EditWorkflow, PromptId::User { uuid: ub }) => {
            lemma_hex_of_len(ub as int, 32);
            assert(enc_id(a).len() == 1);
            assert(enc_id(b).len() == 33);
            assert(false);
        },
        (PromptId::EditWorkflow, PromptId::EditWorkflow) => {
            assert(a == b);
        },
    }
}

impl PromptId {
    /// Renders the storage key for this identifier.
    pub fn encode(&self) -> (r: String)
        ensures
            r@ == enc_id(*self),
    {
        match *self {
            PromptId::User { uuid } => {
                proof {
                    reveal_strlit("u");
                }
                let mut s = "u".to_owned();
                let h = hex_enc(uuid, 32);
                s.append(h.as_str());
                proof {
                    assert(s@ =~= enc_id(*self));
                }
                s
            },
            PromptId::EditWorkflow => {
                proof {
                    reveal_strlit("w");
                }
                let s = "w".to_owned();
                proof {
                    assert(s@ =~= enc_id(*self));
                }
                s
            },
        }
    }
}

} // verus!
