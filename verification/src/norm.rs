//! Line-ending normalization: body text is stored as written but is
//! normalized on load, turning every `\r\n` pair and every lone `\r` into a
//! single `\n`.

use vstd::prelude::*;
use vstd::string::StrSliceExecFns;
use vstd::string::StringExecFns;

verus! {

/// The text with every `\r\n` and every lone `\r` replaced by `\n`.
pub open spec fn norm(s: Seq<char>) -> Seq<char>
    decreases s.len(),
{
    if s.len() == 0 {
        Seq::empty()
    } else if s[0] == '\r' && s.len() >= 2 && s[1] == '\n' {
        seq!['\n'] + norm(s.skip(2))
    } else if s[0] == '\r' {
        seq!['\n'] + norm(s.skip(1))
    } else {
        seq![s[0]] + norm(s.skip(1))
    }
}

/// Normalizes line endings in the given text.
pub fn normalize_line_endings(s: &str) -> (r: String)
    ensures
        r@ == norm(s@),
{
    proof {
        reveal_strlit("\n");
    }
    let n = s.unicode_len();
    let mut out = String::new();
    let mut i: usize = 0;
    proof {
        assert(s@.skip(0) =~= s@);
        assert(out@ + norm(s@) =~= norm(s@));
    }
    while i < n
        invariant
            i <= n,
            n == s@.len(),
            norm(s@) == out@ + norm(s@.skip(i as int)),
        decreases n - i,
    {
        let ghost out0 = out@;
        let ghost rest = s@.skip(i as int);
        proof {
            assert(rest[0] == s@[i as int]);
        }
        let c = s.get_char(i);
        if c == '\r' {
            out.append("\n");
            proof {
                reveal_strlit("\n");
                assert(out@ =~= out0 + seq!['\n']);
            }
            if i + 1 < n && s.get_char(i + 1) == '\n' {
                proof {
                    assert(rest[1] == s@[i as int + 1]);
                    assert(norm(rest) == seq!['\n'] + norm(rest.skip(2)));
                    assert(rest.skip(2) =~= s@.skip(i as int + 2));
                    assert(out0 + (seq!['\n'] + norm(rest.skip(2)))
                        =~= (out0 + seq!['\n']) + norm(rest.skip(2)));
                }
                i = i + 2;
            } else {
                proof {
                    if rest.len() >= 2 {
                        assert(rest[1] == s@[i as int + 1]);
                    }
                    assert(norm(rest) == seq!['\n'] + norm(rest.skip(1)));
                    assert(rest.skip(1) =~= s@.skip(i as int + 1));
                    assert(out0 + (seq!['\n'] + norm(rest.skip(1)))
                        =~= (out0 + seq!['\n']) + norm(rest.skip(1)));
                }
                i = i + 1;
            }
        } else {
            let piece = s.substring_char(i, i + 1);
            out.append(piece);
            proof {
                assert(piece@ =~= seq![s@[i as int]]);
                assert(norm(rest) == seq![rest[0]] + norm(rest.skip(1)));
                assert(rest.skip(1) =~= s@.skip(i as int + 1));
                assert(out0 + (seq![rest[0]] + norm(rest.skip(1)))
                    =~= (out0 + seq![rest[0]]) + norm(rest.skip(1)));
                assert(out@ =~= out0 + seq![rest[0]]);
            }
            i = i + 1;
        }
    }
    proof {
        assert(s@.skip(n as int) =~= Seq::<char>::empty());
        assert(out@ =~= norm(s@));
    }
    out
}

} // verus!
