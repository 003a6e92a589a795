//! Fixed-width lowercase hexadecimal rendering of unsigned values, used by
//! the on-disk record format. Encoding and decoding are verified inverses.

use vstd::prelude::*;
use vstd::arithmetic::div_mod::{lemma_fundamental_div_mod, lemma_div_pos_is_pos};
use vstd::string::StrSliceExecFns;
use vstd::string::StringExecFns;

verus! {

/// 16 raised to the given power.
pub open spec fn pow16(n: nat) -> int
    decreases n,
{
    if n == 0 {
        1
    } else {
        16 * pow16((n - 1) as nat)
    }
}

pub proof fn lemma_pow16_pos(n: nat)
    ensures
        pow16(n) >= 1,
    decreases n,
{
    if n > 0 {
        lemma_pow16_pos((n - 1) as nat);
    }
}

pub proof fn lemma_pow16_mono(a: nat, b: nat)
    requires
        a <= b,
    ensures
        pow16(a) <= pow16(b),
    decreases b,
{
    if a < b {
        lemma_pow16_mono(a, (b - 1) as nat);
        lemma_pow16_pos((b - 1) as nat);
    }
}

/// Every 128-bit value fits in 32 hexadecimal digits.
pub proof fn lemma_pow16_32_huge()
    ensures
        pow16(32) == 0x100000000000000000000000000000000int,
{
    reveal_with_fuel(pow16, 33);
}

pub open spec fn hex_digit_char(d: int) -> char {
    if d == 0 { '0' }
    else if d == 1 { '1' }
    else if d == 2 { '2' }
    else if d == 3 { '3' }
    else if d == 4 { '4' }
    else if d == 5 { '5' }
    else if d == 6 { '6' }
    else if d == 7 { '7' }
    else if d == 8 { '8' }
    else if d == 9 { '9' }
    else if d == 10 { 'a' }
    else if d == 11 { 'b' }
    else if d == 12 { 'c' }
    else if d == 13 { 'd' }
    else if d == 14 { 'e' }
    else { 'f' }
}

pub open spec fn is_hex_digit(c: char) -> bool {
    c == '0' || c == '1' || c == '2' || c == '3' || c == '4' || c == '5' || c == '6'
        || c == '7' || c == '8' || c == '9' || c == 'a' || c == 'b' || c == 'c'
        || c == 'd' || c == 'e' || c == 'f'
}

pub open spec fn hex_digit_val(c: char) -> int {
    if c == '0' { 0 }
    else if c == '1' { 1 }
    else if c == '2' { 2 }
    else if c == '3' { 3 }
    else if c == '4' { 4 }
    else if c == '5' { 5 }
    else if c == '6' { 6 }
    else if c == '7' { 7 }
    else if c == '8' { 8 }
    else if c == '9' { 9 }
    else if c == 'a' { 10 }
    else if c == 'b' { 11 }
    else if c == 'c' { 12 }
    else if c == 'd' { 13 }
    else if c == 'e' { 14 }
    else { 15 }
}

pub open spec fn all_hex(s: Seq<char>) -> bool {
    forall|i: int| 0 <= i < s.len() ==> is_hex_digit(#[trigger] s[i])
}

/// The given value rendered as exactly `w` hex digits, most significant
/// first; digits beyond the value's magnitude are leading zeros.
pub open spec fn hex_of(x: int, w: nat) -> Seq<char>
    decreases w,
{
    if w == 0 {
        Seq::empty()
    } else {
        hex_of(x / 16, (w - 1) as nat).push(hex_digit_char(x % 16))
    }
}

/// The value a sequence of hex digits denotes, most significant first.
pub open spec fn hex_val(s: Seq<char>) -> int
    decreases s.len(),
{
    if s.len() == 0 {
        0
    } else {
        hex_val(s.drop_last()) * 16 + hex_digit_val(s.last())
    }
}

pub proof fn lemma_hex_of_len(x: int, w: nat)
    ensures
        hex_of(x, w).len() == w,
    decreases w,
{
    if w > 0 {
        lemma_hex_of_len(x / 16, (w - 1) as nat);
    }
}

pub proof fn lemma_hex_of_all_hex(x: int, w: nat)
    requires
        x >= 0,
    ensures
        all_hex(hex_of(x, w)),
    decreases w,
{
    if w > 0 {
        lemma_div_pos_is_pos(x, 16);
        lemma_hex_of_all_hex(x / 16, (w - 1) as nat);
        let s = hex_of(x / 16, (w - 1) as nat);
        assert(is_hex_digit(hex_digit_char(x % 16)));
        assert(forall|i: int| 0 <= i < s.push(hex_digit_char(x % 16)).len()
            ==> is_hex_digit(#[trigger] s.push(hex_digit_char(x % 16))[i]));
    }
}

/// Decoding recovers the encoded value.
pub proof fn lemma_hex_val_of(x: int, w: nat)
    requires
        0 <= x < pow16(w),
    ensures
        hex_val(hex_of(x, w)) == x,
    decreases w,
{
    if w == 0 {
        assert(x == 0);
    } else {
        lemma_div_pos_is_pos(x, 16);
        assert(x / 16 < pow16((w - 1) as nat)) by {
            lemma_pow16_pos((w - 1) as nat);
            assert(x < 16 * pow16((w - 1) as nat));
            assert(x / 16 < pow16((w - 1) as nat)) by (nonlinear_arith)
                requires
                    x >= 0,
                    x < 16 * pow16((w - 1) as nat),
            ;
        }
        lemma_hex_val_of(x / 16, (w - 1) as nat);
        let s = hex_of(x / 16, (w - 1) as nat);
        let c = hex_digit_char(x % 16);
        assert(s.push(c).drop_last() =~= s);
        assert(s.push(c).last() == c);
        assert(hex_digit_val(c) == x % 16);
        lemma_fundamental_div_mod(x, 16);
    }
}

pub proof fn lemma_hex_val_bound(s: Seq<char>)
    requires
        all_hex(s),
    ensures
        0 <= hex_val(s) < pow16(s.len()),
    decreases s.len(),
{
    if s.len() > 0 {
        assert(all_hex(s.drop_last()));
        lemma_hex_val_bound(s.drop_last());
        let v = hex_val(s.drop_last());
        let n = (s.len() - 1) as nat;
        assert(0 <= hex_digit_val(s.last()) < 16);
        assert(v * 16 + hex_digit_val(s.last()) < pow16(n + 1)) by (nonlinear_arith)
            requires
                0 <= v < pow16(n),
                0 <= hex_digit_val(s.last()) < 16,
                pow16(n + 1) == 16 * pow16(n),
        ;
        assert(v * 16 >= 0) by (nonlinear_arith)
            requires
                v >= 0,
        ;
    }
}

/// A sequence of hex digits is the canonical rendering of its value.
pub proof fn lemma_hex_of_val(s: Seq<char>)
    requires
        all_hex(s),
    ensures
        hex_of(hex_val(s), s.len()) == s,
    decreases s.len(),
{
    if s.len() > 0 {
        assert(all_hex(s.drop_last()));
        lemma_hex_of_val(s.drop_last());
        lemma_hex_val_bound(s.drop_last());
        let v = hex_val(s.drop_last());
        let d = hex_digit_val(s.last());
        let x = v * 16 + d;
        assert(x / 16 == v && x % 16 == d) by (nonlinear_arith)
            requires
                0 <= v,
                0 <= d < 16,
                x == v * 16 + d,
        ;
        assert(hex_digit_char(hex_digit_val(s.last())) == s.last());
        assert(hex_of(hex_val(s), s.len()) =~= s);
    }
}

pub fn hex_digit_str(d: u8) -> (r: &'static str)
    requires
        d < 16,
    ensures
        r@ =~= seq![hex_digit_char(d as int)],
{
    if d == 0 { proof { reveal_strlit("0"); } "0" }
    else if d == 1 { proof { reveal_strlit("1"); } "1" }
    else if d == 2 { proof { reveal_strlit("2"); } "2" }
    else if d == 3 { proof { reveal_strlit("3"); } "3" }
    else if d == 4 { proof { reveal_strlit("4"); } "4" }
    else if d == 5 { proof { reveal_strlit("5"); } "5" }
    else if d == 6 { proof { reveal_strlit("6"); } "6" }
    else if d == 7 { proof { reveal_strlit("7"); } "7" }
    else if d == 8 { proof { reveal_strlit("8"); } "8" }
    else if d == 9 { proof { reveal_strlit("9"); } "9" }
    else if d == 10 { proof { reveal_strlit("a"); } "a" }
    else if d == 11 { proof { reveal_strlit("b"); } "b" }
    else if d == 12 { proof { reveal_strlit("c"); } "c" }
    else if d == 13 { proof { reveal_strlit("d"); } "d" }
    else if d == 14 { proof { reveal_strlit("e"); } "e" }
    else { proof { reveal_strlit("f"); } "f" }
}

/// Renders `x` as exactly `width` lowercase hex digits, most significant
/// first.
pub fn hex_enc(x: u128, width: usize) -> (r: String)
    ensures
        r@ == hex_of(x as int, width as nat),
        r@.len() == width,
    decreases width,
{
    proof {
        lemma_hex_of_len(x as int, width as nat);
    }
    if width == 0 {
        String::new()
    } else {
        let mut s = hex_enc(x / 16, width - 1);
        let d: u8 = (x % 16) as u8;
        s.append(hex_digit_str(d));
        proof {
            assert(s@ =~= hex_of(x as int, width as nat));
        }
        s
    }
}

pub fn hex_digit_val_exec(c: char) -> (r: Option<u8>)
    ensures
        is_hex_digit(c) ==> r == Some(hex_digit_val(c) as u8),
        !is_hex_digit(c) ==> r is None,
{
    match c {
        '0' => Some(0u8),
        '1' => Some(1u8),
        '2' => Some(2u8),
        '3' => Some(3u8),
        '4' => Some(4u8),
        '5' => Some(5u8),
        '6' => Some(6u8),
        '7' => Some(7u8),
        '8' => Some(8u8),
        '9' => Some(9u8),
        'a' => Some(10u8),
        'b' => Some(11u8),
        'c' => Some(12u8),
        'd' => Some(13u8),
        'e' => Some(14u8),
        'f' => Some(15u8),
        _ => None,
    }
}

/// Parses the `width` characters of `s` starting at `from` as hex digits.
pub fn hex_dec(s: &str, from: usize, width: usize) -> (r: Option<u128>)
    requires
        from + width <= s@.len(),
        from + width <= usize::MAX,
        width <= 32,
    ensures
        all_hex(s@.subrange(from as int, from as int + width as int))
            ==> r == Some(hex_val(s@.subrange(from as int, from as int + width as int)) as u128),
        !all_hex(s@.subrange(from as int, from as int + width as int)) ==> r is None,
{
    let ghost sub = s@.subrange(from as int, from as int + width as int);
    let mut acc: u128 = 0;
    let mut i: usize = 0;
    while i < width
        invariant
            i <= width,
            width <= 32,
            from + width <= s@.len(),
            from + width <= usize::MAX,
            sub == s@.subrange(from as int, from as int + width as int),
            all_hex(sub.take(i as int)),
            (acc as int) == hex_val(sub.take(i as int)),
            (acc as int) < pow16(i as nat),
        decreases width - i,
    {
        let c = s.get_char(from + i);
        proof {
            assert(sub[i as int] == c);
        }
        match hex_digit_val_exec(c) {
            None => {
                proof {
                    assert(!is_hex_digit(sub[i as int]));
                    assert(!all_hex(sub));
                }
                return None;
            },
            Some(d) => {
                proof {
                    lemma_pow16_mono((i + 1) as nat, 32);
                    lemma_pow16_32_huge();
                    assert((acc as int) * 16 + d < pow16((i + 1) as nat)) by (nonlinear_arith)
                        requires
                            (acc as int) < pow16(i as nat),
                            0 <= acc,
                            0 <= d < 16,
                            pow16((i + 1) as nat) == 16 * pow16(i as nat),
                    ;
                }
                let next: u128 = acc * 16 + (d as u128);
                proof {
                    let t1 = sub.take(i as int + 1);
                    assert(t1.drop_last() =~= sub.take(i as int));
                    assert(t1.last() == sub[i as int]);
                    assert((next as int) == hex_val(t1));
                    assert(all_hex(t1));
                }
                acc = next;
            },
        }
        i += 1;
    }
    proof {
        assert(sub.take(width as int) =~= sub);
    }
    Some(acc)
}

} // verus!
