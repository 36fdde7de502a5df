//! Decimal and hexadecimal digit rendering, and a fixed-width decimal
//! number encoding with a proved round trip.  These are the numeric
//! building blocks of the snapshot document format and of the uuid
//! rendering.

use vstd::prelude::*;

verus! {

/// The character for a decimal digit value below ten.
pub open spec fn spec_digit_char(d: int) -> char {
    if d == 0 {
        '0'
    } else if d == 1 {
        '1'
    } else if d == 2 {
        '2'
    } else if d == 3 {
        '3'
    } else if d == 4 {
        '4'
    } else if d == 5 {
        '5'
    } else if d == 6 {
        '6'
    } else if d == 7 {
        '7'
    } else if d == 8 {
        '8'
    } else {
        '9'
    }
}

/// The value of a decimal digit character, `None` for any other character.
pub open spec fn spec_digit_val(c: char) -> Option<int> {
    if c == '0' {
        Some(0int)
    } else if c == '1' {
        Some(1int)
    } else if c == '2' {
        Some(2int)
    } else if c == '3' {
        Some(3int)
    } else if c == '4' {
        Some(4int)
    } else if c == '5' {
        Some(5int)
    } else if c == '6' {
        Some(6int)
    } else if c == '7' {
        Some(7int)
    } else if c == '8' {
        Some(8int)
    } else if c == '9' {
        Some(9int)
    } else {
        None
    }
}

pub proof fn lemma_digit_roundtrip(d: int)
    requires
        0 <= d < 10,
    ensures
        spec_digit_val(spec_digit_char(d)) == Some(d),
{
}

fn digit_char(d: u8) -> (c: char)
    requires
        d < 10,
    ensures
        c == spec_digit_char(d as int),
{
    if d == 0 {
        '0'
    } else if d == 1 {
        '1'
    } else if d == 2 {
        '2'
    } else if d == 3 {
        '3'
    } else if d == 4 {
        '4'
    } else if d == 5 {
        '5'
    } else if d == 6 {
        '6'
    } else if d == 7 {
        '7'
    } else if d == 8 {
        '8'
    } else {
        '9'
    }
}

fn digit_val(c: char) -> (r: Option<u8>)
    ensures
        match r {
            Some(d) => spec_digit_val(c) == Some(d as int),
            None => spec_digit_val(c) is None,
        },
{
    if c == '0' {
        Some(0)
    } else if c == '1' {
        Some(1)
    } else if c == '2' {
        Some(2)
    } else if c == '3' {
        Some(3)
    } else if c == '4' {
        Some(4)
    } else if c == '5' {
        Some(5)
    } else if c == '6' {
        Some(6)
    } else if c == '7' {
        Some(7)
    } else if c == '8' {
        Some(8)
    } else if c == '9' {
        Some(9)
    } else {
        None
    }
}

/// The character for a hexadecimal digit value below sixteen, upper case.
pub open spec fn spec_hex_char(d: int) -> char {
    if d < 10 {
        spec_digit_char(d)
    } else if d == 10 {
        'A'
    } else if d == 11 {
        'B'
    } else if d == 12 {
        'C'
    } else if d == 13 {
        'D'
    } else if d == 14 {
        'E'
    } else {
        'F'
    }
}

/// The value of a hexadecimal digit character, `None` for any other
/// character.  Only upper-case letters are accepted.
pub open spec fn spec_hex_val(c: char) -> Option<int> {
    if spec_digit_val(c) is Some {
        spec_digit_val(c)
    } else if c == 'A' {
        Some(10int)
    } else if c == 'B' {
        Some(11int)
    } else if c == 'C' {
        Some(12int)
    } else if c == 'D' {
        Some(13int)
    } else if c == 'E' {
        Some(14int)
    } else if c == 'F' {
        Some(15int)
    } else {
        None
    }
}

pub proof fn lemma_hex_roundtrip(d: int)
    requires
        0 <= d < 16,
    ensures
        spec_hex_val(spec_hex_char(d)) == Some(d),
{
}

pub fn hex_char(d: u8) -> (c: char)
    requires
        d < 16,
    ensures
        c == spec_hex_char(d as int),
{
    if d < 10 {
        digit_char(d)
    } else if d == 10 {
        'A'
    } else if d == 11 {
        'B'
    } else if d == 12 {
        'C'
    } else if d == 13 {
        'D'
    } else if d == 14 {
        'E'
    } else {
        'F'
    }
}

pub fn hex_val(c: char) -> (r: Option<u8>)
    ensures
        match r {
            Some(d) => spec_hex_val(c) == Some(d as int),
            None => spec_hex_val(c) is None,
        },
{
    let d = digit_val(c);
    if let Some(v) = d {
        Some(v)
    } else if c == 'A' {
        Some(10)
    } else if c == 'B' {
        Some(11)
    } else if c == 'C' {
        Some(12)
    } else if c == 'D' {
        Some(13)
    } else if c == 'E' {
        Some(14)
    } else if c == 'F' {
        Some(15)
    } else {
        None
    }
}

/// Ten to the given power.
pub open spec fn pow10(w: nat) -> nat
    decreases w,
{
    if w == 0 {
        1
    } else {
        10 * pow10((w - 1) as nat)
    }
}

/// A value rendered as exactly `w` decimal digits, most significant
/// first, zero-padded on the left.  Digits above the width are dropped,
/// so the encoding is faithful only for `v < pow10(w)`.
pub open spec fn spec_enc_fixed(v: nat, w: nat) -> Seq<char>
    decreases w,
{
    if w == 0 {
        Seq::<char>::empty()
    } else {
        spec_enc_fixed(v / 10, (w - 1) as nat) + seq![spec_digit_char((v % 10) as int)]
    }
}

/// The value of a sequence of decimal digit characters, most significant
/// first; `None` if any character is not a decimal digit.
pub open spec fn spec_digits_val(s: Seq<char>) -> Option<nat>
    decreases s.len(),
{
    if s.len() == 0 {
        Some(0nat)
    } else {
        match spec_digits_val(s.drop_last()) {
            None => None,
            Some(h) => match spec_digit_val(s.last()) {
                None => None,
                Some(d) => Some((h * 10 + d) as nat),
            },
        }
    }
}

pub proof fn lemma_enc_fixed_len(v: nat, w: nat)
    ensures
        spec_enc_fixed(v, w).len() == w,
    decreases w,
{
    if w > 0 {
        lemma_enc_fixed_len(v / 10, (w - 1) as nat);
    }
}

/// Reading back a fixed-width rendering recovers the value, provided the
/// value fits in the width.
pub proof fn lemma_fixed_roundtrip(v: nat, w: nat)
    requires
        v < pow10(w),
    ensures
        spec_digits_val(spec_enc_fixed(v, w)) == Some(v),
    decreases w,
{
    if w == 0 {
    } else {
        let s = spec_enc_fixed(v, w);
        lemma_enc_fixed_len(v / 10, (w - 1) as nat);
        assert(s.drop_last() =~= spec_enc_fixed(v / 10, (w - 1) as nat));
        assert(s.last() == spec_digit_char((v % 10) as int));
        assert(v / 10 < pow10((w - 1) as nat)) by {
            assert(pow10(w) == 10 * pow10((w - 1) as nat));
        }
        lemma_fixed_roundtrip(v / 10, (w - 1) as nat);
        lemma_digit_roundtrip((v % 10) as int);
        assert(spec_digits_val(s) == Some((v / 10 * 10 + v % 10) as nat));
    }
}

/// If an all-digit value exists, every character is a digit.
pub proof fn lemma_digits_val_all_digits(s: Seq<char>)
    requires
        spec_digits_val(s) is Some,
    ensures
        forall|k: int| 0 <= k < s.len() ==> spec_digit_val(s[k]) is Some,
    decreases s.len(),
{
    if s.len() > 0 {
        lemma_digits_val_all_digits(s.drop_last());
        assert forall|k: int| 0 <= k < s.len() implies spec_digit_val(s[k]) is Some by {
            if k < s.len() - 1 {
                assert(s.drop_last()[k] == s[k]);
            }
        }
    }
}

pub proof fn lemma_pow10_mono(a: nat, b: nat)
    requires
        a <= b,
    ensures
        pow10(a) <= pow10(b),
    decreases b,
{
    if a < b {
        lemma_pow10_mono(a, (b - 1) as nat);
    }
}

/// `u64::MAX` needs twenty decimal digits.
pub proof fn lemma_pow10_20()
    ensures
        pow10(20) == 0x56bc75e2d63100000,
{
    reveal_with_fuel(pow10, 21);
}

/// `i64` magnitudes fit in nineteen decimal digits.
pub proof fn lemma_pow10_19()
    ensures
        pow10(19) == 0x8ac7230489e80000,
{
    reveal_with_fuel(pow10, 20);
}

/// Render `v` as exactly `w` decimal digits, zero-padded.
pub fn encode_fixed(v: u64, w: usize) -> (out: Vec<char>)
    ensures
        out@ == spec_enc_fixed(v as nat, w as nat),
    decreases w,
{
    if w == 0 {
        let out: Vec<char> = Vec::new();
        proof {
            assert(out@ =~= spec_enc_fixed(v as nat, 0));
        }
        out
    } else {
        let mut out = encode_fixed(v / 10, w - 1);
        out.push(digit_char((v % 10) as u8));
        proof {
            assert(out@ =~= spec_enc_fixed(v as nat, w as nat));
        }
        out
    }
}

/// A value rendered as decimal digits with no padding: the rendering
/// `u128::to_string` would give.
pub open spec fn spec_dec(n: nat) -> Seq<char>
    decreases n,
{
    if n < 10 {
        seq![spec_digit_char(n as int)]
    } else {
        spec_dec(n / 10) + seq![spec_digit_char((n % 10) as int)]
    }
}

/// Render a 128-bit value in decimal, as for the snapshot uuid.
pub fn dec_u128(n: u128) -> (out: Vec<char>)
    ensures
        out@ == spec_dec(n as nat),
    decreases n,
{
    if n < 10 {
        let mut out: Vec<char> = Vec::new();
        out.push(digit_char(n as u8));
        proof {
            assert(out@ =~= spec_dec(n as nat));
        }
        out
    } else {
        let mut out = dec_u128(n / 10);
        out.push(digit_char((n % 10) as u8));
        proof {
            assert(out@ =~= spec_dec(n as nat));
        }
        out
    }
}

/// Read exactly `w` decimal digit characters of `text` starting at `pos`.
/// Succeeds exactly when the `w` characters are there, all are digits,
/// and their value fits in `u64`.
pub fn parse_fixed(text: &Vec<char>, pos: usize, w: usize) -> (r: Option<(u64, usize)>)
    requires
        w <= 20,
    ensures
        match r {
            Some((v, p)) => {
                &&& pos + w <= text@.len()
                &&& p == pos + w
                &&& spec_digits_val(text@.subrange(pos as int, pos + w)) == Some(v as nat)
            },
            None => pos + w > text@.len() || spec_digits_val(
                text@.subrange(pos as int, pos + w),
            ) is None || spec_digits_val(text@.subrange(pos as int, pos + w)).unwrap()
                > u64::MAX,
        },
{
    if text.len() < w || pos > text.len() - w {
        return None;
    }
    let mut acc: u128 = 0;
    let mut i: usize = 0;
    proof {
        assert(text@.subrange(pos as int, pos as int) =~= Seq::<char>::empty());
    }
    while i < w
        invariant
            i <= w <= 20,
            pos + w <= text@.len(),
            text@.len() <= usize::MAX,
            spec_digits_val(text@.subrange(pos as int, pos + i)) == Some(acc as nat),
            acc < pow10(i as nat),
        decreases w - i,
    {
        let c = text[pos + i];
        let d = digit_val(c);
        proof {
            assert(text@.subrange(pos as int, pos + i + 1).drop_last() =~= text@.subrange(
                pos as int,
                pos + i,
            ));
            assert(text@.subrange(pos as int, pos + i + 1).last() == text@[pos + i]);
        }
        match d {
            None => {
                proof {
                    if spec_digits_val(text@.subrange(pos as int, pos + w)) is Some {
                        lemma_digits_val_all_digits(text@.subrange(pos as int, pos + w));
                        assert(text@.subrange(pos as int, pos + w)[i as int] == text@[pos + i]);
                    }
                }
                return None;
            },
            Some(d) => {
                proof {
                    lemma_pow10_mono(i as nat, 19);
                    lemma_pow10_19();
                    lemma_pow10_20();
                }
                acc = acc * 10 + (d as u128);
            },
        }
        i = i + 1;
    }
    proof {
        lemma_pow10_20();
    }
    if acc > u64::MAX as u128 {
        return None;
    }
    Some((acc as u64, pos + w))
}

} // verus!
