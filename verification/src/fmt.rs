use vstd::prelude::*;

verus! {

/// Calls `String::push`, which its documentation says appends the character.
#[verifier::external_body]
pub(crate) fn push_char(s: &mut String, c: char)
    ensures
        final(s)@ == old(s)@.push(c),
{
    s.push(c);
}

/// The lower-case hexadecimal digit for `d`, `0 <= d < 16`.
pub open spec fn hex_char(d: int) -> char {
    if d < 10 {
        (48 + d) as char
    } else {
        (87 + d) as char
    }
}

/// The lower-case hexadecimal digits: 0 to 9 are `0` to `9`, 10 to 15 are `a` to `f`,
/// in increasing order of character.
pub proof fn lemma_hex_digits(d: int, e: int)
    requires
        0 <= d < e < 16,
    ensures
        hex_char(0) == '0' && hex_char(9) == '9' && hex_char(10) == 'a' && hex_char(15) == 'f',
        d < 10 ==> '0' <= hex_char(d) <= '9',
        d >= 10 ==> 'a' <= hex_char(d) <= 'f',
        hex_char(d) < hex_char(e),
{
}

/// The last `width` lower-case hexadecimal digits of `v`, leading zeros included.
pub open spec fn hex_fixed(v: nat, width: nat) -> Seq<char>
    decreases width,
{
    if width == 0 {
        Seq::empty()
    } else {
        hex_fixed(v / 16, (width - 1) as nat).push(hex_char((v % 16) as int))
    }
}

/// The number of hexadecimal digits of `v` (one for zero).
pub open spec fn hex_width(v: nat) -> nat
    decreases v,
{
    if v < 16 {
        1
    } else {
        1 + hex_width(v / 16)
    }
}

/// `v` in lower-case hexadecimal, zero-padded to at least `width` digits, as
/// `format!("{:0width$x}", v)` writes it.
pub open spec fn hex_padded(v: nat, width: nat) -> Seq<char> {
    hex_fixed(v, if hex_width(v) >= width { hex_width(v) } else { width })
}

/// The number a hexadecimal digit stands for, either case.
pub open spec fn hex_digit_value(c: char) -> int {
    if '0' <= c <= '9' {
        c as int - 48
    } else if 'a' <= c <= 'f' {
        c as int - 87
    } else {
        c as int - 55
    }
}

/// The number that the hexadecimal digits `s` stand for, most significant first.
pub open spec fn hex_value(s: Seq<char>) -> int
    decreases s.len(),
{
    if s.len() == 0 {
        0
    } else {
        16 * hex_value(s.drop_last()) + hex_digit_value(s.last())
    }
}

/// Reading the digits back: `width` digits of a value below `16^width` stand for the
/// value, in lower case and in upper case alike.
pub proof fn lemma_hex_fixed_value(v: nat, width: nat)
    requires
        v < pow16(width),
    ensures
        hex_fixed(v, width).len() == width,
        hex_value(hex_fixed(v, width)) == v,
        hex_fixed_upper(v, width).len() == width,
        hex_value(hex_fixed_upper(v, width)) == v,
    decreases width,
{
    if width == 0 {
        assert(pow16(0) == 1);
    } else {
        let w = (width - 1) as nat;
        assert(v / 16 < pow16(w)) by (nonlinear_arith)
            requires
                v < 16 * pow16(w),
        ;
        lemma_hex_fixed_value(v / 16, w);
        let d = (v % 16) as int;
        assert(hex_digit_value(hex_char(d)) == d);
        assert(hex_digit_value(hex_char_upper(d)) == d);
        assert(hex_fixed(v, width).drop_last() =~= hex_fixed(v / 16, w));
        assert(hex_fixed_upper(v, width).drop_last() =~= hex_fixed_upper(v / 16, w));
        assert(16 * (v / 16) + d == v);
    }
}

proof fn lemma_below_pow16_width(v: nat)
    ensures
        v < pow16(hex_width(v)),
    decreases v,
{
    reveal_with_fuel(pow16, 2);
    if v >= 16 {
        lemma_below_pow16_width(v / 16);
        let k = hex_width(v / 16);
        assert(v < 16 * pow16(k)) by (nonlinear_arith)
            requires
                v / 16 < pow16(k),
        ;
    }
}

proof fn lemma_pow16_monotone(j: nat, k: nat)
    requires
        j <= k,
    ensures
        pow16(j) <= pow16(k),
    decreases k,
{
    if j < k {
        lemma_pow16_monotone(j, (k - 1) as nat);
    }
}

/// What `hex_padded` writes reads back as the value, and has the value's digit count or
/// the width, whichever is larger.
pub proof fn lemma_hex_padded_value(v: nat, width: nat)
    ensures
        hex_value(hex_padded(v, width)) == v,
        hex_padded(v, width).len() == (if hex_width(v) >= width { hex_width(v) } else { width }),
{
    let w = if hex_width(v) >= width { hex_width(v) } else { width };
    lemma_below_pow16_width(v);
    lemma_pow16_monotone(hex_width(v), w);
    lemma_hex_fixed_value(v, w);
}

fn hex_digit(d: u64) -> (c: char)
    requires
        d < 16,
    ensures
        c == hex_char(d as int),
{
    if d < 10 {
        ((48 + d) as u8) as char
    } else {
        ((87 + d) as u8) as char
    }
}

fn push_hex_fixed(s: &mut String, v: u64, width: usize)
    ensures
        final(s)@ == old(s)@ + hex_fixed(v as nat, width as nat),
    decreases width,
{
    if width > 0 {
        push_hex_fixed(s, v / 16, width - 1);
        push_char(s, hex_digit(v % 16));
    }
}

fn digit_count(v: u64) -> (n: usize)
    ensures
        n == hex_width(v as nat),
        n <= 16,
    decreases v,
{
    if v < 16 {
        1
    } else {
        let rest = digit_count(v / 16);
        proof {
            lemma_hex_width_bound(v as nat);
        }
        1 + rest
    }
}

proof fn lemma_hex_width_bound(v: nat)
    requires
        v <= u64::MAX,
    ensures
        hex_width(v) <= 16,
    decreases v,
{
    if v >= 16 {
        assert(pow16(15) == 0x1000_0000_0000_0000) by {
            reveal_with_fuel(pow16, 16);
        }
        lemma_hex_width_le(v / 16, 15);
    }
}

pub(crate) proof fn lemma_hex_width_le(v: nat, k: nat)
    requires
        v < pow16(k),
        k >= 1,
    ensures
        hex_width(v) <= k,
    decreases k,
{
    if v >= 16 {
        assert(v / 16 < pow16((k - 1) as nat)) by {
            if k == 1 {
                assert(pow16(1) == 16) by {
                    reveal_with_fuel(pow16, 2);
                }
            }
        }
        if k > 1 {
            lemma_hex_width_le(v / 16, (k - 1) as nat);
        }
    }
}

/// Sixteen to the power `k`.
pub open spec fn pow16(k: nat) -> nat
    decreases k,
{
    if k == 0 {
        1
    } else {
        16 * pow16((k - 1) as nat)
    }
}

/// The upper-case hexadecimal digit for `d`, `0 <= d < 16`.
pub open spec fn hex_char_upper(d: int) -> char {
    if d < 10 {
        (48 + d) as char
    } else {
        (55 + d) as char
    }
}

/// The upper-case hexadecimal digits: 0 to 9 are `0` to `9`, 10 to 15 are `A` to `F`,
/// in increasing order of character; each is the lower-case digit in capitals.
pub proof fn lemma_hex_digits_upper(d: int, e: int)
    requires
        0 <= d < e < 16,
    ensures
        hex_char_upper(0) == '0' && hex_char_upper(9) == '9' && hex_char_upper(10) == 'A' && hex_char_upper(15) == 'F',
        d < 10 ==> hex_char_upper(d) == hex_char(d),
        d >= 10 ==> 'A' <= hex_char_upper(d) <= 'F' && hex_char_upper(d) as int + 32 == hex_char(d) as int,
        hex_char_upper(d) < hex_char_upper(e),
{
}

/// The last `width` upper-case hexadecimal digits of `v`, leading zeros included.
pub open spec fn hex_fixed_upper(v: nat, width: nat) -> Seq<char>
    decreases width,
{
    if width == 0 {
        Seq::empty()
    } else {
        hex_fixed_upper(v / 16, (width - 1) as nat).push(hex_char_upper((v % 16) as int))
    }
}

/// Appends the last `width` upper-case hexadecimal digits of `v`, as
/// `format!("{:0width$X}", v)` writes a value below `16^width`.
pub fn push_hex_upper(s: &mut String, v: u64, width: usize)
    ensures
        final(s)@ == old(s)@ + hex_fixed_upper(v as nat, width as nat),
    decreases width,
{
    if width > 0 {
        push_hex_upper(s, v / 16, width - 1);
        let d = v % 16;
        let c = if d < 10 {
            ((48 + d) as u8) as char
        } else {
            ((55 + d) as u8) as char
        };
        push_char(s, c);
    }
}

/// Appends `v` in lower-case hexadecimal, zero-padded to at least `width` digits.
pub fn push_hex(s: &mut String, v: u64, width: usize)
    ensures
        final(s)@ == old(s)@ + hex_padded(v as nat, width as nat),
{
    let n = digit_count(v);
    let w = if n >= width { n } else { width };
    push_hex_fixed(s, v, w);
}

/// `v` in decimal, as `to_string` writes it.
pub open spec fn decimal(v: nat) -> Seq<char>
    decreases v,
{
    if v < 10 {
        seq![(48 + v) as char]
    } else {
        decimal(v / 10).push((48 + v % 10) as char)
    }
}

/// Appends `v` in decimal.
pub fn push_decimal(s: &mut String, v: u64)
    ensures
        final(s)@ == old(s)@ + decimal(v as nat),
    decreases v,
{
    if v >= 10 {
        push_decimal(s, v / 10);
    }
    let d = (v % 10) as u8;
    push_char(s, (48 + d) as char);
    proof {
        if v >= 10 {
            assert(decimal(v as nat) == decimal((v / 10) as nat).push((48 + v % 10) as char));
        } else {
            assert(decimal(v as nat) =~= seq![(48 + v) as char]);
        }
    }
}

} // verus!
