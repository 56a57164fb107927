use vstd::prelude::*;
use crate::error::{invalid, Error, ErrorKind};

verus! {

/// How many bytes follow the first byte `f` of a tagfile variable-length integer, and
/// the mask of the value bits `f` keeps; `None` for a marker the format does not use.
pub open spec fn varuint_shape(f: u8) -> Option<(nat, u8)> {
    let marker = f / 8;
    if f < 0x80 {
        Some((0, 0x7f))
    } else if 0x10 <= marker <= 0x17 {
        Some((1, 0x3f))
    } else if 0x18 <= marker <= 0x1b {
        Some((2, 0x1f))
    } else if marker == 0x1c {
        Some((3, 7))
    } else if marker == 0x1d {
        Some((4, 7))
    } else if marker == 0x1e {
        Some((7, 7))
    } else {
        None
    }
}

/// The first byte of a variable-length integer tells its length: below 0x80 it is the
/// whole value; 0x80 to 0xbf keep six value bits and one more byte follows; 0xc0 to
/// 0xdf keep five bits and two follow; 0xe0 to 0xe7 keep three bits and three follow;
/// 0xe8 to 0xef three bits and four; 0xf0 to 0xf7 three bits and seven; 0xf8 and above
/// are not used.
pub proof fn lemma_varuint_shapes(f: u8)
    ensures
        f < 0x80 ==> varuint_shape(f) == Some((0nat, 0x7fu8)),
        0x80 <= f < 0xc0 ==> varuint_shape(f) == Some((1nat, 0x3fu8)),
        0xc0 <= f < 0xe0 ==> varuint_shape(f) == Some((2nat, 0x1fu8)),
        0xe0 <= f < 0xe8 ==> varuint_shape(f) == Some((3nat, 7u8)),
        0xe8 <= f < 0xf0 ==> varuint_shape(f) == Some((4nat, 7u8)),
        0xf0 <= f < 0xf8 ==> varuint_shape(f) == Some((7nat, 7u8)),
        varuint_shape(f) is None <==> f >= 0xf8,
{
}

/// `v` followed by the big-endian digits `bytes`.
pub open spec fn fold_be(v: int, bytes: Seq<u8>) -> int
    decreases bytes.len(),
{
    if bytes.len() == 0 {
        v
    } else {
        fold_be(v * 256 + bytes[0], bytes.drop_first())
    }
}

/// The variable-length integer at `p`, read no further than `end`, and where it ends;
/// `None` when the first byte is missing, its marker is unknown, or it runs past `end`.
pub open spec fn varuint_at(data: Seq<u8>, p: int, end: int) -> Option<(int, int)> {
    if p < 0 || p >= data.len() {
        None
    } else {
        match varuint_shape(data[p]) {
            None => None,
            Some((n, mask)) => if n > 0 && p + 1 + n > end {
                None
            } else {
                Some((fold_be((data[p] & mask) as int, data.subrange(p + 1, p + 1 + n)), p + 1 + n))
            },
        }
    }
}

/// Reads a tagfile variable-length integer at `*p`, no further than `end`, and moves
/// `*p` past it; fails with `InvalidData` when it is truncated or its marker unknown.
pub fn varuint(data: &[u8], p: &mut usize, end: usize) -> (r: Result<u64, Error>)
    requires
        end <= data@.len(),
    ensures
        r is Ok <==> varuint_at(data@, *old(p) as int, end as int) is Some,
        r matches Ok(v) ==> varuint_at(data@, *old(p) as int, end as int) == Some(
            (v as int, *final(p) as int),
        ),
        r matches Err(e) ==> e.kind == ErrorKind::InvalidData,
{
    if *p >= data.len() {
        return Err(invalid("truncated VarUInt"));
    }
    let first = data[*p];
    let start = *p;
    *p = *p + 1;
    if first & 0x80 == 0 {
        assert(first < 0x80 && first & 0x7f == first) by (bit_vector)
            requires
                first & 0x80 == 0,
        ;
        assert(data@.subrange(start + 1, start + 1) =~= Seq::<u8>::empty());
        return Ok(first as u64);
    }
    assert(first >= 0x80) by (bit_vector)
        requires
            first & 0x80 != 0,
    ;
    assert(first >> 3 == first / 8) by (bit_vector);
    let marker = first >> 3;
    let n: usize = if 0x10 <= marker && marker <= 0x17 {
        1
    } else if 0x18 <= marker && marker <= 0x1b {
        2
    } else if marker == 0x1c {
        3
    } else if marker == 0x1d {
        4
    } else if marker == 0x1e {
        7
    } else {
        return Err(invalid("unsupported VarUInt"));
    };
    let mask: u8 = if 0x10 <= marker && marker <= 0x17 {
        0x3f
    } else if 0x18 <= marker && marker <= 0x1b {
        0x1f
    } else {
        7
    };
    assert(varuint_shape(first) == Some((n as nat, mask)));
    if *p > end || n > end - *p {
        return Err(invalid("truncated VarUInt"));
    }
    let ghost digits = data@.subrange(start + 1, start + 1 + n);
    let mut v: u64 = (first & mask) as u64;
    assert(first & mask <= mask) by (bit_vector);
    let ghost init = v as int;
    let mut k: usize = 0;
    assert(digits.subrange(0, n as int) =~= digits);
    while k < n
        invariant
            start < data@.len(),
            end <= data@.len(),
            start + 1 + n <= end,
            *p == start + 1 + k,
            k <= n,
            1 <= n <= 7,
            digits == data@.subrange(start + 1, start + 1 + n),
            mask == 0x3f ==> n == 1,
            mask == 0x1f ==> n == 2,
            mask == 0x3f || mask == 0x1f || mask == 7,
            init <= mask,
            v < (mask as int + 1) * pow256(k as nat),
            fold_be(init, digits) == fold_be(v as int, digits.subrange(k as int, n as int)),
        decreases n - k,
    {
        let b = data[*p];
        proof {
            lemma_pow256_bound(k as nat, mask);
            assert(digits.subrange(k as int, n as int).drop_first() =~= digits.subrange(k + 1, n as int));
            assert(digits.subrange(k as int, n as int)[0] == b);
        }
        let ghost old_v = v as int;
        let ghost bound = (mask as int + 1) * pow256(k as nat);
        v = v * 256 + b as u64;
        assert(v < (mask as int + 1) * pow256((k + 1) as nat)) by (nonlinear_arith)
            requires
                v == old_v * 256 + b,
                old_v < bound,
                bound == (mask as int + 1) * pow256(k as nat),
                pow256((k + 1) as nat) == 256 * pow256(k as nat),
                b < 256,
        ;
        *p = *p + 1;
        k = k + 1;
    }
    assert(digits.subrange(n as int, n as int) =~= Seq::<u8>::empty());
    Ok(v)
}

/// 256 to the power `k`.
pub open spec fn pow256(k: nat) -> nat
    decreases k,
{
    if k == 0 {
        1
    } else {
        256 * pow256((k - 1) as nat)
    }
}

proof fn lemma_pow256_bound(k: nat, mask: u8)
    requires
        mask == 0x3f ==> k < 1,
        mask == 0x1f ==> k < 2,
        mask == 0x3f || mask == 0x1f || mask == 7,
        k < 7,
    ensures
        (mask as int + 1) * pow256(k) * 256 <= 0x1_0000_0000_0000_0000,
{
    reveal_with_fuel(pow256, 8);
    if k == 0 {
    } else if k == 1 {
    } else if k == 2 {
    } else if k == 3 {
    } else if k == 4 {
    } else if k == 5 {
    } else {
    }
}

} // verus!
