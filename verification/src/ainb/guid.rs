use vstd::prelude::*;
use crate::ainb::common::{guid_groups, guid_pairs, guid_valid, guid_written, hex_digit_value, hex_digits_value, pair_values, radix16, split_on};
use crate::ainb::node::{ainb_guid_text, bytes_hex};
use crate::binary::{encode_u16, encode_u32, u16_at, u32_at, Endian};
use crate::fmt::{hex_char, hex_fixed, hex_padded, hex_width, lemma_hex_width_le, pow16};

verus! {

/// The bytes of ASCII text: each character's code.
pub open spec fn ascii_bytes(s: Seq<char>) -> Seq<u8> {
    s.map_values(|c: char| c as u8)
}

/// Whether no byte of `s` is `c`.
pub open spec fn free_of(s: Seq<u8>, c: u8) -> bool {
    forall|i: int| 0 <= i < s.len() ==> s[i] != c
}

proof fn lemma_hex_char(d: int)
    requires
        0 <= d < 16,
    ensures
        ('\0' <= hex_char(d) <= '\u{7f}'),
        hex_digit_value(hex_char(d) as u8) == Some(d),
        hex_char(d) as u8 != 45,
        hex_char(d) as u8 != 43,
{
}

/// The lower-case hexadecimal digits of a value below `16^w`, as bytes, read back as
/// that value; none of them is `-` or `+`, and all are ASCII.
proof fn lemma_hex_fixed_value(v: nat, w: nat)
    requires
        v < pow16(w),
    ensures
        hex_digits_value(ascii_bytes(hex_fixed(v, w))) == Some(v as int),
        free_of(ascii_bytes(hex_fixed(v, w)), 45),
        free_of(ascii_bytes(hex_fixed(v, w)), 43),
        vstd::utf8::is_ascii_chars(hex_fixed(v, w)),
        hex_fixed(v, w).len() == w,
    decreases w,
{
    if w == 0 {
        assert(ascii_bytes(hex_fixed(v, w)) =~= Seq::<u8>::empty());
    } else {
        let rest = hex_fixed(v / 16, (w - 1) as nat);
        assert(v / 16 < pow16((w - 1) as nat));
        lemma_hex_fixed_value(v / 16, (w - 1) as nat);
        lemma_hex_char((v % 16) as int);
        let c = hex_char((v % 16) as int);
        assert(hex_fixed(v, w) == rest.push(c));
        let bs = ascii_bytes(hex_fixed(v, w));
        assert(bs.drop_last() =~= ascii_bytes(rest));
        assert(bs.last() == c as u8);
        assert(16 * (v / 16) + v % 16 == v);
        assert forall|i: int| 0 <= i < bs.len() implies bs[i] != 45 && bs[i] != 43 by {
            if i < bs.len() - 1 {
                assert(bs[i] == ascii_bytes(rest)[i]);
            }
        }
        assert forall|i: int| 0 <= i < hex_fixed(v, w).len() implies '\0' <= #[trigger] hex_fixed(v, w)[i] <= '\u{7f}' by {
            if i < rest.len() {
                assert(hex_fixed(v, w)[i] == rest[i]);
            }
        }
    }
}

/// Padding to a width the value already fills adds nothing.
proof fn lemma_padded_fixed(v: nat, w: nat)
    requires
        w >= 1,
        v < pow16(w),
    ensures
        hex_padded(v, w) == hex_fixed(v, w),
{
    lemma_hex_width_le(v, w);
}

/// Text free of the separator is one piece.
proof fn lemma_split_plain(y: Seq<u8>, sep: u8)
    requires
        free_of(y, sep),
    ensures
        split_on(y, sep) == seq![y],
    decreases y.len(),
{
    if y.len() == 0 {
        assert(y =~= Seq::<u8>::empty());
    } else {
        let d = y.drop_last();
        assert(free_of(d, sep));
        lemma_split_plain(d, sep);
        assert(y.last() != sep);
        assert(d.push(y.last()) =~= y);
        assert(seq![d].update(0, d.push(y.last())) =~= seq![y]);
    }
}

/// Text, a separator, then text free of it: the pieces of the first text and one more.
proof fn lemma_split_after(x: Seq<u8>, y: Seq<u8>, sep: u8)
    requires
        free_of(y, sep),
    ensures
        split_on(x + seq![sep] + y, sep) == split_on(x, sep).push(y),
    decreases y.len(),
{
    if y.len() == 0 {
        assert(x + seq![sep] + y =~= x.push(sep));
        assert((x.push(sep)).drop_last() =~= x);
        assert(y =~= Seq::<u8>::empty());
    } else {
        let d = y.drop_last();
        assert(free_of(d, sep));
        lemma_split_after(x, d, sep);
        let whole = x + seq![sep] + y;
        assert(whole.drop_last() =~= x + seq![sep] + d);
        assert(whole.last() == y.last());
        let rest = split_on(x, sep).push(d);
        assert(d.push(y.last()) =~= y);
        assert(rest.update(rest.len() - 1, rest.last().push(y.last())) =~= split_on(x, sep).push(y));
    }
}

/// The hexadecimal text of bytes: two digits for each, readable pair by pair.
proof fn lemma_bytes_hex(bs: Seq<u8>)
    ensures
        bytes_hex(bs).len() == 2 * bs.len(),
        free_of(ascii_bytes(bytes_hex(bs)), 45),
        vstd::utf8::is_ascii_chars(bytes_hex(bs)),
        forall|i: int|
            0 <= i < bs.len() ==> ascii_bytes(bytes_hex(bs)).subrange(2 * i, 2 * i + 2) == ascii_bytes(
                hex_fixed(#[trigger] bs[i] as nat, 2),
            ),
    decreases bs.len(),
{
    if bs.len() > 0 {
        let d = bs.drop_last();
        lemma_bytes_hex(d);
        let x = bs.last() as nat;
        assert(pow16(2) == 256) by {
            reveal_with_fuel(pow16, 3);
        }
        lemma_padded_fixed(x, 2);
        lemma_hex_fixed_value(x, 2);
        let h = hex_fixed(x, 2);
        assert(bytes_hex(bs) == bytes_hex(d) + h);
        let all = ascii_bytes(bytes_hex(bs));
        assert(all =~= ascii_bytes(bytes_hex(d)) + ascii_bytes(h));
        assert forall|i: int| 0 <= i < all.len() implies all[i] != 45 by {
            if i < 2 * d.len() {
                assert(all[i] == ascii_bytes(bytes_hex(d))[i]);
            } else {
                assert(all[i] == ascii_bytes(h)[i - 2 * d.len()]);
            }
        }
        assert forall|i: int| 0 <= i < bytes_hex(bs).len() implies '\0' <= #[trigger] bytes_hex(bs)[i] <= '\u{7f}' by {
            if i < 2 * d.len() {
                assert(bytes_hex(bs)[i] == bytes_hex(d)[i]);
            } else {
                assert(bytes_hex(bs)[i] == h[i - 2 * d.len()]);
            }
        }
        assert forall|i: int| 0 <= i < bs.len() implies all.subrange(2 * i, 2 * i + 2) == ascii_bytes(
            hex_fixed(#[trigger] bs[i] as nat, 2),
        ) by {
            if i < d.len() {
                assert(bs[i] == d[i]);
                assert(all.subrange(2 * i, 2 * i + 2) =~= ascii_bytes(bytes_hex(d)).subrange(2 * i, 2 * i + 2));
            } else {
                assert(all.subrange(2 * i, 2 * i + 2) =~= ascii_bytes(h));
            }
        }
    }
}

/// Two-digit pairs of byte values read back as those bytes.
proof fn lemma_pair_values(pairs: Seq<Seq<u8>>, bs: Seq<u8>)
    requires
        pairs.len() == bs.len(),
        forall|i: int| 0 <= i < bs.len() ==> #[trigger] pairs[i] == ascii_bytes(hex_fixed(bs[i] as nat, 2)),
    ensures
        pair_values(pairs) == bs,
    decreases bs.len(),
{
    if bs.len() == 0 {
        assert(bs =~= Seq::<u8>::empty());
    } else {
        assert(pow16(2) == 256) by {
            reveal_with_fuel(pow16, 3);
        }
        lemma_hex_fixed_value(bs[0] as nat, 2);
        let p0 = pairs[0];
        assert(p0.len() == 2);
        assert(p0[0] != 43);
        assert(radix16(p0, 255) == Some(bs[0] as int));
        lemma_pair_values(pairs.drop_first(), bs.drop_first());
        assert(seq![bs[0]] + bs.drop_first() =~= bs);
    }
}

/// Encoding the value of four bytes gives them back.
proof fn lemma_encode_decode32(s: Seq<u8>)
    requires
        s.len() == 4,
    ensures
        encode_u32(u32_at(s, 0, Endian::Little), Endian::Little) == s,
{
    let v = u32_at(s, 0, Endian::Little);
    assert(s.subrange(0, 4) =~= s);
    let b0 = s[0] as int;
    let b1 = s[1] as int;
    let b2 = s[2] as int;
    let b3 = s[3] as int;
    assert(v == b0 + 256 * b1 + 65536 * b2 + 16777216 * b3);
    assert(v % 256 == b0 && (v / 256) % 256 == b1 && (v / 65536) % 256 == b2 && v / 16777216 == b3) by (nonlinear_arith)
        requires
            v == b0 + 256 * b1 + 65536 * b2 + 16777216 * b3,
            0 <= b0 < 256,
            0 <= b1 < 256,
            0 <= b2 < 256,
            0 <= b3 < 256,
    ;
    assert(encode_u32(v, Endian::Little) =~= s);
}

/// Encoding the value of two bytes gives them back.
proof fn lemma_encode_decode16(s: Seq<u8>)
    requires
        s.len() == 2,
    ensures
        encode_u16(u16_at(s, 0, Endian::Little), Endian::Little) == s,
{
    let v = u16_at(s, 0, Endian::Little);
    assert(s.subrange(0, 2) =~= s);
    assert(encode_u16(v, Endian::Little) =~= s);
}

/// A GUID read from sixteen bytes is written back as the same sixteen bytes: the text
/// that reading the bytes as a GUID gives is a GUID text that writing accepts, and
/// writing it appends exactly those bytes.
#[verifier::rlimit(40)]
pub proof fn lemma_guid_roundtrip(b: Seq<u8>)
    requires
        b.len() == 16,
    ensures
        guid_valid(vstd::utf8::encode_utf8(ainb_guid_text(b, 0, Endian::Little))),
        guid_written(vstd::utf8::encode_utf8(ainb_guid_text(b, 0, Endian::Little))) == b,
{
    let e = Endian::Little;
    let a = u32_at(b, 0, e) as nat;
    let b1 = u16_at(b, 4, e) as nat;
    let c = u16_at(b, 6, e) as nat;
    assert(pow16(8) == 0x1_0000_0000 && pow16(4) == 0x1_0000 && pow16(2) == 256) by {
        reveal_with_fuel(pow16, 9);
    }
    lemma_padded_fixed(a, 8);
    lemma_padded_fixed(b1, 4);
    lemma_padded_fixed(c, 4);
    lemma_hex_fixed_value(a, 8);
    lemma_hex_fixed_value(b1, 4);
    lemma_hex_fixed_value(c, 4);
    let d2 = b.subrange(8, 10);
    let e6 = b.subrange(10, 16);
    lemma_bytes_hex(d2);
    lemma_bytes_hex(e6);
    let ha = hex_fixed(a, 8);
    let hb = hex_fixed(b1, 4);
    let hc = hex_fixed(c, 4);
    let hd = bytes_hex(d2);
    let he = bytes_hex(e6);
    let dash = seq!['-'];
    let t = ainb_guid_text(b, 0, e);
    assert(t == ha + dash + hb + dash + hc + dash + hd + dash + he);
    assert(vstd::utf8::is_ascii_chars(t)) by {
        assert forall|i: int| 0 <= i < t.len() implies '\0' <= #[trigger] t[i] <= '\u{7f}' by {
            let p1 = ha.len() as int;
            let p2 = p1 + 1 + hb.len();
            let p3 = p2 + 1 + hc.len();
            let p4 = p3 + 1 + hd.len();
            if i < p1 {
                assert(t[i] == ha[i]);
            } else if i == p1 || i == p2 || i == p3 || i == p4 {
            } else if i < p2 {
                assert(t[i] == hb[i - p1 - 1]);
            } else if i < p3 {
                assert(t[i] == hc[i - p2 - 1]);
            } else if i < p4 {
                assert(t[i] == hd[i - p3 - 1]);
            } else {
                assert(t[i] == he[i - p4 - 1]);
            }
        }
    }
    vstd::utf8::is_ascii_chars_encode_utf8(t);
    let u = vstd::utf8::encode_utf8(t);
    assert(u =~= ascii_bytes(t));
    let ba = ascii_bytes(ha);
    let bb = ascii_bytes(hb);
    let bc = ascii_bytes(hc);
    let bd = ascii_bytes(hd);
    let be = ascii_bytes(he);
    let m = seq![45u8];
    assert(u =~= ba + m + bb + m + bc + m + bd + m + be);
    lemma_split_plain(ba, 45);
    lemma_split_after(ba, bb, 45);
    lemma_split_after(ba + m + bb, bc, 45);
    lemma_split_after(ba + m + bb + m + bc, bd, 45);
    lemma_split_after(ba + m + bb + m + bc + m + bd, be, 45);
    let g = split_on(u, 45);
    assert(g =~= seq![ba, bb, bc, bd, be]);
    assert(ba[0] != 43 && bb[0] != 43 && bc[0] != 43);
    assert(radix16(ba, 0xffff_ffff) == Some(a as int));
    assert(radix16(bb, 0xffff) == Some(b1 as int));
    assert(radix16(bc, 0xffff) == Some(c as int));
    let pairs = guid_pairs(bd, be);
    let tail = b.subrange(8, 16);
    assert forall|i: int| 0 <= i < tail.len() implies #[trigger] pairs[i] == ascii_bytes(hex_fixed(tail[i] as nat, 2)) by {
        if i < 2 {
            assert(tail[i] == d2[i]);
        } else {
            assert(tail[i] == e6[i - 2]);
        }
    }
    lemma_pair_values(pairs, tail);
    assert(guid_groups(u) == Some((a as u32, b1 as u16, c as u16, bd, be)));
    lemma_encode_decode32(b.subrange(0, 4));
    lemma_encode_decode16(b.subrange(4, 6));
    lemma_encode_decode16(b.subrange(6, 8));
    assert(b.subrange(0, 4).subrange(0, 4) =~= b.subrange(0, 4));
    assert(b.subrange(4, 6).subrange(0, 2) =~= b.subrange(4, 6));
    assert(b.subrange(6, 8).subrange(0, 2) =~= b.subrange(6, 8));
    assert(u32_at(b.subrange(0, 4), 0, e) == a);
    assert(u16_at(b.subrange(4, 6), 0, e) == b1);
    assert(u16_at(b.subrange(6, 8), 0, e) == c);
    assert(guid_written(u) =~= b);
}

} // verus!
