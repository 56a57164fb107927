use vstd::prelude::*;
use crate::aoc::g1m::replace::{push_u16, push_u32};
use crate::text::str_eq;
use crate::evfl::radix::{
    dictionary_of, lex_lt, name_fits, order_by_keys, radix_nodes, reverse_bits, reversed_byte, RadixNode,
};
use crate::aoc::g1m::replace::{decimal_value, parse_decimal};
use crate::fmt::{decimal, push_decimal};
use crate::text::bytes_eq;
use vstd::string::StringExecFns;
use crate::error::Error;
use vstd::string::StringSliceAdditionalSpecFns;
use crate::binary::{bits16, bits32, encode_u16, encode_u32, from_i16, from_i32, lemma_u32_roundtrip, u32_at, Endian};
use crate::evfl::relocation::{
    answer, covers, entry_base, entry_flags, flagged, lookup_ok, relocated, scan_ok, search, search_reads_ok, w32,
};

verus! {

/// The little-endian bytes of a 64-bit value: the low word, then the high word.
pub open spec fn encode_u64_le(v: u64) -> Seq<u8> {
    encode_u32((v % 0x1_0000_0000) as u32, Endian::Little) + encode_u32(
        (v / 0x1_0000_0000) as u32,
        Endian::Little,
    )
}

/// `b` with the bytes from `at` replaced by `v`.
pub open spec fn patched(b: Seq<u8>, at: int, v: Seq<u8>) -> Seq<u8> {
    b.subrange(0, at) + v + b.subrange(at + v.len(), b.len() as int)
}

/// `n` zero bytes.
pub open spec fn zeros(n: int) -> Seq<u8> {
    Seq::new(n as nat, |i: int| 0u8)
}

/// The zero bytes that bring a length of `len` to a multiple of `alignment`.
pub open spec fn pad_len(len: int, alignment: int) -> int {
    (alignment - len % alignment) % alignment
}

/// Padding by `pad_len` is less than the alignment and reaches a multiple of it.
pub proof fn lemma_pad_len(len: int, alignment: int)
    requires
        len >= 0,
        alignment > 0,
    ensures
        0 <= pad_len(len, alignment) < alignment,
        (len + pad_len(len, alignment)) % alignment == 0,
{
    let q = len / alignment;
    let r = len % alignment;
    vstd::arithmetic::div_mod::lemma_fundamental_div_mod(len, alignment);
    if r == 0 {
        vstd::arithmetic::div_mod::lemma_fundamental_div_mod_converse_mod(alignment, alignment, 1, 0);
        vstd::arithmetic::div_mod::lemma_fundamental_div_mod_converse_mod(len, alignment, q, 0);
    } else {
        vstd::arithmetic::div_mod::lemma_fundamental_div_mod_converse_mod(
            alignment - r,
            alignment,
            0,
            alignment - r,
        );
        assert(len + (alignment - r) == (q + 1) * alignment) by (nonlinear_arith)
            requires
                len == alignment * q + r,
        ;
        vstd::arithmetic::div_mod::lemma_fundamental_div_mod_converse_mod(
            len + (alignment - r),
            alignment,
            q + 1,
            0,
        );
    }
}

/// Whether the values rise strictly.
pub open spec fn increasing(s: Seq<usize>) -> bool {
    forall|i: int, j: int| 0 <= i < j < s.len() ==> s[i] < s[j]
}

/// Whether `v` is one of the values of `s`.
pub open spec fn holds(s: Seq<usize>, v: int) -> bool {
    exists|i: int| 0 <= i < s.len() && s[i] == v
}

/// Whether a relocation entry based at `base` takes the pointer at `x`: one of the
/// 32 eight-byte slots from the base.
pub open spec fn absorbs(base: int, x: int) -> bool {
    base <= x < base + 256 && (x - base) % 8 == 0
}

/// The values of `s` that an entry based at `base` does not take, in order.
pub open spec fn keep(base: int, s: Seq<usize>) -> Seq<usize>
    decreases s.len(),
{
    if s.len() == 0 {
        s
    } else {
        let k = keep(base, s.drop_last());
        if absorbs(base, s.last() as int) {
            k
        } else {
            k.push(s.last())
        }
    }
}

/// The flags of an entry based at `base` over its first `n` slots: bit `k` is set when
/// `s` holds the pointer at base + 8k.
pub open spec fn flags_upto(s: Seq<usize>, base: int, n: nat) -> u32
    decreases n,
{
    if n == 0 {
        0
    } else {
        flags_upto(s, base, (n - 1) as nat) | (if holds(s, base + 8 * (n - 1)) {
            1u32 << ((n - 1) as u32)
        } else {
            0u32
        })
    }
}

/// The relocation entries of the ascending pointers `s`: the first pointer is the base
/// of an entry whose flags mark each pointer of its 32 slots; the pointers it does not
/// take make up the following entries.
pub open spec fn groups(s: Seq<usize>) -> Seq<(usize, u32)>
    decreases s.len(),
    via groups_decreases
{
    if s.len() == 0 {
        Seq::empty()
    } else {
        seq![(s[0], flags_upto(s, s[0] as int, 32))] + groups(keep(s[0] as int, s))
    }
}

#[via_fn]
proof fn groups_decreases(s: Seq<usize>) {
    if s.len() > 0 {
        lemma_keep(s[0] as int, s);
    }
}

/// What `keep` leaves: no more values, fewer when the first is taken, each of them a
/// value of `s` that the entry does not take, every such value of `s`, and in order
/// when `s` is.
pub proof fn lemma_keep(base: int, s: Seq<usize>)
    ensures
        keep(base, s).len() <= s.len(),
        s.len() > 0 && absorbs(base, s[0] as int) ==> keep(base, s).len() < s.len(),
        forall|i: int|
            0 <= i < keep(base, s).len() ==> holds(s, #[trigger] keep(base, s)[i] as int) && !absorbs(
                base,
                keep(base, s)[i] as int,
            ),
        forall|i: int|
            0 <= i < s.len() && !absorbs(base, #[trigger] s[i] as int) ==> holds(keep(base, s), s[i] as int),
        increasing(s) ==> increasing(keep(base, s)),
    decreases s.len(),
{
    if s.len() > 0 {
        let d = s.drop_last();
        lemma_keep(base, d);
        let k = keep(base, d);
        assert forall|i: int| 0 <= i < k.len() implies holds(s, k[i] as int) by {
            let j = choose|j: int| 0 <= j < d.len() && d[j] == k[i] as int;
            assert(s[j] == d[j]);
        }
        assert forall|i: int| 0 <= i < s.len() && !absorbs(base, s[i] as int) implies holds(
            keep(base, s),
            s[i] as int,
        ) by {
            if i < s.len() - 1 {
                assert(d[i] == s[i]);
                assert(holds(k, d[i] as int));
                let j = choose|j: int| 0 <= j < k.len() && k[j] == d[i] as int;
                if !absorbs(base, s.last() as int) {
                    assert(keep(base, s)[j] == k[j]);
                }
            } else {
                assert(keep(base, s)[keep(base, s).len() - 1] == s.last());
            }
        }
        if !absorbs(base, s.last() as int) {
            assert(holds(s, s.last() as int)) by {
                assert(s[s.len() - 1] == s.last());
            }
        }
        if increasing(s) {
            assert(increasing(d));
            assert forall|i: int, j: int| 0 <= i < j < keep(base, s).len() implies keep(base, s)[i] < keep(
                base,
                s,
            )[j] by {
                if !absorbs(base, s.last() as int) && j == keep(base, s).len() - 1 {
                    assert(holds(d, k[i] as int));
                    let x = choose|x: int| 0 <= x < d.len() && d[x] == k[i] as int;
                    assert(s[x] < s[s.len() - 1]);
                }
            }
        }
        if absorbs(base, s[0] as int) && s.len() > 1 {
            assert(d[0] == s[0]);
        }
    }
}

/// The bytes of relocation entries: each base, then its flags, as little-endian words.
pub open spec fn entry_bytes(g: Seq<(usize, u32)>) -> Seq<u8>
    decreases g.len(),
{
    if g.len() == 0 {
        Seq::empty()
    } else {
        entry_bytes(g.drop_last()) + encode_u32(g.last().0 as u32, Endian::Little) + encode_u32(
            g.last().1,
            Endian::Little,
        )
    }
}

/// The flags of the entry based at the first of `s`, the slots scanned in order with
/// a cursor that passes the values below each slot.
fn first_entry_flags(s: &Vec<usize>) -> (f: u32)
    requires
        s@.len() > 0,
        increasing(s@),
        s@[0] <= usize::MAX - 256,
    ensures
        f == flags_upto(s@, s@[0] as int, 32),
{
    let pointer = s[0];
    let len = s.len();
    let mut flags: u32 = 0;
    let mut j: usize = 0;
    let mut bit: u32 = 0;
    while bit < 32
        invariant
            len == s@.len(),
            increasing(s@),
            pointer == s@[0],
            pointer <= usize::MAX - 256,
            bit <= 32,
            j <= len,
            flags == flags_upto(s@, pointer as int, bit as nat),
            forall|i: int| 0 <= i < j ==> s@[i] < pointer + 8 * bit,
        decreases 32 - bit,
    {
        let address = pointer + (bit as usize) * 8;
        while j < len && s[j] < address
            invariant
                len == s@.len(),
                j <= len,
                forall|i: int| 0 <= i < j ==> s@[i] < address,
            decreases len - j,
        {
            j = j + 1;
        }
        let found = j < len && s[j] == address;
        assert(found <==> holds(s@, address as int)) by {
            if holds(s@, address as int) {
                let i = choose|i: int| 0 <= i < s@.len() && s@[i] == address as int;
                if i > j {
                    assert(s@[j as int] < s@[i]);
                }
            }
        }
        if found {
            flags = flags | (1u32 << bit);
        } else {
            assert(flags == flags | 0u32) by (bit_vector);
        }
        bit = bit + 1;
    }
    flags
}

/// The values of `s` that an entry based at `base` does not take.
fn kept(base: usize, s: &Vec<usize>) -> (r: Vec<usize>)
    ensures
        r@ == keep(base as int, s@),
{
    let mut out: Vec<usize> = Vec::new();
    let mut k: usize = 0;
    while k < s.len()
        invariant
            k <= s@.len(),
            out@ == keep(base as int, s@.subrange(0, k as int)),
        decreases s@.len() - k,
    {
        let x = s[k];
        assert(s@.subrange(0, k + 1).drop_last() =~= s@.subrange(0, k as int));
        assert(s@.subrange(0, k + 1).last() == x);
        if !(x >= base && x - base < 256 && (x - base) % 8 == 0) {
            out.push(x);
        }
        k = k + 1;
    }
    assert(s@.subrange(0, s@.len() as int) =~= s@);
    out
}

/// The number and the bytes of the relocation entries of the ascending pointers `s`.
#[verifier::rlimit(40)]
fn relocation_entries(s: &Vec<usize>) -> (r: (u32, Vec<u8>))
    requires
        increasing(s@),
        s@.len() <= u32::MAX,
        forall|i: int| 0 <= i < s@.len() ==> s@[i] <= usize::MAX - 256,
    ensures
        r.0 == groups(s@).len(),
        r.1@ == entry_bytes(groups(s@)),
{
    let mut remaining: Vec<usize> = s.clone();
    let mut body: Vec<u8> = Vec::new();
    let mut count: u32 = 0;
    let ghost mut emitted: Seq<(usize, u32)> = Seq::empty();
    while remaining.len() > 0
        invariant
            increasing(remaining@),
            forall|i: int| 0 <= i < remaining@.len() ==> remaining@[i] <= usize::MAX - 256,
            groups(s@) == emitted + groups(remaining@),
            body@ == entry_bytes(emitted),
            count == emitted.len(),
            emitted.len() + remaining@.len() <= s@.len(),
            s@.len() <= u32::MAX,
        decreases remaining@.len(),
    {
        let pointer = remaining[0];
        let flags = first_entry_flags(&remaining);
        let next = kept(pointer, &remaining);
        proof {
            lemma_keep(pointer as int, remaining@);
            assert forall|i: int| 0 <= i < next@.len() implies next@[i] <= usize::MAX - 256 by {
                assert(holds(remaining@, next@[i] as int));
            }
            let x = (pointer, flags);
            assert(groups(remaining@) == seq![x] + groups(next@));
            assert(emitted + groups(remaining@) =~= emitted.push(x) + groups(next@));
            assert(emitted.push(x).drop_last() =~= emitted);
            emitted = emitted.push(x);
        }
        push_u32(&mut body, pointer as u32, Endian::Little);
        push_u32(&mut body, flags, Endian::Little);
        count = count + 1;
        remaining = next;
    }
    assert(emitted + groups(remaining@) =~= emitted);
    (count, body)
}

/// Sorts the positions in ascending order, by inserting each into place.
fn sort_positions(v: &mut Vec<usize>)
    ensures
        final(v)@.to_multiset() == old(v)@.to_multiset(),
        forall|i: int, j: int| 0 <= i <= j < final(v)@.len() ==> final(v)@[i] <= final(v)@[j],
{
    broadcast use vstd::seq_lib::group_to_multiset_ensures;
    let ghost orig = v@;
    let mut out: Vec<usize> = Vec::new();
    let mut i: usize = 0;
    while i < v.len()
        invariant
            v@ == orig,
            i <= v@.len(),
            out@.to_multiset() == orig.take(i as int).to_multiset(),
            forall|a: int, b: int| 0 <= a <= b < out@.len() ==> out@[a] <= out@[b],
        decreases v@.len() - i,
    {
        let x = v[i];
        let mut pos: usize = 0;
        while pos < out.len() && out[pos] <= x
            invariant
                pos <= out@.len(),
                forall|a: int| 0 <= a < pos ==> out@[a] <= x,
            decreases out@.len() - pos,
        {
            pos = pos + 1;
        }
        let ghost before = out@;
        out.insert(pos, x);
        proof {
            assert(orig.take(i + 1) =~= orig.take(i as int).push(x));
            vstd::seq_lib::to_multiset_insert(before, pos as int, x);
            vstd::seq_lib::to_multiset_build(orig.take(i as int), x);
            assert(orig.take(i + 1).to_multiset() == orig.take(i as int).to_multiset().insert(x));
            assert(out@ == before.insert(pos as int, x));
            assert forall|a: int, b: int| 0 <= a <= b < out@.len() implies out@[a] <= out@[b] by {
                if pos < before.len() {
                    assert(before[pos as int] > x);
                }
                if a < pos && b > pos {
                    assert(out@[b] == before[b - 1]);
                } else if a > pos {
                    assert(out@[a] == before[a - 1] && out@[b] == before[b - 1]);
                } else if a == pos && b > pos {
                    assert(out@[b] == before[b - 1]);
                    assert(before[pos as int] <= before[b - 1]);
                }
            }
        }
        i = i + 1;
    }
    assert(orig.take(i as int) =~= orig);
    *v = out;
}

/// The ascending values `v` with each repeat dropped.
fn dedup_sorted(v: &Vec<usize>) -> (r: Vec<usize>)
    requires
        forall|i: int, j: int| 0 <= i <= j < v@.len() ==> v@[i] <= v@[j],
    ensures
        increasing(r@),
        r@.len() <= v@.len(),
        forall|x: usize| r@.contains(x) <==> v@.contains(x),
{
    let mut out: Vec<usize> = Vec::new();
    let mut i: usize = 0;
    while i < v.len()
        invariant
            forall|a: int, b: int| 0 <= a <= b < v@.len() ==> v@[a] <= v@[b],
            i <= v@.len(),
            increasing(out@),
            out@.len() <= i,
            i > 0 ==> out@.len() > 0 && out@.last() == v@[i - 1],
            forall|x: usize| out@.contains(x) <==> v@.subrange(0, i as int).contains(x),
        decreases v@.len() - i,
    {
        let x = v[i];
        let ghost before = out@;
        if out.len() == 0 || out[out.len() - 1] != x {
            out.push(x);
            proof {
                if i > 0 {
                    assert forall|a: int, b: int| 0 <= a < b < out@.len() implies out@[a] < out@[b] by {
                        if b == out@.len() - 1 && a < b {
                            assert(before[a] <= before.last());
                        }
                    }
                }
            }
        }
        proof {
            let p = v@.subrange(0, i as int);
            let q = v@.subrange(0, i + 1);
            assert(q =~= p.push(x));
            assert(out@[out@.len() - 1] == x);
            assert(forall|k: int| 0 <= k < before.len() ==> out@[k] == before[k]);
            assert forall|y: usize| out@.contains(y) <==> q.contains(y) by {
                if q.contains(y) {
                    let k = choose|k: int| 0 <= k < q.len() && q[k] == y;
                    if k < i {
                        assert(p[k] == y);
                        assert(p.contains(y));
                        assert(before.contains(y));
                        let m = choose|m: int| 0 <= m < before.len() && before[m] == y;
                        assert(out@[m] == y);
                    } else {
                        assert(out@[out@.len() - 1] == y);
                    }
                }
                if out@.contains(y) {
                    let k = choose|k: int| 0 <= k < out@.len() && out@[k] == y;
                    if k < before.len() {
                        assert(before[k] == y);
                        assert(before.contains(y));
                        assert(p.contains(y));
                        let m = choose|m: int| 0 <= m < p.len() && p[m] == y;
                        assert(q[m] == y);
                    } else {
                        assert(q[i as int] == y);
                    }
                }
            }
        }
        i = i + 1;
    }
    assert(v@.subrange(0, v@.len() as int) =~= v@);
    out
}

/// The header of a relocation table at `t`: the magic `RELT`, its own offset, one
/// section, the end of the data before it, and the entry count.
pub open spec fn relt_block(t: int, data_end: int, count: int) -> Seq<u8> {
    seq![0x52u8, 0x45u8, 0x4cu8, 0x54u8] + encode_u32(t as u32, Endian::Little) + encode_u32(
        1,
        Endian::Little,
    ) + encode_u32(0, Endian::Little) + encode_u64_le(0) + encode_u32(0, Endian::Little) + encode_u32(
        data_end as u32,
        Endian::Little,
    ) + encode_u32(0, Endian::Little) + encode_u32(count as u32, Endian::Little)
}

/// The output `b` with a relocation table of the entries `g` written: padded to eight
/// bytes, the table's offset put in the slot at `slot`, then the table's header and
/// its entries.
pub open spec fn table_written(b: Seq<u8>, slot: int, g: Seq<(usize, u32)>) -> Seq<u8> {
    table_head(b, slot) + relt_block(table_start(b), b.len() as int, g.len() as int) + entry_bytes(g)
}

/// Where the relocation table after `b` starts: at the next multiple of eight.
pub open spec fn table_start(b: Seq<u8>) -> int {
    b.len() + pad_len(b.len() as int, 8)
}

/// The output `b` padded to the table's start, the table's offset put in the slot at
/// `slot`.
pub open spec fn table_head(b: Seq<u8>, slot: int) -> Seq<u8> {
    patched(
        b + zeros(table_start(b) - b.len()),
        slot,
        encode_u32(table_start(b) as u32, Endian::Little),
    )
}

/// The output `b` with its relocation table written for the ascending pointers `s`.
pub open spec fn relocation_written(b: Seq<u8>, slot: int, s: Seq<usize>) -> Seq<u8> {
    table_written(b, slot, groups(s))
}

/// The first entry of the pool `p` whose string is `k`.
pub open spec fn pool_index(p: Seq<(Seq<char>, Seq<(usize, bool)>)>, k: Seq<char>, from: int) -> Option<int>
    decreases p.len() - from,
{
    if from < 0 || from >= p.len() {
        None
    } else if p[from].0 == k {
        Some(from)
    } else {
        pool_index(p, k, from + 1)
    }
}

/// The pool with the reference `r` to `k` added: to the entry of `k`, or in a new
/// entry at the end.
pub open spec fn pool_add(p: Seq<(Seq<char>, Seq<(usize, bool)>)>, k: Seq<char>, r: (usize, bool)) -> Seq<(Seq<char>, Seq<(usize, bool)>)> {
    match pool_index(p, k, 0) {
        Some(i) => p.update(i, (k, p[i].1.push(r))),
        None => p.push((k, seq![r])),
    }
}

/// The length-prefixed, zero-terminated form of a string in EVFL files: its UTF-8
/// length as a 16-bit value (its low 16 bits), its bytes, and a zero byte.
pub open spec fn pascal_bytes(s: Seq<char>) -> Seq<u8> {
    let b = vstd::utf8::encode_utf8(s);
    encode_u16((b.len() % 0x1_0000) as u16, Endian::Little) + b + seq![0u8]
}

/// The 16 bytes of a dictionary node: the bit it tests, its two children (their low
/// 16 bits) and a zero pointer slot for its name.
pub open spec fn dic_node_bytes(n: RadixNode) -> Seq<u8> {
    encode_u32(bits32(n.bit), Endian::Little) + encode_u16((n.child@[0] % 0x1_0000) as u16, Endian::Little)
        + encode_u16((n.child@[1] % 0x1_0000) as u16, Endian::Little) + encode_u64_le(0)
}

/// The bytes of the first `k` dictionary nodes.
pub open spec fn dic_nodes_bytes(nodes: Seq<RadixNode>, k: int) -> Seq<u8>
    decreases k,
{
    if k <= 0 {
        Seq::empty()
    } else {
        dic_nodes_bytes(nodes, k - 1) + dic_node_bytes(nodes[k - 1])
    }
}

/// A dictionary: the magic `DIC `, the name count (its low 32 bits), then its nodes.
pub open spec fn dic_bytes(count: int, nodes: Seq<RadixNode>) -> Seq<u8> {
    seq![0x44u8, 0x49u8, 0x43u8, 0x20u8] + encode_u32((count % 0x1_0000_0000) as u32, Endian::Little) + dic_nodes_bytes(
        nodes,
        nodes.len() as int,
    )
}

/// Where the name slot of dictionary node `i` lies, for a dictionary written at `start`.
pub open spec fn dic_name_slot(start: int, i: int) -> usize {
    (start + 8 + 16 * i + 8) as usize
}

/// The pool with the names of the first `k` dictionary nodes referred to from their
/// slots.
pub open spec fn dic_pool(p: Seq<(Seq<char>, Seq<(usize, bool)>)>, start: int, nodes: Seq<RadixNode>, k: int) -> Seq<(Seq<char>, Seq<(usize, bool)>)>
    decreases k,
{
    if k <= 0 {
        p
    } else {
        pool_add(dic_pool(p, start, nodes, k - 1), nodes[k - 1].name@, (dic_name_slot(start, k - 1), false))
    }
}

proof fn lemma_dic_nodes_len(nodes: Seq<RadixNode>, k: int)
    requires
        k >= 0,
    ensures
        dic_nodes_bytes(nodes, k).len() == 16 * k,
    decreases k,
{
    if k > 0 {
        lemma_dic_nodes_len(nodes, k - 1);
        lemma_u32_roundtrip(bits32(nodes[k - 1].bit), Endian::Little);
    }
}

/// The bytes `__POOL_PATCH_` that begin the keys standing for pool-relative offset
/// slots.
pub open spec fn pool_patch_prefix() -> Seq<u8> {
    seq![95u8, 95u8, 80u8, 79u8, 79u8, 76u8, 95u8, 80u8, 65u8, 84u8, 67u8, 72u8, 95u8]
}

/// The slot a key of the pool names, when it is `__POOL_PATCH_` and a number.
pub open spec fn patch_number(k: Seq<char>) -> Option<int> {
    let b = vstd::utf8::encode_utf8(k);
    if b.len() >= 13 && b.subrange(0, 13) == pool_patch_prefix() {
        decimal_value(b.subrange(13, b.len() as int))
    } else {
        None
    }
}

/// Whether a key is the one written for its slot number: `__POOL_PATCH_` and the
/// number in plain decimal. Such keys leave the pool once their slot is filled.
pub open spec fn canonical_patch(k: Seq<char>) -> bool {
    match patch_number(k) {
        Some(n) => k == "__POOL_PATCH_"@ + decimal(n as nat),
        None => false,
    }
}

/// The data `d` with the slots named by the keys of the first `k` pool entries filled:
/// each gets the distance from four bytes before it to the pool at `pool_start`.
pub open spec fn pool_patched(d: Seq<u8>, p: Seq<(Seq<char>, Seq<(usize, bool)>)>, pool_start: int, k: int) -> Seq<u8>
    decreases k,
{
    if k <= 0 {
        d
    } else {
        let before = pool_patched(d, p, pool_start, k - 1);
        match patch_number(p[k - 1].0) {
            Some(n) => patched(
                before,
                n,
                encode_u32(((pool_start - (n - 4)) % 0x1_0000_0000) as u32, Endian::Little),
            ),
            None => before,
        }
    }
}

/// The pool without the keys that leave it once their slot is filled.
pub open spec fn pool_kept(p: Seq<(Seq<char>, Seq<(usize, bool)>)>) -> Seq<(Seq<char>, Seq<(usize, bool)>)>
    decreases p.len(),
{
    if p.len() == 0 {
        p
    } else if canonical_patch(p.last().0) {
        pool_kept(p.drop_last())
    } else {
        pool_kept(p.drop_last()).push(p.last())
    }
}

/// The header of a string pool: the magic `STR `, two zero fields and the number of
/// strings besides the empty one (its low 32 bits).
pub open spec fn str_head(count: int) -> Seq<u8> {
    seq![0x53u8, 0x54u8, 0x52u8, 0x20u8] + encode_u32(0, Endian::Little) + encode_u64_le(0) + encode_u32(
        (count % 0x1_0000_0000) as u32,
        Endian::Little,
    )
}

/// The data `d` with the first `m` slots of `refs` pointed at a string written at
/// `at`: a 32-bit header slot gets the position of its text, two bytes in (its low 32
/// bits), a pointer slot the position itself.
pub open spec fn refs_patched(d: Seq<u8>, refs: Seq<(usize, bool)>, at: int, m: int) -> Seq<u8>
    decreases m,
{
    if m <= 0 {
        d
    } else {
        let before = refs_patched(d, refs, at, m - 1);
        if refs[m - 1].1 {
            patched(before, refs[m - 1].0 as int, encode_u32(((at + 2) % 0x1_0000_0000) as u32, Endian::Little))
        } else {
            patched(before, refs[m - 1].0 as int, encode_u64_le(at as u64))
        }
    }
}

/// The data `d` with the strings of the first `k` entries of `q` in the order `order`
/// written: each at the current end, its slots pointed at it, in its length-prefixed
/// form and padded to two bytes.
pub open spec fn strings_written(d: Seq<u8>, q: Seq<(Seq<char>, Seq<(usize, bool)>)>, order: Seq<usize>, k: int) -> Seq<u8>
    decreases k,
{
    if k <= 0 {
        d
    } else {
        let before = strings_written(d, q, order, k - 1);
        let e = q[order[k - 1] as int];
        let d2 = refs_patched(before, e.1, before.len() as int, e.1.len() as int) + pascal_bytes(e.0);
        d2 + zeros(pad_len(d2.len() as int, 2))
    }
}

/// The key by which the pool orders a string: its UTF-8 bytes in reverse order, each
/// with its bits reversed.
pub open spec fn pool_key(s: Seq<char>) -> Seq<u8> {
    let b = vstd::utf8::encode_utf8(s);
    Seq::new(b.len(), |i: int| reversed_byte(b[b.len() - 1 - i]))
}

/// Whether `order` lists each entry of `q` once, none after one with a greater key.
pub open spec fn pool_order(q: Seq<(Seq<char>, Seq<(usize, bool)>)>, order: Seq<usize>) -> bool {
    &&& order.len() == q.len()
    &&& forall|i: int| 0 <= i < order.len() ==> (#[trigger] order[i] as int) < q.len()
    &&& forall|i: int, j: int| 0 <= i < j < order.len() ==> order[i] != order[j]
    &&& forall|i: int, j: int|
        0 <= i < j < order.len() ==> !lex_lt(pool_key(q[order[j] as int].0), pool_key(q[order[i] as int].0))
}

/// The padding before inline string `index` written at `pos`: to two bytes before
/// each but the first when the alignment is two.
pub open spec fn inline_pad(pos: int, alignment: usize, index: int) -> Seq<u8> {
    if alignment == 2 && index != 0 {
        zeros(pad_len(pos, 2))
    } else {
        Seq::empty()
    }
}

/// The first `n` inline strings written from `start`, each padded as `inline_pad`
/// says and in length-prefixed form.
pub open spec fn inline_body(start: int, alignment: usize, values: Seq<Seq<char>>, n: int) -> Seq<u8>
    decreases n,
{
    if n <= 0 {
        Seq::empty()
    } else {
        let before = inline_body(start, alignment, values, n - 1);
        before + inline_pad(start + before.len(), alignment, n - 1) + pascal_bytes(values[n - 1])
    }
}

/// Where inline string `i` starts.
pub open spec fn inline_at(start: int, alignment: usize, values: Seq<Seq<char>>, i: int) -> int {
    let before = inline_body(start, alignment, values, i);
    start + before.len() + inline_pad(start + before.len(), alignment, i).len()
}

/// The output `d` with the string pool of `p` written, its strings in the order
/// `order`: padded to eight bytes, the slots pool keys name filled, the `STR `
/// header, then the strings.
pub open spec fn pool_written(d: Seq<u8>, p: Seq<(Seq<char>, Seq<(usize, bool)>)>, order: Seq<usize>) -> Seq<u8> {
    let start = d.len() + pad_len(d.len() as int, 8);
    let q = pool_kept(p);
    let d0 = pool_patched(d + zeros(start - d.len()), p, start, p.len() as int);
    strings_written(d0 + str_head(q.len() - 1), q, order, q.len() as int)
}

/// Whether the slots of the pool entries lie in the first `len` bytes: four bytes for
/// a header slot, eight for a pointer.
pub open spec fn refs_inside(p: Seq<(Seq<char>, Seq<(usize, bool)>)>, len: int) -> bool {
    forall|i: int, j: int|
        0 <= i < p.len() && 0 <= j < p[i].1.len() ==> (#[trigger] p[i].1[j]).0 + (if p[i].1[j].1 {
            4int
        } else {
            8int
        }) <= len
}

/// Whether each slot a pool key names lies past four bytes and inside the first
/// `len` bytes.
pub open spec fn patches_inside(p: Seq<(Seq<char>, Seq<(usize, bool)>)>, len: int) -> bool {
    forall|i: int|
        0 <= i < p.len() ==> (#[trigger] patch_number(p[i].0) matches Some(n) ==> 4 <= n && n + 4 <= len)
}

proof fn lemma_refs_inside_grow(p: Seq<(Seq<char>, Seq<(usize, bool)>)>, a: int, b: int)
    requires
        refs_inside(p, a),
        a <= b,
    ensures
        refs_inside(p, b),
{
}

proof fn lemma_refs_kept(p: Seq<(Seq<char>, Seq<(usize, bool)>)>, len: int)
    requires
        refs_inside(p, len),
    ensures
        refs_inside(pool_kept(p), len),
    decreases p.len(),
{
    if p.len() > 0 {
        let d = p.drop_last();
        assert forall|i: int, j: int| 0 <= i < d.len() && 0 <= j < d[i].1.len() implies (#[trigger] d[i].1[j]).0 + (if d[i].1[j].1 {
            4int
        } else {
            8int
        }) <= len by {
            assert(d[i] == p[i]);
        }
        lemma_refs_kept(d, len);
        if !canonical_patch(p.last().0) {
            let k = pool_kept(d);
            let kk = k.push(p.last());
            assert forall|i: int, j: int| 0 <= i < kk.len() && 0 <= j < kk[i].1.len() implies (#[trigger] kk[i].1[j]).0 + (if kk[i].1[j].1 {
                4int
            } else {
                8int
            }) <= len by {
                if i == k.len() {
                    assert(kk[i] == p[p.len() - 1]);
                } else {
                    assert(kk[i] == k[i]);
                }
            }
        }
    }
}

/// Filling slots that lie inside the data keeps its length.
proof fn lemma_refs_patched_len(d: Seq<u8>, refs: Seq<(usize, bool)>, at: int, m: int, q: Seq<(Seq<char>, Seq<(usize, bool)>)>)
    requires
        0 <= m <= refs.len(),
        forall|j: int| 0 <= j < refs.len() ==> (#[trigger] refs[j]).0 + (if refs[j].1 { 4int } else { 8int }) <= d.len(),
    ensures
        refs_patched(d, refs, at, m).len() == d.len(),
    decreases m,
{
    if m > 0 {
        lemma_refs_patched_len(d, refs, at, m - 1, q);
        lemma_u32_roundtrip(((at + 2) % 0x1_0000_0000) as u32, Endian::Little);
    }
}

/// The output of an EVFL file as it is built, with the positions of the pointer
/// slots that the relocation table at its end must list.
pub struct EvflWriter {
    out: Vec<u8>,
    pointers: Vec<usize>,
    strings: Vec<(String, Vec<(usize, bool)>)>,
}

impl EvflWriter {
    /// The bytes written so far.
    pub closed spec fn data(&self) -> Seq<u8> {
        self.out@
    }

    /// The pointer slots registered so far.
    pub closed spec fn registered(&self) -> Seq<usize> {
        self.pointers@
    }

    /// The strings of the pool, in the order they were first referenced, each with the
    /// slots that refer to it: its position, and whether it is a 32-bit header slot
    /// rather than a pointer.
    pub closed spec fn pool(&self) -> Seq<(Seq<char>, Seq<(usize, bool)>)> {
        self.strings@.map_values(|e: (String, Vec<(usize, bool)>)| (e.0@, e.1@))
    }

    /// An empty output with no pointer registered.
    pub fn new() -> (w: Self)
        ensures
            w.data() == Seq::<u8>::empty(),
            w.registered() == Seq::<usize>::empty(),
            w.pool() == seq![(Seq::<char>::empty(), Seq::<(usize, bool)>::empty())],
    {
        let mut strings: Vec<(String, Vec<(usize, bool)>)> = Vec::new();
        strings.push((String::new(), Vec::new()));
        let w = EvflWriter { out: Vec::new(), pointers: Vec::new(), strings };
        assert(w.pool() =~= seq![(Seq::<char>::empty(), Seq::<(usize, bool)>::empty())]);
        w
    }

    /// The bytes written.
    pub fn finish(self) -> (v: Vec<u8>)
        ensures
            v@ == self.data(),
    {
        self.out
    }

    /// The current length of the output, where the next value goes.
    pub fn pos(&self) -> (p: usize)
        ensures
            p == self.data().len(),
    {
        self.out.len()
    }

    /// Appends `value`.
    pub fn bytes(&mut self, value: &[u8])
        ensures
            final(self).data() == old(self).data() + value@,
            final(self).registered() == old(self).registered(),
            final(self).pool() == old(self).pool(),
    {
        let ghost start = self.out@;
        let mut i: usize = 0;
        while i < value.len()
            invariant
                i <= value@.len(),
                self.out@ == start + value@.subrange(0, i as int),
                self.pointers@ == old(self).pointers@,
                self.strings@ == old(self).strings@,
            decreases value@.len() - i,
        {
            self.out.push(value[i]);
            i = i + 1;
            assert(self.out@ =~= start + value@.subrange(0, i as int));
        }
        assert(value@.subrange(0, value@.len() as int) =~= value@);
    }

    /// Appends one byte.
    pub fn u8(&mut self, value: u8)
        ensures
            final(self).data() == old(self).data().push(value),
            final(self).registered() == old(self).registered(),
            final(self).pool() == old(self).pool(),
    {
        self.out.push(value);
    }

    /// Appends a little-endian 16-bit value.
    pub fn u16(&mut self, value: u16)
        ensures
            final(self).data() == old(self).data() + encode_u16(value, Endian::Little),
            final(self).registered() == old(self).registered(),
            final(self).pool() == old(self).pool(),
    {
        push_u16(&mut self.out, value, Endian::Little);
    }

    /// Appends a little-endian 32-bit value.
    pub fn u32(&mut self, value: u32)
        ensures
            final(self).data() == old(self).data() + encode_u32(value, Endian::Little),
            final(self).registered() == old(self).registered(),
            final(self).pool() == old(self).pool(),
    {
        push_u32(&mut self.out, value, Endian::Little);
    }

    /// Appends a little-endian 16-bit signed value.
    pub fn i16(&mut self, value: i16)
        ensures
            final(self).data() == old(self).data() + encode_u16(bits16(value), Endian::Little),
            final(self).registered() == old(self).registered(),
            final(self).pool() == old(self).pool(),
    {
        self.u16(from_i16(value));
    }

    /// Appends a little-endian 32-bit signed value.
    pub fn i32(&mut self, value: i32)
        ensures
            final(self).data() == old(self).data() + encode_u32(bits32(value), Endian::Little),
            final(self).registered() == old(self).registered(),
            final(self).pool() == old(self).pool(),
    {
        self.u32(from_i32(value));
    }

    /// Appends a little-endian 64-bit value.
    pub fn u64(&mut self, value: u64)
        ensures
            final(self).data() == old(self).data() + encode_u64_le(value),
            final(self).registered() == old(self).registered(),
            final(self).pool() == old(self).pool(),
    {
        push_u32(&mut self.out, (value % 0x1_0000_0000) as u32, Endian::Little);
        push_u32(&mut self.out, (value / 0x1_0000_0000) as u32, Endian::Little);
        assert(self.out@ =~= old(self).out@ + encode_u64_le(value));
    }

    /// Overwrites the bytes at `at` with `v`, which lie inside the output.
    fn put(&mut self, at: usize, v: &Vec<u8>)
        requires
            at + v@.len() <= old(self).data().len(),
        ensures
            final(self).data() == patched(old(self).data(), at as int, v@),
            final(self).registered() == old(self).registered(),
            final(self).pool() == old(self).pool(),
    {
        let n = self.out.len();
        let mut i: usize = 0;
        while i < v.len()
            invariant
                n == self.out@.len(),
                at + v@.len() <= self.out@.len(),
                self.out@.len() == old(self).out@.len(),
                i <= v@.len(),
                self.pointers@ == old(self).pointers@,
                self.strings@ == old(self).strings@,
                forall|k: int| 0 <= k < self.out@.len() ==> #[trigger] self.out@[k] == if at <= k < at + i {
                    v@[k - at]
                } else {
                    old(self).out@[k]
                },
            decreases v@.len() - i,
        {
            self.out.set(at + i, v[i]);
            i = i + 1;
        }
        assert(self.out@ =~= patched(old(self).out@, at as int, v@));
    }

    /// Overwrites the 16-bit slot at `at`, which lies inside the output.
    pub fn patch_u16(&mut self, at: usize, value: u16)
        requires
            at + 2 <= old(self).data().len(),
        ensures
            final(self).data() == patched(old(self).data(), at as int, encode_u16(value, Endian::Little)),
            final(self).registered() == old(self).registered(),
            final(self).pool() == old(self).pool(),
    {
        let mut v: Vec<u8> = Vec::new();
        push_u16(&mut v, value, Endian::Little);
        self.put(at, &v);
    }

    /// Overwrites the 32-bit slot at `at`, which lies inside the output.
    pub fn patch_u32(&mut self, at: usize, value: u32)
        requires
            at + 4 <= old(self).data().len(),
        ensures
            final(self).data() == patched(old(self).data(), at as int, encode_u32(value, Endian::Little)),
            final(self).registered() == old(self).registered(),
            final(self).pool() == old(self).pool(),
    {
        let mut v: Vec<u8> = Vec::new();
        push_u32(&mut v, value, Endian::Little);
        self.put(at, &v);
    }

    /// Overwrites the 64-bit slot at `at`, which lies inside the output.
    pub fn patch_u64(&mut self, at: usize, value: u64)
        requires
            at + 8 <= old(self).data().len(),
        ensures
            final(self).data() == patched(old(self).data(), at as int, encode_u64_le(value)),
            final(self).registered() == old(self).registered(),
            final(self).pool() == old(self).pool(),
    {
        let mut v: Vec<u8> = Vec::new();
        push_u32(&mut v, (value % 0x1_0000_0000) as u32, Endian::Little);
        push_u32(&mut v, (value / 0x1_0000_0000) as u32, Endian::Little);
        assert(v@ =~= encode_u64_le(value));
        self.put(at, &v);
    }

    /// Appends a zero 16-bit slot to be patched later; returns its position.
    pub fn reserve_u16(&mut self) -> (at: usize)
        ensures
            at == old(self).data().len(),
            final(self).data() == old(self).data() + encode_u16(0, Endian::Little),
            final(self).registered() == old(self).registered(),
            final(self).pool() == old(self).pool(),
    {
        let at = self.pos();
        self.u16(0);
        at
    }

    /// Appends a zero 32-bit slot to be patched later; returns its position.
    pub fn reserve_u32(&mut self) -> (at: usize)
        ensures
            at == old(self).data().len(),
            final(self).data() == old(self).data() + encode_u32(0, Endian::Little),
            final(self).registered() == old(self).registered(),
            final(self).pool() == old(self).pool(),
    {
        let at = self.pos();
        self.u32(0);
        at
    }

    /// Appends a zero pointer slot; unless `null`, it is registered for relocation.
    pub fn reserve_ptr(&mut self, null: bool) -> (at: usize)
        ensures
            at == old(self).data().len(),
            final(self).data() == old(self).data() + encode_u64_le(0),
            final(self).pool() == old(self).pool(),
            final(self).registered() == if null {
                old(self).registered()
            } else {
                old(self).registered().push(at)
            },
    {
        self.reserve_ptr_with_null_registration(null, false)
    }

    /// Appends a zero pointer slot; it is registered for relocation unless it is `null`
    /// and `register_null` is not set.
    pub fn reserve_ptr_with_null_registration(&mut self, null: bool, register_null: bool) -> (at: usize)
        ensures
            at == old(self).data().len(),
            final(self).data() == old(self).data() + encode_u64_le(0),
            final(self).pool() == old(self).pool(),
            final(self).registered() == if !null || register_null {
                old(self).registered().push(at)
            } else {
                old(self).registered()
            },
    {
        let at = self.pos();
        if !null || register_null {
            self.pointers.push(at);
        }
        self.u64(0);
        at
    }

    /// Appends zero bytes until the length is a multiple of `alignment`.
    pub fn align(&mut self, alignment: usize)
        requires
            alignment > 0,
        ensures
            final(self).data() == old(self).data() + zeros(pad_len(old(self).data().len() as int, alignment as int)),
            final(self).registered() == old(self).registered(),
            final(self).pool() == old(self).pool(),
    {
        let ghost start = self.out@;
        let ghost pad = pad_len(start.len() as int, alignment as int);
        proof {
            lemma_pad_len(start.len() as int, alignment as int);
        }
        let mut n: usize = 0;
        while self.out.len() % alignment != 0
            invariant
                alignment > 0,
                0 <= pad < alignment,
                (start.len() + pad) % (alignment as int) == 0,
                n <= pad,
                self.out@ == start + zeros(n as int),
                self.pointers@ == old(self).pointers@,
                self.strings@ == old(self).strings@,
            decreases pad - n,
        {
            proof {
                if n == pad {
                    assert(self.out@.len() == start.len() + pad);
                }
            }
            self.out.push(0);
            n = n + 1;
            assert(self.out@ =~= start + zeros(n as int));
        }
        proof {
            assert(n == pad) by (nonlinear_arith)
                requires
                    (start.len() + n) % (alignment as int) == 0,
                    (start.len() + pad) % (alignment as int) == 0,
                    0 <= n <= pad < alignment,
            {
            }
        }
    }

    /// Appends a reference to `value` in the string pool: a zero 32-bit slot in a file
    /// header, else a zero pointer slot that is registered for relocation. The slot is
    /// recorded with the string, to be pointed at it when the pool is written.
    #[verifier::rlimit(40)]
    pub fn string_ref(&mut self, value: &str, header: bool)
        ensures
            final(self).data() == old(self).data() + if header {
                encode_u32(0, Endian::Little)
            } else {
                encode_u64_le(0)
            },
            final(self).registered() == if header {
                old(self).registered()
            } else {
                old(self).registered().push(old(self).data().len() as usize)
            },
            final(self).pool() == pool_add(old(self).pool(), value@, (old(self).data().len() as usize, header)),
    {
        let at = self.pos();
        if header {
            self.u32(0);
        } else {
            self.pointers.push(at);
            self.u64(0);
        }
        let ghost p = self.pool();
        let ghost out1 = self.out@;
        let ghost ptr1 = self.pointers@;
        assert(out1 == old(self).out@ + if header {
            encode_u32(0, Endian::Little)
        } else {
            encode_u64_le(0)
        });
        assert(ptr1 == if header {
            old(self).pointers@
        } else {
            old(self).pointers@.push(at)
        });
        let mut i: usize = 0;
        while i < self.strings.len()
            invariant
                i <= self.strings@.len(),
                p == self.pool(),
                p.len() == self.strings@.len(),
                pool_index(p, value@, 0) == pool_index(p, value@, i as int),
                self.out@ == out1,
                self.pointers@ == ptr1,
                out1 == old(self).out@ + if header {
                    encode_u32(0, Endian::Little)
                } else {
                    encode_u64_le(0)
                },
                ptr1 == if header {
                    old(self).pointers@
                } else {
                    old(self).pointers@.push(at)
                },
                at == old(self).out@.len(),
                p == old(self).pool(),
            decreases self.strings@.len() - i,
        {
            if str_eq(self.strings[i].0.as_str(), value) {
                let name = self.strings[i].0.clone();
                let mut refs: Vec<(usize, bool)> = Vec::new();
                let mut k: usize = 0;
                while k < self.strings[i].1.len()
                    invariant
                        i < self.strings@.len(),
                        self.out@ == out1,
                        self.pointers@ == ptr1,
                        p == self.pool(),
                        k <= self.strings@[i as int].1@.len(),
                        refs@ =~= self.strings@[i as int].1@.subrange(0, k as int),
                    decreases self.strings@[i as int].1@.len() - k,
                {
                    refs.push(self.strings[i].1[k]);
                    k = k + 1;
                }
                assert(self.strings@[i as int].1@.subrange(0, k as int) =~= self.strings@[i as int].1@);
                refs.push((at, header));
                self.strings.set(i, (name, refs));
                proof {
                    assert(p[i as int].0 == value@);
                    assert(self.pool() =~= p.update(i as int, (value@, p[i as int].1.push((at, header)))));
                }
                return;
            }
            i = i + 1;
        }
        let mut refs: Vec<(usize, bool)> = Vec::new();
        refs.push((at, header));
        self.strings.push((value.to_owned(), refs));
        proof {
            assert(refs@ =~= seq![(at, header)]);
            assert(self.pool() =~= p.push((value@, seq![(at, header)])));
        }
    }

    /// Appends a string in its length-prefixed, zero-terminated form.
    pub fn pascal(&mut self, value: &str)
        ensures
            final(self).data() == old(self).data() + pascal_bytes(value@),
            final(self).registered() == old(self).registered(),
            final(self).pool() == old(self).pool(),
    {
        let b = value.as_bytes();
        self.u16((b.len() % 0x1_0000) as u16);
        self.bytes(b);
        self.u8(0);
        assert(self.out@ =~= old(self).out@ + pascal_bytes(value@));
    }

    /// Appends the dictionary of the names `keys`: its tree, built as the format's
    /// radix tree is, each node with a pointer slot for its name in the string pool.
    #[verifier::rlimit(40)]
    pub fn write_radix(&mut self, keys: &[&str]) -> (r: Result<(), Error>)
        requires
            forall|i: int| 0 <= i < keys@.len() ==> name_fits(#[trigger] keys@[i]@),
        ensures
            r is Ok,
            exists|nodes: Seq<RadixNode>|
                {
                    &&& dictionary_of(keys@.map_values(|k: &str| k@), nodes)
                    &&& final(self).data() == old(self).data() + dic_bytes(keys@.len() as int, nodes)
                    &&& final(self).registered() == old(self).registered() + Seq::new(
                        nodes.len(),
                        |i: int| dic_name_slot(old(self).data().len() as int, i),
                    )
                    &&& final(self).pool() == dic_pool(
                        old(self).pool(),
                        old(self).data().len() as int,
                        nodes,
                        nodes.len() as int,
                    )
                },
    {
        let nodes = radix_nodes(keys)?;
        let ghost start = self.out@.len() as int;
        self.u8(0x44);
        self.u8(0x49);
        self.u8(0x43);
        self.u8(0x20);
        self.u32((keys.len() as u64 % 0x1_0000_0000) as u32);
        let ghost head = self.out@;
        assert(head =~= old(self).out@ + seq![0x44u8, 0x49u8, 0x43u8, 0x20u8] + encode_u32(
            (keys@.len() % 0x1_0000_0000) as u32,
            Endian::Little,
        ));
        let mut i: usize = 0;
        while i < nodes.len()
            invariant
                i <= nodes@.len(),
                start == old(self).out@.len(),
                self.out@ == head + dic_nodes_bytes(nodes@, i as int),
                head.len() == start + 8,
                self.pointers@ == old(self).pointers@ + Seq::new(i as nat, |j: int| dic_name_slot(start, j)),
                self.pool() == dic_pool(old(self).pool(), start, nodes@, i as int),
            decreases nodes@.len() - i,
        {
            let ghost before = self.out@;
            let ghost ptrs = self.pointers@;
            proof {
                lemma_dic_nodes_len(nodes@, i as int);
            }
            self.i32(nodes[i].bit);
            self.u16((nodes[i].child[0] % 0x1_0000) as u16);
            self.u16((nodes[i].child[1] % 0x1_0000) as u16);
            assert(self.out@.len() == start + 8 + 16 * i + 8);
            self.string_ref(nodes[i].name.as_str(), false);
            proof {
                assert(self.out@ =~= head + dic_nodes_bytes(nodes@, i + 1));
                assert(self.pointers@ =~= old(self).pointers@ + Seq::new((i + 1) as nat, |j: int| dic_name_slot(start, j)));
            }
            i = i + 1;
        }
        proof {
            assert(self.out@ =~= old(self).out@ + dic_bytes(keys@.len() as int, nodes@));
        }
        Ok(())
    }

    /// Fills the slots that pool keys name with their distance to the pool at
    /// `pool_start`, the end of the output; tells which keys stay in the pool.
    #[verifier::rlimit(40)]
    fn fill_pool_patches(&mut self, pool_start: usize) -> (keep: Vec<bool>)
        requires
            pool_start == old(self).data().len(),
            patches_inside(old(self).pool(), old(self).data().len() as int),
        ensures
            final(self).data() == pool_patched(old(self).data(), old(self).pool(), pool_start as int, old(self).pool().len() as int),
            final(self).data().len() == old(self).data().len(),
            final(self).pool() == old(self).pool(),
            final(self).registered() == old(self).registered(),
            keep@.len() == old(self).pool().len(),
            forall|i: int| 0 <= i < keep@.len() ==> keep@[i] == !canonical_patch(#[trigger] old(self).pool()[i].0),
    {
        let prefix: [u8; 13] = [95, 95, 80, 79, 79, 76, 95, 80, 65, 84, 67, 72, 95];
        assert(prefix@ =~= pool_patch_prefix());
        let ghost p = self.pool();
        let mut keep: Vec<bool> = Vec::new();
        let mut i: usize = 0;
        while i < self.strings.len()
            invariant
                p == old(self).pool(),
                p == self.pool(),
                p.len() == self.strings@.len(),
                pool_start == old(self).data().len(),
                patches_inside(p, pool_start as int),
                self.pointers@ == old(self).pointers@,
                prefix@ == pool_patch_prefix(),
                i <= self.strings@.len(),
                self.out@.len() == pool_start,
                self.out@ == pool_patched(old(self).out@, p, pool_start as int, i as int),
                keep@.len() == i,
                forall|j: int| 0 <= j < i ==> keep@[j] == !canonical_patch(#[trigger] p[j].0),
            decreases self.strings@.len() - i,
        {
            assert(p[i as int].0 == self.strings@[i as int].0@);
            let number = {
                let b = self.strings[i].0.as_str().as_bytes();
                if b.len() >= 13 && bytes_eq(&b[0..13], prefix.as_slice()) {
                    assert(b@.subrange(0, 13) =~= b@.subrange(0, 13));
                    parse_decimal(&b[13..b.len()])
                } else {
                    None
                }
            };
            proof {
                let b = vstd::utf8::encode_utf8(p[i as int].0);
                assert(patch_number(p[i as int].0) == match number {
                    Some(n) => Some(n as int),
                    None => None::<int>,
                });
            }
            let mut canonical = false;
            match number {
                Some(n) => {
                    assert(patch_number(p[i as int].0) == Some(n as int));
                    let v = ((pool_start - (n - 4)) as u64 % 0x1_0000_0000) as u32;
                    self.patch_u32(n, v);
                    let mut c = String::from_str("__POOL_PATCH_");
                    push_decimal(&mut c, n as u64);
                    canonical = str_eq(self.strings[i].0.as_str(), c.as_str());
                },
                None => {},
            }
            keep.push(!canonical);
            i = i + 1;
        }
        keep
    }

    /// Drops from the pool the keys that are not to stay.
    #[verifier::rlimit(40)]
    fn drop_patch_keys(&mut self, keep: &Vec<bool>)
        requires
            keep@.len() == old(self).pool().len(),
            forall|i: int| 0 <= i < keep@.len() ==> keep@[i] == !canonical_patch(#[trigger] old(self).pool()[i].0),
        ensures
            final(self).pool() == pool_kept(old(self).pool()),
            final(self).data() == old(self).data(),
            final(self).registered() == old(self).registered(),
    {
        let ghost p = self.pool();
        let mut kept: Vec<(String, Vec<(usize, bool)>)> = Vec::new();
        let mut i: usize = 0;
        while i < self.strings.len()
            invariant
                p == self.pool(),
                p == old(self).pool(),
                keep@.len() == p.len(),
                forall|j: int| 0 <= j < keep@.len() ==> keep@[j] == !canonical_patch(#[trigger] p[j].0),
                i <= self.strings@.len(),
                p.len() == self.strings@.len(),
                kept@.map_values(|e: (String, Vec<(usize, bool)>)| (e.0@, e.1@)) == pool_kept(p.subrange(0, i as int)),
                self.out@ == old(self).out@,
                self.pointers@ == old(self).pointers@,
            decreases self.strings@.len() - i,
        {
            proof {
                assert(p.subrange(0, i + 1).drop_last() =~= p.subrange(0, i as int));
                assert(p.subrange(0, i + 1).last() == p[i as int]);
            }
            if keep[i] {
                let name = self.strings[i].0.clone();
                let mut refs: Vec<(usize, bool)> = Vec::new();
                let mut k: usize = 0;
                while k < self.strings[i].1.len()
                    invariant
                        i < self.strings@.len(),
                        k <= self.strings@[i as int].1@.len(),
                        refs@ =~= self.strings@[i as int].1@.subrange(0, k as int),
                    decreases self.strings@[i as int].1@.len() - k,
                {
                    refs.push(self.strings[i].1[k]);
                    k = k + 1;
                }
                assert(self.strings@[i as int].1@.subrange(0, k as int) =~= self.strings@[i as int].1@);
                let ghost before = kept@;
                kept.push((name, refs));
                proof {
                    assert(kept@.map_values(|e: (String, Vec<(usize, bool)>)| (e.0@, e.1@)) =~= before.map_values(
                        |e: (String, Vec<(usize, bool)>)| (e.0@, e.1@),
                    ).push(p[i as int]));
                }
            }
            i = i + 1;
        }
        assert(p.subrange(0, p.len() as int) =~= p);
        self.strings = kept;
    }

    /// The ordering key of each pool string.
    fn pool_keys(&self) -> (r: Vec<Vec<u8>>)
        ensures
            r@.len() == self.pool().len(),
            forall|i: int| 0 <= i < r@.len() ==> (#[trigger] r@[i])@ == pool_key(self.pool()[i].0),
    {
        let mut out: Vec<Vec<u8>> = Vec::new();
        let mut i: usize = 0;
        while i < self.strings.len()
            invariant
                i <= self.strings@.len(),
                out@.len() == i,
                forall|j: int| 0 <= j < i ==> (#[trigger] out@[j])@ == pool_key(self.pool()[j].0),
            decreases self.strings@.len() - i,
        {
            let key = reverse_bits(self.strings[i].0.as_str());
            proof {
                assert(self.pool()[i as int].0 == self.strings@[i as int].0@);
                assert(key@ =~= pool_key(self.pool()[i as int].0));
            }
            out.push(key);
            i = i + 1;
        }
        out
    }

    /// Writes pool string `idx` at the end, points its slots at it, and pads to two bytes.
    #[verifier::rlimit(40)]
    fn write_pool_entry(&mut self, idx: usize)
        requires
            idx < old(self).pool().len(),
            refs_inside(old(self).pool(), old(self).data().len() as int),
        ensures
            final(self).pool() == old(self).pool(),
            final(self).registered() == old(self).registered(),
            final(self).data() == {
                let e = old(self).pool()[idx as int];
                let d2 = refs_patched(old(self).data(), e.1, old(self).data().len() as int, e.1.len() as int)
                    + pascal_bytes(e.0);
                d2 + zeros(pad_len(d2.len() as int, 2))
            },
    {
        let ghost p = self.pool();
        let ghost e = p[idx as int];
        assert(e.1 == self.strings@[idx as int].1@);
        let at = self.pos();
        let n = self.strings[idx].1.len();
        let mut j: usize = 0;
        while j < n
            invariant
                p == self.pool(),
                p == old(self).pool(),
                idx < p.len(),
                e == p[idx as int],
                e.1 == self.strings@[idx as int].1@,
                n == e.1.len(),
                refs_inside(p, at as int),
                at == old(self).out@.len(),
                j <= n,
                self.out@.len() == at,
                self.out@ == refs_patched(old(self).out@, e.1, at as int, j as int),
                self.pointers@ == old(self).pointers@,
            decreases n - j,
        {
            let (slot, header) = self.strings[idx].1[j];
            assert(e.1[j as int] == (slot, header));
            assert(slot + (if header { 4int } else { 8int }) <= at);
            if header {
                let low = at as u64 % 0x1_0000_0000;
                proof {
                    vstd::arithmetic::div_mod::lemma_add_mod_noop(at as int, 2, 0x1_0000_0000);
                    vstd::arithmetic::div_mod::lemma_mod_twice(2, 0x1_0000_0000);
                }
                self.patch_u32(slot, ((low + 2) % 0x1_0000_0000) as u32);
            } else {
                self.patch_u64(slot, at as u64);
            }
            j = j + 1;
        }
        let name = self.strings[idx].0.clone();
        assert(name@ == e.0);
        self.pascal(name.as_str());
        self.align(2);
    }

    /// Writes the string pool: pads to eight bytes; fills each slot that a pool key
    /// names with its distance to the pool, dropping such keys written in plain
    /// decimal; writes the `STR ` header with the number of strings besides the empty
    /// one; then each string, ordered by its bytes reversed with their bits reversed,
    /// pointing its slots at it and padding to two bytes.
    #[verifier::rlimit(40)]
    pub fn write_string_pool(&mut self) -> (r: Result<(), Error>)
        requires
            refs_inside(old(self).pool(), old(self).data().len() as int),
            patches_inside(old(self).pool(), old(self).data().len() as int),
            pool_kept(old(self).pool()).len() >= 1,
        ensures
            r is Ok,
            final(self).registered() == old(self).registered(),
            final(self).pool() == pool_kept(old(self).pool()),
            exists|order: Seq<usize>|
                #[trigger] pool_order(pool_kept(old(self).pool()), order) && final(self).data() == pool_written(
                    old(self).data(),
                    old(self).pool(),
                    order,
                ),
    {
        let ghost d = self.out@;
        let ghost p = self.pool();
        self.align(8);
        let pool_start = self.pos();
        proof {
            lemma_pad_len(d.len() as int, 8);
            assert(refs_inside(p, pool_start as int));
            assert(patches_inside(p, pool_start as int));
        }
        let keep = self.fill_pool_patches(pool_start);
        self.drop_patch_keys(&keep);
        let ghost q = self.pool();
        let ghost d0 = self.out@;
        assert(q.len() == self.strings@.len());
        self.u8(0x53);
        self.u8(0x54);
        self.u8(0x52);
        self.u8(0x20);
        self.u32(0);
        self.u64(0);
        self.u32(((self.strings.len() - 1) as u64 % 0x1_0000_0000) as u32);
        assert(self.out@ =~= d0 + str_head(q.len() - 1));
        let ghost d1 = self.out@;
        proof {
            lemma_refs_kept(p, pool_start as int);
            lemma_refs_inside_grow(q, pool_start as int, d1.len() as int);
        }
        let keys = self.pool_keys();
        let order = order_by_keys(&keys);
        proof {
            assert forall|i: int, j: int| 0 <= i < j < order@.len() implies !lex_lt(
                pool_key(q[order@[j] as int].0),
                pool_key(q[order@[i] as int].0),
            ) by {
                assert(keys@[order@[j] as int]@ == pool_key(q[order@[j] as int].0));
                assert(keys@[order@[i] as int]@ == pool_key(q[order@[i] as int].0));
            }
            assert(pool_order(q, order@));
        }
        let mut k: usize = 0;
        while k < order.len()
            invariant
                q == self.pool(),
                pool_order(q, order@),
                refs_inside(q, d1.len() as int),
                d1.len() <= self.out@.len(),
                k <= order@.len(),
                self.out@ == strings_written(d1, q, order@, k as int),
                self.pointers@ == old(self).pointers@,
            decreases order@.len() - k,
        {
            proof {
                lemma_refs_inside_grow(q, d1.len() as int, self.out@.len() as int);
            }
            let ghost before = self.out@;
            self.write_pool_entry(order[k]);
            proof {
                lemma_refs_patched_len(before, q[order@[k as int] as int].1, before.len() as int, q[order@[k as int] as int].1.len() as int, q);
            }
            k = k + 1;
        }
        Ok(())
    }

    /// Appends a pointer slot for each of `values`, registered for relocation, then
    /// the strings themselves in length-prefixed form, each slot pointed at its string;
    /// with an alignment of two, each string but the first starts on an even position.
    #[verifier::rlimit(80)]
    pub fn inline_strings(&mut self, alignment: usize, values: &[&str]) -> (r: Result<(), Error>)
        requires
            old(self).data().len() + 8 * values@.len() <= usize::MAX,
        ensures
            r is Ok,
            ({
                let l = old(self).data().len() as int;
                let n = values@.len() as int;
                let start = l + 8 * n;
                let names = values@.map_values(|v: &str| v@);
                let body = inline_body(start, alignment, names, n);
                &&& final(self).data().len() == start + body.len()
                &&& final(self).data().subrange(0, l) == old(self).data()
                &&& final(self).data().subrange(start, start + body.len()) == body
                &&& forall|i: int|
                    0 <= i < n ==> #[trigger] final(self).data().subrange(l + 8 * i, l + 8 * i + 8) == encode_u64_le(
                        inline_at(start, alignment, names, i) as u64,
                    )
                &&& final(self).registered() == old(self).registered() + Seq::new(n as nat, |i: int| (l + 8 * i) as usize)
            }),
            final(self).pool() == old(self).pool(),
    {
        let ghost l = self.out@.len() as int;
        let ghost names = values@.map_values(|v: &str| v@);
        let n = values.len();
        let mut slots: Vec<usize> = Vec::new();
        let mut i: usize = 0;
        while i < n
            invariant
                i <= n,
                n == values@.len(),
                l == old(self).out@.len(),
                l + 8 * n <= usize::MAX,
                slots@.len() == i,
                forall|j: int| 0 <= j < i ==> #[trigger] slots@[j] == l + 8 * j,
                self.out@ == old(self).out@ + zeros(8 * i),
                self.pointers@ == old(self).pointers@ + Seq::new(i as nat, |j: int| (l + 8 * j) as usize),
                self.pool() == old(self).pool(),
            decreases n - i,
        {
            let at = self.reserve_ptr(false);
            proof {
                assert(encode_u64_le(0) =~= zeros(8));
                assert(self.out@ =~= old(self).out@ + zeros(8 * (i + 1)));
                assert(self.pointers@ =~= old(self).pointers@ + Seq::new((i + 1) as nat, |j: int| (l + 8 * j) as usize));
            }
            slots.push(at);
            i = i + 1;
        }
        let ghost start = l + 8 * n;
        let mut index: usize = 0;
        while index < n
            invariant
                index <= n,
                n == values@.len(),
                names == values@.map_values(|v: &str| v@),
                l == old(self).out@.len(),
                start == l + 8 * n,
                slots@.len() == n,
                forall|j: int| 0 <= j < n ==> #[trigger] slots@[j] == l + 8 * j,
                self.out@.len() == start + inline_body(start, alignment, names, index as int).len(),
                self.out@.subrange(0, l) == old(self).out@,
                self.out@.subrange(start, self.out@.len() as int) == inline_body(start, alignment, names, index as int),
                forall|j: int|
                    0 <= j < index ==> #[trigger] self.out@.subrange(l + 8 * j, l + 8 * j + 8) == encode_u64_le(
                        inline_at(start, alignment, names, j) as u64,
                    ),
                forall|j: int| index <= j < n ==> #[trigger] self.out@.subrange(l + 8 * j, l + 8 * j + 8) == zeros(8),
                self.pointers@ == old(self).pointers@ + Seq::new(n as nat, |j: int| (l + 8 * j) as usize),
                self.pool() == old(self).pool(),
            decreases n - index,
        {
            let ghost before = self.out@;
            let ghost body = inline_body(start, alignment, names, index as int);
            if alignment == 2 && index != 0 {
                self.align(2);
            }
            let ghost padded = self.out@;
            assert(padded == before + inline_pad(start + body.len(), alignment, index as int));
            let p = self.pos();
            self.patch_u64(slots[index], p as u64);
            let ghost patched_out = self.out@;
            self.pascal(values[index]);
            proof {
                let nb = inline_body(start, alignment, names, index + 1);
                assert(names[index as int] == values@[index as int]@);
                assert(nb == body + inline_pad(start + body.len(), alignment, index as int) + pascal_bytes(names[index as int]));
                assert(p == inline_at(start, alignment, names, index as int));
                assert(self.out@.subrange(0, l) =~= old(self).out@) by {
                    assert(self.out@.subrange(0, l) =~= before.subrange(0, l));
                }
                assert(self.out@.subrange(start, self.out@.len() as int) =~= nb) by {
                    assert(patched_out.subrange(start, patched_out.len() as int) =~= padded.subrange(start, padded.len() as int));
                }
                assert forall|j: int| 0 <= j <= index implies #[trigger] self.out@.subrange(l + 8 * j, l + 8 * j + 8) == encode_u64_le(
                    inline_at(start, alignment, names, j) as u64,
                ) by {
                    if j < index {
                        assert(self.out@.subrange(l + 8 * j, l + 8 * j + 8) =~= before.subrange(l + 8 * j, l + 8 * j + 8));
                    } else {
                        assert(self.out@.subrange(l + 8 * j, l + 8 * j + 8) =~= encode_u64_le(p as u64));
                    }
                }
                assert forall|j: int| index < j < n implies #[trigger] self.out@.subrange(l + 8 * j, l + 8 * j + 8) == zeros(8) by {
                    assert(self.out@.subrange(l + 8 * j, l + 8 * j + 8) =~= before.subrange(l + 8 * j, l + 8 * j + 8));
                }
            }
            index = index + 1;
        }
        Ok(())
    }

    /// Appends the header of a relocation table at `t` with `count` entries.
    fn relt_header(&mut self, t: usize, data_end: usize, count: u32)
        ensures
            final(self).data() == old(self).data() + relt_block(t as int, data_end as int, count as int),
            final(self).registered() == old(self).registered(),
            final(self).pool() == old(self).pool(),
    {
        self.u8(0x52);
        self.u8(0x45);
        self.u8(0x4c);
        self.u8(0x54);
        self.u32(t as u32);
        self.u32(1);
        self.u32(0);
        self.u64(0);
        self.u32(0);
        self.u32(data_end as u32);
        self.u32(0);
        self.u32(count);
        assert(self.out@ =~= old(self).out@ + relt_block(t as int, data_end as int, count as int));
    }

    /// Ends the output with the relocation table of the registered pointers: pads to
    /// eight bytes, puts the table's offset in the slot at `header_slot`, sorts the
    /// pointers and drops repeats, and writes one entry per group of pointers that the
    /// first pointer not yet listed and its 32 eight-byte slots take.
    #[verifier::rlimit(40)]
    pub fn write_relocation_table(&mut self, header_slot: usize)
        requires
            header_slot + 4 <= old(self).data().len(),
            old(self).registered().len() <= u32::MAX,
            forall|i: int|
                0 <= i < old(self).registered().len() ==> old(self).registered()[i] <= usize::MAX - 256,
        ensures
            increasing(final(self).registered()),
            final(self).pool() == old(self).pool(),
            forall|x: usize| final(self).registered().contains(x) <==> old(self).registered().contains(x),
            final(self).data() == relocation_written(
                old(self).data(),
                header_slot as int,
                final(self).registered(),
            ),
    {
        let ghost start = self.out@;
        let data_end = self.pos();
        self.align(8);
        let t = self.pos();
        self.patch_u32(header_slot, t as u32);
        let ghost before = self.pointers@;
        sort_positions(&mut self.pointers);
        let unique = dedup_sorted(&self.pointers);
        proof {
            broadcast use vstd::seq_lib::group_to_multiset_ensures;
            assert forall|x: usize| unique@.contains(x) <==> before.contains(x) by {
                assert(self.pointers@.contains(x) <==> self.pointers@.to_multiset().count(x) > 0);
                assert(before.contains(x) <==> before.to_multiset().count(x) > 0);
            }
            assert forall|i: int| 0 <= i < unique@.len() implies unique@[i] <= usize::MAX - 256 by {
                assert(unique@.contains(unique@[i]));
                assert(before.contains(unique@[i]));
                let k = choose|k: int| 0 <= k < before.len() && before[k] == unique@[i];
            }
            assert(self.pointers@.len() == before.len()) by {
                assert(self.pointers@.len() == self.pointers@.to_multiset().len());
            }
        }
        self.pointers = unique;
        let (count, body) = relocation_entries(&self.pointers);
        self.relt_header(t, data_end, count);
        self.bytes(body.as_slice());
        assert(self.out@ =~= relocation_written(start, header_slot as int, self.pointers@));
    }
}

/// Whether the flags `f` mark the slot `d` bytes from an entry's base.
pub open spec fn slot_flagged(f: u32, d: int) -> bool {
    f & (1u32 << ((d / 8) as u32)) != 0
}

proof fn lemma_bit_or(x: u32, j: u32, k: u32)
    requires
        j < 32,
        k < 32,
    ensures
        ((x | (1u32 << j)) & (1u32 << k) != 0) <==> ((x & (1u32 << k) != 0) || j == k),
        ((x | 0u32) & (1u32 << k) != 0) <==> (x & (1u32 << k) != 0),
        (0u32 & (1u32 << k)) == 0,
{
    assert(((x | (1u32 << j)) & (1u32 << k) != 0) <==> ((x & (1u32 << k) != 0) || j == k)) by (bit_vector)
        requires
            j < 32,
            k < 32,
    ;
    assert(((x | 0u32) & (1u32 << k) != 0) <==> (x & (1u32 << k) != 0)) by (bit_vector);
    assert((0u32 & (1u32 << k)) == 0) by (bit_vector);
}

/// Bit `k` of the flags over the first `n` slots is set exactly when `k` is one of
/// those slots and `s` holds the pointer there.
proof fn lemma_flags(s: Seq<usize>, base: int, n: nat, k: int)
    requires
        n <= 32,
        0 <= k < 32,
    ensures
        (flags_upto(s, base, n) & (1u32 << (k as u32)) != 0) <==> (k < n && holds(s, base + 8 * k)),
    decreases n,
{
    lemma_bit_or(0, 0, k as u32);
    if n > 0 {
        lemma_flags(s, base, (n - 1) as nat, k);
        lemma_bit_or(flags_upto(s, base, (n - 1) as nat), (n - 1) as u32, k as u32);
    }
}

/// The bytes of `g`'s entries: eight per entry.
proof fn lemma_entry_bytes_len(g: Seq<(usize, u32)>)
    ensures
        entry_bytes(g).len() == 8 * g.len(),
    decreases g.len(),
{
    if g.len() > 0 {
        lemma_entry_bytes_len(g.drop_last());
        lemma_u32_roundtrip(g.last().0 as u32, Endian::Little);
        lemma_u32_roundtrip(g.last().1, Endian::Little);
    }
}

/// The bytes of entry `i` of `g`: its base, then its flags.
proof fn lemma_entry_bytes_at(g: Seq<(usize, u32)>, i: int)
    requires
        0 <= i < g.len(),
    ensures
        entry_bytes(g).subrange(8 * i, 8 * i + 4) == encode_u32(g[i].0 as u32, Endian::Little),
        entry_bytes(g).subrange(8 * i + 4, 8 * i + 8) == encode_u32(g[i].1, Endian::Little),
    decreases g.len(),
{
    let d = g.drop_last();
    let e = entry_bytes(d);
    let a = encode_u32(g.last().0 as u32, Endian::Little);
    let f = encode_u32(g.last().1, Endian::Little);
    lemma_entry_bytes_len(d);
    lemma_u32_roundtrip(g.last().0 as u32, Endian::Little);
    lemma_u32_roundtrip(g.last().1, Endian::Little);
    assert(entry_bytes(g) == e + a + f);
    if i < g.len() - 1 {
        lemma_entry_bytes_at(d, i);
        assert(d[i] == g[i]);
        assert(entry_bytes(g).subrange(8 * i, 8 * i + 4) =~= e.subrange(8 * i, 8 * i + 4));
        assert(entry_bytes(g).subrange(8 * i + 4, 8 * i + 8) =~= e.subrange(8 * i + 4, 8 * i + 8));
    } else {
        assert(entry_bytes(g).subrange(8 * i, 8 * i + 4) =~= a);
        assert(entry_bytes(g).subrange(8 * i + 4, 8 * i + 8) =~= f);
    }
}

/// A part of the right-hand side of a concatenation.
proof fn lemma_sub_right(x: Seq<u8>, y: Seq<u8>, lo: int, hi: int)
    requires
        0 <= lo <= hi <= y.len(),
    ensures
        (x + y).subrange(x.len() + lo, x.len() + hi) == y.subrange(lo, hi),
{
    assert((x + y).subrange(x.len() + lo, x.len() + hi) =~= y.subrange(lo, hi));
}

/// A part of the left-hand side of a concatenation.
proof fn lemma_sub_left(x: Seq<u8>, y: Seq<u8>, lo: int, hi: int)
    requires
        0 <= lo <= hi <= x.len(),
    ensures
        (x + y).subrange(lo, hi) == x.subrange(lo, hi),
{
    assert((x + y).subrange(lo, hi) =~= x.subrange(lo, hi));
}

/// The word at `p` of `w` is `v` when its bytes there encode `v`.
proof fn lemma_word(w: Seq<u8>, p: int, v: u32)
    requires
        w.subrange(p, p + 4) == encode_u32(v, Endian::Little),
    ensures
        u32_at(w, p, Endian::Little) == v,
{
    lemma_u32_roundtrip(v, Endian::Little);
}

/// The entries of ascending pointers that are multiples of eight: each base is one of
/// the pointers, the bases rise by at least the 256 bytes an entry spans, an entry's
/// flag for a slot it spans tells whether that slot is a pointer, and each pointer
/// lies in the span of some entry.
proof fn lemma_groups(s: Seq<usize>)
    requires
        increasing(s),
        forall|i: int| 0 <= i < s.len() ==> #[trigger] s[i] % 8 == 0,
    ensures
        groups(s).len() <= s.len(),
        forall|i: int| 0 <= i < groups(s).len() ==> holds(s, #[trigger] groups(s)[i].0 as int),
        forall|i: int, j: int|
            0 <= i < j < groups(s).len() ==> #[trigger] groups(s)[i].0 + 256 <= #[trigger] groups(s)[j].0,
        forall|j: int, a: int|
            0 <= j < groups(s).len() && #[trigger] absorbs(groups(s)[j].0 as int, a) ==> (slot_flagged(
                groups(s)[j].1,
                a - groups(s)[j].0,
            ) <==> holds(s, a)),
        forall|a: int|
            #[trigger] holds(s, a) ==> exists|j: int|
                0 <= j < groups(s).len() && #[trigger] absorbs(groups(s)[j].0 as int, a),
    decreases s.len(),
{
    if s.len() > 0 {
        let s0 = s[0] as int;
        let k = keep(s0, s);
        let g = groups(s);
        lemma_keep(s0, s);
        assert(increasing(k));
        assert forall|i: int| 0 <= i < k.len() implies #[trigger] k[i] % 8 == 0 && k[i] >= s0 + 256 by {
            assert(holds(s, k[i] as int));
            let x = choose|x: int| 0 <= x < s.len() && s[x] == k[i] as int;
            assert(s[x] % 8 == 0);
            if x > 0 {
                assert(s[0] < s[x]);
            }
        }
        lemma_groups(k);
        let h = groups(k);
        assert(g == seq![(s[0], flags_upto(s, s0, 32))] + h);
        assert forall|i: int| 0 <= i < g.len() implies holds(s, #[trigger] g[i].0 as int) by {
            if i == 0 {
                assert(s[0] == g[0].0);
            } else {
                assert(g[i] == h[i - 1]);
                assert(holds(k, h[i - 1].0 as int));
                let x = choose|x: int| 0 <= x < k.len() && k[x] == h[i - 1].0 as int;
                assert(holds(s, k[x] as int));
            }
        }
        assert forall|i: int, j: int| 0 <= i < j < g.len() implies #[trigger] g[i].0 + 256 <= #[trigger] g[j].0 by {
            assert(g[j] == h[j - 1]);
            if i == 0 {
                assert(holds(k, h[j - 1].0 as int));
                let x = choose|x: int| 0 <= x < k.len() && k[x] == h[j - 1].0 as int;
                assert(k[x] >= s0 + 256);
            } else {
                assert(g[i] == h[i - 1]);
            }
        }
        assert forall|j: int, a: int| 0 <= j < g.len() && #[trigger] absorbs(g[j].0 as int, a) implies (slot_flagged(
            g[j].1,
            a - g[j].0,
        ) <==> holds(s, a)) by {
            if j == 0 {
                let d = (a - s0) / 8;
                assert(a == s0 + 8 * d);
                lemma_flags(s, s0, 32, d);
            } else {
                assert(g[j] == h[j - 1]);
                assert(holds(k, h[j - 1].0 as int));
                let x = choose|x: int| 0 <= x < k.len() && k[x] == h[j - 1].0 as int;
                assert(k[x] >= s0 + 256);
                assert(absorbs(h[j - 1].0 as int, a));
                assert(!absorbs(s0, a));
                if holds(s, a) {
                    let y = choose|y: int| 0 <= y < s.len() && s[y] == a;
                    assert(!absorbs(s0, s[y] as int));
                    assert(holds(k, s[y] as int));
                }
                if holds(k, a) {
                    let y = choose|y: int| 0 <= y < k.len() && k[y] == a;
                    assert(holds(s, k[y] as int));
                }
            }
        }
        assert forall|a: int| #[trigger] holds(s, a) implies exists|j: int|
            0 <= j < g.len() && #[trigger] absorbs(g[j].0 as int, a) by {
            if absorbs(s0, a) {
                assert(g[0].0 == s0);
                assert(absorbs(g[0].0 as int, a));
            } else {
                let y = choose|y: int| 0 <= y < s.len() && s[y] == a;
                assert(!absorbs(s0, s[y] as int));
                assert(holds(k, s[y] as int));
                let j = choose|j: int| 0 <= j < h.len() && #[trigger] absorbs(h[j].0 as int, a);
                assert(g[j + 1] == h[j]);
                assert(absorbs(g[j + 1].0 as int, a));
            }
        }
    }
}

/// Where the bases of entries that rise split around `a`: those before it are at
/// most `a`, the others above it.
proof fn lemma_split(g: Seq<(usize, u32)>, a: int) -> (k: int)
    requires
        forall|i: int, j: int| 0 <= i < j < g.len() ==> #[trigger] g[i].0 + 256 <= #[trigger] g[j].0,
    ensures
        0 <= k <= g.len(),
        forall|i: int| 0 <= i < k ==> g[i].0 <= a,
        forall|i: int| k <= i < g.len() ==> g[i].0 > a,
    decreases g.len(),
{
    if g.len() == 0 {
        0
    } else {
        let d = g.drop_last();
        assert forall|i: int, j: int| 0 <= i < j < d.len() implies #[trigger] d[i].0 + 256 <= #[trigger] d[j].0 by {
            assert(d[i] == g[i] && d[j] == g[j]);
        }
        let k = lemma_split(d, a);
        assert(forall|i: int| 0 <= i < d.len() ==> d[i] == g[i]);
        if g.last().0 <= a {
            assert forall|i: int| 0 <= i < g.len() implies g[i].0 <= a by {
                if i < g.len() - 1 {
                    assert(g[i].0 + 256 <= g[g.len() - 1].0);
                }
            }
            g.len() as int
        } else {
            k
        }
    }
}

/// The binary search over entries whose bases split around `a` at `k` ends at `k`,
/// and reads only entries that are present.
proof fn lemma_search(b: Seq<u8>, t: int, a: int, lo: int, hi: int, k: int)
    requires
        0 <= lo <= k <= hi,
        t + 8 * hi <= b.len(),
        forall|i: int| lo <= i < k ==> entry_base(b, t, i) <= a,
        forall|i: int| k <= i < hi ==> entry_base(b, t, i) > a,
    ensures
        search(b, t, a, lo, hi) == k,
        search_reads_ok(b, t, a, lo, hi),
    decreases hi - lo,
{
    if lo < hi {
        let mid = (lo + hi) / 2;
        if entry_base(b, t, mid) <= a {
            lemma_search(b, t, a, mid + 1, hi, k);
        } else {
            lemma_search(b, t, a, lo, mid, k);
        }
    }
}

/// The length of a written relocation table and the two words of it that the lookup
/// reads first: the table's offset at 24 and the entry count.
proof fn lemma_written_header(b: Seq<u8>, g: Seq<(usize, u32)>)
    requires
        28 <= b.len(),
        b.len() + 8 <= u32::MAX,
        g.len() <= u32::MAX,
    ensures
        table_written(b, 24, g).len() == table_start(b) + 40 + 8 * g.len(),
        w32(table_written(b, 24, g), 24) == table_start(b),
        w32(table_written(b, 24, g), table_start(b) + 36) == g.len(),
{
    let w = table_written(b, 24, g);
    let len = b.len() as int;
    lemma_pad_len(len, 8);
    let t = table_start(b);
    let head = table_head(b, 24);
    lemma_head(b);
    let block = relt_block(t, len, g.len() as int);
    lemma_block(t, len, g.len() as int);
    let e = entry_bytes(g);
    lemma_entry_bytes_len(g);
    let hb = head + block;
    lemma_sub_left(head, block, 24, 28);
    lemma_sub_left(hb, e, 24, 28);
    lemma_word(w, 24, t as u32);
    lemma_sub_right(head, block, 36, 40);
    lemma_sub_left(hb, e, t + 36, t + 40);
    lemma_word(w, t + 36, g.len() as u32);
}

/// Entry `i` of a written relocation table holds the base and the flags of `g[i]`.
proof fn lemma_written_entry(b: Seq<u8>, g: Seq<(usize, u32)>, i: int)
    requires
        28 <= b.len(),
        b.len() + 8 <= u32::MAX,
        g.len() <= u32::MAX,
        0 <= i < g.len(),
        g[i].0 <= u32::MAX,
    ensures
        entry_base(table_written(b, 24, g), table_start(b) + 40, i) == g[i].0,
        entry_flags(table_written(b, 24, g), table_start(b) + 40, i) == g[i].1,
{
    let w = table_written(b, 24, g);
    let len = b.len() as int;
    lemma_pad_len(len, 8);
    let t = table_start(b);
    let head = table_head(b, 24);
    lemma_head(b);
    let block = relt_block(t, len, g.len() as int);
    lemma_block(t, len, g.len() as int);
    let e = entry_bytes(g);
    lemma_entry_bytes_len(g);
    let hb = head + block;
    lemma_entry_bytes_at(g, i);
    lemma_sub_right(hb, e, 8 * i, 8 * i + 4);
    lemma_sub_right(hb, e, 8 * i + 4, 8 * i + 8);
    lemma_word(w, t + 40 + 8 * i, g[i].0 as u32);
    lemma_word(w, t + 40 + 8 * i + 4, g[i].1);
}

/// The padded output with its offset slot patched is as long as the table's start
/// and holds the table's offset at 24.
proof fn lemma_head(b: Seq<u8>)
    requires
        28 <= b.len(),
    ensures
        table_head(b, 24).len() == table_start(b),
        table_head(b, 24).subrange(24, 28) == encode_u32(table_start(b) as u32, Endian::Little),
{
    lemma_pad_len(b.len() as int, 8);
    lemma_u32_roundtrip(table_start(b) as u32, Endian::Little);
    assert(table_head(b, 24).subrange(24, 28) =~= encode_u32(table_start(b) as u32, Endian::Little));
}

/// The header of a relocation table is 40 bytes and ends with the entry count.
proof fn lemma_block(t: int, data_end: int, count: int)
    requires
        0 <= count <= u32::MAX,
    ensures
        relt_block(t, data_end, count).len() == 40,
        relt_block(t, data_end, count).subrange(36, 40) == encode_u32(count as u32, Endian::Little),
{
    lemma_u32_roundtrip(t as u32, Endian::Little);
    lemma_u32_roundtrip(count as u32, Endian::Little);
    assert(relt_block(t, data_end, count).subrange(36, 40) =~= encode_u32(count as u32, Endian::Little));
}

/// The check after the search, over entries whose bases rise by at least 256 and
/// split around `a` at `k`, answers `member` when each entry that spans `a` flags it
/// as `member` says and, when `member` holds, some entry spans it.
proof fn lemma_answer(w: Seq<u8>, e: int, g: Seq<(usize, u32)>, a: int, k: int, member: bool)
    requires
        0 <= k <= g.len(),
        forall|i: int| 0 <= i < k ==> g[i].0 <= a,
        forall|i: int| k <= i < g.len() ==> g[i].0 > a,
        forall|i: int, j: int| 0 <= i < j < g.len() ==> #[trigger] g[i].0 + 256 <= #[trigger] g[j].0,
        forall|i: int|
            0 <= i < g.len() ==> entry_base(w, e, i) == #[trigger] g[i].0 && entry_flags(w, e, i) == g[i].1,
        forall|j: int|
            0 <= j < g.len() && #[trigger] absorbs(g[j].0 as int, a) ==> (slot_flagged(g[j].1, a - g[j].0)
                <==> member),
        member ==> exists|j: int| 0 <= j < g.len() && #[trigger] absorbs(g[j].0 as int, a),
    ensures
        answer(w, e, k, a) == member,
{
    let first = if k >= 2 { k - 2 } else { 0 };
    assert forall|i: int| 0 <= i < g.len() implies (covers(w, e, i, a) <==> absorbs(#[trigger] g[i].0 as int, a)) && (
    flagged(w, e, i, a) == slot_flagged(g[i].1, a - g[i].0)) by {
        assert(entry_base(w, e, i) == g[i].0);
    }
    if member {
        let j = choose|j: int| 0 <= j < g.len() && #[trigger] absorbs(g[j].0 as int, a);
        assert(j < k);
        if j < k - 1 {
            assert(g[j].0 + 256 <= g[k - 1].0);
        }
        assert(j == k - 1);
        assert(covers(w, e, j, a));
        if first < k && covers(w, e, first, a) {
            assert(absorbs(g[first].0 as int, a));
        }
    } else {
        if first < k && covers(w, e, first, a) {
            assert(absorbs(g[first].0 as int, a));
        } else if first + 1 < k && covers(w, e, first + 1, a) {
            assert(absorbs(g[first + 1].0 as int, a));
        }
    }
}

/// The lookup in a file whose header word at 24 gives a table at `t` holding the
/// entries `g`, whose bases rise by at least 256, succeeds for `a`, and answers
/// `member` when each entry that spans `a` flags it as `member` says and, when
/// `member` holds, some entry spans it.
proof fn lemma_lookup_in(w: Seq<u8>, t: int, g: Seq<(usize, u32)>, a: int, member: bool)
    requires
        28 <= t,
        w.len() == t + 40 + 8 * g.len(),
        w32(w, 24) == t,
        w32(w, t + 36) == g.len(),
        forall|i: int|
            0 <= i < g.len() ==> entry_base(w, t + 40, i) == #[trigger] g[i].0 && entry_flags(w, t + 40, i)
                == g[i].1,
        forall|i: int, j: int| 0 <= i < j < g.len() ==> #[trigger] g[i].0 + 256 <= #[trigger] g[j].0,
        forall|j: int|
            0 <= j < g.len() && #[trigger] absorbs(g[j].0 as int, a) ==> (slot_flagged(g[j].1, a - g[j].0)
                <==> member),
        member ==> exists|j: int| 0 <= j < g.len() && #[trigger] absorbs(g[j].0 as int, a),
    ensures
        lookup_ok(w, a),
        relocated(w, a) == member,
{
    let e = t + 40;
    let n = g.len() as int;
    let k = lemma_split(g, a);
    assert forall|i: int| 0 <= i < k implies entry_base(w, e, i) <= a by {
        assert(entry_base(w, e, i) == g[i].0);
    }
    assert forall|i: int| k <= i < n implies entry_base(w, e, i) > a by {
        assert(entry_base(w, e, i) == g[i].0);
    }
    lemma_search(w, e, a, 0, n, k);
    lemma_answer(w, e, g, a, k, member);
    assert(scan_ok(w, e, k, a));
}

/// The lookup of a relocation table written with the entries `g`, whose bases rise by
/// at least 256 and fit in 32 bits, succeeds for `a`, and answers `member` when each
/// entry that spans `a` flags it as `member` says and, when `member` holds, some entry
/// spans it.
proof fn lemma_table_lookup(b: Seq<u8>, g: Seq<(usize, u32)>, a: int, member: bool)
    requires
        28 <= b.len(),
        b.len() + 8 <= u32::MAX,
        g.len() <= u32::MAX,
        forall|i: int| 0 <= i < g.len() ==> #[trigger] g[i].0 <= u32::MAX,
        forall|i: int, j: int| 0 <= i < j < g.len() ==> #[trigger] g[i].0 + 256 <= #[trigger] g[j].0,
        forall|j: int|
            0 <= j < g.len() && #[trigger] absorbs(g[j].0 as int, a) ==> (slot_flagged(g[j].1, a - g[j].0)
                <==> member),
        member ==> exists|j: int| 0 <= j < g.len() && #[trigger] absorbs(g[j].0 as int, a),
    ensures
        lookup_ok(table_written(b, 24, g), a),
        relocated(table_written(b, 24, g), a) == member,
{
    let w = table_written(b, 24, g);
    lemma_written_header(b, g);
    let t = table_start(b);
    assert forall|i: int| 0 <= i < g.len() implies entry_base(w, t + 40, i) == #[trigger] g[i].0 && entry_flags(
        w,
        t + 40,
        i,
    ) == g[i].1 by {
        lemma_written_entry(b, g, i);
    }
    lemma_lookup_in(w, t, g, a, member);
}

/// The lookup of a written relocation table reports exactly the registered pointers:
/// when the pointers are ascending multiples of eight that fit in 32 bits and the
/// table's offset goes in the header word at 24, the lookup of any address succeeds,
/// and answers that it is a relocated pointer if and only if it is one of them.
pub proof fn lemma_lookup_reports_registered_pointers(b: Seq<u8>, s: Seq<usize>, address: usize)
    requires
        28 <= b.len(),
        b.len() + 8 <= u32::MAX,
        increasing(s),
        s.len() <= u32::MAX,
        forall|i: int| 0 <= i < s.len() ==> #[trigger] s[i] % 8 == 0 && s[i] <= u32::MAX,
    ensures
        lookup_ok(relocation_written(b, 24, s), address as int),
        relocated(relocation_written(b, 24, s), address as int) <==> holds(s, address as int),
{
    let g = groups(s);
    lemma_groups(s);
    assert forall|i: int| 0 <= i < g.len() implies #[trigger] g[i].0 <= u32::MAX by {
        assert(holds(s, g[i].0 as int));
        let x = choose|x: int| 0 <= x < s.len() && s[x] == g[i].0 as int;
        assert(s[x] <= u32::MAX);
    }
    lemma_table_lookup(b, g, address as int, holds(s, address as int));
}

} // verus!
