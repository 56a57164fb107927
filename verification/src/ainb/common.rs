use vstd::prelude::*;
use vstd::string::StringSliceAdditionalSpecFns;
use crate::binary::{bits16, bits32, decode_u32, encode_u16, encode_u32, BinaryWriter, Endian};
use crate::error::{error, Error, ErrorKind};
use crate::text::str_eq;

verus! {

/// The offsets of pooled strings, keyed by their text.
pub open spec fn offsets_map(entries: Seq<(String, u32)>) -> Map<Seq<char>, u32>
    decreases entries.len(),
{
    if entries.len() == 0 {
        Map::empty()
    } else {
        offsets_map(entries.drop_last()).insert(entries.last().0@, entries.last().1)
    }
}

/// The state of a string pool: the offset of each added string, the strings added
/// since the pool was last written, and the pool size.
pub type PoolState = (Map<Seq<char>, u32>, Seq<Seq<char>>, int);

/// The pool state after adding `s`: unchanged when `s` is already known, else `s`
/// gets the current size as its offset and the size grows by its UTF-8 length plus
/// a terminator.
pub open spec fn pool_step(p: PoolState, s: Seq<char>) -> PoolState {
    if p.0.contains_key(s) {
        p
    } else {
        (p.0.insert(s, p.2 as u32), p.1.push(s), p.2 + vstd::utf8::encode_utf8(s).len() + 1)
    }
}

/// Whether a pool state's size fits the 32-bit size field.
pub open spec fn pool_fits(p: PoolState) -> bool {
    p.2 <= u32::MAX
}

/// An AINB output buffer with its deduplicating string pool.
pub struct AinbWriter {
    binary: BinaryWriter,
    strings: Vec<String>,
    string_offsets: Vec<(String, u32)>,
    string_pool_len: u32,
}

/// The zero-terminated encoding of a list of strings, in order.
pub open spec fn pool_bytes(strings: Seq<Seq<char>>) -> Seq<u8>
    decreases strings.len(),
{
    if strings.len() == 0 {
        Seq::empty()
    } else {
        pool_bytes(strings.drop_last()) + vstd::utf8::encode_utf8(strings.last()) + seq![0u8]
    }
}

pub(crate) proof fn lemma_offsets_map_lookup(entries: Seq<(String, u32)>, i: int)
    requires
        0 <= i < entries.len(),
        forall|a: int, b: int| 0 <= a < b < entries.len() ==> entries[a].0@ != entries[b].0@,
    ensures
        offsets_map(entries).contains_key(entries[i].0@),
        offsets_map(entries)[entries[i].0@] == entries[i].1,
    decreases entries.len(),
{
    if i < entries.len() - 1 {
        lemma_offsets_map_lookup(entries.drop_last(), i);
    }
}

pub(crate) proof fn lemma_offsets_map_absent(entries: Seq<(String, u32)>, key: Seq<char>)
    requires
        forall|a: int| 0 <= a < entries.len() ==> entries[a].0@ != key,
    ensures
        !offsets_map(entries).contains_key(key),
    decreases entries.len(),
{
    if entries.len() > 0 {
        lemma_offsets_map_absent(entries.drop_last(), key);
    }
}

impl AinbWriter {
    /// The bytes written so far.
    pub closed spec fn bytes(&self) -> Seq<u8> {
        self.binary.bytes()
    }

    /// The strings added since the pool was last written, in order.
    pub closed spec fn pending(&self) -> Seq<Seq<char>> {
        self.strings@.map_values(|s: String| s@)
    }

    /// The pool offset of each string added so far.
    pub closed spec fn offsets(&self) -> Map<Seq<char>, u32> {
        offsets_map(self.string_offsets@)
    }

    /// The size of the string pool so far, terminators included.
    pub closed spec fn pool_len(&self) -> u32 {
        self.string_pool_len
    }

    /// The writer's state: each pooled string is recorded once, and output is
    /// little-endian.
    pub closed spec fn wf(&self) -> bool {
        &&& self.binary.order() == Endian::Little
        &&& forall|a: int, b: int|
            0 <= a < b < self.string_offsets@.len() ==> self.string_offsets@[a].0@
                != self.string_offsets@[b].0@
    }

    /// The pool's state: the offset of each added string, the strings not yet
    /// written, and the pool size.
    pub open spec fn pool(&self) -> PoolState {
        (self.offsets(), self.pending(), self.pool_len() as int)
    }

    /// An empty writer with an empty pool.
    pub fn new() -> (w: Self)
        ensures
            w.wf(),
            w.bytes() == Seq::<u8>::empty(),
            w.pending() == Seq::<Seq<char>>::empty(),
            w.offsets() == Map::<Seq<char>, u32>::empty(),
            w.pool_len() == 0,
    {
        let w = AinbWriter {
            binary: BinaryWriter::with_endian(Endian::Little),
            strings: Vec::new(),
            string_offsets: Vec::new(),
            string_pool_len: 0,
        };
        assert(w.pending() =~= Seq::<Seq<char>>::empty());
        w
    }

    /// A writer whose pool already holds `strings`, each added once in order: the pool
    /// that adding them one by one to an empty writer gives, and no bytes written.
    pub fn with_strings(strings: &[String]) -> (w: Self)
        requires
            pool_fits(pool_after(strings@.map_values(|s: String| s@))),
        ensures
            w.wf(),
            w.bytes() == Seq::<u8>::empty(),
            w.pool() == pool_after(strings@.map_values(|s: String| s@)),
    {
        let mut writer = Self::new();
        let ghost views = strings@.map_values(|s: String| s@);
        assert(views.take(0) =~= Seq::<Seq<char>>::empty());
        assert(writer.pool() == pool_after(views.take(0)));
        let mut i: usize = 0;
        while i < strings.len()
            invariant
                i <= strings@.len(),
                views == strings@.map_values(|s: String| s@),
                pool_fits(pool_after(views)),
                writer.wf(),
                writer.bytes() == Seq::<u8>::empty(),
                writer.pool() == pool_after(views.take(i as int)),
            decreases strings@.len() - i,
        {
            proof {
                assert(views.take(i + 1).drop_last() =~= views.take(i as int));
                assert(views[i as int] == strings@[i as int]@);
                lemma_pool_after_grows(views, i + 1);
            }
            writer.add_string(strings[i].as_str());
            i = i + 1;
        }
        assert(views.take(i as int) =~= views);
        writer
    }

    /// The number of bytes written so far.
    pub fn position(&self) -> (p: usize)
        ensures
            p == self.bytes().len(),
    {
        self.binary.position()
    }

    /// The bytes written.
    pub fn into_inner(self) -> (v: Vec<u8>)
        ensures
            v@ == self.bytes(),
    {
        self.binary.into_inner()
    }

    /// Appends `value`.
    pub fn write_bytes(&mut self, value: &[u8])
        requires
            old(self).wf(),
        ensures
            final(self).wf(),
            final(self).bytes() == old(self).bytes() + value@,
            final(self).pending() == old(self).pending(),
            final(self).offsets() == old(self).offsets(),
            final(self).pool_len() == old(self).pool_len(),
    {
        self.binary.write_bytes(value);
    }

    /// Drops the output after its first `position` bytes.
    pub fn truncate(&mut self, position: usize)
        requires
            old(self).wf(),
        ensures
            final(self).wf(),
            position <= old(self).bytes().len() ==> final(self).bytes() == old(self).bytes().subrange(
                0,
                position as int,
            ),
            position > old(self).bytes().len() ==> final(self).bytes() == old(self).bytes(),
            final(self).pending() == old(self).pending(),
            final(self).offsets() == old(self).offsets(),
            final(self).pool_len() == old(self).pool_len(),
    {
        self.binary.truncate(position);
    }

    /// Appends a byte.
    pub fn write_u8(&mut self, value: u8)
        requires
            old(self).wf(),
        ensures
            final(self).wf(),
            final(self).bytes() == old(self).bytes().push(value),
            final(self).pending() == old(self).pending(),
            final(self).offsets() == old(self).offsets(),
            final(self).pool_len() == old(self).pool_len(),
    {
        self.binary.write_u8(value);
    }

    /// Appends a little-endian 16-bit value.
    pub fn write_u16(&mut self, value: u16)
        requires
            old(self).wf(),
        ensures
            final(self).wf(),
            final(self).bytes() == old(self).bytes() + encode_u16(value, Endian::Little),
            final(self).pending() == old(self).pending(),
            final(self).offsets() == old(self).offsets(),
            final(self).pool_len() == old(self).pool_len(),
    {
        self.binary.write_u16(value);
    }

    /// Appends a little-endian 16-bit signed value.
    pub fn write_i16(&mut self, value: i16)
        requires
            old(self).wf(),
        ensures
            final(self).wf(),
            final(self).bytes() == old(self).bytes() + encode_u16(bits16(value), Endian::Little),
            final(self).pending() == old(self).pending(),
            final(self).offsets() == old(self).offsets(),
            final(self).pool_len() == old(self).pool_len(),
    {
        self.binary.write_i16(value);
    }

    /// Appends a little-endian 32-bit value.
    pub fn write_u32(&mut self, value: u32)
        requires
            old(self).wf(),
        ensures
            final(self).wf(),
            final(self).bytes() == old(self).bytes() + encode_u32(value, Endian::Little),
            final(self).pending() == old(self).pending(),
            final(self).offsets() == old(self).offsets(),
            final(self).pool_len() == old(self).pool_len(),
    {
        self.binary.write_u32(value);
    }

    /// Appends a little-endian 32-bit signed value.
    pub fn write_i32(&mut self, value: i32)
        requires
            old(self).wf(),
        ensures
            final(self).wf(),
            final(self).bytes() == old(self).bytes() + encode_u32(bits32(value), Endian::Little),
            final(self).pending() == old(self).pending(),
            final(self).offsets() == old(self).offsets(),
            final(self).pool_len() == old(self).pool_len(),
    {
        self.binary.write_i32(value);
    }

    /// The pool offset of `value`, adding it at the end of the pool when it is new.
    pub fn add_string(&mut self, value: &str) -> (offset: u32)
        requires
            old(self).wf(),
            pool_fits(pool_step(old(self).pool(), value@)),
        ensures
            final(self).wf(),
            final(self).bytes() == old(self).bytes(),
            final(self).pool() == pool_step(old(self).pool(), value@),
            offset == final(self).offsets()[value@],
    {
        let mut i: usize = 0;
        while i < self.string_offsets.len()
            invariant
                i <= self.string_offsets@.len(),
                self.wf(),
                *self == *old(self),
                forall|j: int| 0 <= j < i ==> self.string_offsets@[j].0@ != value@,
            decreases self.string_offsets@.len() - i,
        {
            if str_eq(self.string_offsets[i].0.as_str(), value) {
                proof {
                    lemma_offsets_map_lookup(self.string_offsets@, i as int);
                }
                return self.string_offsets[i].1;
            }
            i = i + 1;
        }
        proof {
            lemma_offsets_map_absent(self.string_offsets@, value@);
        }
        let offset = self.string_pool_len;
        let len = value.len();
        self.string_pool_len = self.string_pool_len + len as u32 + 1;
        let ghost old_entries = self.string_offsets@;
        self.string_offsets.push((value.to_owned(), offset));
        proof {
            assert(self.string_offsets@.drop_last() =~= old_entries);
        }
        let ghost old_strings = self.strings@;
        self.strings.push(value.to_owned());
        proof {
            assert(self.pending() =~= old(self).pending().push(value@));
        }
        offset
    }

    /// Adds `value` to the pool and writes its offset.
    pub fn write_string_offset(&mut self, value: &str)
        requires
            old(self).wf(),
            pool_fits(pool_step(old(self).pool(), value@)),
        ensures
            final(self).wf(),
            final(self).pool() == pool_step(old(self).pool(), value@),
            final(self).bytes() == old(self).bytes() + encode_u32(
                final(self).offsets()[value@],
                Endian::Little,
            ),
    {
        let offset = self.add_string(value);
        self.write_u32(offset);
    }

    /// The pool offset of a string added earlier; fails with `InvalidData` when
    /// `value` was never added.
    pub fn string_offset(&self, value: &str) -> (r: Result<u32, Error>)
        requires
            self.wf(),
        ensures
            r is Ok <==> self.offsets().contains_key(value@),
            r matches Ok(o) ==> o == self.offsets()[value@],
            r matches Err(e) ==> e.kind == ErrorKind::InvalidData,
    {
        let mut i: usize = 0;
        while i < self.string_offsets.len()
            invariant
                i <= self.string_offsets@.len(),
                self.wf(),
                forall|j: int| 0 <= j < i ==> self.string_offsets@[j].0@ != value@,
            decreases self.string_offsets@.len() - i,
        {
            if str_eq(self.string_offsets[i].0.as_str(), value) {
                proof {
                    lemma_offsets_map_lookup(self.string_offsets@, i as int);
                }
                return Ok(self.string_offsets[i].1);
            }
            i = i + 1;
        }
        proof {
            lemma_offsets_map_absent(self.string_offsets@, value@);
        }
        Err(error(ErrorKind::InvalidData, "string was not added to pool"))
    }

    /// Writes every string added since the last call, zero-terminated and in the
    /// order they were added; the offsets stay known.
    pub fn write_string_pool(&mut self)
        requires
            old(self).wf(),
        ensures
            final(self).wf(),
            final(self).bytes() == old(self).bytes() + pool_bytes(old(self).pending()),
            final(self).pending() == Seq::<Seq<char>>::empty(),
            final(self).offsets() == old(self).offsets(),
            final(self).pool_len() == old(self).pool_len(),
    {
        let mut strings: Vec<String> = Vec::new();
        std::mem::swap(&mut strings, &mut self.strings);
        let ghost views = strings@.map_values(|s: String| s@);
        let ghost start = self.binary.bytes();
        let mut i: usize = 0;
        while i < strings.len()
            invariant
                i <= strings@.len(),
                views == strings@.map_values(|s: String| s@),
                views == old(self).pending(),
                self.binary.order() == Endian::Little,
                self.binary.bytes() == start + pool_bytes(views.subrange(0, i as int)),
                self.strings@ == Seq::<String>::empty(),
                self.string_offsets == old(self).string_offsets,
                self.string_pool_len == old(self).string_pool_len,
                start == old(self).bytes(),
            decreases strings@.len() - i,
        {
            self.binary.write_c_string(strings[i].as_str());
            proof {
                assert(views.subrange(0, i + 1).drop_last() =~= views.subrange(0, i as int));
                assert(views[i as int] == strings@[i as int]@);
            }
            i = i + 1;
        }
        proof {
            assert(views.subrange(0, strings@.len() as int) =~= views);
            assert(self.pending() =~= Seq::<Seq<char>>::empty());
        }
    }
}

/// The pool built by a prefix of `strings` is no larger than the pool they all build.
proof fn lemma_pool_after_grows(strings: Seq<Seq<char>>, i: int)
    requires
        0 <= i <= strings.len(),
    ensures
        pool_after(strings.take(i)).2 <= pool_after(strings).2,
    decreases strings.len() - i,
{
    if i < strings.len() {
        lemma_pool_after_grows(strings.drop_last(), i);
        assert(strings.drop_last().take(i) =~= strings.take(i));
    } else {
        assert(strings.take(i) =~= strings);
    }
}


// ---------------------------------------------------------------------------
// MurmurHash3 (x86, 32-bit, seed 0)
// ---------------------------------------------------------------------------

/// `x` rotated left by `r` bits.
pub open spec fn rotl32(x: u32, r: u32) -> u32 {
    ((x << r) | (x >> ((32 - r) as u32))) as u32
}

/// The mixing applied to each 32-bit block before it enters the hash.
pub open spec fn scramble(k: u32) -> u32 {
    rotl32(k.wrapping_mul(0xcc9e_2d51), 15).wrapping_mul(0x1b87_3593)
}

/// The `i`-th little-endian 32-bit block of `b`.
pub open spec fn block(b: Seq<u8>, i: int) -> u32 {
    decode_u32(b.subrange(4 * i, 4 * i + 4), Endian::Little) as u32
}

/// The hash state after the first `n` blocks of `b`.
pub open spec fn murmur_blocks(b: Seq<u8>, n: nat) -> u32
    decreases n,
{
    if n == 0 {
        0
    } else {
        let h = murmur_blocks(b, (n - 1) as nat) ^ scramble(block(b, n - 1));
        rotl32(h, 13).wrapping_mul(5).wrapping_add(0xe654_6b64)
    }
}

/// The final mixing of the hash state.
pub open spec fn fmix(h: u32) -> u32 {
    let h1 = h ^ (h >> 16);
    let h2 = h1.wrapping_mul(0x85eb_ca6b);
    let h3 = h2 ^ (h2 >> 13);
    let h4 = h3.wrapping_mul(0xc2b2_ae35);
    h4 ^ (h4 >> 16)
}

/// The block formed by the one to three bytes after the last full block.
pub open spec fn tail_block(t: Seq<u8>) -> u32 {
    let k0: u32 = 0;
    let k1: u32 = if t.len() >= 3 { k0 ^ ((t[2] as u32) << 16) } else { k0 };
    let k2: u32 = if t.len() >= 2 { k1 ^ ((t[1] as u32) << 8) } else { k1 };
    k2 ^ (t[0] as u32)
}

/// MurmurHash3 (x86, 32-bit variant, seed 0) of `b`.
pub open spec fn murmur3(b: Seq<u8>) -> u32 {
    let n = b.len() / 4;
    let h = murmur_blocks(b, n);
    let t = b.subrange(4 * n as int, b.len() as int);
    let h1 = if t.len() > 0 { h ^ scramble(tail_block(t)) } else { h };
    fmix(h1 ^ (b.len() as u32))
}

fn rotate_left(x: u32, r: u32) -> (y: u32)
    requires
        0 < r < 32,
    ensures
        y == rotl32(x, r),
{
    (x << r) | (x >> (32 - r))
}

fn scramble_block(k: u32) -> (r: u32)
    ensures
        r == scramble(k),
{
    rotate_left(k.wrapping_mul(0xcc9e_2d51), 15).wrapping_mul(0x1b87_3593)
}

/// MurmurHash3 (x86, 32-bit variant, seed 0) of the UTF-8 bytes of `value`.
pub fn murmur3_32(value: &str) -> (hash: u32)
    ensures
        hash == murmur3(value.spec_bytes()),
{
    let bytes = value.as_bytes();
    let len = bytes.len();
    let n = len / 4;
    let mut hash: u32 = 0;
    let mut i: usize = 0;
    while i < n
        invariant
            len == bytes@.len(),
            n == len / 4,
            i <= n,
            hash == murmur_blocks(bytes@, i as nat),
        decreases n - i,
    {
        let k = bytes[4 * i] as u32 + 256 * (bytes[4 * i + 1] as u32) + 65536 * (bytes[4 * i
            + 2] as u32) + 16777216 * (bytes[4 * i + 3] as u32);
        assert(k == block(bytes@, i as int));
        hash = hash ^ scramble_block(k);
        hash = rotate_left(hash, 13).wrapping_mul(5).wrapping_add(0xe654_6b64);
        i = i + 1;
    }
    let tail_start = 4 * n;
    let tail_len = len - tail_start;
    let ghost t = bytes@.subrange(4 * n, len as int);
    let mut k: u32 = 0;
    if tail_len >= 3 {
        k = k ^ ((bytes[tail_start + 2] as u32) << 16);
    }
    if tail_len >= 2 {
        k = k ^ ((bytes[tail_start + 1] as u32) << 8);
    }
    if tail_len >= 1 {
        k = k ^ (bytes[tail_start] as u32);
        assert(k == tail_block(t));
        hash = hash ^ scramble_block(k);
    }
    hash = hash ^ (len as u32);
    hash = hash ^ (hash >> 16);
    hash = hash.wrapping_mul(0x85eb_ca6b);
    hash = hash ^ (hash >> 13);
    hash = hash.wrapping_mul(0xc2b2_ae35);
    hash ^ (hash >> 16)
}


// ---------------------------------------------------------------------------
// GUID text
// ---------------------------------------------------------------------------

/// The value of an ASCII hexadecimal digit.
pub open spec fn hex_digit_value(c: u8) -> Option<int> {
    if 48 <= c <= 57 {
        Some(c - 48)
    } else if 97 <= c <= 102 {
        Some(c - 87)
    } else if 65 <= c <= 70 {
        Some(c - 55)
    } else {
        None
    }
}

/// The value of a string of hexadecimal digits (zero for the empty string).
pub open spec fn hex_digits_value(s: Seq<u8>) -> Option<int>
    decreases s.len(),
{
    if s.len() == 0 {
        Some(0)
    } else {
        match (hex_digits_value(s.drop_last()), hex_digit_value(s.last())) {
            (Some(a), Some(d)) => Some(16 * a + d),
            _ => None,
        }
    }
}

/// What `from_str_radix(s, 16)` of an unsigned type with maximum `max` gives:
/// an optional `+` followed by at least one hexadecimal digit, of value at most `max`.
pub open spec fn radix16(s: Seq<u8>, max: int) -> Option<int> {
    let body = if s.len() > 0 && s[0] == 43 {
        s.drop_first()
    } else {
        s
    };
    if body.len() == 0 {
        None
    } else {
        match hex_digits_value(body) {
            Some(v) => if v <= max {
                Some(v)
            } else {
                None
            },
            None => None,
        }
    }
}

/// `s` cut at every `sep` byte; `n` separators give `n + 1` pieces.
pub open spec fn split_on(s: Seq<u8>, sep: u8) -> Seq<Seq<u8>>
    decreases s.len(),
{
    if s.len() == 0 {
        seq![Seq::<u8>::empty()]
    } else {
        let rest = split_on(s.drop_last(), sep);
        if s.last() == sep {
            rest.push(Seq::<u8>::empty())
        } else {
            rest.update(rest.len() - 1, rest.last().push(s.last()))
        }
    }
}

/// The eight two-digit byte fields of the last two GUID groups.
pub open spec fn guid_pairs(d: Seq<u8>, e: Seq<u8>) -> Seq<Seq<u8>> {
    Seq::new(
        8,
        |i: int|
            if i < 2 {
                d.subrange(2 * i, 2 * i + 2)
            } else {
                e.subrange(2 * (i - 2), 2 * (i - 2) + 2)
            },
    )
}

/// The byte values of `pairs` up to, not including, the first that is not two
/// hexadecimal digits.
pub open spec fn pair_values(pairs: Seq<Seq<u8>>) -> Seq<u8>
    decreases pairs.len(),
{
    if pairs.len() == 0 {
        Seq::empty()
    } else {
        match radix16(pairs[0], 255) {
            Some(v) => seq![v as u8] + pair_values(pairs.drop_first()),
            None => Seq::empty(),
        }
    }
}

/// The three leading fields and the last two groups of a GUID text of the form
/// `xxxxxxxx-xxxx-xxxx-xxxx-xxxxxxxxxxxx`, when its group structure is right.
pub open spec fn guid_groups(s: Seq<u8>) -> Option<(u32, u16, u16, Seq<u8>, Seq<u8>)> {
    let g = split_on(s, 45);
    if g.len() != 5 || g[3].len() != 4 || g[4].len() != 12 {
        None
    } else {
        match (radix16(g[0], 0xffff_ffff), radix16(g[1], 0xffff), radix16(g[2], 0xffff)) {
            (Some(a), Some(b), Some(c)) => Some((a as u32, b as u16, c as u16, g[3], g[4])),
            _ => None,
        }
    }
}

/// Whether `s` is a GUID text that `write_guid` accepts.
pub open spec fn guid_valid(s: Seq<u8>) -> bool {
    match guid_groups(s) {
        Some((a, b, c, d, e)) => pair_values(guid_pairs(d, e)).len() == 8,
        None => false,
    }
}

/// The bytes `write_guid` appends for `s`: nothing when the group structure is
/// wrong, else the three leading fields and the byte fields up to the first
/// invalid one.
pub open spec fn guid_written(s: Seq<u8>) -> Seq<u8> {
    match guid_groups(s) {
        Some((a, b, c, d, e)) => encode_u32(a, Endian::Little) + encode_u16(b, Endian::Little)
            + encode_u16(c, Endian::Little) + pair_values(guid_pairs(d, e)),
        None => Seq::empty(),
    }
}

proof fn lemma_hex_prefix(s: Seq<u8>, i: int)
    requires
        0 <= i <= s.len(),
        hex_digits_value(s) is Some,
    ensures
        hex_digits_value(s.subrange(0, i)) is Some,
        hex_digits_value(s)->Some_0 >= hex_digits_value(s.subrange(0, i))->Some_0,
        hex_digits_value(s.subrange(0, i))->Some_0 >= 0,
    decreases s.len() - i,
{
    if i < s.len() {
        lemma_hex_prefix(s.drop_last(), i);
        assert(s.drop_last().subrange(0, i) =~= s.subrange(0, i));
    } else {
        assert(s.subrange(0, i) =~= s);
        lemma_hex_nonneg(s);
    }
}

proof fn lemma_radix_rejects(body: Seq<u8>, k: int, max: int)
    requires
        0 <= k <= body.len(),
        hex_digits_value(body.subrange(0, k)) is None || hex_digits_value(body.subrange(0, k))->Some_0 > max,
    ensures
        match hex_digits_value(body) {
            Some(v) => v > max,
            None => true,
        },
{
    if hex_digits_value(body) is Some {
        lemma_hex_prefix(body, k);
    }
}

proof fn lemma_hex_nonneg(s: Seq<u8>)
    requires
        hex_digits_value(s) is Some,
    ensures
        hex_digits_value(s)->Some_0 >= 0,
    decreases s.len(),
{
    if s.len() > 0 {
        lemma_hex_nonneg(s.drop_last());
    }
}

/// The value of the hexadecimal text `s` as `from_str_radix(s, 16)` reads it for
/// an unsigned type whose maximum is `max`.
pub fn parse_hex(s: &[u8], max: u64) -> (r: Option<u64>)
    requires
        max >= 255,
    ensures
        r is Some <==> radix16(s@, max as int) is Some,
        r matches Some(v) ==> radix16(s@, max as int) == Some(v as int),
{
    let start: usize = if s.len() > 0 && s[0] == 43 { 1 } else { 0 };
    let ghost body = if s@.len() > 0 && s@[0] == 43 { s@.drop_first() } else { s@ };
    assert(body =~= s@.subrange(start as int, s@.len() as int));
    if start == s.len() {
        return None;
    }
    let mut acc: u64 = 0;
    let mut i: usize = start;
    while i < s.len()
        invariant
            start <= i <= s@.len(),
            body == s@.subrange(start as int, s@.len() as int),
            body == (if s@.len() > 0 && s@[0] == 43 { s@.drop_first() } else { s@ }),
            hex_digits_value(s@.subrange(start as int, i as int)) == Some(acc as int),
            acc <= max,
            max >= 255,
            start < s@.len(),
        decreases s@.len() - i,
    {
        let c = s[i];
        let ghost p = s@.subrange(start as int, i + 1);
        assert(p.drop_last() =~= s@.subrange(start as int, i as int));
        assert(p.last() == c);
        assert(body.subrange(0, i + 1 - start) =~= p);
        let d: u64 = if 48 <= c && c <= 57 {
            (c - 48) as u64
        } else if 97 <= c && c <= 102 {
            (c - 87) as u64
        } else if 65 <= c && c <= 70 {
            (c - 55) as u64
        } else {
            proof {
                assert(hex_digits_value(p) is None);
                lemma_radix_rejects(body, i + 1 - start, max as int);
                assert(body.len() != 0);
                assert(radix16(s@, max as int) is None);
            }
            return None;
        };
        assert(hex_digits_value(p) == Some(16 * acc + d));
        if acc > (max - d) / 16 {
            proof {
                assert(16 * acc + d > max) by (nonlinear_arith)
                    requires
                        acc > (max - d) / 16,
                        d <= max,
                ;
                lemma_radix_rejects(body, i + 1 - start, max as int);
                assert(body.len() != 0);
                assert(radix16(s@, max as int) is None);
            }
            return None;
        }
        assert(16 * acc + d <= max) by (nonlinear_arith)
            requires
                acc <= (max - d) / 16,
                d <= max,
        ;
        acc = acc * 16 + d;
        i = i + 1;
    }
    assert(s@.subrange(start as int, s@.len() as int) =~= body);
    Some(acc)
}

proof fn lemma_split_nonempty(s: Seq<u8>, sep: u8)
    ensures
        split_on(s, sep).len() >= 1,
    decreases s.len(),
{
    if s.len() > 0 {
        lemma_split_nonempty(s.drop_last(), sep);
    }
}

/// The pieces of `s` between `-` bytes, as (start, end) ranges.
fn split_dashes(s: &[u8]) -> (r: Vec<(usize, usize)>)
    ensures
        r@.len() == split_on(s@, 45).len(),
        forall|i: int| #![trigger r@[i]] 0 <= i < r@.len() ==> r@[i].0 <= r@[i].1 <= s@.len(),
        forall|i: int|
            0 <= i < r@.len() ==> #[trigger] split_on(s@, 45)[i] == s@.subrange(
                r@[i].0 as int,
                r@[i].1 as int,
            ),
{
    let mut out: Vec<(usize, usize)> = Vec::new();
    let mut piece_start: usize = 0;
    let mut i: usize = 0;
    assert(s@.subrange(0, 0) =~= Seq::<u8>::empty());
    while i < s.len()
        invariant
            piece_start <= i <= s@.len(),
            out@.len() + 1 == split_on(s@.subrange(0, i as int), 45).len(),
            forall|j: int| #![trigger out@[j]] 0 <= j < out@.len() ==> out@[j].0 <= out@[j].1 <= piece_start,
            forall|j: int|
                0 <= j < out@.len() ==> #[trigger] split_on(s@.subrange(0, i as int), 45)[j]
                    == s@.subrange(out@[j].0 as int, out@[j].1 as int),
            split_on(s@.subrange(0, i as int), 45).last() == s@.subrange(
                piece_start as int,
                i as int,
            ),
        decreases s@.len() - i,
    {
        let ghost prev = s@.subrange(0, i as int);
        let ghost next = s@.subrange(0, i + 1);
        let ghost old_out = out@;
        assert(next.drop_last() =~= prev);
        assert(next.last() == s@[i as int]);
        proof {
            lemma_split_nonempty(prev, 45);
        }
        if s[i] == 45 {
            let ghost old_ps = piece_start;
            out.push((piece_start, i));
            proof {
                assert(split_on(next, 45) == split_on(prev, 45).push(Seq::<u8>::empty()));
                assert forall|j: int| 0 <= j < out@.len() implies #[trigger] split_on(next, 45)[j]
                    == s@.subrange(out@[j].0 as int, out@[j].1 as int) by {
                    if j < old_out.len() {
                        assert(out@[j] == old_out[j]);
                        assert(split_on(prev, 45)[j] == s@.subrange(old_out[j].0 as int, old_out[j].1 as int));
                    } else {
                        assert(j == split_on(prev, 45).len() - 1);
                    }
                }
            }
            piece_start = i + 1;
            assert forall|j: int| #![trigger out@[j]] 0 <= j < out@.len() implies out@[j].0 <= out@[j].1 <= piece_start by {
                if j < old_out.len() {
                    assert(out@[j] == old_out[j]);
                    assert(old_out[j].0 <= old_out[j].1 <= old_ps);
                }
            }
            assert(s@.subrange(piece_start as int, i + 1) =~= Seq::<u8>::empty());
        } else {
            proof {
                let ps = split_on(prev, 45);
                assert(split_on(next, 45) == ps.update(ps.len() - 1, ps.last().push(s@[i as int])));
                assert forall|j: int| 0 <= j < out@.len() implies #[trigger] split_on(next, 45)[j]
                    == s@.subrange(out@[j].0 as int, out@[j].1 as int) by {
                    assert(split_on(prev, 45)[j] == s@.subrange(out@[j].0 as int, out@[j].1 as int));
                    assert(j < ps.len() - 1);
                }
            }
            assert(s@.subrange(piece_start as int, i + 1) =~= s@.subrange(
                piece_start as int,
                i as int,
            ).push(s@[i as int]));
        }
        i = i + 1;
    }
    assert(s@.subrange(0, i as int) =~= s@);
    let ghost old_out = out@;
    out.push((piece_start, s.len()));
    assert forall|j: int| #![trigger out@[j]] 0 <= j < out@.len() implies out@[j].0 <= out@[j].1 <= s@.len() by {
        if j < old_out.len() {
            assert(out@[j] == old_out[j]);
        }
    }
    assert forall|j: int| 0 <= j < out@.len() implies #[trigger] split_on(s@, 45)[j] == s@.subrange(out@[j].0 as int, out@[j].1 as int) by {
        if j < old_out.len() {
            assert(out@[j] == old_out[j]);
            assert(split_on(s@.subrange(0, i as int), 45)[j] == s@.subrange(old_out[j].0 as int, old_out[j].1 as int));
        }
    }
    out
}

/// An `InvalidInput` error for a malformed GUID text.
fn invalid_guid() -> (e: Error)
    ensures
        e.kind == ErrorKind::InvalidInput,
{
    error(ErrorKind::InvalidInput, "invalid AINB GUID")
}

impl AinbWriter {
    /// Writes a GUID given as `xxxxxxxx-xxxx-xxxx-xxxx-xxxxxxxxxxxx` in hexadecimal:
    /// the first three fields as little-endian integers, then the remaining twelve
    /// hex digit pairs as bytes. Each field reads as `from_str_radix(_, 16)` does, so
    /// a leading `+` is accepted. On a malformed text it fails with `InvalidInput`
    /// after writing the fields before the first bad byte pair, if the text's
    /// group structure was right.
    pub fn write_guid(&mut self, value: &str) -> (r: Result<(), Error>)
        requires
            old(self).wf(),
        ensures
            final(self).wf(),
            r is Ok <==> guid_valid(value.spec_bytes()),
            final(self).bytes() == old(self).bytes() + guid_written(value.spec_bytes()),
            final(self).pending() == old(self).pending(),
            final(self).offsets() == old(self).offsets(),
            final(self).pool_len() == old(self).pool_len(),
            r matches Err(e) ==> e.kind == ErrorKind::InvalidInput,
    {
        let s = value.as_bytes();
        let ghost sb = s@;
        let groups = split_dashes(s);
        let ghost g = split_on(sb, 45);
        proof {
            lemma_split_nonempty(sb, 45);
        }
        let (a0, a1) = groups[0];
        let a = match parse_hex(&s[a0..a1], 0xffff_ffff) {
            Some(v) => v as u32,
            None => {
                assert(g[0] =~= s@.subrange(a0 as int, a1 as int));
                return Err(error(ErrorKind::InvalidInput, "GUID field 1"));
            },
        };
        if groups.len() < 2 {
            return Err(error(ErrorKind::InvalidInput, "GUID field 2"));
        }
        let (b0, b1) = groups[1];
        let b = match parse_hex(&s[b0..b1], 0xffff) {
            Some(v) => v as u16,
            None => {
                assert(g[1] =~= s@.subrange(b0 as int, b1 as int));
                return Err(error(ErrorKind::InvalidInput, "GUID field 2"));
            },
        };
        if groups.len() < 3 {
            return Err(error(ErrorKind::InvalidInput, "GUID field 3"));
        }
        let (c0, c1) = groups[2];
        let c = match parse_hex(&s[c0..c1], 0xffff) {
            Some(v) => v as u16,
            None => {
                assert(g[2] =~= s@.subrange(c0 as int, c1 as int));
                return Err(error(ErrorKind::InvalidInput, "GUID field 3"));
            },
        };
        if groups.len() != 5 {
            return Err(invalid_guid());
        }
        let (d0, d1) = groups[3];
        let (e0, e1) = groups[4];
        if d1 - d0 != 4 || e1 - e0 != 12 {
            return Err(invalid_guid());
        }
        proof {
            assert(g[0] =~= s@.subrange(a0 as int, a1 as int));
            assert(g[1] =~= s@.subrange(b0 as int, b1 as int));
            assert(g[2] =~= s@.subrange(c0 as int, c1 as int));
        }
        let ghost d = g[3];
        let ghost e = g[4];
        assert(g[3] == s@.subrange(d0 as int, d1 as int));
        assert(g[4] == s@.subrange(e0 as int, e1 as int));
        assert(guid_groups(sb) == Some((a, b, c, d, e)));
        let ghost pairs = guid_pairs(d, e);
        self.write_u32(a);
        self.write_u16(b);
        self.write_u16(c);
        let ghost header = old(self).bytes() + encode_u32(a, Endian::Little) + encode_u16(b, Endian::Little)
            + encode_u16(c, Endian::Little);
        assert(pairs.subrange(0, 8) =~= pairs);
        assert(pair_values(pairs).subrange(0, 0) =~= Seq::<u8>::empty());
        assert(pair_values(pairs).subrange(0, pair_values(pairs).len() as int) =~= pair_values(pairs));
        let mut i: usize = 0;
        while i < 8
            invariant
                i <= 8,
                self.wf(),
                self.bytes() == header + pair_values(pairs).subrange(0, i as int),
                pair_values(pairs.subrange(i as int, 8)) == pair_values(pairs).subrange(i as int, pair_values(pairs).len() as int),
                pair_values(pairs).len() >= i,
                self.pending() == old(self).pending(),
                self.offsets() == old(self).offsets(),
                self.pool_len() == old(self).pool_len(),
                d == s@.subrange(d0 as int, d1 as int),
                e == s@.subrange(e0 as int, e1 as int),
                pairs == guid_pairs(d, e),
                guid_groups(value.spec_bytes()) == Some((a, b, c, d, e)),
                header == old(self).bytes() + encode_u32(a, Endian::Little) + encode_u16(b, Endian::Little)
                    + encode_u16(c, Endian::Little),
                d0 + 4 == d1,
                e0 + 12 == e1,
                d1 <= s@.len(),
                e1 <= s@.len(),
            decreases 8 - i,
        {
            let p = if i < 2 { d0 + 2 * i } else { e0 + 2 * (i - 2) };
            let sl = &s[p..p + 2];
            assert(sl@ =~= pairs[i as int]);
            let ghost pv = pair_values(pairs);
            let ghost rest = pairs.subrange(i as int, 8);
            assert(rest[0] == pairs[i as int]);
            assert(rest.drop_first() =~= pairs.subrange(i + 1, 8));
            match parse_hex(sl, 255) {
                Some(v) => {
                    proof {
                        assert(radix16(pairs[i as int], 255) == Some(v as int));
                        assert(radix16(rest[0], 255) == Some(v as int));
                        assert(rest.len() == 8 - i);
                        assert(pair_values(rest) == seq![v as u8] + pair_values(rest.drop_first()));
                        assert(pv.subrange(i as int, pv.len() as int)[0] == v as u8);
                        assert(pv[i as int] == v as u8);
                        assert(pv.subrange(0, i + 1) =~= pv.subrange(0, i as int).push(v as u8));
                        assert(pv.subrange(i as int, pv.len() as int).len() == 1 + pair_values(rest.drop_first()).len());
                        assert(pair_values(rest.drop_first()) =~= pair_values(rest).drop_first());
                        assert(pv.subrange(i as int, pv.len() as int).drop_first() =~= pv.subrange(i + 1, pv.len() as int));
                        assert(pair_values(rest.drop_first()) =~= pv.subrange(i + 1, pv.len() as int));
                    }
                    self.write_u8(v as u8);
                },
                None => {
                    proof {
                        assert(pair_values(rest) == Seq::<u8>::empty());
                        assert(pv.len() == i);
                        assert(pv.subrange(0, i as int) =~= pv);
                    }
                    return Err(invalid_guid());
                },
            }
            i = i + 1;
        }
        proof {
            assert(pair_values(pairs).subrange(0, 8) =~= pair_values(pairs));
        }
        Ok(())
    }
}

/// The pool state after adding `strings` in order to an empty pool.
pub open spec fn pool_after(strings: Seq<Seq<char>>) -> PoolState
    decreases strings.len(),
{
    if strings.len() == 0 {
        (Map::empty(), Seq::empty(), 0)
    } else {
        pool_step(pool_after(strings.drop_last()), strings.last())
    }
}

/// Adding a string a second time changes nothing: the pool keeps one copy and one offset.
pub proof fn lemma_pool_add_idempotent(p: PoolState, s: Seq<char>)
    ensures
        pool_step(pool_step(p, s), s) == pool_step(p, s),
{
}

/// In a pool built by adding strings to an empty pool, whose size fits its 32-bit
/// field, the pool size is the length of the bytes `write_string_pool` writes for the
/// pending strings, the pending strings are distinct, and the offset recorded for each
/// is where those bytes place it.
pub proof fn lemma_pool_offsets_are_positions(strings: Seq<Seq<char>>)
    requires
        pool_fits(pool_after(strings)),
    ensures
        pool_after(strings).2 == pool_bytes(pool_after(strings).1).len(),
        forall|k: int|
            0 <= k < pool_after(strings).1.len() ==> #[trigger] pool_after(strings).0[pool_after(strings).1[k]]
                == pool_bytes(pool_after(strings).1.take(k)).len(),
        forall|k: int| 0 <= k < pool_after(strings).1.len() ==> pool_after(strings).0.contains_key(#[trigger] pool_after(strings).1[k]),
        forall|s: Seq<char>| pool_after(strings).0.contains_key(s) ==> pool_after(strings).1.contains(s),
        forall|a: int, b: int| 0 <= a < b < pool_after(strings).1.len() ==> pool_after(strings).1[a] != pool_after(strings).1[b],
    decreases strings.len(),
{
    if strings.len() > 0 {
        let prev = pool_after(strings.drop_last());
        assert(prev.2 <= pool_after(strings).2);
        lemma_pool_offsets_are_positions(strings.drop_last());
        let s = strings.last();
        let p = pool_after(strings);
        if !prev.0.contains_key(s) {
            assert(p.1 == prev.1.push(s));
            assert(p.1.drop_last() =~= prev.1);
            assert(pool_bytes(p.1) == pool_bytes(prev.1) + vstd::utf8::encode_utf8(s) + seq![0u8]);
            assert forall|k: int| 0 <= k < p.1.len() implies #[trigger] p.0[p.1[k]] == pool_bytes(p.1.take(k)).len() by {
                if k < prev.1.len() {
                    assert(p.1.take(k) =~= prev.1.take(k));
                    assert(p.1[k] == prev.1[k]);
                    assert(prev.0.contains_key(prev.1[k]));
                    assert(prev.0[prev.1[k]] == pool_bytes(prev.1.take(k)).len());
                    assert(p.1[k] != s);
                } else {
                    assert(p.1.take(k) =~= prev.1);
                }
            }
            assert forall|x: Seq<char>| p.0.contains_key(x) implies p.1.contains(x) by {
                if x == s {
                    assert(p.1[p.1.len() - 1] == s);
                } else {
                    assert(prev.1.contains(x));
                    let j = choose|j: int| 0 <= j < prev.1.len() && prev.1[j] == x;
                    assert(p.1[j] == x);
                }
            }
            assert forall|a: int, b: int| 0 <= a < b < p.1.len() implies p.1[a] != p.1[b] by {
                if b == p.1.len() - 1 {
                    assert(prev.0.contains_key(prev.1[a]));
                }
            }
        }
    }
}


proof fn lemma_pool_bytes_prefix(p: Seq<Seq<char>>, j: int)
    requires
        0 <= j <= p.len(),
    ensures
        pool_bytes(p.take(j)).len() <= pool_bytes(p).len(),
        pool_bytes(p).subrange(0, pool_bytes(p.take(j)).len() as int) == pool_bytes(p.take(j)),
    decreases p.len() - j,
{
    if j < p.len() {
        lemma_pool_bytes_prefix(p.drop_last(), j);
        assert(p.drop_last().take(j) =~= p.take(j));
        let q = pool_bytes(p.drop_last());
        assert(pool_bytes(p) == q + vstd::utf8::encode_utf8(p.last()) + seq![0u8]);
        assert(pool_bytes(p).subrange(0, pool_bytes(p.take(j)).len() as int) =~= q.subrange(
            0,
            pool_bytes(p.take(j)).len() as int,
        ));
    } else {
        assert(p.take(j) =~= p);
        assert(pool_bytes(p).subrange(0, pool_bytes(p).len() as int) =~= pool_bytes(p));
    }
}

/// Where each string lies once the pool is written. For a writer whose strings were
/// all added since it was made (its pool is `pool_after` of the strings added, as
/// `new`, `with_strings` and `add_string` keep it), writing the pool after the bytes
/// `before` puts every added string, zero-terminated, at the length of `before` plus
/// the offset recorded for it.
pub proof fn lemma_pool_placement(strings: Seq<Seq<char>>, before: Seq<u8>)
    requires
        pool_fits(pool_after(strings)),
    ensures
        forall|s: Seq<char>|
            #[trigger] pool_after(strings).0.contains_key(s) ==> (before + pool_bytes(pool_after(strings).1)).subrange(
                before.len() + pool_after(strings).0[s],
                before.len() + pool_after(strings).0[s] + vstd::utf8::encode_utf8(s).len() + 1,
            ) == vstd::utf8::encode_utf8(s) + seq![0u8],
{
    let p = pool_after(strings);
    lemma_pool_offsets_are_positions(strings);
    assert forall|s: Seq<char>| #[trigger] p.0.contains_key(s) implies (before + pool_bytes(p.1)).subrange(
        before.len() + p.0[s],
        before.len() + p.0[s] + vstd::utf8::encode_utf8(s).len() + 1,
    ) == vstd::utf8::encode_utf8(s) + seq![0u8] by {
        assert(p.1.contains(s));
        let k = choose|k: int| 0 <= k < p.1.len() && p.1[k] == s;
        assert(p.0[p.1[k]] == pool_bytes(p.1.take(k)).len());
        assert(p.1.take(k + 1).drop_last() =~= p.1.take(k));
        let head = pool_bytes(p.1.take(k));
        let upto = pool_bytes(p.1.take(k + 1));
        assert(upto == head + vstd::utf8::encode_utf8(s) + seq![0u8]);
        lemma_pool_bytes_prefix(p.1, k + 1);
        let o = head.len() as int;
        let all = pool_bytes(p.1);
        assert(all.subrange(o, o + vstd::utf8::encode_utf8(s).len() + 1) =~= upto.subrange(
            o,
            o + vstd::utf8::encode_utf8(s).len() + 1,
        ));
        assert(upto.subrange(o, o + vstd::utf8::encode_utf8(s).len() + 1) =~= vstd::utf8::encode_utf8(s) + seq![0u8]);
        assert((before + all).subrange(before.len() + o, before.len() + o + vstd::utf8::encode_utf8(s).len() + 1)
            =~= all.subrange(o, o + vstd::utf8::encode_utf8(s).len() + 1));
    }
}

} // verus!
