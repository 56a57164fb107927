use vstd::prelude::*;
use vstd::string::StringSliceAdditionalSpecFns;
use crate::ainb::common::{hex_digit_value, lemma_offsets_map_absent, lemma_offsets_map_lookup, offsets_map, radix16};
use crate::binary::{encode_u16, encode_u32, BinaryWriter};
use crate::error::{error, invalid, Error, ErrorKind};
use crate::text::str_eq;

verus! {

/// A deduplicating pool of zero-terminated strings: the empty string at offset 0,
/// each other string at the offset where it was first added.
pub struct StringPool {
    offsets: Vec<(String, u32)>,
    bytes: Vec<u8>,
}

/// Whether `b` holds the UTF-8 bytes of `s` at `o`, followed by a zero byte.
pub open spec fn stored_at(b: Seq<u8>, o: int, s: Seq<char>) -> bool {
    let e = vstd::utf8::encode_utf8(s);
    &&& 0 <= o
    &&& o + e.len() + 1 <= b.len()
    &&& b.subrange(o, o + e.len()) == e
    &&& b[o + e.len()] == 0
}

impl StringPool {
    /// The pool's bytes.
    pub closed spec fn data(&self) -> Seq<u8> {
        self.bytes@
    }

    /// The offset of each string in the pool.
    pub closed spec fn offsets(&self) -> Map<Seq<char>, u32> {
        offsets_map(self.offsets@)
    }

    /// Each string is recorded once, and each lies, zero-terminated, at its offset.
    pub closed spec fn wf(&self) -> bool {
        &&& forall|a: int, b: int|
            0 <= a < b < self.offsets@.len() ==> self.offsets@[a].0@ != self.offsets@[b].0@
        &&& forall|a: int|
            0 <= a < self.offsets@.len() ==> stored_at(
                self.bytes@,
                self.offsets@[a].1 as int,
                #[trigger] self.offsets@[a].0@,
            )
    }

    /// Every string in the pool lies, zero-terminated, at its offset.
    pub proof fn lemma_pool_reads_back(&self, s: Seq<char>)
        requires
            self.wf(),
            self.offsets().contains_key(s),
        ensures
            stored_at(self.data(), self.offsets()[s] as int, s),
    {
        lemma_reads_back(self.offsets@, self.bytes@, s);
    }

    /// The offset of `value`, which is added at the end of the pool when it is new.
    #[verifier::rlimit(40)]
    pub fn offset(&mut self, value: &str) -> (o: u32)
        requires
            old(self).wf(),
            old(self).data().len() <= u32::MAX,
        ensures
            final(self).wf(),
            o == final(self).offsets()[value@],
            old(self).offsets().contains_key(value@) ==> final(self).data() == old(self).data()
                && final(self).offsets() == old(self).offsets(),
            !old(self).offsets().contains_key(value@) ==> o == old(self).data().len()
                && final(self).data() == old(self).data() + value.spec_bytes() + seq![0u8]
                && final(self).offsets() == old(self).offsets().insert(value@, o),
    {
        let mut i: usize = 0;
        while i < self.offsets.len()
            invariant
                i <= self.offsets@.len(),
                self.wf(),
                *self == *old(self),
                forall|j: int| 0 <= j < i ==> self.offsets@[j].0@ != value@,
            decreases self.offsets@.len() - i,
        {
            if str_eq(self.offsets[i].0.as_str(), value) {
                proof {
                    lemma_offsets_map_lookup(self.offsets@, i as int);
                }
                return self.offsets[i].1;
            }
            i = i + 1;
        }
        proof {
            lemma_offsets_map_absent(self.offsets@, value@);
        }
        let offset = self.bytes.len() as u32;
        let ghost before = self.bytes@;
        let b = value.as_bytes();
        let mut k: usize = 0;
        while k < b.len()
            invariant
                k <= b@.len(),
                b@ == value.spec_bytes(),
                self.bytes@ == before + b@.subrange(0, k as int),
                self.offsets == old(self).offsets,
            decreases b@.len() - k,
        {
            self.bytes.push(b[k]);
            k = k + 1;
            assert(self.bytes@ =~= before + b@.subrange(0, k as int));
        }
        self.bytes.push(0);
        assert(b@.subrange(0, b@.len() as int) =~= b@);
        let ghost old_entries = self.offsets@;
        self.offsets.push((value.to_owned(), offset));
        proof {
            assert(self.offsets@.drop_last() =~= old_entries);
            let e = value.spec_bytes();
            assert(self.bytes@.subrange(offset as int, offset + e.len()) =~= e);
            assert forall|a: int| 0 <= a < self.offsets@.len() implies stored_at(
                self.bytes@,
                self.offsets@[a].1 as int,
                #[trigger] self.offsets@[a].0@,
            ) by {
                if a < old_entries.len() {
                    let s = old_entries[a].0@;
                    let o = old_entries[a].1 as int;
                    let n = vstd::utf8::encode_utf8(s).len();
                    assert(stored_at(before, o, s));
                    assert(self.bytes@.subrange(o, o + n) =~= before.subrange(o, o + n));
                    assert(self.bytes@[o + n] == before[o + n]);
                }
            }
        }
        offset
    }
}

impl Default for StringPool {
    /// A pool that holds only the empty string, at offset 0.
    fn default() -> (p: Self)
        ensures
            p.wf(),
            p.data() == seq![0u8],
            p.offsets() == Map::<Seq<char>, u32>::empty().insert(Seq::<char>::empty(), 0),
    {
        let mut offsets: Vec<(String, u32)> = Vec::new();
        let empty = String::new();
        assert(empty@ == Seq::<char>::empty());
        offsets.push((empty, 0));
        let mut bytes: Vec<u8> = Vec::new();
        bytes.push(0);
        let p = StringPool { offsets, bytes };
        proof {
            assert(p.offsets@.drop_last() =~= Seq::<(String, u32)>::empty());
            assert(vstd::utf8::encode_utf8(Seq::<char>::empty()) =~= Seq::<u8>::empty()) by {
                reveal_with_fuel(vstd::utf8::encode_utf8, 1);
            }
            assert(p.bytes@.subrange(0, 0) =~= Seq::<u8>::empty());
            assert(p.offsets@.last().0@ == Seq::<char>::empty());
            assert(offsets_map(Seq::<(String, u32)>::empty()) == Map::<Seq<char>, u32>::empty());
            assert(offsets_map(p.offsets@) == offsets_map(p.offsets@.drop_last()).insert(
                Seq::<char>::empty(),
                0,
            ));
            assert(p.offsets() =~= Map::<Seq<char>, u32>::empty().insert(Seq::<char>::empty(), 0));
        }
        p
    }
}

proof fn lemma_reads_back(entries: Seq<(String, u32)>, bytes: Seq<u8>, s: Seq<char>)
    requires
        forall|a: int, b: int| 0 <= a < b < entries.len() ==> entries[a].0@ != entries[b].0@,
        forall|a: int| 0 <= a < entries.len() ==> stored_at(bytes, entries[a].1 as int, #[trigger] entries[a].0@),
        offsets_map(entries).contains_key(s),
    ensures
        stored_at(bytes, offsets_map(entries)[s] as int, s),
{
    let i = choose|i: int| 0 <= i < entries.len() && entries[i].0@ == s;
    if !(exists|i: int| 0 <= i < entries.len() && entries[i].0@ == s) {
        lemma_offsets_map_absent(entries, s);
    }
    lemma_offsets_map_lookup(entries, i);
}

/// `s` with every leading `0x` removed.
pub open spec fn without_0x(s: Seq<u8>) -> Seq<u8>
    decreases s.len(),
{
    if s.len() >= 2 && s[0] == 48 && s[1] == 120 {
        without_0x(s.subrange(2, s.len() as int))
    } else {
        s
    }
}

/// The value of hexadecimal text with any leading `0x` removed; fails with `Other`
/// when the rest is not a 32-bit hexadecimal number.
pub fn parse_hex(value: &str) -> (r: Result<u32, Error>)
    ensures
        r is Ok <==> radix16(without_0x(value.spec_bytes()), 0xffff_ffff) is Some,
        r matches Ok(v) ==> radix16(without_0x(value.spec_bytes()), 0xffff_ffff) == Some(v as int),
        r matches Err(e) ==> e.kind == ErrorKind::Other,
{
    let b = value.as_bytes();
    let mut start: usize = 0;
    assert(b@.subrange(0, b@.len() as int) =~= b@);
    while b.len() - start >= 2 && b[start] == 48 && b[start + 1] == 120
        invariant
            start <= b@.len(),
            without_0x(b@) == without_0x(b@.subrange(start as int, b@.len() as int)),
        decreases b@.len() - start,
    {
        let ghost rest = b@.subrange(start as int, b@.len() as int);
        assert(rest.subrange(2, rest.len() as int) =~= b@.subrange(start + 2, b@.len() as int));
        start = start + 2;
    }
    let rest = &b[start..b.len()];
    assert(without_0x(b@) == rest@);
    match crate::ainb::common::parse_hex(rest, 0xffff_ffff) {
        Some(v) => Ok(v as u32),
        None => Err(error(ErrorKind::Other, "invalid hexadecimal number")),
    }
}

/// Whether position `i` of a GUID text holds one of its four dashes.
pub open spec fn guid_dash_at(i: int) -> bool {
    i == 8 || i == 13 || i == 18 || i == 23
}

/// The value of the hexadecimal field from `lo` to `hi` of `s`, read as a number of
/// at most `max`.
pub open spec fn guid_field(s: Seq<u8>, lo: int, hi: int, max: int) -> Option<int> {
    radix16(s.subrange(lo, hi), max)
}

/// Whether `s` is a GUID text `xxxxxxxx-xxxx-xxxx-xxxx-xxxxxxxxxxxx` of hexadecimal
/// digits whose fields read as numbers.
pub open spec fn asb_guid_ok(s: Seq<u8>) -> bool {
    &&& s.len() == 36
    &&& forall|i: int|
        0 <= i < 36 ==> if guid_dash_at(i) {
            s[i] == 45
        } else {
            hex_digit_value(s[i]) is Some
        }
    &&& guid_field(s, 0, 8, 0xffff_ffff) is Some
    &&& guid_field(s, 9, 13, 0xffff) is Some
    &&& guid_field(s, 14, 18, 0xffff) is Some
    &&& guid_field(s, 19, 23, 0xffff) is Some
    &&& forall|k: int| 0 <= k < 6 ==> #[trigger] guid_field(s, 24 + 2 * k, 26 + 2 * k, 255) is Some
}

/// The sixteen bytes of a GUID text: the first field as a 32-bit value, the next three
/// as 16-bit values in the given order, then the last field's six bytes.
pub open spec fn asb_guid_bytes(s: Seq<u8>, e: crate::binary::Endian) -> Seq<u8> {
    encode_u32(guid_field(s, 0, 8, 0xffff_ffff)->Some_0 as u32, e) + encode_u16(
        guid_field(s, 9, 13, 0xffff)->Some_0 as u16,
        e,
    ) + encode_u16(guid_field(s, 14, 18, 0xffff)->Some_0 as u16, e) + encode_u16(
        guid_field(s, 19, 23, 0xffff)->Some_0 as u16,
        e,
    ) + Seq::new(6, |k: int| guid_field(s, 24 + 2 * k, 26 + 2 * k, 255)->Some_0 as u8)
}

/// The value of a field of a GUID text.
fn guid_value(s: &[u8], lo: usize, hi: usize, max: u64) -> (r: Option<u64>)
    requires
        lo <= hi <= s@.len(),
        max >= 255,
    ensures
        r is Some <==> guid_field(s@, lo as int, hi as int, max as int) is Some,
        r matches Some(v) ==> guid_field(s@, lo as int, hi as int, max as int) == Some(v as int),
{
    let part = &s[lo..hi];
    assert(part@ =~= s@.subrange(lo as int, hi as int));
    crate::ainb::common::parse_hex(part, max)
}

/// Writes the sixteen bytes of a GUID text; fails with `InvalidData`, writing
/// nothing, when `value` is not of the form `xxxxxxxx-xxxx-xxxx-xxxx-xxxxxxxxxxxx`
/// in hexadecimal digits.
#[verifier::rlimit(40)]
pub fn write_guid(w: &mut BinaryWriter, value: &str) -> (r: Result<(), Error>)
    ensures
        r is Ok <==> asb_guid_ok(value.spec_bytes()),
        r is Ok ==> final(w).bytes() == old(w).bytes() + asb_guid_bytes(value.spec_bytes(), old(w).order()),
        r is Err ==> final(w).bytes() == old(w).bytes() && r->Err_0.kind == ErrorKind::InvalidData,
        final(w).order() == old(w).order(),
{
    let s = value.as_bytes();
    assert(s@ == value.spec_bytes());
    if s.len() != 36 {
        return Err(invalid("invalid GUID"));
    }
    let mut i: usize = 0;
    while i < 36
        invariant
            s@.len() == 36,
            s@ == value.spec_bytes(),
            i <= 36,
            forall|j: int|
                0 <= j < i ==> if guid_dash_at(j) {
                    s@[j] == 45
                } else {
                    hex_digit_value(s@[j]) is Some
                },
        decreases 36 - i,
    {
        let c = s[i];
        let ok = if i == 8 || i == 13 || i == 18 || i == 23 {
            c == 45
        } else {
            (48 <= c && c <= 57) || (97 <= c && c <= 102) || (65 <= c && c <= 70)
        };
        if !ok {
            proof {
                let j = i as int;
                if asb_guid_ok(s@) {
                    assert(if guid_dash_at(j) {
                        s@[j] == 45
                    } else {
                        hex_digit_value(s@[j]) is Some
                    });
                }
            }
            return Err(invalid("invalid GUID"));
        }
        i = i + 1;
    }
    let a = match guid_value(s, 0, 8, 0xffff_ffff) {
        Some(v) => v,
        None => return Err(invalid("invalid GUID")),
    };
    let b = match guid_value(s, 9, 13, 0xffff) {
        Some(v) => v,
        None => return Err(invalid("invalid GUID")),
    };
    let c = match guid_value(s, 14, 18, 0xffff) {
        Some(v) => v,
        None => return Err(invalid("invalid GUID")),
    };
    let d = match guid_value(s, 19, 23, 0xffff) {
        Some(v) => v,
        None => return Err(invalid("invalid GUID")),
    };
    let mut tail: Vec<u8> = Vec::new();
    let mut k: usize = 0;
    while k < 6
        invariant
            s@.len() == 36,
            s@ == value.spec_bytes(),
            k <= 6,
            tail@.len() == k,
            forall|j: int| 0 <= j < k ==> #[trigger] guid_field(s@, 24 + 2 * j, 26 + 2 * j, 255) is Some,
            forall|j: int|
                0 <= j < k ==> guid_field(s@, 24 + 2 * j, 26 + 2 * j, 255) == Some(#[trigger] tail@[j] as int),
        decreases 6 - k,
    {
        let v = match guid_value(s, 24 + 2 * k, 26 + 2 * k, 255) {
            Some(v) => v,
            None => {
                assert(guid_field(s@, 24 + 2 * (k as int), 26 + 2 * (k as int), 255) is None);
                assert(!asb_guid_ok(s@));
                return Err(invalid("invalid GUID"));
            },
        };
        tail.push(v as u8);
        k = k + 1;
    }
    let ghost e = w.order();
    let ghost before = w.bytes();
    w.write_u32(a as u32);
    w.write_u16(b as u16);
    w.write_u16(c as u16);
    w.write_u16(d as u16);
    w.write_bytes(tail.as_slice());
    proof {
        let sb = value.spec_bytes();
        assert(tail@ =~= Seq::new(6, |j: int| guid_field(sb, 24 + 2 * j, 26 + 2 * j, 255)->Some_0 as u8));
        assert(w.bytes() =~= before + asb_guid_bytes(sb, e));
    }
    Ok(())
}

/// Appends a zero word to be patched later; returns its position.
pub fn reserve_one(w: &mut BinaryWriter) -> (at: usize)
    ensures
        at == old(w).bytes().len(),
        final(w).bytes() == old(w).bytes() + seq![0u8, 0u8, 0u8, 0u8],
        final(w).order() == old(w).order(),
{
    let at = w.position();
    w.write_u32(0);
    assert(encode_u32(0, old(w).order()) =~= seq![0u8, 0u8, 0u8, 0u8]);
    at
}

/// Appends `count` zero words to be patched later; returns their positions.
pub fn reserve_u32(w: &mut BinaryWriter, count: usize) -> (r: Vec<usize>)
    requires
        old(w).bytes().len() + 4 * count <= usize::MAX,
    ensures
        r@.len() == count,
        forall|i: int| 0 <= i < count ==> r@[i] == old(w).bytes().len() + 4 * i,
        final(w).bytes() == old(w).bytes() + Seq::new((4 * count) as nat, |i: int| 0u8),
        final(w).order() == old(w).order(),
{
    let ghost start = w.bytes();
    let mut out: Vec<usize> = Vec::new();
    let mut i: usize = 0;
    while i < count
        invariant
            i <= count,
            start.len() + 4 * count <= usize::MAX,
            out@.len() == i,
            forall|j: int| 0 <= j < i ==> out@[j] == start.len() + 4 * j,
            w.bytes() == start + Seq::new((4 * i) as nat, |j: int| 0u8),
            w.order() == old(w).order(),
        decreases count - i,
    {
        let at = reserve_one(w);
        out.push(at);
        i = i + 1;
        assert(w.bytes() =~= start + Seq::new((4 * i) as nat, |j: int| 0u8));
    }
    out
}

/// Overwrites the word at `at`, which lies inside the output.
pub fn patch(w: &mut BinaryWriter, at: usize, value: u32)
    requires
        at + 4 <= old(w).bytes().len(),
    ensures
        final(w).bytes() == old(w).bytes().subrange(0, at as int) + encode_u32(value, old(w).order())
            + old(w).bytes().subrange(at + 4, old(w).bytes().len() as int),
        final(w).order() == old(w).order(),
{
    w.patch_u32(at, value);
}

/// Copies of the strings.
fn copy_strings(v: &Vec<String>) -> (r: Vec<String>)
    ensures
        r@ == v@,
{
    let mut out: Vec<String> = Vec::new();
    let mut i: usize = 0;
    while i < v.len()
        invariant
            i <= v@.len(),
            out@ =~= v@.subrange(0, i as int),
        decreases v@.len() - i,
    {
        out.push(v[i].clone());
        i = i + 1;
    }
    assert(v@.subrange(0, v@.len() as int) =~= v@);
    out
}

/// Writes a reference to a tag list: a zero word, which for a present list is
/// recorded in `patches` with the list, to be pointed at the list later.
pub fn write_tag_ref(w: &mut BinaryWriter, tags: Option<&Vec<String>>, patches: &mut Vec<(usize, Vec<String>)>)
    ensures
        final(w).bytes() == old(w).bytes() + seq![0u8, 0u8, 0u8, 0u8],
        final(w).order() == old(w).order(),
        tags matches Some(t) ==> final(patches)@.len() == old(patches)@.len() + 1
            && final(patches)@.drop_last() == old(patches)@
            && final(patches)@.last().0 == old(w).bytes().len()
            && final(patches)@.last().1@ == t@,
        tags is None ==> final(patches)@ == old(patches)@,
{
    match tags {
        Some(tags) => {
            let at = reserve_one(w);
            patches.push((at, copy_strings(tags)));
        },
        None => {
            w.write_u32(0);
            assert(encode_u32(0, old(w).order()) =~= seq![0u8, 0u8, 0u8, 0u8]);
        },
    }
}

} // verus!
