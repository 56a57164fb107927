use vstd::prelude::*;
use crate::binary::{c_string_at, u16_at, u32_at, BinaryReader, Endian};
use crate::error::{Error, ErrorKind};
use crate::fmt::{hex_padded, push_char, push_hex};

verus! {

/// The GUID text of the sixteen bytes at `p`: a 32-bit and three 16-bit fields in
/// plain hexadecimal, then six bytes as two-digit hexadecimal, the groups joined by `-`.
pub open spec fn asb_guid_text(b: Seq<u8>, p: int, e: Endian) -> Seq<char> {
    hex_padded(u32_at(b, p, e) as nat, 1) + seq!['-'] + hex_padded(u16_at(b, p + 4, e) as nat, 1)
        + seq!['-'] + hex_padded(u16_at(b, p + 6, e) as nat, 1) + seq!['-'] + hex_padded(
        u16_at(b, p + 8, e) as nat,
        1,
    ) + seq!['-'] + hex_padded(b[p + 10] as nat, 2) + hex_padded(b[p + 11] as nat, 2)
        + hex_padded(b[p + 12] as nat, 2) + hex_padded(b[p + 13] as nat, 2) + hex_padded(
        b[p + 14] as nat,
        2,
    ) + hex_padded(b[p + 15] as nat, 2)
}

/// Reads a GUID at the reader's position and formats it as text.
#[verifier::rlimit(40)]
pub fn guid(r: &mut BinaryReader<'_>) -> (res: Result<String, Error>)
    requires
        old(r).wf(),
    ensures
        final(r).wf(),
        final(r).bytes() == old(r).bytes(),
        final(r).order() == old(r).order(),
        res is Ok <==> old(r).pos() + 16 <= old(r).bytes().len(),
        res matches Ok(s) ==> s@ == asb_guid_text(old(r).bytes(), old(r).pos(), old(r).order())
            && final(r).pos() == old(r).pos() + 16,
        res matches Err(e) ==> e.kind == ErrorKind::UnexpectedEof,
{
    let ghost b = r.bytes();
    let ghost p = r.pos();
    let a = r.read_u32()?;
    let b1 = r.read_u16()?;
    let c = r.read_u16()?;
    let d = r.read_u16()?;
    let tail = r.read_bytes(6)?;
    assert(tail@.len() == 6);
    let mut s = String::new();
    push_hex(&mut s, a as u64, 1);
    push_char(&mut s, '-');
    push_hex(&mut s, b1 as u64, 1);
    push_char(&mut s, '-');
    push_hex(&mut s, c as u64, 1);
    push_char(&mut s, '-');
    push_hex(&mut s, d as u64, 1);
    push_char(&mut s, '-');
    let mut i: usize = 0;
    while i < 6
        invariant
            i <= 6,
            tail@.len() == 6,
            s@ == hex_padded(a as nat, 1) + seq!['-'] + hex_padded(b1 as nat, 1) + seq!['-']
                + hex_padded(c as nat, 1) + seq!['-'] + hex_padded(d as nat, 1) + seq!['-']
                + tail_text(tail@, i as int),
        decreases 6 - i,
    {
        push_hex(&mut s, tail[i] as u64, 2);
        i = i + 1;
    }
    proof {
        assert(tail@ =~= b.subrange(p + 10, p + 16));
        reveal_with_fuel(tail_text, 7);
        assert(tail_text(tail@, 6) == hex_padded(b[p + 10] as nat, 2) + hex_padded(b[p + 11] as nat, 2)
            + hex_padded(b[p + 12] as nat, 2) + hex_padded(b[p + 13] as nat, 2) + hex_padded(
            b[p + 14] as nat,
            2,
        ) + hex_padded(b[p + 15] as nat, 2));
        assert(s@ =~= asb_guid_text(b, p, r.order()));
    }
    Ok(s)
}

/// The first `n` bytes of `t` as two-digit hexadecimal.
pub open spec fn tail_text(t: Seq<u8>, n: int) -> Seq<char>
    decreases n,
{
    if n <= 0 {
        Seq::empty()
    } else {
        tail_text(t, n - 1) + hex_padded(t[n - 1] as nat, 2)
    }
}

/// The string-pool offsets of the `k`-th marking entry in a table at `offset`.
pub open spec fn marking_offset(b: Seq<u8>, offset: int, k: int, j: int, e: Endian) -> int {
    u32_at(b, offset + 4 + 12 * k + 4 * j, e) as int
}

/// Whether `row` holds the three strings of the `k`-th marking entry.
pub open spec fn marking_row(row: Seq<String>, b: Seq<u8>, pool: Seq<u8>, offset: int, k: int, e: Endian) -> bool {
    &&& row.len() == 3
    &&& forall|j: int|
        0 <= j < 3 ==> #[trigger] row[j]@ == c_string_at(pool, marking_offset(b, offset, k, j, e))->Some_0
}

/// Whether all `n` marking entries of the table at `offset` can be read.
pub open spec fn markings_readable(b: Seq<u8>, pool: Seq<u8>, offset: int, n: int, e: Endian) -> bool {
    &&& offset + 4 + 12 * n <= b.len()
    &&& forall|k: int, j: int|
        0 <= k < n && 0 <= j < 3 ==> #[trigger] c_string_at(pool, marking_offset(b, offset, k, j, e))
            is Some
}

/// Reads the markings table at `offset`: a 32-bit count, then that many triples of
/// string-pool offsets, each resolved to its string in `p`.
pub fn read_markings(r: &mut BinaryReader<'_>, p: &BinaryReader<'_>, offset: u32) -> (res: Result<
    Vec<Vec<String>>,
    Error,
>)
    requires
        old(r).wf(),
    ensures
        final(r).wf(),
        final(r).bytes() == old(r).bytes(),
        final(r).order() == old(r).order(),
        res is Ok <==> offset + 4 <= old(r).bytes().len() && markings_readable(
            old(r).bytes(),
            p.bytes(),
            offset as int,
            u32_at(old(r).bytes(), offset as int, old(r).order()) as int,
            old(r).order(),
        ),
        res matches Ok(v) ==> {
            let b = old(r).bytes();
            let e = old(r).order();
            &&& v@.len() == u32_at(b, offset as int, e)
            &&& forall|k: int|
                0 <= k < v@.len() ==> marking_row(#[trigger] v@[k]@, b, p.bytes(), offset as int, k, e)
        },
        res matches Err(e) ==> e.kind == ErrorKind::UnexpectedEof || e.kind
            == ErrorKind::InvalidData,
{
    let ghost b = r.bytes();
    let ghost e = r.order();
    let off = offset as usize;
    r.seek(off)?;
    let n = r.read_u32()?;
    let mut out: Vec<Vec<String>> = Vec::new();
    let mut k: u32 = 0;
    while k < n
        invariant
            r.wf(),
            r.bytes() == b,
            r.order() == e,
            k <= n,
            n == u32_at(b, offset as int, e),
            r.pos() == offset + 4 + 12 * k,
            out@.len() == k,
            forall|k2: int, j: int|
                0 <= k2 < k && 0 <= j < 3 ==> #[trigger] c_string_at(p.bytes(), marking_offset(b, offset as int, k2, j, e))
                    is Some,
            forall|k2: int|
                0 <= k2 < k ==> marking_row(#[trigger] out@[k2]@, b, p.bytes(), offset as int, k2, e),
            b == old(r).bytes(),
            e == old(r).order(),
            offset + 4 <= b.len(),
        decreases n - k,
    {
        let mut row: Vec<String> = Vec::new();
        let mut j: u32 = 0;
        while j < 3
            invariant
                r.wf(),
                r.bytes() == b,
                r.order() == e,
                k < n,
                j <= 3,
                r.pos() == offset + 4 + 12 * k + 4 * j,
                row@.len() == j,
                b == old(r).bytes(),
                e == old(r).order(),
                n == u32_at(b, offset as int, e),
                forall|j2: int|
                    0 <= j2 < j ==> #[trigger] c_string_at(p.bytes(), marking_offset(b, offset as int, k as int, j2, e)) is Some
                        && row@[j2]@ == c_string_at(
                            p.bytes(),
                            marking_offset(b, offset as int, k as int, j2, e),
                        )->Some_0,
            decreases 3 - j,
        {
            let at = match r.read_u32() {
                Ok(v) => v,
                Err(err) => {
                    proof {
                        assert(!markings_readable(b, p.bytes(), offset as int, n as int, e));
                    }
                    return Err(err);
                },
            };
            assert(at as int == marking_offset(b, offset as int, k as int, j as int, e));
            let text = match p.read_c_string_at(at as usize) {
                Ok(t) => t,
                Err(err) => {
                    proof {
                        assert(c_string_at(p.bytes(), marking_offset(b, offset as int, k as int, j as int, e)) is None);
                        assert(!markings_readable(b, p.bytes(), offset as int, n as int, e));
                    }
                    return Err(err);
                },
            };
            row.push(text);
            j = j + 1;
        }
        let ghost old_out = out@;
        proof {
            assert(marking_row(row@, b, p.bytes(), offset as int, k as int, e));
        }
        out.push(row);
        proof {
            assert forall|k2: int| 0 <= k2 < k + 1 implies marking_row(#[trigger] out@[k2]@, b, p.bytes(), offset as int, k2, e) by {
                if k2 < k {
                    assert(out@[k2] == old_out[k2]);
                }
            }
        }
        k = k + 1;
    }
    Ok(out)
}

/// The string-pool offset of the `k`-th tag of a tag list at `offset`.
pub open spec fn tag_offset(b: Seq<u8>, offset: int, k: int, e: Endian) -> int {
    u32_at(b, offset + 4 + 4 * k, e) as int
}

/// Whether all `n` tags of the list at `offset` can be read.
pub open spec fn tags_readable(b: Seq<u8>, pool: Seq<u8>, offset: int, n: int, e: Endian) -> bool {
    &&& offset + 4 + 4 * n <= b.len()
    &&& forall|k: int| 0 <= k < n ==> #[trigger] c_string_at(pool, tag_offset(b, offset, k, e)) is Some
}

/// Reads the tag list at `offset`: a 32-bit count, then that many string-pool offsets,
/// each resolved to its string in `p`. The cursor is back where it was afterwards.
pub fn read_tags(r: &mut BinaryReader<'_>, p: &BinaryReader<'_>, offset: u32) -> (res: Result<Vec<String>, Error>)
    requires
        old(r).wf(),
    ensures
        final(r).wf(),
        final(r).bytes() == old(r).bytes(),
        final(r).order() == old(r).order(),
        res is Ok <==> offset + 4 <= old(r).bytes().len() && tags_readable(
            old(r).bytes(),
            p.bytes(),
            offset as int,
            u32_at(old(r).bytes(), offset as int, old(r).order()) as int,
            old(r).order(),
        ),
        res matches Ok(v) ==> {
            let b = old(r).bytes();
            let e = old(r).order();
            &&& v@.len() == u32_at(b, offset as int, e)
            &&& forall|k: int|
                #![trigger v@[k]]
                0 <= k < v@.len() ==> v@[k]@ == c_string_at(p.bytes(), tag_offset(b, offset as int, k, e))->Some_0
            &&& final(r).pos() == old(r).pos()
        },
        res matches Err(e) ==> e.kind == ErrorKind::UnexpectedEof || e.kind == ErrorKind::InvalidData,
{
    let ghost b = r.bytes();
    let ghost e = r.order();
    let ret = r.position();
    r.seek(offset as usize)?;
    let n = r.read_u32()?;
    let mut v: Vec<String> = Vec::new();
    let mut k: u32 = 0;
    while k < n
        invariant
            r.wf(),
            r.bytes() == b,
            r.order() == e,
            b == old(r).bytes(),
            e == old(r).order(),
            ret == old(r).pos(),
            k <= n,
            n == u32_at(b, offset as int, e),
            offset + 4 <= b.len(),
            r.pos() == offset + 4 + 4 * k,
            v@.len() == k,
            forall|j: int| 0 <= j < k ==> #[trigger] c_string_at(p.bytes(), tag_offset(b, offset as int, j, e)) is Some,
            forall|j: int|
                #![trigger v@[j]]
                0 <= j < k ==> v@[j]@ == c_string_at(p.bytes(), tag_offset(b, offset as int, j, e))->Some_0,
        decreases n - k,
    {
        let at = match r.read_u32() {
            Ok(a) => a,
            Err(err) => {
                assert(!(offset + 4 + 4 * n <= b.len()));
                return Err(err);
            },
        };
        assert(at == tag_offset(b, offset as int, k as int, e));
        let tag = match p.read_c_string_at(at as usize) {
            Ok(t) => t,
            Err(err) => {
                assert(c_string_at(p.bytes(), tag_offset(b, offset as int, k as int, e)) is None);
                return Err(err);
            },
        };
        v.push(tag);
        k = k + 1;
    }
    r.seek(ret)?;
    Ok(v)
}

/// Reads the 32-bit value at each of `offsets`, leaving the cursor after the last.
pub fn read_at(r: &mut BinaryReader<'_>, offsets: &[u32]) -> (res: Result<Vec<u32>, Error>)
    requires
        old(r).wf(),
    ensures
        final(r).wf(),
        final(r).bytes() == old(r).bytes(),
        final(r).order() == old(r).order(),
        res is Ok <==> forall|i: int| 0 <= i < offsets@.len() ==> #[trigger] offsets@[i] + 4 <= old(r).bytes().len(),
        res matches Ok(v) ==> v@.len() == offsets@.len() && forall|i: int|
            #![trigger v@[i]]
            0 <= i < v@.len() ==> v@[i] == u32_at(old(r).bytes(), offsets@[i] as int, old(r).order()),
        res matches Err(e) ==> e.kind == ErrorKind::UnexpectedEof,
{
    let ghost b = r.bytes();
    let ghost e = r.order();
    let mut out: Vec<u32> = Vec::new();
    let mut i: usize = 0;
    while i < offsets.len()
        invariant
            r.wf(),
            r.bytes() == b,
            r.order() == e,
            b == old(r).bytes(),
            e == old(r).order(),
            i <= offsets@.len(),
            out@.len() == i,
            forall|j: int| 0 <= j < i ==> #[trigger] offsets@[j] + 4 <= b.len(),
            forall|j: int| #![trigger out@[j]] 0 <= j < i ==> out@[j] == u32_at(b, offsets@[j] as int, e),
        decreases offsets@.len() - i,
    {
        let at = offsets[i] as usize;
        if at > r.len() {
            assert(!(offsets@[i as int] + 4 <= b.len()));
            return Err(crate::error::eof("seek past end of input"));
        }
        r.seek(at)?;
        let value = match r.read_u32() {
            Ok(v) => v,
            Err(err) => {
                assert(!(offsets@[i as int] + 4 <= b.len()));
                return Err(err);
            },
        };
        out.push(value);
        i = i + 1;
    }
    Ok(out)
}

} // verus!
