use vstd::prelude::*;
use vstd::string::StringSliceAdditionalSpecFns;
use crate::aoc::g1m::container::model_endian;
use crate::aoc::g1m::records::r32;
use crate::aoc::g1m::walk::{after, lemma_walk_done, lemma_walk_fail, lemma_walk_step, walk};
use crate::binary::{encode_u16, encode_u32, BinaryReader, Endian};
use crate::error::{eof, invalid, Error, ErrorKind};

verus! {

/// The byte order of a G1M model from its magic; fails with `InvalidData` when `data`
/// is not a G1M model.
pub fn g1m_endian(data: &[u8]) -> (r: Result<Endian, Error>)
    ensures
        r is Ok <==> model_endian(data@) is Some,
        r matches Ok(e) ==> model_endian(data@) == Some(e),
        r matches Err(e) ==> e.kind == ErrorKind::InvalidData,
{
    let ghost m = data@.subrange(0, 4);
    if data.len() >= 4 && data[0] == 0x5f && data[1] == 0x4d && data[2] == 0x31 && data[3] == 0x47 {
        assert(m =~= crate::aoc::g1m::container::g1m_magic_little());
        Ok(Endian::Little)
    } else if data.len() >= 4 && data[0] == 0x47 && data[1] == 0x31 && data[2] == 0x4d && data[3] == 0x5f {
        assert(m =~= crate::aoc::g1m::container::g1m_magic_big());
        assert(m != crate::aoc::g1m::container::g1m_magic_little()) by {
            assert(m[0] != crate::aoc::g1m::container::g1m_magic_little()[0]);
        }
        Ok(Endian::Big)
    } else {
        proof {
            if data@.len() >= 4 {
                if m == crate::aoc::g1m::container::g1m_magic_little() {
                    assert(m[0] == 0x5f && m[1] == 0x4d && m[2] == 0x31 && m[3] == 0x47);
                }
                if m == crate::aoc::g1m::container::g1m_magic_big() {
                    assert(m[0] == 0x47 && m[1] == 0x31 && m[2] == 0x4d && m[3] == 0x5f);
                }
            }
        }
        Err(invalid("not a G1M model"))
    }
}

/// Appends `v` in the given byte order.
pub fn push_u16(out: &mut Vec<u8>, v: u16, e: Endian)
    ensures
        final(out)@ == old(out)@ + encode_u16(v, e),
{
    let lo = (v % 256) as u8;
    let hi = (v / 256) as u8;
    match e {
        Endian::Little => {
            out.push(lo);
            out.push(hi);
        },
        Endian::Big => {
            out.push(hi);
            out.push(lo);
        },
    }
    assert(final(out)@ =~= old(out)@ + encode_u16(v, e));
}

/// Appends `v` in the given byte order.
pub fn push_u32(out: &mut Vec<u8>, v: u32, e: Endian)
    ensures
        final(out)@ == old(out)@ + encode_u32(v, e),
{
    let b0 = (v % 256) as u8;
    let b1 = ((v / 256) % 256) as u8;
    let b2 = ((v / 65536) % 256) as u8;
    let b3 = (v / 16777216) as u8;
    match e {
        Endian::Little => {
            out.push(b0);
            out.push(b1);
            out.push(b2);
            out.push(b3);
        },
        Endian::Big => {
            out.push(b3);
            out.push(b2);
            out.push(b1);
            out.push(b0);
        },
    }
    assert(final(out)@ =~= old(out)@ + encode_u32(v, e));
}

/// Overwrites the four bytes at `offset` with `v` in the given byte order; fails with
/// `InvalidData`, changing nothing, when they are not all inside `out`.
pub fn put_u32(out: &mut Vec<u8>, offset: usize, v: u32, e: Endian) -> (r: Result<(), Error>)
    ensures
        r is Ok <==> offset + 4 <= old(out)@.len(),
        r is Ok ==> final(out)@ == old(out)@.subrange(0, offset as int) + encode_u32(v, e) + old(out)@.subrange(
            offset + 4,
            old(out)@.len() as int,
        ),
        r is Err ==> final(out)@ == old(out)@ && r->Err_0.kind == ErrorKind::InvalidData,
{
    if offset > out.len() || out.len() - offset < 4 {
        return Err(invalid("write exceeds output"));
    }
    let b0 = (v % 256) as u8;
    let b1 = ((v / 256) % 256) as u8;
    let b2 = ((v / 65536) % 256) as u8;
    let b3 = (v / 16777216) as u8;
    let (x0, x1, x2, x3) = match e {
        Endian::Little => (b0, b1, b2, b3),
        Endian::Big => (b3, b2, b1, b0),
    };
    out.set(offset, x0);
    out.set(offset + 1, x1);
    out.set(offset + 2, x2);
    out.set(offset + 3, x3);
    assert(final(out)@ =~= old(out)@.subrange(0, offset as int) + encode_u32(v, e) + old(out)@.subrange(
        offset + 4,
        old(out)@.len() as int,
    ));
    Ok(())
}

/// A chunk of a G1M model: its signature, version and bytes.
pub struct Chunk<'a> {
    pub signature: [u8; 4],
    pub version: [u8; 4],
    pub bytes: &'a [u8],
}

/// Where the chunk at `start` ends: its size, at 8, is at least its header and the
/// chunk lies in the file.
pub open spec fn raw_chunk_next(b: Seq<u8>, e: Endian, start: int) -> Option<int> {
    if start < 0 || start + 12 > b.len() || r32(b, e, start + 8) < 12 || start + r32(b, e, start + 8) > b.len() {
        None
    } else {
        Some(start + r32(b, e, start + 8))
    }
}

/// The step from one chunk to the next.
pub open spec fn raw_chunk_step(b: Seq<u8>, e: Endian) -> spec_fn(int) -> Option<int> {
    |s: int| raw_chunk_next(b, e, s)
}

/// Whether the chunks of a model can be listed: the file size at 8 and the chunk
/// offset at 12 lie within the input, and the chunks the count at 20 names fit.
pub open spec fn chunks_ok(b: Seq<u8>, e: Endian) -> bool {
    &&& b.len() >= 24
    &&& r32(b, e, 8) <= b.len()
    &&& r32(b, e, 12) <= b.len()
    &&& walk(r32(b, e, 12), r32(b, e, 20) as nat, raw_chunk_step(b, e)) is Some
}

/// Lists the chunks of a G1M model in file order.
pub fn parse_chunks<'a>(data: &'a [u8], endian: Endian) -> (r: Result<Vec<Chunk<'a>>, Error>)
    ensures
        r is Ok <==> chunks_ok(data@, endian),
        r matches Ok(v) ==> {
            let starts = walk(r32(data@, endian, 12), r32(data@, endian, 20) as nat, raw_chunk_step(data@, endian))->Some_0.0;
            &&& v@.len() == starts.len()
            &&& forall|k: int|
                #![trigger v@[k]]
                0 <= k < v@.len() ==> v@[k].signature@ == data@.subrange(starts[k], starts[k] + 4)
                    && v@[k].version@ == data@.subrange(starts[k] + 4, starts[k] + 8)
                    && v@[k].bytes@ == data@.subrange(starts[k], starts[k] + r32(data@, endian, starts[k] + 8))
        },
        r matches Err(e) ==> e.kind == ErrorKind::UnexpectedEof || e.kind == ErrorKind::InvalidData,
{
    let ghost b = data@;
    let reader = BinaryReader::with_endian(data, endian);
    if data.len() < 24 {
        return Err(eof("G1M header is truncated"));
    }
    let file_size = reader.read_u32_at(8)? as usize;
    if file_size > data.len() {
        return Err(invalid("G1M file size exceeds input"));
    }
    let offset = reader.read_u32_at(12)? as usize;
    let count = reader.read_u32_at(20)? as usize;
    if offset > data.len() {
        return Err(eof("G1M chunk offset is past the end"));
    }
    let ghost step = raw_chunk_step(b, endian);
    let mut chunks: Vec<Chunk<'a>> = Vec::new();
    let mut pos = offset;
    let mut k: usize = 0;
    let ghost mut done: Seq<int> = Seq::empty();
    assert(done + Seq::<int>::empty() =~= done);
    while k < count
        invariant
            reader.wf(),
            reader.bytes() == b,
            reader.order() == endian,
            b == data@,
            step == raw_chunk_step(b, endian),
            count == r32(b, endian, 20),
            offset == r32(b, endian, 12),
            k <= count,
            pos <= b.len(),
            done.len() == k,
            after(Seq::empty(), walk(offset as int, count as nat, step)) == after(done, walk(pos as int, (count - k) as nat, step)),
            chunks@.len() == k,
            forall|j: int|
                #![trigger chunks@[j]]
                0 <= j < k ==> chunks@[j].signature@ == b.subrange(done[j], done[j] + 4)
                    && chunks@[j].version@ == b.subrange(done[j] + 4, done[j] + 8)
                    && chunks@[j].bytes@ == b.subrange(done[j], done[j] + r32(b, endian, done[j] + 8)),
        decreases count - k,
    {
        let start = pos;
        if data.len() - start < 12 {
            proof {
                lemma_walk_fail(done, pos as int, (count - k) as nat, step);
            }
            return Err(eof("G1M chunk header is truncated"));
        }
        let signature = reader.read_array4_at(start)?;
        let version = reader.read_array4_at(start + 4)?;
        let size = reader.read_u32_at(start + 8)? as usize;
        if size < 12 {
            proof {
                lemma_walk_fail(done, pos as int, (count - k) as nat, step);
            }
            return Err(invalid("invalid G1M chunk size"));
        }
        if size > data.len() - start {
            proof {
                lemma_walk_fail(done, pos as int, (count - k) as nat, step);
            }
            return Err(eof("G1M chunk exceeds the file"));
        }
        let end = start + size;
        let bytes = reader.slice(start, end)?;
        chunks.push(Chunk { signature, version, bytes });
        proof {
            lemma_walk_step(done, pos as int, end as int, (count - k) as nat, step);
            done = done.push(pos as int);
        }
        pos = end;
        k = k + 1;
    }
    proof {
        lemma_walk_done(done, pos as int, step);
        assert(Seq::<int>::empty() + done =~= done);
    }
    Ok(chunks)
}

/// The decimal value of `s` as `str::parse::<usize>` reads it: an optional `+`, then
/// at least one digit, of value at most `usize::MAX`.
pub open spec fn decimal_value(s: Seq<u8>) -> Option<int> {
    let body = if s.len() > 0 && s[0] == 43 { s.drop_first() } else { s };
    if body.len() == 0 || !all_digits(body) {
        None
    } else if digits_value(body) > usize::MAX {
        None
    } else {
        Some(digits_value(body))
    }
}

/// Whether every byte is a decimal digit.
pub open spec fn all_digits(s: Seq<u8>) -> bool {
    forall|i: int| 0 <= i < s.len() ==> 48 <= #[trigger] s[i] <= 57
}

/// The value of a string of decimal digits.
pub open spec fn digits_value(s: Seq<u8>) -> int
    decreases s.len(),
{
    if s.len() == 0 {
        0
    } else {
        10 * digits_value(s.drop_last()) + (s.last() - 48)
    }
}

/// The part of a mesh name that holds its number: without a `.vb` suffix, else
/// without a `Mesh ` prefix.
pub open spec fn mesh_number_text(n: Seq<u8>) -> Seq<u8> {
    if n.len() >= 3 && n.subrange(n.len() - 3, n.len() as int) == seq![0x2eu8, 0x76u8, 0x62u8] {
        n.subrange(0, n.len() - 3)
    } else if n.len() >= 5 && n.subrange(0, 5) == seq![0x4du8, 0x65u8, 0x73u8, 0x68u8, 0x20u8] {
        n.subrange(5, n.len() as int)
    } else {
        n
    }
}

proof fn lemma_digits_grow(s: Seq<u8>, i: int)
    requires
        0 <= i <= s.len(),
        forall|j: int| 0 <= j < s.len() ==> 48 <= #[trigger] s[j] <= 57,
    ensures
        digits_value(s.subrange(0, i)) <= digits_value(s),
        digits_value(s) >= 0,
    decreases s.len() - i,
{
    if i < s.len() {
        lemma_digits_grow(s.drop_last(), i);
        assert(s.drop_last().subrange(0, i) =~= s.subrange(0, i));
        lemma_digits_nonneg(s.drop_last());
    } else {
        assert(s.subrange(0, i) =~= s);
        lemma_digits_nonneg(s);
    }
}

proof fn lemma_digits_nonneg(s: Seq<u8>)
    requires
        forall|j: int| 0 <= j < s.len() ==> 48 <= #[trigger] s[j] <= 57,
    ensures
        digits_value(s) >= 0,
    decreases s.len(),
{
    if s.len() > 0 {
        lemma_digits_nonneg(s.drop_last());
    }
}

/// The decimal value of `s`, when `str::parse::<usize>` accepts it.
pub fn parse_decimal(s: &[u8]) -> (r: Option<usize>)
    ensures
        r is Some <==> decimal_value(s@) is Some,
        r matches Some(v) ==> decimal_value(s@) == Some(v as int),
{
    let start: usize = if s.len() > 0 && s[0] == 43 { 1 } else { 0 };
    let ghost body = if s@.len() > 0 && s@[0] == 43 { s@.drop_first() } else { s@ };
    assert(body =~= s@.subrange(start as int, s@.len() as int));
    if start == s.len() {
        return None;
    }
    let mut i = start;
    while i < s.len()
        invariant
            start <= i <= s@.len(),
            body == (if s@.len() > 0 && s@[0] == 43 { s@.drop_first() } else { s@ }),
            body.len() > 0,
            body =~= s@.subrange(start as int, s@.len() as int),
            forall|j: int| start <= j < i ==> 48 <= #[trigger] s@[j] <= 57,
        decreases s@.len() - i,
    {
        if !(48 <= s[i] && s[i] <= 57) {
            assert(!(48 <= body[i - start] <= 57));
            assert(!all_digits(body));
            return None;
        }
        i = i + 1;
    }
    assert(forall|j: int| 0 <= j < body.len() ==> 48 <= #[trigger] body[j] <= 57);
    let mut acc: usize = 0;
    let mut i = start;
    while i < s.len()
        invariant
            start <= i <= s@.len(),
            body == (if s@.len() > 0 && s@[0] == 43 { s@.drop_first() } else { s@ }),
            body.len() > 0,
            body =~= s@.subrange(start as int, s@.len() as int),
            forall|j: int| 0 <= j < body.len() ==> 48 <= #[trigger] body[j] <= 57,
            acc == digits_value(body.subrange(0, i - start)),
        decreases s@.len() - i,
    {
        assert(s@[i as int] == body[i - start]);
        let d = (s[i] - 48) as usize;
        proof {
            assert(body.subrange(0, i + 1 - start).drop_last() =~= body.subrange(0, i - start));
            assert(body.subrange(0, i + 1 - start).last() == s@[i as int]);
        }
        match acc.checked_mul(10) {
            Some(m) => match m.checked_add(d) {
                Some(v) => {
                    acc = v;
                },
                None => {
                    proof {
                        lemma_digits_grow(body, i + 1 - start);
                    }
                    return None;
                },
            },
            None => {
                proof {
                    lemma_digits_grow(body, i + 1 - start);
                }
                return None;
            },
        }
        i = i + 1;
    }
    assert(body.subrange(0, body.len() as int) =~= body);
    Some(acc)
}

/// The number in a mesh name: `12.vb`, `Mesh 12` or `12`.
pub fn mesh_index(name: &str) -> (r: Option<usize>)
    ensures
        r is Some <==> decimal_value(mesh_number_text(name.spec_bytes())) is Some,
        r matches Some(v) ==> decimal_value(mesh_number_text(name.spec_bytes())) == Some(v as int),
{
    let n = name.as_bytes();
    let ghost b = n@;
    let len = n.len();
    let text: &[u8] = if len >= 3 && n[len - 3] == 0x2e && n[len - 2] == 0x76 && n[len - 1] == 0x62 {
        assert(b.subrange(len - 3, len as int) =~= seq![0x2eu8, 0x76u8, 0x62u8]);
        &n[0..len - 3]
    } else if len >= 5 && n[0] == 0x4d && n[1] == 0x65 && n[2] == 0x73 && n[3] == 0x68 && n[4] == 0x20 {
        proof {
            if len >= 3 && b.subrange(len - 3, len as int) == seq![0x2eu8, 0x76u8, 0x62u8] {
                assert(b[len - 3] == b.subrange(len - 3, len as int)[0]);
                assert(b[len - 2] == b.subrange(len - 3, len as int)[1]);
                assert(b[len - 1] == b.subrange(len - 3, len as int)[2]);
            }
        }
        assert(b.subrange(0, 5) =~= seq![0x4du8, 0x65u8, 0x73u8, 0x68u8, 0x20u8]);
        &n[5..len]
    } else {
        proof {
            if len >= 3 && b.subrange(len - 3, len as int) == seq![0x2eu8, 0x76u8, 0x62u8] {
                assert(b[len - 3] == b.subrange(len - 3, len as int)[0]);
                assert(b[len - 2] == b.subrange(len - 3, len as int)[1]);
                assert(b[len - 1] == b.subrange(len - 3, len as int)[2]);
            }
            if len >= 5 && b.subrange(0, 5) == seq![0x4du8, 0x65u8, 0x73u8, 0x68u8, 0x20u8] {
                assert(b[0] == b.subrange(0, 5)[0]);
                assert(b[1] == b.subrange(0, 5)[1]);
                assert(b[2] == b.subrange(0, 5)[2]);
                assert(b[3] == b.subrange(0, 5)[3]);
                assert(b[4] == b.subrange(0, 5)[4]);
            }
        }
        n
    };
    parse_decimal(text)
}

} // verus!
