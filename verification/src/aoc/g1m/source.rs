use vstd::prelude::*;
use crate::aoc::g1m::records::{
    attribute_set_next, attributes_count_at, buffer_header, extended, index_buffer_next, palette_at, palette_next,
    r16, r32, read_attribute_set, read_index_buffer, read_palette, read_vertex_buffer, submesh_next,
    vertex_buffer_next,
};
use crate::aoc::g1m::sections::{
    attribute_set_step, group_step, index_buffer_step, palette_step, submesh_step, vertex_buffer_step,
};
use crate::aoc::g1m::visibility::{entry_step, group_entries, group_entry_starts, group_header, group_next, listed};
use crate::aoc::g1m::walk::{after, lemma_walk_done, lemma_walk_fail, lemma_walk_step, walk};
use std::collections::HashSet;
use crate::binary::{u32_at, BinaryReader, Endian};
use crate::error::{eof, invalid, Error, ErrorKind};

verus! {

/// A vertex buffer of the model being replaced, with its vertex bytes.
#[derive(Clone, Debug)]
pub struct SourceVertexBuffer {
    pub unknown1: u32,
    pub unknown2: Option<u32>,
    pub stride: usize,
    pub data: Vec<u8>,
}

/// The vertex buffer record at `p`: two header words around its stride and vertex
/// count, and stride times count bytes of vertices.
pub open spec fn source_vertex_buffer_is(b: Seq<u8>, e: Endian, version: u32, p: int, v: SourceVertexBuffer) -> bool {
    let h = p + buffer_header(version, 12);
    &&& v.unknown1 == u32_at(b, p, e)
    &&& v.unknown2 == (if extended(version) { Some(u32_at(b, p + 12, e)) } else { None })
    &&& v.stride == r32(b, e, p + 4)
    &&& v.data@ == b.subrange(h, h + r32(b, e, p + 4) * r32(b, e, p + 8))
}

/// Reads the vertex buffer record at `p` with its vertex bytes.
fn read_source_vertex_buffer(reader: &BinaryReader, version: u32, p: usize) -> (r: Result<(SourceVertexBuffer, usize), Error>)
    requires
        reader.wf(),
    ensures
        r is Ok <==> vertex_buffer_next(reader.bytes(), reader.order(), version, p as int) is Some,
        r matches Ok((v, q)) ==> vertex_buffer_next(reader.bytes(), reader.order(), version, p as int) == Some(q as int)
            && source_vertex_buffer_is(reader.bytes(), reader.order(), version, p as int, v),
{
    let (layout, q) = read_vertex_buffer(reader, version, 0, p)?;
    let unknown1 = reader.read_u32_at(p)?;
    let unknown2 = if version > 0x3030_3430 {
        Some(reader.read_u32_at(p + 12)?)
    } else {
        None
    };
    let bytes = reader.slice(layout.offset, q)?;
    let mut data: Vec<u8> = Vec::new();
    let mut k: usize = 0;
    while k < bytes.len()
        invariant
            k <= bytes@.len(),
            data@ =~= bytes@.subrange(0, k as int),
        decreases bytes@.len() - k,
    {
        data.push(bytes[k]);
        k = k + 1;
    }
    assert(bytes@.subrange(0, bytes@.len() as int) =~= bytes@);
    Ok((SourceVertexBuffer { unknown1, unknown2, stride: layout.stride, data }, q))
}

/// One vertex attribute as the replacement copies it: buffer slot, offset in the
/// vertex, data type, padding byte, semantic and layer.
#[derive(Clone, Copy, Debug, PartialEq, Eq, Structural)]
pub struct Attr {
    pub buffer: usize,
    pub offset: usize,
    pub kind: u8,
    pub dummy: u8,
    pub semantic: u8,
    pub layer: u8,
}

/// A vertex layout: the vertex buffers it spans and its attributes.
#[derive(Clone, Debug)]
pub struct AttrSet {
    pub buffers: Vec<usize>,
    pub attrs: Vec<Attr>,
}

/// The attribute described at `q`.
pub open spec fn attr_at(b: Seq<u8>, e: Endian, q: int) -> Attr {
    Attr {
        buffer: r16(b, e, q) as usize,
        offset: r16(b, e, q + 2) as usize,
        kind: b[q + 4],
        dummy: b[q + 5],
        semantic: b[q + 6],
        layer: b[q + 7],
    }
}

/// Whether `s` is the vertex layout the record at `p` describes.
pub open spec fn attr_set_is(b: Seq<u8>, e: Endian, p: int, s: AttrSet) -> bool {
    let a = attributes_count_at(b, e, p);
    &&& s.buffers@ == Seq::new(r32(b, e, p) as nat, |k: int| r32(b, e, p + 4 + 4 * k) as usize)
    &&& s.attrs@ == Seq::new(r32(b, e, a) as nat, |k: int| attr_at(b, e, a + 4 + 8 * k))
}

/// Reads the vertex layout record at `p`.
fn read_attr_set(reader: &BinaryReader, p: usize) -> (r: Result<(AttrSet, usize), Error>)
    requires
        reader.wf(),
    ensures
        r is Ok <==> attribute_set_next(reader.bytes(), reader.order(), p as int) is Some,
        r matches Ok((s, q)) ==> attribute_set_next(reader.bytes(), reader.order(), p as int) == Some(q as int)
            && attr_set_is(reader.bytes(), reader.order(), p as int, s),
{
    let ghost b = reader.bytes();
    let ghost e = reader.order();
    let (layout, q) = read_attribute_set(reader, p)?;
    let len = reader.len();
    let list_count = layout.buffers.len();
    let a = p + 4 + 4 * list_count;
    let attr_count = layout.attributes.len();
    let mut attrs: Vec<Attr> = Vec::new();
    let mut k: usize = 0;
    while k < attr_count
        invariant
            reader.wf(),
            b == reader.bytes(),
            e == reader.order(),
            len == b.len(),
            k <= attr_count,
            a == attributes_count_at(b, e, p as int),
            attr_count == r32(b, e, a as int),
            a + 4 + 8 * attr_count <= len,
            attrs@ =~= Seq::new(k as nat, |i: int| attr_at(b, e, a + 4 + 8 * i)),
        decreases attr_count - k,
    {
        let x = a + 4 + 8 * k;
        let buffer = reader.read_u16_at(x)? as usize;
        let offset = reader.read_u16_at(x + 2)? as usize;
        let kind = reader.read_u8_at(x + 4)?;
        let dummy = reader.read_u8_at(x + 5)?;
        let semantic = reader.read_u8_at(x + 6)?;
        let layer = reader.read_u8_at(x + 7)?;
        attrs.push(Attr { buffer, offset, kind, dummy, semantic, layer });
        k = k + 1;
    }
    Ok((AttrSet { buffers: layout.buffers, attrs }, q))
}

/// A bone palette: each joint's three words, and the bone index of each.
#[derive(Clone, Debug)]
pub struct Palette {
    pub raw: Vec<[u32; 3]>,
    pub joints: Vec<u32>,
}

/// Whether `v` is the bone palette the record at `p` describes.
pub open spec fn palette_is(b: Seq<u8>, e: Endian, p: int, v: Palette) -> bool {
    &&& v.raw@.len() == r32(b, e, p)
    &&& forall|k: int|
        0 <= k < v.raw@.len() ==> (#[trigger] v.raw@[k])@ == seq![
            u32_at(b, p + 4 + 12 * k, e),
            u32_at(b, p + 8 + 12 * k, e),
            u32_at(b, p + 12 + 12 * k, e),
        ]
    &&& v.joints@ == palette_at(b, e, p)
}

/// Reads the bone palette record at `p`.
fn read_source_palette(reader: &BinaryReader, p: usize) -> (r: Result<(Palette, usize), Error>)
    requires
        reader.wf(),
    ensures
        r is Ok <==> palette_next(reader.bytes(), reader.order(), p as int) is Some,
        r matches Ok((v, q)) ==> palette_next(reader.bytes(), reader.order(), p as int) == Some(q as int)
            && palette_is(reader.bytes(), reader.order(), p as int, v),
{
    let ghost b = reader.bytes();
    let ghost e = reader.order();
    let (joints, q) = read_palette(reader, p)?;
    let count = joints.len();
    let len = reader.len();
    let mut raw: Vec<[u32; 3]> = Vec::new();
    let mut k: usize = 0;
    while k < count
        invariant
            reader.wf(),
            b == reader.bytes(),
            e == reader.order(),
            len == b.len(),
            k <= count,
            count == r32(b, e, p as int),
            p + 4 + 12 * count <= len,
            raw@.len() == k,
            forall|i: int|
                0 <= i < k ==> (#[trigger] raw@[i])@ == seq![
                    u32_at(b, p + 4 + 12 * i, e),
                    u32_at(b, p + 8 + 12 * i, e),
                    u32_at(b, p + 12 + 12 * i, e),
                ],
        decreases count - k,
    {
        let x = p + 4 + 12 * k;
        let a = reader.read_u32_at(x)?;
        let c = reader.read_u32_at(x + 4)?;
        let d = reader.read_u32_at(x + 8)?;
        let v = [a, c, d];
        assert(v@ =~= seq![a, c, d]);
        raw.push(v);
        k = k + 1;
    }
    Ok((Palette { raw, joints }, q))
}

/// An index buffer of the model being replaced, with its index bytes.
#[derive(Clone, Debug)]
pub struct SourceIndexBuffer {
    pub unknown: Option<u32>,
    pub bits: u32,
    pub data: Vec<u8>,
    pub count: usize,
}

/// Whether `v` is the index buffer the record at `p` describes: the index count and
/// width in bits, a header word in later versions, and count times width bytes.
pub open spec fn source_index_buffer_is(b: Seq<u8>, e: Endian, version: u32, p: int, v: SourceIndexBuffer) -> bool {
    let h = p + buffer_header(version, 8);
    &&& v.unknown == (if extended(version) { Some(u32_at(b, p + 8, e)) } else { None })
    &&& v.bits == u32_at(b, p + 4, e)
    &&& v.count == r32(b, e, p)
    &&& v.data@ == b.subrange(h, h + r32(b, e, p) * (r32(b, e, p + 4) / 8))
}

/// Reads the index buffer record at `p` with its index bytes.
fn read_source_index_buffer(reader: &BinaryReader, version: u32, p: usize) -> (r: Result<(SourceIndexBuffer, usize), Error>)
    requires
        reader.wf(),
    ensures
        r is Ok <==> index_buffer_next(reader.bytes(), reader.order(), version, p as int) is Some,
        r matches Ok((v, q)) ==> index_buffer_next(reader.bytes(), reader.order(), version, p as int) == Some(q as int)
            && source_index_buffer_is(reader.bytes(), reader.order(), version, p as int, v),
{
    let ghost b = reader.bytes();
    let ghost e = reader.order();
    let (layout, q) = read_index_buffer(reader, version, 0, p)?;
    let bits = reader.read_u32_at(p + 4)?;
    let unknown = if version > 0x3030_3430 {
        Some(reader.read_u32_at(p + 8)?)
    } else {
        None
    };
    proof {
        assert(layout.count * layout.stride == layout.stride * layout.count) by (nonlinear_arith);
        assert(layout.offset + layout.stride * layout.count <= b.len());
    }
    let end = layout.offset + layout.count * layout.stride;
    let bytes = reader.slice(layout.offset, end)?;
    let mut data: Vec<u8> = Vec::new();
    let mut k: usize = 0;
    while k < bytes.len()
        invariant
            k <= bytes@.len(),
            data@ =~= bytes@.subrange(0, k as int),
        decreases bytes@.len() - k,
    {
        data.push(bytes[k]);
        k = k + 1;
    }
    assert(bytes@.subrange(0, bytes@.len() as int) =~= bytes@);
    assert(layout.count * layout.stride == r32(b, e, p as int) * (r32(b, e, p + 4) / 8));
    Ok((SourceIndexBuffer { unknown, bits, data, count: layout.count }, q))
}

/// A submesh record: its fourteen words.
#[derive(Clone, Copy, Debug, PartialEq, Eq)]
pub struct SubmeshWords {
    pub values: [u32; 14],
}

/// Whether `s` holds the fourteen words of the submesh record at `p`.
pub open spec fn submesh_words_is(b: Seq<u8>, e: Endian, p: int, s: SubmeshWords) -> bool {
    forall|i: int| 0 <= i < 14 ==> #[trigger] s.values@[i] == u32_at(b, p + 4 * i, e)
}

/// Reads the fourteen words of the submesh record at `p`.
fn read_submesh_words(reader: &BinaryReader, p: usize) -> (r: Result<(SubmeshWords, usize), Error>)
    requires
        reader.wf(),
    ensures
        r is Ok <==> submesh_next(reader.bytes(), p as int) is Some,
        r matches Ok((s, q)) ==> submesh_next(reader.bytes(), p as int) == Some(q as int) && submesh_words_is(
            reader.bytes(),
            reader.order(),
            p as int,
            s,
        ),
{
    let len = reader.len();
    if p > len || len - p < 56 {
        return Err(eof("G1M submesh record is truncated"));
    }
    let mut values: [u32; 14] = [0; 14];
    let mut i: usize = 0;
    while i < 14
        invariant
            reader.wf(),
            len == reader.bytes().len(),
            p + 56 <= len,
            i <= 14,
            values@.len() == 14,
            forall|j: int| 0 <= j < i ==> #[trigger] values@[j] == u32_at(reader.bytes(), p + 4 * j, reader.order()),
        decreases 14 - i,
    {
        let v = reader.read_u32_at(p + 4 * i)?;
        values[i] = v;
        i = i + 1;
    }
    Ok((SubmeshWords { values }, p + 56))
}

/// The submesh indices listed by those entries at `starts` whose cloth id, the 16-bit
/// value 16 bytes in, is not zero.
pub open spec fn cloth_listed(b: Seq<u8>, e: Endian, starts: Seq<int>) -> Seq<usize>
    decreases starts.len(),
{
    if starts.len() == 0 {
        Seq::empty()
    } else {
        let q = starts.last();
        cloth_listed(b, e, starts.drop_last()) + if r16(b, e, q + 16) != 0 {
            Seq::new(r32(b, e, q + 24) as nat, |k: int| r32(b, e, q + 28 + 4 * k) as usize)
        } else {
            Seq::empty()
        }
    }
}

/// `s` with every value of `xs` added.
pub open spec fn add_all(s: Set<usize>, xs: Seq<usize>) -> Set<usize>
    decreases xs.len(),
{
    if xs.len() == 0 {
        s
    } else {
        add_all(s, xs.drop_last()).insert(xs.last())
    }
}

/// Reads the visibility group record at `p`; for the first group of a section, the
/// submeshes its entries list are added to `visible`, and those of entries with a
/// cloth id to `cloth`.
#[verifier::rlimit(40)]
fn read_source_group(
    reader: &BinaryReader,
    version: u32,
    p: usize,
    first: bool,
    visible: &mut HashSet<usize>,
    cloth: &mut HashSet<usize>,
) -> (r: Result<usize, Error>)
    requires
        reader.wf(),
    ensures
        r is Ok <==> group_next(reader.bytes(), reader.order(), version, p as int) is Some,
        r matches Ok(q) ==> {
            let b = reader.bytes();
            let e = reader.order();
            let starts = group_entry_starts(b, e, version, p as int);
            &&& group_next(b, e, version, p as int) == Some(q as int)
            &&& first ==> final(visible)@ == add_all(old(visible)@, listed(b, e, starts)) && final(cloth)@
                == add_all(old(cloth)@, cloth_listed(b, e, starts))
            &&& !first ==> final(visible)@ == old(visible)@ && final(cloth)@ == old(cloth)@
        },
{
    broadcast use vstd::std_specs::hash::group_hash_axioms;

    let ghost b = reader.bytes();
    let ghost e = reader.order();
    let ghost next = entry_step(b, e);
    let len = reader.len();
    let header: usize = if version > 0x3030_3330 {
        if version > 0x3030_3430 {
            36
        } else {
            20
        }
    } else {
        12
    };
    if p > len || len - p < header {
        return Err(eof("G1M visibility group is truncated"));
    }
    let (c1, c2) = if version > 0x3030_3330 {
        (reader.read_u32_at(p + 12)?, reader.read_u32_at(p + 16)?)
    } else {
        (reader.read_u32_at(p + 4)?, reader.read_u32_at(p + 8)?)
    };
    let count: u64 = c1 as u64 + c2 as u64;
    let ghost total = group_entries(b, e, version, p as int);
    assert(count == total);
    let ghost start_visible = visible@;
    let ghost start_cloth = cloth@;
    let mut q: usize = p + header;
    let mut k: u64 = 0;
    let ghost mut done: Seq<int> = Seq::empty();
    proof {
        assert(done + Seq::<int>::empty() =~= done);
    }
    while k < count
        invariant
            reader.wf(),
            b == reader.bytes(),
            e == reader.order(),
            len == b.len(),
            k <= count,
            count == total,
            total == group_entries(b, e, version, p as int),
            q <= len,
            p + group_header(version) <= len,
            next == entry_step(b, e),
            done.len() == k,
            after(Seq::empty(), walk(p + group_header(version), total as nat, next)) == after(
                done,
                walk(q as int, (total - k) as nat, next),
            ),
            first ==> visible@ == add_all(start_visible, listed(b, e, done)) && cloth@ == add_all(
                start_cloth,
                cloth_listed(b, e, done),
            ),
            !first ==> visible@ == start_visible && cloth@ == start_cloth,
        decreases count - k,
    {
        if len - q < 28 {
            proof {
                lemma_walk_fail(done, q as int, (total - k) as nat, next);
            }
            return Err(eof("G1M visibility entry is truncated"));
        }
        let cloth_id = reader.read_u16_at(q + 16)?;
        let n = reader.read_u32_at(q + 24)? as usize;
        let room = len - q - 28;
        if (n == 0 && room < 4) || (n > 0 && n > room / 4) {
            proof {
                lemma_walk_fail(done, q as int, (total - k) as nat, next);
            }
            return Err(eof("G1M visibility entry is truncated"));
        }
        let ghost idx = Seq::new(n as nat, |i: int| r32(b, e, q + 28 + 4 * i) as usize);
        let ghost vis0 = listed(b, e, done);
        let ghost clo0 = cloth_listed(b, e, done);
        if first {
            let mut j: usize = 0;
            while j < n
                invariant
                    reader.wf(),
                    b == reader.bytes(),
                    e == reader.order(),
                    j <= n,
                    n == r32(b, e, q + 24),
                    q + 28 + 4 * n <= len,
                    len == b.len(),
                    idx == Seq::new(n as nat, |i: int| r32(b, e, q + 28 + 4 * i) as usize),
                    visible@ == add_all(start_visible, vis0 + idx.take(j as int)),
                    cloth_id != 0 ==> cloth@ == add_all(start_cloth, clo0 + idx.take(j as int)),
                    cloth_id == 0 ==> cloth@ == add_all(start_cloth, clo0),
                decreases n - j,
            {
                let v = reader.read_u32_at(q + 28 + 4 * j)? as usize;
                proof {
                    let ys = (vis0 + idx.take(j as int)).push(v);
                    assert(vis0 + idx.take(j + 1) =~= ys);
                    assert(ys.drop_last() =~= vis0 + idx.take(j as int));
                    let zs = (clo0 + idx.take(j as int)).push(v);
                    assert(clo0 + idx.take(j + 1) =~= zs);
                    assert(zs.drop_last() =~= clo0 + idx.take(j as int));
                }
                visible.insert(v);
                if cloth_id != 0 {
                    cloth.insert(v);
                }
                j = j + 1;
            }
            proof {
                assert(idx.take(n as int) =~= idx);
                let nd = done.push(q as int);
                assert(nd.drop_last() =~= done);
                assert(listed(b, e, nd) == vis0 + idx);
                if cloth_id != 0 {
                    assert(cloth_listed(b, e, nd) == clo0 + idx);
                } else {
                    assert(cloth_listed(b, e, nd) =~= clo0);
                }
                assert(vis0 + Seq::<usize>::empty() =~= vis0);
            }
        } else {
            let mut j: usize = 0;
            while j < n
                invariant
                    reader.wf(),
                    len == reader.bytes().len(),
                    j <= n,
                    q + 28 + 4 * n <= len,
                decreases n - j,
            {
                let _ = reader.read_u32_at(q + 28 + 4 * j)?;
                j = j + 1;
            }
        }
        let size = if n == 0 {
            4
        } else {
            4 * n
        };
        let ghost q_old = q as int;
        q = q + 28 + size;
        proof {
            assert(next(q_old) == Some(q as int));
            lemma_walk_step(done, q_old, q as int, (total - k) as nat, next);
            done = done.push(q_old);
        }
        k = k + 1;
    }
    proof {
        lemma_walk_done(done, q as int, next);
        assert(Seq::<int>::empty() + done =~= done);
    }
    Ok(q)
}

/// Reads `count` vertex buffer records from `p0`.
fn read_source_vertex_buffers(reader: &BinaryReader, p0: usize, count: usize, version: u32) -> (r: Result<(Vec<SourceVertexBuffer>, usize), Error>)
    requires
        reader.wf(),
    ensures
        r is Ok <==> walk(p0 as int, count as nat, vertex_buffer_step(reader.bytes(), reader.order(), version)) is Some,
        r matches Ok((v, q)) ==> {
            let w = walk(p0 as int, count as nat, vertex_buffer_step(reader.bytes(), reader.order(), version))->Some_0;
            &&& w.1 == q
            &&& v@.len() == w.0.len()
            &&& forall|k: int| 0 <= k < v@.len() ==> source_vertex_buffer_is(reader.bytes(), reader.order(), version, w.0[k], #[trigger] v@[k])
        },
{
    let ghost b = reader.bytes();
    let ghost e = reader.order();
    let ghost step = vertex_buffer_step(reader.bytes(), reader.order(), version);
    let mut out: Vec<SourceVertexBuffer> = Vec::new();
    let mut pos = p0;
    let mut k: usize = 0;
    let ghost mut done: Seq<int> = Seq::empty();
    assert(done + Seq::<int>::empty() =~= done);
    while k < count
        invariant
            reader.wf(),
            b == reader.bytes(),
            e == reader.order(),
            step == vertex_buffer_step(reader.bytes(), reader.order(), version),
            k <= count,
            done.len() == k,
            out@.len() == k,
            after(Seq::empty(), walk(p0 as int, count as nat, step)) == after(done, walk(pos as int, (count - k) as nat, step)),
            forall|j: int| 0 <= j < k ==> source_vertex_buffer_is(b, e, version, done[j], #[trigger] out@[j]),
        decreases count - k,
    {
        let (item, next) = match read_source_vertex_buffer(reader, version, pos) {
            Ok(x) => x,
            Err(err) => {
                proof {
                    lemma_walk_fail(done, pos as int, (count - k) as nat, step);
                }
                return Err(err);
            },
        };
        proof {
            lemma_walk_step(done, pos as int, next as int, (count - k) as nat, step);
        }
        out.push(item);
        proof {
            done = done.push(pos as int);
        }
        pos = next;
        k = k + 1;
    }
    proof {
        lemma_walk_done(done, pos as int, step);
        assert(Seq::<int>::empty() + done =~= done);
    }
    Ok((out, pos))
}

/// Reads `count` vertex layout records from `p0`.
fn read_attr_sets(reader: &BinaryReader, p0: usize, count: usize) -> (r: Result<(Vec<AttrSet>, usize), Error>)
    requires
        reader.wf(),
    ensures
        r is Ok <==> walk(p0 as int, count as nat, attribute_set_step(reader.bytes(), reader.order())) is Some,
        r matches Ok((v, q)) ==> {
            let w = walk(p0 as int, count as nat, attribute_set_step(reader.bytes(), reader.order()))->Some_0;
            &&& w.1 == q
            &&& v@.len() == w.0.len()
            &&& forall|k: int| 0 <= k < v@.len() ==> attr_set_is(reader.bytes(), reader.order(), w.0[k], #[trigger] v@[k])
        },
{
    let ghost b = reader.bytes();
    let ghost e = reader.order();
    let ghost step = attribute_set_step(reader.bytes(), reader.order());
    let mut out: Vec<AttrSet> = Vec::new();
    let mut pos = p0;
    let mut k: usize = 0;
    let ghost mut done: Seq<int> = Seq::empty();
    assert(done + Seq::<int>::empty() =~= done);
    while k < count
        invariant
            reader.wf(),
            b == reader.bytes(),
            e == reader.order(),
            step == attribute_set_step(reader.bytes(), reader.order()),
            k <= count,
            done.len() == k,
            out@.len() == k,
            after(Seq::empty(), walk(p0 as int, count as nat, step)) == after(done, walk(pos as int, (count - k) as nat, step)),
            forall|j: int| 0 <= j < k ==> attr_set_is(b, e, done[j], #[trigger] out@[j]),
        decreases count - k,
    {
        let (item, next) = match read_attr_set(reader, pos) {
            Ok(x) => x,
            Err(err) => {
                proof {
                    lemma_walk_fail(done, pos as int, (count - k) as nat, step);
                }
                return Err(err);
            },
        };
        proof {
            lemma_walk_step(done, pos as int, next as int, (count - k) as nat, step);
        }
        out.push(item);
        proof {
            done = done.push(pos as int);
        }
        pos = next;
        k = k + 1;
    }
    proof {
        lemma_walk_done(done, pos as int, step);
        assert(Seq::<int>::empty() + done =~= done);
    }
    Ok((out, pos))
}

/// Reads `count` bone palette records from `p0`.
fn read_source_palettes(reader: &BinaryReader, p0: usize, count: usize) -> (r: Result<(Vec<Palette>, usize), Error>)
    requires
        reader.wf(),
    ensures
        r is Ok <==> walk(p0 as int, count as nat, palette_step(reader.bytes(), reader.order())) is Some,
        r matches Ok((v, q)) ==> {
            let w = walk(p0 as int, count as nat, palette_step(reader.bytes(), reader.order()))->Some_0;
            &&& w.1 == q
            &&& v@.len() == w.0.len()
            &&& forall|k: int| 0 <= k < v@.len() ==> palette_is(reader.bytes(), reader.order(), w.0[k], #[trigger] v@[k])
        },
{
    let ghost b = reader.bytes();
    let ghost e = reader.order();
    let ghost step = palette_step(reader.bytes(), reader.order());
    let mut out: Vec<Palette> = Vec::new();
    let mut pos = p0;
    let mut k: usize = 0;
    let ghost mut done: Seq<int> = Seq::empty();
    assert(done + Seq::<int>::empty() =~= done);
    while k < count
        invariant
            reader.wf(),
            b == reader.bytes(),
            e == reader.order(),
            step == palette_step(reader.bytes(), reader.order()),
            k <= count,
            done.len() == k,
            out@.len() == k,
            after(Seq::empty(), walk(p0 as int, count as nat, step)) == after(done, walk(pos as int, (count - k) as nat, step)),
            forall|j: int| 0 <= j < k ==> palette_is(b, e, done[j], #[trigger] out@[j]),
        decreases count - k,
    {
        let (item, next) = match read_source_palette(reader, pos) {
            Ok(x) => x,
            Err(err) => {
                proof {
                    lemma_walk_fail(done, pos as int, (count - k) as nat, step);
                }
                return Err(err);
            },
        };
        proof {
            lemma_walk_step(done, pos as int, next as int, (count - k) as nat, step);
        }
        out.push(item);
        proof {
            done = done.push(pos as int);
        }
        pos = next;
        k = k + 1;
    }
    proof {
        lemma_walk_done(done, pos as int, step);
        assert(Seq::<int>::empty() + done =~= done);
    }
    Ok((out, pos))
}

/// Reads `count` index buffer records from `p0`.
fn read_source_index_buffers(reader: &BinaryReader, p0: usize, count: usize, version: u32) -> (r: Result<(Vec<SourceIndexBuffer>, usize), Error>)
    requires
        reader.wf(),
    ensures
        r is Ok <==> walk(p0 as int, count as nat, index_buffer_step(reader.bytes(), reader.order(), version)) is Some,
        r matches Ok((v, q)) ==> {
            let w = walk(p0 as int, count as nat, index_buffer_step(reader.bytes(), reader.order(), version))->Some_0;
            &&& w.1 == q
            &&& v@.len() == w.0.len()
            &&& forall|k: int| 0 <= k < v@.len() ==> source_index_buffer_is(reader.bytes(), reader.order(), version, w.0[k], #[trigger] v@[k])
        },
{
    let ghost b = reader.bytes();
    let ghost e = reader.order();
    let ghost step = index_buffer_step(reader.bytes(), reader.order(), version);
    let mut out: Vec<SourceIndexBuffer> = Vec::new();
    let mut pos = p0;
    let mut k: usize = 0;
    let ghost mut done: Seq<int> = Seq::empty();
    assert(done + Seq::<int>::empty() =~= done);
    while k < count
        invariant
            reader.wf(),
            b == reader.bytes(),
            e == reader.order(),
            step == index_buffer_step(reader.bytes(), reader.order(), version),
            k <= count,
            done.len() == k,
            out@.len() == k,
            after(Seq::empty(), walk(p0 as int, count as nat, step)) == after(done, walk(pos as int, (count - k) as nat, step)),
            forall|j: int| 0 <= j < k ==> source_index_buffer_is(b, e, version, done[j], #[trigger] out@[j]),
        decreases count - k,
    {
        let (item, next) = match read_source_index_buffer(reader, version, pos) {
            Ok(x) => x,
            Err(err) => {
                proof {
                    lemma_walk_fail(done, pos as int, (count - k) as nat, step);
                }
                return Err(err);
            },
        };
        proof {
            lemma_walk_step(done, pos as int, next as int, (count - k) as nat, step);
        }
        out.push(item);
        proof {
            done = done.push(pos as int);
        }
        pos = next;
        k = k + 1;
    }
    proof {
        lemma_walk_done(done, pos as int, step);
        assert(Seq::<int>::empty() + done =~= done);
    }
    Ok((out, pos))
}

/// Reads `count` submesh records from `p0`.
fn read_submesh_records(reader: &BinaryReader, p0: usize, count: usize) -> (r: Result<(Vec<SubmeshWords>, usize), Error>)
    requires
        reader.wf(),
    ensures
        r is Ok <==> walk(p0 as int, count as nat, submesh_step(reader.bytes())) is Some,
        r matches Ok((v, q)) ==> {
            let w = walk(p0 as int, count as nat, submesh_step(reader.bytes()))->Some_0;
            &&& w.1 == q
            &&& v@.len() == w.0.len()
            &&& forall|k: int| 0 <= k < v@.len() ==> submesh_words_is(reader.bytes(), reader.order(), w.0[k], #[trigger] v@[k])
        },
{
    let ghost b = reader.bytes();
    let ghost e = reader.order();
    let ghost step = submesh_step(reader.bytes());
    let mut out: Vec<SubmeshWords> = Vec::new();
    let mut pos = p0;
    let mut k: usize = 0;
    let ghost mut done: Seq<int> = Seq::empty();
    assert(done + Seq::<int>::empty() =~= done);
    while k < count
        invariant
            reader.wf(),
            b == reader.bytes(),
            e == reader.order(),
            step == submesh_step(reader.bytes()),
            k <= count,
            done.len() == k,
            out@.len() == k,
            after(Seq::empty(), walk(p0 as int, count as nat, step)) == after(done, walk(pos as int, (count - k) as nat, step)),
            forall|j: int| 0 <= j < k ==> submesh_words_is(b, e, done[j], #[trigger] out@[j]),
        decreases count - k,
    {
        let (item, next) = match read_submesh_words(reader, pos) {
            Ok(x) => x,
            Err(err) => {
                proof {
                    lemma_walk_fail(done, pos as int, (count - k) as nat, step);
                }
                return Err(err);
            },
        };
        proof {
            lemma_walk_step(done, pos as int, next as int, (count - k) as nat, step);
        }
        out.push(item);
        proof {
            done = done.push(pos as int);
        }
        pos = next;
        k = k + 1;
    }
    proof {
        lemma_walk_done(done, pos as int, step);
        assert(Seq::<int>::empty() + done =~= done);
    }
    Ok((out, pos))
}

/// What reading a section's visibility groups adds to the visible and cloth
/// submeshes: those that the first group's entries list.
pub open spec fn groups_add(b: Seq<u8>, e: Endian, version: u32, starts: Seq<int>, sets: (Set<usize>, Set<usize>)) -> (
    Set<usize>,
    Set<usize>,
) {
    if starts.len() > 0 {
        let entries = group_entry_starts(b, e, version, starts[0]);
        (add_all(sets.0, listed(b, e, entries)), add_all(sets.1, cloth_listed(b, e, entries)))
    } else {
        sets
    }
}

/// Reads `count` visibility group records from `p0`, collecting the first group's
/// listed submeshes.
fn read_source_groups(
    reader: &BinaryReader,
    version: u32,
    p0: usize,
    count: usize,
    visible: &mut HashSet<usize>,
    cloth: &mut HashSet<usize>,
) -> (r: Result<usize, Error>)
    requires
        reader.wf(),
    ensures
        r is Ok <==> walk(p0 as int, count as nat, group_step(reader.bytes(), reader.order(), version)) is Some,
        r matches Ok(q) ==> {
            let w = walk(p0 as int, count as nat, group_step(reader.bytes(), reader.order(), version))->Some_0;
            &&& w.1 == q
            &&& (final(visible)@, final(cloth)@) == groups_add(
                reader.bytes(),
                reader.order(),
                version,
                w.0,
                (old(visible)@, old(cloth)@),
            )
        },
{
    let ghost b = reader.bytes();
    let ghost e = reader.order();
    let ghost step = group_step(b, e, version);
    let ghost start = (visible@, cloth@);
    let mut pos = p0;
    let mut k: usize = 0;
    let ghost mut done: Seq<int> = Seq::empty();
    assert(done + Seq::<int>::empty() =~= done);
    while k < count
        invariant
            reader.wf(),
            b == reader.bytes(),
            e == reader.order(),
            step == group_step(b, e, version),
            k <= count,
            done.len() == k,
            after(Seq::empty(), walk(p0 as int, count as nat, step)) == after(done, walk(pos as int, (count - k) as nat, step)),
            (visible@, cloth@) == groups_add(b, e, version, done, start),
        decreases count - k,
    {
        let next = match read_source_group(reader, version, pos, k == 0, visible, cloth) {
            Ok(q) => q,
            Err(err) => {
                proof {
                    lemma_walk_fail(done, pos as int, (count - k) as nat, step);
                }
                return Err(err);
            },
        };
        proof {
            lemma_walk_step(done, pos as int, next as int, (count - k) as nat, step);
            let nd = done.push(pos as int);
            if k == 0 {
                assert(nd[0] == pos);
            } else {
                assert(nd[0] == done[0]);
            }
            done = nd;
        }
        pos = next;
        k = k + 1;
    }
    proof {
        lemma_walk_done(done, pos as int, step);
        assert(Seq::<int>::empty() + done =~= done);
    }
    Ok(pos)
}

/// The record step of the section kinds that the replacement reads.
pub open spec fn source_kind_step(b: Seq<u8>, e: Endian, version: u32, kind: u32) -> Option<spec_fn(int) -> Option<int>> {
    if kind == 0x0001_0004 {
        Some(vertex_buffer_step(b, e, version))
    } else if kind == 0x0001_0005 {
        Some(attribute_set_step(b, e))
    } else if kind == 0x0001_0006 {
        Some(palette_step(b, e))
    } else if kind == 0x0001_0007 {
        Some(index_buffer_step(b, e, version))
    } else if kind == 0x0001_0008 {
        Some(submesh_step(b))
    } else if kind == 0x0001_0009 {
        Some(group_step(b, e, version))
    } else {
        None
    }
}

/// The record starts of the section at `s`; none for a kind that is not read.
pub open spec fn source_section_records(b: Seq<u8>, e: Endian, version: u32, s: int) -> Option<Seq<int>> {
    match source_kind_step(b, e, version, u32_at(b, s, e)) {
        None => Some(Seq::empty()),
        Some(step) => match walk(s + 12, r32(b, e, s + 8) as nat, step) {
            None => None,
            Some((starts, end)) => Some(starts),
        },
    }
}

/// Where the section after the one at `s` starts: its size past its start, when its
/// header is there, its size stays in the chunk and its records can be read.
pub open spec fn source_section_next(b: Seq<u8>, e: Endian, version: u32, s: int) -> Option<int> {
    if s < 0 || s + 12 > b.len() || s + r32(b, e, s + 4) > b.len() || source_section_records(b, e, version, s)
        is None {
        None
    } else {
        Some(s + r32(b, e, s + 4))
    }
}

/// The step from one section to the next.
pub open spec fn source_section_step(b: Seq<u8>, e: Endian, version: u32) -> spec_fn(int) -> Option<int> {
    |s: int| source_section_next(b, e, version, s)
}

/// What the sections of a G1MG chunk describe for the replacement: each section's
/// kind, record count and start; the record starts of vertex buffers, vertex layouts,
/// bone palettes, index buffers and submeshes; the visible and cloth submeshes.
pub type SourceView = (
    Seq<(u32, int, int)>,
    Seq<int>,
    Seq<int>,
    Seq<int>,
    Seq<int>,
    Seq<int>,
    Set<usize>,
    Set<usize>,
);

/// What the section at `s` adds.
pub open spec fn source_section_adds(b: Seq<u8>, e: Endian, version: u32, s: int, g: SourceView) -> SourceView {
    let kind = u32_at(b, s, e);
    let starts = source_section_records(b, e, version, s)->Some_0;
    let secs = g.0.push((kind, r32(b, e, s + 8), s));
    if kind == 0x0001_0004 {
        (secs, g.1 + starts, g.2, g.3, g.4, g.5, g.6, g.7)
    } else if kind == 0x0001_0005 {
        (secs, g.1, g.2 + starts, g.3, g.4, g.5, g.6, g.7)
    } else if kind == 0x0001_0006 {
        (secs, g.1, g.2, g.3 + starts, g.4, g.5, g.6, g.7)
    } else if kind == 0x0001_0007 {
        (secs, g.1, g.2, g.3, g.4 + starts, g.5, g.6, g.7)
    } else if kind == 0x0001_0008 {
        (secs, g.1, g.2, g.3, g.4, g.5 + starts, g.6, g.7)
    } else if kind == 0x0001_0009 {
        let sets = groups_add(b, e, version, starts, (g.6, g.7));
        (secs, g.1, g.2, g.3, g.4, g.5, sets.0, sets.1)
    } else {
        (secs, g.1, g.2, g.3, g.4, g.5, g.6, g.7)
    }
}

/// What the sections starting at `starts` describe together.
pub open spec fn source_view(b: Seq<u8>, e: Endian, version: u32, starts: Seq<int>) -> SourceView
    decreases starts.len(),
{
    if starts.len() == 0 {
        (Seq::empty(), Seq::empty(), Seq::empty(), Seq::empty(), Seq::empty(), Seq::empty(), Set::empty(), Set::empty())
    } else {
        source_section_adds(b, e, version, starts.last(), source_view(b, e, version, starts.drop_last()))
    }
}

/// A section of a G1MG chunk: its kind, record count and bytes, header included.
#[derive(Clone, Copy, Debug)]
pub struct Section<'a> {
    pub kind: u32,
    pub count: usize,
    pub bytes: &'a [u8],
}

/// The geometry of the model being replaced: the chunk header's signature, version,
/// platform and reserved word, its sections, and the records the replacement uses.
pub struct Geometry<'a> {
    pub signature: [u8; 4],
    pub version: u32,
    pub platform: [u8; 4],
    pub reserved: u32,
    pub sections: Vec<Section<'a>>,
    pub vertex_buffers: Vec<SourceVertexBuffer>,
    pub attrs: Vec<AttrSet>,
    pub index_buffers: Vec<SourceIndexBuffer>,
    pub palettes: Vec<Palette>,
    pub submeshes: Vec<SubmeshWords>,
    pub visible_submeshes: HashSet<usize>,
    pub cloth_submeshes: HashSet<usize>,
}

impl<'a> Geometry<'a> {
    /// Whether the sections and records held are those `g` describes.
    pub open spec fn holds(&self, b: Seq<u8>, e: Endian, version: u32, g: SourceView) -> bool {
        &&& self.sections@.len() == g.0.len()
        &&& forall|k: int|
            0 <= k < g.0.len() ==> {
                let x = #[trigger] self.sections@[k];
                &&& x.kind == g.0[k].0
                &&& x.count == g.0[k].1
                &&& x.bytes@ == b.subrange(g.0[k].2, g.0[k].2 + r32(b, e, g.0[k].2 + 4))
            }
        &&& self.vertex_buffers@.len() == g.1.len()
        &&& forall|k: int|
            0 <= k < g.1.len() ==> source_vertex_buffer_is(b, e, version, g.1[k], #[trigger] self.vertex_buffers@[k])
        &&& self.attrs@.len() == g.2.len()
        &&& forall|k: int| 0 <= k < g.2.len() ==> attr_set_is(b, e, g.2[k], #[trigger] self.attrs@[k])
        &&& self.palettes@.len() == g.3.len()
        &&& forall|k: int| 0 <= k < g.3.len() ==> palette_is(b, e, g.3[k], #[trigger] self.palettes@[k])
        &&& self.index_buffers@.len() == g.4.len()
        &&& forall|k: int|
            0 <= k < g.4.len() ==> source_index_buffer_is(b, e, version, g.4[k], #[trigger] self.index_buffers@[k])
        &&& self.submeshes@.len() == g.5.len()
        &&& forall|k: int| 0 <= k < g.5.len() ==> submesh_words_is(b, e, g.5[k], #[trigger] self.submeshes@[k])
        &&& self.visible_submeshes@ == g.6
        &&& self.cloth_submeshes@ == g.7
    }
}

/// Reads the section at `s` into `geometry`, returning where the next section starts.
#[verifier::rlimit(40)]
fn read_source_section<'a>(
    reader: &BinaryReader<'a>,
    version: u32,
    s: usize,
    geometry: &mut Geometry<'a>,
    Ghost(g): Ghost<SourceView>,
) -> (r: Result<usize, Error>)
    requires
        reader.wf(),
        old(geometry).holds(reader.bytes(), reader.order(), version, g),
    ensures
        r is Ok <==> source_section_next(reader.bytes(), reader.order(), version, s as int) is Some,
        r matches Ok(q) ==> source_section_next(reader.bytes(), reader.order(), version, s as int) == Some(q as int)
            && final(geometry).holds(
            reader.bytes(),
            reader.order(),
            version,
            source_section_adds(reader.bytes(), reader.order(), version, s as int, g),
        ),
        final(geometry).signature == old(geometry).signature,
        final(geometry).version == old(geometry).version,
        final(geometry).platform == old(geometry).platform,
        final(geometry).reserved == old(geometry).reserved,
{
    let ghost b = reader.bytes();
    let ghost e = reader.order();
    let len = reader.len();
    if s > len || len - s < 12 {
        return Err(eof("G1MG section header is truncated"));
    }
    let kind = reader.read_u32_at(s)?;
    let size = reader.read_u32_at(s + 4)? as usize;
    let count = reader.read_u32_at(s + 8)? as usize;
    if size > len - s {
        return Err(invalid("G1MG section exceeds input"));
    }
    let bytes = reader.slice(s, s + size)?;
    let c0 = s + 12;
    let ghost ng = source_section_adds(b, e, version, s as int, g);
    if kind == 0x0001_0004 {
        let (mut items, _) = read_source_vertex_buffers(reader, c0, count, version)?;
        let ghost old_v = geometry.vertex_buffers@;
        let ghost new_items = items@;
        geometry.vertex_buffers.append(&mut items);
        proof {
            assert forall|k: int| 0 <= k < ng.1.len() implies source_vertex_buffer_is(
                b,
                e,
                version,
                ng.1[k],
                #[trigger] geometry.vertex_buffers@[k],
            ) by {
                if k >= old_v.len() {
                    assert(geometry.vertex_buffers@[k] == new_items[k - old_v.len()]);
                }
            }
        }
    } else if kind == 0x0001_0005 {
        let (mut items, _) = read_attr_sets(reader, c0, count)?;
        let ghost old_v = geometry.attrs@;
        let ghost new_items = items@;
        geometry.attrs.append(&mut items);
        proof {
            assert forall|k: int| 0 <= k < ng.2.len() implies attr_set_is(b, e, ng.2[k], #[trigger] geometry.attrs@[k]) by {
                if k >= old_v.len() {
                    assert(geometry.attrs@[k] == new_items[k - old_v.len()]);
                }
            }
        }
    } else if kind == 0x0001_0006 {
        let (mut items, _) = read_source_palettes(reader, c0, count)?;
        let ghost old_v = geometry.palettes@;
        let ghost new_items = items@;
        geometry.palettes.append(&mut items);
        proof {
            assert forall|k: int| 0 <= k < ng.3.len() implies palette_is(b, e, ng.3[k], #[trigger] geometry.palettes@[k]) by {
                if k >= old_v.len() {
                    assert(geometry.palettes@[k] == new_items[k - old_v.len()]);
                }
            }
        }
    } else if kind == 0x0001_0007 {
        let (mut items, _) = read_source_index_buffers(reader, c0, count, version)?;
        let ghost old_v = geometry.index_buffers@;
        let ghost new_items = items@;
        geometry.index_buffers.append(&mut items);
        proof {
            assert forall|k: int| 0 <= k < ng.4.len() implies source_index_buffer_is(
                b,
                e,
                version,
                ng.4[k],
                #[trigger] geometry.index_buffers@[k],
            ) by {
                if k >= old_v.len() {
                    assert(geometry.index_buffers@[k] == new_items[k - old_v.len()]);
                }
            }
        }
    } else if kind == 0x0001_0008 {
        let (mut items, _) = read_submesh_records(reader, c0, count)?;
        let ghost old_v = geometry.submeshes@;
        let ghost new_items = items@;
        geometry.submeshes.append(&mut items);
        proof {
            assert forall|k: int| 0 <= k < ng.5.len() implies submesh_words_is(b, e, ng.5[k], #[trigger] geometry.submeshes@[k]) by {
                if k >= old_v.len() {
                    assert(geometry.submeshes@[k] == new_items[k - old_v.len()]);
                }
            }
        }
    } else if kind == 0x0001_0009 {
        let _ = read_source_groups(reader, version, c0, count, &mut geometry.visible_submeshes, &mut geometry.cloth_submeshes)?;
    }
    let ghost old_s = geometry.sections@;
    geometry.sections.push(Section { kind, count, bytes });
    proof {
        assert forall|k: int| 0 <= k < ng.0.len() implies {
            let x = #[trigger] geometry.sections@[k];
            &&& x.kind == ng.0[k].0
            &&& x.count == ng.0[k].1
            &&& x.bytes@ == b.subrange(ng.0[k].2, ng.0[k].2 + r32(b, e, ng.0[k].2 + 4))
        } by {
            if k < old_s.len() {
                assert(geometry.sections@[k] == old_s[k]);
            }
        }
    }
    Ok(s + size)
}

/// Whether a G1MG chunk can be read for replacement: its 48-byte header is there, its
/// declared size fits the input, and its sections, from 48 on, can each be read.
pub open spec fn source_geometry_ok(b: Seq<u8>, e: Endian) -> bool {
    &&& b.len() >= 48
    &&& r32(b, e, 8) <= b.len()
    &&& walk(48, r32(b, e, 44) as nat, source_section_step(b, e, u32_at(b, 4, e))) is Some
}

/// Reads a G1MG chunk as the mesh replacement needs it: its header, every section
/// with its bytes, the vertex and index buffers with their data, the vertex layouts,
/// bone palettes and submesh records, and the submeshes that the first visibility
/// group of each group section lists, with those of cloth entries apart.
#[verifier::rlimit(40)]
pub fn parse_geometry(data: &[u8], endian: Endian) -> (r: Result<Geometry<'_>, Error>)
    ensures
        r is Ok <==> source_geometry_ok(data@, endian),
        r matches Ok(g) ==> {
            let b = data@;
            let version = u32_at(b, 4, endian);
            &&& g.signature@ == b.subrange(0, 4)
            &&& g.version == version
            &&& g.platform@ == b.subrange(12, 16)
            &&& g.reserved == u32_at(b, 16, endian)
            &&& g.holds(
                b,
                endian,
                version,
                source_view(b, endian, version, walk(48, r32(b, endian, 44) as nat, source_section_step(b, endian, version))->Some_0.0),
            )
        },
{
    let ghost b = data@;
    let reader = BinaryReader::with_endian(data, endian);
    if data.len() < 48 {
        return Err(eof("G1MG header is truncated"));
    }
    let version = reader.read_u32_at(4)?;
    let size = reader.read_u32_at(8)? as usize;
    if size > data.len() {
        return Err(invalid("G1MG size exceeds input"));
    }
    let signature: [u8; 4] = [data[0], data[1], data[2], data[3]];
    let platform: [u8; 4] = [data[12], data[13], data[14], data[15]];
    assert(signature@ =~= b.subrange(0, 4));
    assert(platform@ =~= b.subrange(12, 16));
    let reserved = reader.read_u32_at(16)?;
    let section_count = reader.read_u32_at(44)? as usize;
    let ghost step = source_section_step(b, endian, version);
    let mut geometry = Geometry {
        signature,
        version,
        platform,
        reserved,
        sections: Vec::new(),
        vertex_buffers: Vec::new(),
        attrs: Vec::new(),
        index_buffers: Vec::new(),
        palettes: Vec::new(),
        submeshes: Vec::new(),
        visible_submeshes: HashSet::new(),
        cloth_submeshes: HashSet::new(),
    };
    let mut pos: usize = 48;
    let mut k: usize = 0;
    let ghost mut done: Seq<int> = Seq::empty();
    assert(done + Seq::<int>::empty() =~= done);
    assert(geometry.holds(b, endian, version, source_view(b, endian, version, done)));
    while k < section_count
        invariant
            reader.wf(),
            reader.bytes() == b,
            reader.order() == endian,
            b == data@,
            version == u32_at(b, 4, endian),
            step == source_section_step(b, endian, version),
            k <= section_count,
            section_count == r32(b, endian, 44),
            done.len() == k,
            after(Seq::empty(), walk(48, section_count as nat, step)) == after(
                done,
                walk(pos as int, (section_count - k) as nat, step),
            ),
            geometry.holds(b, endian, version, source_view(b, endian, version, done)),
            geometry.signature@ == b.subrange(0, 4),
            geometry.version == version,
            geometry.platform@ == b.subrange(12, 16),
            geometry.reserved == u32_at(b, 16, endian),
        decreases section_count - k,
    {
        let ghost g = source_view(b, endian, version, done);
        let next = match read_source_section(&reader, version, pos, &mut geometry, Ghost(g)) {
            Ok(q) => q,
            Err(err) => {
                proof {
                    lemma_walk_fail(done, pos as int, (section_count - k) as nat, step);
                }
                return Err(err);
            },
        };
        proof {
            lemma_walk_step(done, pos as int, next as int, (section_count - k) as nat, step);
            let nd = done.push(pos as int);
            assert(nd.drop_last() =~= done);
            done = nd;
        }
        pos = next;
        k = k + 1;
    }
    proof {
        lemma_walk_done(done, pos as int, step);
        assert(Seq::<int>::empty() + done =~= done);
    }
    Ok(geometry)
}

} // verus!
