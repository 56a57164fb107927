use vstd::prelude::*;
use crate::aoc::g1m::records::{Attribute, AttributeSet, IndexBuffer, Submesh, VertexBuffer};
use crate::aoc::g1m::sections::Geometry;
use crate::aoc::g1m::textures::{strip_to_triangles, strip_triangles};
use crate::binary::{u16_at, u32_at, BinaryReader, Endian};
use crate::error::{eof, invalid, Error, ErrorKind};

verus! {

/// What mesh building reads of a geometry: its vertex buffers, each layout's buffer
/// list and attributes, its index buffers, its submeshes, and its visibility list.
pub type MeshParts = (Seq<VertexBuffer>, Seq<(Seq<usize>, Seq<Attribute>)>, Seq<IndexBuffer>, Seq<Submesh>, Option<Seq<usize>>);

/// The parts of a geometry that mesh building reads.
pub open spec fn geometry_parts(g: Geometry) -> MeshParts {
    (
        g.vertex_buffers@,
        g.attributes@.map_values(|s: AttributeSet| (s.buffers@, s.attributes@)),
        g.index_buffers@,
        g.submeshes@,
        match g.visible_submeshes {
            Some(v) => Some(v@),
            None => None,
        },
    )
}

/// Whether submesh `m` is shown: no visibility list, or one that names it.
pub open spec fn shown(g: MeshParts, m: int) -> bool {
    match g.4 {
        None => true,
        Some(v) => v.contains(m as usize),
    }
}

/// The number of indices of a submesh that its index buffer holds: from its index
/// offset to its end or the buffer's end, whichever comes first.
pub open spec fn index_span(sm: Submesh, ib: IndexBuffer) -> int {
    let end = if sm.index_offset + sm.index_count < ib.count {
        sm.index_offset + sm.index_count
    } else {
        ib.count as int
    };
    if end > sm.index_offset {
        end - sm.index_offset
    } else {
        0
    }
}

/// Whether `n` indices from index `start` of the buffer can be read: none, or 16- or
/// 32-bit indices within the input.
pub open spec fn indices_ok(b: Seq<u8>, ib: IndexBuffer, start: int, n: int) -> bool {
    n == 0 || ((ib.stride == 2 || ib.stride == 4) && ib.offset + (start + n) * ib.stride <= b.len())
}

/// Index `i` of the buffer.
pub open spec fn index_at(b: Seq<u8>, e: Endian, ib: IndexBuffer, i: int) -> u32 {
    if ib.stride == 2 {
        u16_at(b, ib.offset + 2 * i, e) as u32
    } else {
        u32_at(b, ib.offset + 4 * i, e)
    }
}

/// The `n` indices from index `start` of the buffer.
pub open spec fn indices_of(b: Seq<u8>, e: Endian, ib: IndexBuffer, start: int, n: int) -> Seq<u32> {
    Seq::new(n as nat, |i: int| index_at(b, e, ib, start + i))
}

/// The triangle list of a submesh: its indices, turned from a strip when its
/// primitive is 4.
pub open spec fn triangles_of(sm: Submesh, raw: Seq<u32>) -> Seq<u32> {
    if sm.primitive == 4 {
        strip_triangles(raw, raw.len() - 2)
    } else {
        raw
    }
}

/// The fewest vertices among the first `k` buffers of a layout that exist, if any does.
pub open spec fn fewest(vbs: Seq<VertexBuffer>, bufs: Seq<usize>, k: int) -> Option<int>
    decreases k,
{
    if k <= 0 {
        None
    } else {
        let rest = fewest(vbs, bufs, k - 1);
        let x = bufs[k - 1] as int;
        if x < vbs.len() {
            match rest {
                Some(c) => if (vbs[x].count as int) < c {
                    Some(vbs[x].count as int)
                } else {
                    Some(c)
                },
                None => Some(vbs[x].count as int),
            }
        } else {
            rest
        }
    }
}

/// The vertices a layout gives a mesh: the fewest among its buffers, or none.
pub open spec fn vertex_total(vbs: Seq<VertexBuffer>, bufs: Seq<usize>) -> int {
    match fewest(vbs, bufs, bufs.len() as int) {
        Some(c) => c,
        None => 0,
    }
}

/// The bytes an attribute of data type `t` is read from.
pub open spec fn attribute_bytes(t: u8) -> int {
    if t == 0x00 {
        4
    } else if 0x01 <= t <= 0x03 {
        4 * (t + 1)
    } else if t == 0x05 || t == 0x0a || t == 0x0d {
        4
    } else if t == 0x07 || t == 0x0b {
        8
    } else {
        0
    }
}

/// The bytes each vertex attribute type is read from: 0x00 one 32-bit float (4);
/// 0x01, 0x02 and 0x03 two, three and four floats (8, 12, 16); 0x05 and 0x0d four
/// bytes (4); 0x07 four 16-bit integers (8); 0x0a two half floats (4); 0x0b four half
/// floats (8); any other type reads nothing.
pub proof fn lemma_attribute_sizes(t: u8)
    ensures
        attribute_bytes(0x00) == 4,
        attribute_bytes(0x01) == 8,
        attribute_bytes(0x02) == 12,
        attribute_bytes(0x03) == 16,
        attribute_bytes(0x05) == 4,
        attribute_bytes(0x07) == 8,
        attribute_bytes(0x0a) == 4,
        attribute_bytes(0x0b) == 8,
        attribute_bytes(0x0d) == 4,
        attribute_bytes(t) == 0 <==> !(t <= 0x03 || t == 0x05 || t == 0x07 || t == 0x0a || t == 0x0b || t == 0x0d),
{
}

/// Whether attribute `a` of a layout can be read for the first `vc` vertices: nothing
/// is read when its buffer slot or buffer does not exist, else each vertex of the
/// buffer, up to `vc`, at the buffer's offset plus its stride per vertex plus the
/// attribute's offset.
pub open spec fn attribute_ok(b: Seq<u8>, vbs: Seq<VertexBuffer>, bufs: Seq<usize>, attrs: Seq<Attribute>, a: int, vc: int) -> bool {
    let at = attrs[a];
    (at.buffer as int) < bufs.len() && (bufs[at.buffer as int] as int) < vbs.len() ==> {
        let buf = vbs[bufs[at.buffer as int] as int];
        let n = if vc < buf.count { vc } else { buf.count as int };
        n == 0 || attribute_bytes(at.data_type) == 0 || buf.offset + (n - 1) * buf.stride + at.offset + attribute_bytes(at.data_type) <= b.len()
    }
}

/// Whether the mesh of submesh `m` can be built: a hidden submesh, or one whose layout
/// or index buffer does not exist, is passed over; else its indices are read and, when
/// its triangle list is not empty, each attribute of each vertex.
pub open spec fn submesh_readable(b: Seq<u8>, e: Endian, g: MeshParts, m: int) -> bool {
    let sm = g.3[m];
    if !shown(g, m) || sm.vertex_buffer >= g.1.len() || sm.index_buffer >= g.2.len() {
        true
    } else {
        let ib = g.2[sm.index_buffer as int];
        let set = g.1[sm.vertex_buffer as int];
        let n = index_span(sm, ib);
        &&& indices_ok(b, ib, sm.index_offset as int, n)
        &&& triangles_of(sm, indices_of(b, e, ib, sm.index_offset as int, n)).len() > 0 ==> forall|a: int|
            0 <= a < set.1.len() ==> #[trigger] attribute_ok(b, g.0, set.0, set.1, a, vertex_total(g.0, set.0))
    }
}

/// Whether the meshes of every submesh can be built.
pub open spec fn meshes_readable(b: Seq<u8>, e: Endian, g: MeshParts) -> bool {
    forall|m: int| 0 <= m < g.3.len() ==> #[trigger] submesh_readable(b, e, g, m)
}

fn checked_index_end(offset: usize, start: usize, n: usize, stride: usize) -> (r: Option<usize>)
    requires
        start + n <= usize::MAX,
    ensures
        r matches Some(v) ==> v == offset + (start + n) * stride,
        r is None ==> offset + (start + n) * stride > usize::MAX,
{
    let count = start.checked_add(n)?;
    let bytes = match count.checked_mul(stride) {
        Some(v) => v,
        None => {
            assert((start + n) * stride > usize::MAX) by (nonlinear_arith)
                requires
                    count == start + n,
                    count * stride > usize::MAX,
            ;
            return None;
        },
    };
    offset.checked_add(bytes)
}

/// Reads `n` indices from index `start` of the buffer; fails with `InvalidData` for an
/// index width other than 16 or 32 bits, and with `UnexpectedEof` past the input.
fn read_indices(r: &BinaryReader<'_>, ib: &IndexBuffer, start: usize, n: usize) -> (res: Result<Vec<u32>, Error>)
    requires
        r.wf(),
        start + n <= usize::MAX,
    ensures
        res is Ok <==> indices_ok(r.bytes(), *ib, start as int, n as int),
        res matches Ok(v) ==> v@ == indices_of(r.bytes(), r.order(), *ib, start as int, n as int),
        res matches Err(e) ==> e.kind == ErrorKind::UnexpectedEof || e.kind == ErrorKind::InvalidData,
{
    let ghost b = r.bytes();
    if n == 0 {
        let v: Vec<u32> = Vec::new();
        assert(v@ =~= indices_of(b, r.order(), *ib, start as int, 0));
        return Ok(v);
    }
    if ib.stride != 2 && ib.stride != 4 {
        return Err(invalid("unsupported G1M index width"));
    }
    let end = match checked_index_end(ib.offset, start, n, ib.stride) {
        Some(v) => v,
        None => return Err(eof("G1M index buffer is past the end")),
    };
    if end > r.len() {
        return Err(eof("G1M index buffer is past the end"));
    }
    let mut v: Vec<u32> = Vec::new();
    let mut i: usize = 0;
    while i < n
        invariant
            r.wf(),
            b == r.bytes(),
            ib.stride == 2 || ib.stride == 4,
            ib.offset + (start + n) * ib.stride <= b.len(),
            i <= n,
            v@.len() == i,
            forall|j: int| 0 <= j < i ==> #[trigger] v@[j] == index_at(b, r.order(), *ib, start + j),
        decreases n - i,
    {
        assert(ib.offset + (start + i + 1) * ib.stride <= ib.offset + (start + n) * ib.stride) by (nonlinear_arith)
            requires
                i < n,
                ib.stride >= 0,
        ;
        assert((start + i + 1) * ib.stride == (start + i) * ib.stride + ib.stride) by (nonlinear_arith);
        let at = ib.offset + (start + i) * ib.stride;
        let x = if ib.stride == 2 {
            assert(at == ib.offset + 2 * (start + i)) by (nonlinear_arith)
                requires
                    at == ib.offset + (start + i) * ib.stride,
                    ib.stride == 2,
            ;
            let y = r.read_u16_at(at)?;
            y as u32
        } else {
            assert(ib.stride == 4);
            assert(at == ib.offset + 4 * (start + i)) by (nonlinear_arith)
                requires
                    at == ib.offset + (start + i) * ib.stride,
                    ib.stride == 4,
            ;
            r.read_u32_at(at)?
        };
        assert(x == index_at(b, r.order(), *ib, start + i));
        v.push(x);
        i = i + 1;
    }
    assert(v@ =~= indices_of(b, r.order(), *ib, start as int, n as int));
    Ok(v)
}

/// The vertices a layout gives a mesh, as `vertex_total` says.
fn vertex_count(vbs: &Vec<VertexBuffer>, set: &AttributeSet) -> (c: usize)
    ensures
        c == vertex_total(vbs@, set.buffers@),
{
    let mut best: Option<usize> = None;
    let mut k: usize = 0;
    while k < set.buffers.len()
        invariant
            k <= set.buffers@.len(),
            match best {
                Some(c) => fewest(vbs@, set.buffers@, k as int) == Some(c as int),
                None => fewest(vbs@, set.buffers@, k as int) is None,
            },
        decreases set.buffers@.len() - k,
    {
        let x = set.buffers[k];
        if x < vbs.len() {
            let c = vbs[x].count;
            best = match best {
                Some(b) => if c < b {
                    Some(c)
                } else {
                    Some(b)
                },
                None => Some(c),
            };
        }
        k = k + 1;
    }
    match best {
        Some(c) => c,
        None => 0,
    }
}

/// Checks that attribute `a` of the layout can be read for the first `vc` vertices.
fn check_attribute(r: &BinaryReader<'_>, vbs: &Vec<VertexBuffer>, set: &AttributeSet, a: usize, vc: usize) -> (res: Result<(), Error>)
    requires
        r.wf(),
        a < set.attributes@.len(),
    ensures
        res is Ok <==> attribute_ok(r.bytes(), vbs@, set.buffers@, set.attributes@, a as int, vc as int),
        res matches Err(e) ==> e.kind == ErrorKind::UnexpectedEof,
{
    let at = &set.attributes[a];
    if at.buffer >= set.buffers.len() || set.buffers[at.buffer] >= vbs.len() {
        return Ok(());
    }
    let buf = &vbs[set.buffers[at.buffer]];
    let n = if vc < buf.count {
        vc
    } else {
        buf.count
    };
    let t = at.data_type;
    let need: usize = if t == 0x00 {
        4
    } else if 0x01 <= t && t <= 0x03 {
        4 * (t as usize + 1)
    } else if t == 0x05 || t == 0x0a || t == 0x0d {
        4
    } else if t == 0x07 || t == 0x0b {
        8
    } else {
        0
    };
    if n == 0 || need == 0 {
        return Ok(());
    }
    let last = match checked_index_end(buf.offset, n - 1, 0, buf.stride) {
        Some(v) => v,
        None => return Err(eof("G1M vertex attribute is past the end")),
    };
    let end = match last.checked_add(at.offset) {
        Some(v) => match v.checked_add(need) {
            Some(w) => w,
            None => return Err(eof("G1M vertex attribute is past the end")),
        },
        None => return Err(eof("G1M vertex attribute is past the end")),
    };
    if end > r.len() {
        return Err(eof("G1M vertex attribute is past the end"));
    }
    Ok(())
}

/// Whether submesh `m` is shown.
fn is_shown(g: &Geometry, m: usize) -> (r: bool)
    ensures
        r == shown(geometry_parts(*g), m as int),
{
    match &g.visible_submeshes {
        None => true,
        Some(v) => {
            let mut i: usize = 0;
            while i < v.len()
                invariant
                    i <= v@.len(),
                    g.visible_submeshes == Some(*v),
                    forall|j: int| 0 <= j < i ==> v@[j] != m,
                decreases v@.len() - i,
            {
                if v[i] == m {
                    assert(v@[i as int] == m);
                    assert(v@.contains(m));
                    assert(shown(geometry_parts(*g), m as int));
                    return true;
                }
                i = i + 1;
            }
            assert(!v@.contains(m));
            false
        },
    }
}

/// Checks that the mesh of every submesh can be built from the model's bytes, as
/// `meshes_readable` says; fails with `InvalidData` for an unsupported index width and
/// with `UnexpectedEof` for a read past the input.
pub fn check_meshes(r: &BinaryReader<'_>, g: &Geometry) -> (res: Result<(), Error>)
    requires
        r.wf(),
    ensures
        res is Ok <==> meshes_readable(r.bytes(), r.order(), geometry_parts(*g)),
        res matches Err(e) ==> e.kind == ErrorKind::UnexpectedEof || e.kind == ErrorKind::InvalidData,
{
    let ghost b = r.bytes();
    let ghost e = r.order();
    let ghost parts = geometry_parts(*g);
    let mut m: usize = 0;
    while m < g.submeshes.len()
        invariant
            r.wf(),
            b == r.bytes(),
            e == r.order(),
            m <= g.submeshes@.len(),
            parts == geometry_parts(*g),
            forall|j: int| 0 <= j < m ==> #[trigger] submesh_readable(b, e, parts, j),
        decreases g.submeshes@.len() - m,
    {
        let sm = &g.submeshes[m];
        if is_shown(g, m) && sm.vertex_buffer < g.attributes.len() && sm.index_buffer < g.index_buffers.len() {
            let ib = &g.index_buffers[sm.index_buffer];
            let set = &g.attributes[sm.vertex_buffer];
            let end = if sm.index_offset as u128 + (sm.index_count as u128) < ib.count as u128 {
                sm.index_offset + sm.index_count
            } else {
                ib.count
            };
            let n = if end > sm.index_offset {
                end - sm.index_offset
            } else {
                0
            };
            assert(n == index_span(*sm, *ib));
            let raw = match read_indices(r, ib, sm.index_offset, n) {
                Ok(v) => v,
                Err(err) => {
                    assert(!submesh_readable(b, e, parts, m as int));
                    return Err(err);
                },
            };
            let tris = if sm.primitive == 4 {
                strip_to_triangles(raw.as_slice())
            } else {
                raw
            };
            assert(tris@ == triangles_of(*sm, indices_of(b, e, *ib, sm.index_offset as int, n as int)));
            if tris.len() > 0 {
                assert(parts.1[sm.vertex_buffer as int] == (set.buffers@, set.attributes@));
                let vc = vertex_count(&g.vertex_buffers, set);
                let mut a: usize = 0;
                while a < set.attributes.len()
                    invariant
                        r.wf(),
                        b == r.bytes(),
                        e == r.order(),
                        m < g.submeshes@.len(),
                        *sm == g.submeshes@[m as int],
                        parts == geometry_parts(*g),
                        parts.1[sm.vertex_buffer as int] == (set.buffers@, set.attributes@),
                        shown(parts, m as int),
                        (sm.vertex_buffer as int) < g.attributes@.len(),
                        (sm.index_buffer as int) < g.index_buffers@.len(),
                        *ib == g.index_buffers@[sm.index_buffer as int],
                        *set == g.attributes@[sm.vertex_buffer as int],
                        n == index_span(*sm, *ib),
                        indices_ok(b, *ib, sm.index_offset as int, n as int),
                        triangles_of(*sm, indices_of(b, e, *ib, sm.index_offset as int, n as int)).len() > 0,
                        a <= set.attributes@.len(),
                        vc == vertex_total(g.vertex_buffers@, set.buffers@),
                        forall|j: int| 0 <= j < a ==> #[trigger] attribute_ok(b, g.vertex_buffers@, set.buffers@, set.attributes@, j, vc as int),
                    decreases set.attributes@.len() - a,
                {
                    match check_attribute(r, &g.vertex_buffers, set, a, vc) {
                        Ok(()) => {},
                        Err(err) => {
                            let ghost vb = sm.vertex_buffer as int;
                            assert(parts.1.len() == g.attributes@.len());
                            assert(parts.0 == g.vertex_buffers@ && parts.2 == g.index_buffers@ && parts.3 == g.submeshes@);
                            assert(!attribute_ok(b, parts.0, parts.1[vb].0, parts.1[vb].1, a as int, vertex_total(parts.0, parts.1[vb].0)));
                            assert(!submesh_readable(b, e, parts, m as int));
                            return Err(err);
                        },
                    }
                    a = a + 1;
                }
            }
        }
        m = m + 1;
    }
    Ok(())
}

/// Whether the four bytes are a skeleton chunk signature, `G1MS` or `SM1G`.
pub open spec fn is_skeleton_signature(sig: Seq<u8>) -> bool {
    sig == seq![0x47u8, 0x31u8, 0x4du8, 0x53u8] || sig == seq![0x53u8, 0x4du8, 0x31u8, 0x47u8]
}

/// Whether the skeleton chunk at `s` can be read: twelve header bytes, the joint table
/// offset, four unused bytes, the joint and index counts, four bytes and the indices,
/// then 48 bytes per joint at the joint table offset, all within the chunk.
pub open spec fn skeleton_ok(b: Seq<u8>, e: Endian, s: int) -> bool {
    let z = u32_at(b, s + 8, e) as int;
    let jo = u32_at(b, s + 12, e) as int;
    let jc = u16_at(b, s + 20, e) as int;
    let ic = u16_at(b, s + 22, e) as int;
    &&& z >= 24
    &&& 28 + 2 * ic <= z
    &&& jo + 48 * jc <= z
}

/// Whether the skeleton chunks among the chunks at `starts`, from the `k`-th on, can be
/// read: each in turn until one that has joints.
pub open spec fn skeletons_ok(b: Seq<u8>, e: Endian, starts: Seq<int>, k: int) -> bool
    decreases starts.len() - k,
{
    if k < 0 || k >= starts.len() {
        true
    } else if is_skeleton_signature(b.subrange(starts[k], starts[k] + 4)) {
        skeleton_ok(b, e, starts[k]) && (u16_at(b, starts[k] + 20, e) == 0 ==> skeletons_ok(b, e, starts, k + 1))
    } else {
        skeletons_ok(b, e, starts, k + 1)
    }
}

} // verus!
