use vstd::prelude::*;
use crate::aoc::g1m::records::{
    attribute_set_next, index_buffer_at, index_buffer_next, material_next, palette_at, palette_next,
    r32, read_attribute_set, read_index_buffer, read_material, read_palette, read_submesh,
    read_vertex_buffer, submesh_at, submesh_next, vertex_buffer_at, vertex_buffer_next,
    AttributeSet, G1mMaterial, IndexBuffer, Submesh, VertexBuffer,
};
use crate::aoc::g1m::visibility::{group_entry_starts, group_next, listed, read_visibility_group};
use crate::aoc::g1m::walk::{after, lemma_walk_done, lemma_walk_fail, lemma_walk_step, walk};
use crate::binary::{BinaryReader, Endian};
use crate::error::{Error, ErrorKind};

verus! {

/// The step over one material record.
pub open spec fn material_step(b: Seq<u8>, e: Endian) -> spec_fn(int) -> Option<int> {
    |p: int| material_next(b, e, p)
}

/// The step over one vertex buffer record.
pub open spec fn vertex_buffer_step(b: Seq<u8>, e: Endian, version: u32) -> spec_fn(int) -> Option<int> {
    |p: int| vertex_buffer_next(b, e, version, p)
}

/// The step over one vertex layout record.
pub open spec fn attribute_set_step(b: Seq<u8>, e: Endian) -> spec_fn(int) -> Option<int> {
    |p: int| attribute_set_next(b, e, p)
}

/// The step over one bone palette record.
pub open spec fn palette_step(b: Seq<u8>, e: Endian) -> spec_fn(int) -> Option<int> {
    |p: int| palette_next(b, e, p)
}

/// The step over one index buffer record.
pub open spec fn index_buffer_step(b: Seq<u8>, e: Endian, version: u32) -> spec_fn(int) -> Option<int> {
    |p: int| index_buffer_next(b, e, version, p)
}

/// The step over one submesh record.
pub open spec fn submesh_step(b: Seq<u8>) -> spec_fn(int) -> Option<int> {
    |p: int| submesh_next(b, p)
}

/// The step over one visibility group record.
pub open spec fn group_step(b: Seq<u8>, e: Endian, version: u32) -> spec_fn(int) -> Option<int> {
    |p: int| group_next(b, e, version, p)
}

/// The kinds of G1MG sections.
pub open spec fn kind_step(b: Seq<u8>, e: Endian, version: u32, kind: u32) -> Option<spec_fn(int) -> Option<int>> {
    if kind == 0x0001_0002 {
        Some(material_step(b, e))
    } else if kind == 0x0001_0004 {
        Some(vertex_buffer_step(b, e, version))
    } else if kind == 0x0001_0005 {
        Some(attribute_set_step(b, e))
    } else if kind == 0x0001_0006 {
        Some(palette_step(b, e))
    } else if kind == 0x0001_0007 {
        Some(index_buffer_step(b, e, version))
    } else if kind == 0x0001_0008 {
        Some(submesh_step(b))
    } else if kind == 0x0001_0009 {
        Some(group_step(b, e, version))
    } else {
        None
    }
}

/// The record starts of the section at `s`: its count of records of its kind after
/// the 12-byte section header; none for a kind that is not read.
pub open spec fn section_records(b: Seq<u8>, e: Endian, version: u32, s: int) -> Option<Seq<int>> {
    match kind_step(b, e, version, u32_at_le(b, e, s)) {
        None => Some(Seq::empty()),
        Some(step) => match walk(s + 12, r32(b, e, s + 8) as nat, step) {
            None => None,
            Some((starts, end)) => Some(starts),
        },
    }
}

/// The section kind at `s`.
pub open spec fn u32_at_le(b: Seq<u8>, e: Endian, s: int) -> u32 {
    crate::binary::u32_at(b, s, e)
}

/// Where the next section starts after the section at `s`: its size past its start,
/// when its header and records can be read and its size stays in the chunk.
pub open spec fn section_next(b: Seq<u8>, e: Endian, version: u32, s: int) -> Option<int> {
    if s < 0 || s + 12 > b.len() || section_records(b, e, version, s) is None || s + r32(b, e, s + 4)
        > b.len() {
        None
    } else {
        Some(s + r32(b, e, s + 4))
    }
}

/// What the records of a G1MG chunk describe: materials (as record start, index in
/// its section, section start), vertex buffers, vertex layouts (as record starts),
/// bone palettes, index buffers, submeshes and the listed visible submeshes.
pub type GeometryView = (
    Seq<(int, int, int)>,
    Seq<VertexBuffer>,
    Seq<int>,
    Seq<Seq<u32>>,
    Seq<IndexBuffer>,
    Seq<Submesh>,
    Option<Seq<usize>>,
);

/// What the section at `s` of a chunk found at `file_offset` adds to a geometry.
pub open spec fn section_adds(b: Seq<u8>, e: Endian, version: u32, file_offset: int, s: int, g: GeometryView) -> GeometryView {
    let kind = u32_at_le(b, e, s);
    let starts = section_records(b, e, version, s)->Some_0;
    if kind == 0x0001_0002 {
        (g.0 + Seq::new(starts.len(), |k: int| (starts[k], k, s)), g.1, g.2, g.3, g.4, g.5, g.6)
    } else if kind == 0x0001_0004 {
        (g.0, g.1 + starts.map_values(|p: int| vertex_buffer_at(b, e, version, file_offset, p)), g.2, g.3, g.4, g.5, g.6)
    } else if kind == 0x0001_0005 {
        (g.0, g.1, g.2 + starts, g.3, g.4, g.5, g.6)
    } else if kind == 0x0001_0006 {
        (g.0, g.1, g.2, g.3 + starts.map_values(|p: int| palette_at(b, e, p)), g.4, g.5, g.6)
    } else if kind == 0x0001_0007 {
        (g.0, g.1, g.2, g.3, g.4 + starts.map_values(|p: int| index_buffer_at(b, e, version, file_offset, p)), g.5, g.6)
    } else if kind == 0x0001_0008 {
        (g.0, g.1, g.2, g.3, g.4, g.5 + starts.map_values(|p: int| submesh_at(b, e, p)), g.6)
    } else if kind == 0x0001_0009 && starts.len() > 0 && group_entry_starts(b, e, version, starts[0]).len() > 0 {
        let listed_here = listed(b, e, group_entry_starts(b, e, version, starts[0]));
        (g.0, g.1, g.2, g.3, g.4, g.5, Some(match g.6 {
            Some(v) => v + listed_here,
            None => listed_here,
        }))
    } else {
        g
    }
}

/// The geometry that parsed sections contribute.
pub struct Geometry {
    pub materials: Vec<G1mMaterial>,
    pub vertex_buffers: Vec<VertexBuffer>,
    pub attributes: Vec<AttributeSet>,
    pub palettes: Vec<Vec<u32>>,
    pub index_buffers: Vec<IndexBuffer>,
    pub submeshes: Vec<Submesh>,
    pub visible_submeshes: Option<Vec<usize>>,
}

impl Geometry {
    /// Whether this geometry holds what `g` describes.
    pub open spec fn holds(&self, b: Seq<u8>, e: Endian, g: GeometryView) -> bool {
        &&& self.materials@.len() == g.0.len()
        &&& forall|k: int|
            #![trigger self.materials@[k]]
            0 <= k < g.0.len() ==> self.materials@[k].read_from(b, e, g.0[k].0, g.0[k].1, g.0[k].2)
        &&& self.vertex_buffers@ == g.1
        &&& self.attributes@.len() == g.2.len()
        &&& forall|k: int|
            #![trigger self.attributes@[k]]
            0 <= k < g.2.len() ==> self.attributes@[k].read_from(b, e, g.2[k])
        &&& self.palettes@.len() == g.3.len()
        &&& forall|k: int| #![trigger self.palettes@[k]] 0 <= k < g.3.len() ==> self.palettes@[k]@ == g.3[k]
        &&& self.index_buffers@ == g.4
        &&& self.submeshes@ == g.5
        &&& match (self.visible_submeshes, g.6) {
            (None, None) => true,
            (Some(v), Some(s)) => v@ == s,
            _ => false,
        }
    }
}

/// Reads `count` material records from `p0`, numbering them from zero.
fn read_materials(reader: &BinaryReader, p0: usize, count: usize, section: usize) -> (r: Result<(Vec<G1mMaterial>, usize), Error>)
    requires
        reader.wf(),
    ensures
        r is Ok <==> walk(p0 as int, count as nat, material_step(reader.bytes(), reader.order())) is Some,
        r matches Ok((v, q)) ==> {
            let w = walk(p0 as int, count as nat, material_step(reader.bytes(), reader.order()))->Some_0;
            &&& w.1 == q
            &&& v@.len() == w.0.len()
            &&& forall|k: int| #![trigger v@[k]] 0 <= k < v@.len() ==> v@[k].read_from(reader.bytes(), reader.order(), w.0[k], k, section as int)
        },
        r matches Err(e) ==> e.kind == ErrorKind::UnexpectedEof || e.kind == ErrorKind::InvalidData,
{
    let ghost b = reader.bytes();
    let ghost e = reader.order();
    let ghost step = material_step(reader.bytes(), reader.order());
    let mut out: Vec<G1mMaterial> = Vec::new();
    let mut pos = p0;
    let mut k: usize = 0;
    let ghost mut done: Seq<int> = Seq::empty();
    assert(done + Seq::<int>::empty() =~= done);
    while k < count
        invariant
            reader.wf(),
            b == reader.bytes(),
            e == reader.order(),
            step == material_step(reader.bytes(), reader.order()),
            k <= count,
            done.len() == k,
            out@.len() == k,
            after(Seq::empty(), walk(p0 as int, count as nat, step)) == after(done, walk(pos as int, (count - k) as nat, step)),
            forall|j: int| #![trigger out@[j]] 0 <= j < k ==> out@[j].read_from(reader.bytes(), reader.order(), done[j], j, section as int),
        decreases count - k,
    {
        let (item, next) = match read_material(reader, pos, k, section) {
            Ok(x) => x,
            Err(err) => {
                proof {
                    lemma_walk_fail(done, pos as int, (count - k) as nat, step);
                }
                return Err(err);
            },
        };
        proof {
            lemma_walk_step(done, pos as int, next as int, (count - k) as nat, step);
        }
        out.push(item);
        proof {
            done = done.push(pos as int);
        }
        pos = next;
        k = k + 1;
    }
    proof {
        lemma_walk_done(done, pos as int, step);
        assert(Seq::<int>::empty() + done =~= done);
    }
    Ok((out, pos))
}

/// Reads `count` vertex buffer records from `p0`.
fn read_vertex_buffers(reader: &BinaryReader, p0: usize, count: usize, version: u32, file_offset: usize) -> (r: Result<(Vec<VertexBuffer>, usize), Error>)
    requires
        reader.wf(),
        file_offset + reader.bytes().len() <= usize::MAX,
    ensures
        r is Ok <==> walk(p0 as int, count as nat, vertex_buffer_step(reader.bytes(), reader.order(), version)) is Some,
        r matches Ok((v, q)) ==> {
            let w = walk(p0 as int, count as nat, vertex_buffer_step(reader.bytes(), reader.order(), version))->Some_0;
            &&& w.1 == q
            &&& v@.len() == w.0.len()
            &&& forall|k: int| #![trigger v@[k]] 0 <= k < v@.len() ==> v@[k] == vertex_buffer_at(reader.bytes(), reader.order(), version, file_offset as int, w.0[k])
        },
        r matches Err(e) ==> e.kind == ErrorKind::UnexpectedEof || e.kind == ErrorKind::InvalidData,
{
    let ghost b = reader.bytes();
    let ghost e = reader.order();
    let ghost step = vertex_buffer_step(reader.bytes(), reader.order(), version);
    let mut out: Vec<VertexBuffer> = Vec::new();
    let mut pos = p0;
    let mut k: usize = 0;
    let ghost mut done: Seq<int> = Seq::empty();
    assert(done + Seq::<int>::empty() =~= done);
    while k < count
        invariant
            reader.wf(),
            b == reader.bytes(),
            e == reader.order(),
            step == vertex_buffer_step(reader.bytes(), reader.order(), version),
            file_offset + reader.bytes().len() <= usize::MAX,
            k <= count,
            done.len() == k,
            out@.len() == k,
            after(Seq::empty(), walk(p0 as int, count as nat, step)) == after(done, walk(pos as int, (count - k) as nat, step)),
            forall|j: int| #![trigger out@[j]] 0 <= j < k ==> out@[j] == vertex_buffer_at(reader.bytes(), reader.order(), version, file_offset as int, done[j]),
        decreases count - k,
    {
        let (item, next) = match read_vertex_buffer(reader, version, file_offset, pos) {
            Ok(x) => x,
            Err(err) => {
                proof {
                    lemma_walk_fail(done, pos as int, (count - k) as nat, step);
                }
                return Err(err);
            },
        };
        proof {
            lemma_walk_step(done, pos as int, next as int, (count - k) as nat, step);
        }
        out.push(item);
        proof {
            done = done.push(pos as int);
        }
        pos = next;
        k = k + 1;
    }
    proof {
        lemma_walk_done(done, pos as int, step);
        assert(Seq::<int>::empty() + done =~= done);
    }
    Ok((out, pos))
}

/// Reads `count` vertex layout records from `p0`.
fn read_attribute_sets(reader: &BinaryReader, p0: usize, count: usize) -> (r: Result<(Vec<AttributeSet>, usize), Error>)
    requires
        reader.wf(),
    ensures
        r is Ok <==> walk(p0 as int, count as nat, attribute_set_step(reader.bytes(), reader.order())) is Some,
        r matches Ok((v, q)) ==> {
            let w = walk(p0 as int, count as nat, attribute_set_step(reader.bytes(), reader.order()))->Some_0;
            &&& w.1 == q
            &&& v@.len() == w.0.len()
            &&& forall|k: int| #![trigger v@[k]] 0 <= k < v@.len() ==> v@[k].read_from(reader.bytes(), reader.order(), w.0[k])
        },
        r matches Err(e) ==> e.kind == ErrorKind::UnexpectedEof || e.kind == ErrorKind::InvalidData,
{
    let ghost b = reader.bytes();
    let ghost e = reader.order();
    let ghost step = attribute_set_step(reader.bytes(), reader.order());
    let mut out: Vec<AttributeSet> = Vec::new();
    let mut pos = p0;
    let mut k: usize = 0;
    let ghost mut done: Seq<int> = Seq::empty();
    assert(done + Seq::<int>::empty() =~= done);
    while k < count
        invariant
            reader.wf(),
            b == reader.bytes(),
            e == reader.order(),
            step == attribute_set_step(reader.bytes(), reader.order()),
            k <= count,
            done.len() == k,
            out@.len() == k,
            after(Seq::empty(), walk(p0 as int, count as nat, step)) == after(done, walk(pos as int, (count - k) as nat, step)),
            forall|j: int| #![trigger out@[j]] 0 <= j < k ==> out@[j].read_from(reader.bytes(), reader.order(), done[j]),
        decreases count - k,
    {
        let (item, next) = match read_attribute_set(reader, pos) {
            Ok(x) => x,
            Err(err) => {
                proof {
                    lemma_walk_fail(done, pos as int, (count - k) as nat, step);
                }
                return Err(err);
            },
        };
        proof {
            lemma_walk_step(done, pos as int, next as int, (count - k) as nat, step);
        }
        out.push(item);
        proof {
            done = done.push(pos as int);
        }
        pos = next;
        k = k + 1;
    }
    proof {
        lemma_walk_done(done, pos as int, step);
        assert(Seq::<int>::empty() + done =~= done);
    }
    Ok((out, pos))
}

/// Reads `count` bone palette records from `p0`.
fn read_palettes(reader: &BinaryReader, p0: usize, count: usize) -> (r: Result<(Vec<Vec<u32>>, usize), Error>)
    requires
        reader.wf(),
    ensures
        r is Ok <==> walk(p0 as int, count as nat, palette_step(reader.bytes(), reader.order())) is Some,
        r matches Ok((v, q)) ==> {
            let w = walk(p0 as int, count as nat, palette_step(reader.bytes(), reader.order()))->Some_0;
            &&& w.1 == q
            &&& v@.len() == w.0.len()
            &&& forall|k: int| #![trigger v@[k]] 0 <= k < v@.len() ==> v@[k]@ == palette_at(reader.bytes(), reader.order(), w.0[k])
        },
        r matches Err(e) ==> e.kind == ErrorKind::UnexpectedEof || e.kind == ErrorKind::InvalidData,
{
    let ghost b = reader.bytes();
    let ghost e = reader.order();
    let ghost step = palette_step(reader.bytes(), reader.order());
    let mut out: Vec<Vec<u32>> = Vec::new();
    let mut pos = p0;
    let mut k: usize = 0;
    let ghost mut done: Seq<int> = Seq::empty();
    assert(done + Seq::<int>::empty() =~= done);
    while k < count
        invariant
            reader.wf(),
            b == reader.bytes(),
            e == reader.order(),
            step == palette_step(reader.bytes(), reader.order()),
            k <= count,
            done.len() == k,
            out@.len() == k,
            after(Seq::empty(), walk(p0 as int, count as nat, step)) == after(done, walk(pos as int, (count - k) as nat, step)),
            forall|j: int| #![trigger out@[j]] 0 <= j < k ==> out@[j]@ == palette_at(reader.bytes(), reader.order(), done[j]),
        decreases count - k,
    {
        let (item, next) = match read_palette(reader, pos) {
            Ok(x) => x,
            Err(err) => {
                proof {
                    lemma_walk_fail(done, pos as int, (count - k) as nat, step);
                }
                return Err(err);
            },
        };
        proof {
            lemma_walk_step(done, pos as int, next as int, (count - k) as nat, step);
        }
        out.push(item);
        proof {
            done = done.push(pos as int);
        }
        pos = next;
        k = k + 1;
    }
    proof {
        lemma_walk_done(done, pos as int, step);
        assert(Seq::<int>::empty() + done =~= done);
    }
    Ok((out, pos))
}

/// Reads `count` index buffer records from `p0`.
fn read_index_buffers(reader: &BinaryReader, p0: usize, count: usize, version: u32, file_offset: usize) -> (r: Result<(Vec<IndexBuffer>, usize), Error>)
    requires
        reader.wf(),
        file_offset + reader.bytes().len() <= usize::MAX,
    ensures
        r is Ok <==> walk(p0 as int, count as nat, index_buffer_step(reader.bytes(), reader.order(), version)) is Some,
        r matches Ok((v, q)) ==> {
            let w = walk(p0 as int, count as nat, index_buffer_step(reader.bytes(), reader.order(), version))->Some_0;
            &&& w.1 == q
            &&& v@.len() == w.0.len()
            &&& forall|k: int| #![trigger v@[k]] 0 <= k < v@.len() ==> v@[k] == index_buffer_at(reader.bytes(), reader.order(), version, file_offset as int, w.0[k])
        },
        r matches Err(e) ==> e.kind == ErrorKind::UnexpectedEof || e.kind == ErrorKind::InvalidData,
{
    let ghost b = reader.bytes();
    let ghost e = reader.order();
    let ghost step = index_buffer_step(reader.bytes(), reader.order(), version);
    let mut out: Vec<IndexBuffer> = Vec::new();
    let mut pos = p0;
    let mut k: usize = 0;
    let ghost mut done: Seq<int> = Seq::empty();
    assert(done + Seq::<int>::empty() =~= done);
    while k < count
        invariant
            reader.wf(),
            b == reader.bytes(),
            e == reader.order(),
            step == index_buffer_step(reader.bytes(), reader.order(), version),
            file_offset + reader.bytes().len() <= usize::MAX,
            k <= count,
            done.len() == k,
            out@.len() == k,
            after(Seq::empty(), walk(p0 as int, count as nat, step)) == after(done, walk(pos as int, (count - k) as nat, step)),
            forall|j: int| #![trigger out@[j]] 0 <= j < k ==> out@[j] == index_buffer_at(reader.bytes(), reader.order(), version, file_offset as int, done[j]),
        decreases count - k,
    {
        let (item, next) = match read_index_buffer(reader, version, file_offset, pos) {
            Ok(x) => x,
            Err(err) => {
                proof {
                    lemma_walk_fail(done, pos as int, (count - k) as nat, step);
                }
                return Err(err);
            },
        };
        proof {
            lemma_walk_step(done, pos as int, next as int, (count - k) as nat, step);
        }
        out.push(item);
        proof {
            done = done.push(pos as int);
        }
        pos = next;
        k = k + 1;
    }
    proof {
        lemma_walk_done(done, pos as int, step);
        assert(Seq::<int>::empty() + done =~= done);
    }
    Ok((out, pos))
}

/// Reads `count` submesh records from `p0`.
fn read_submeshes(reader: &BinaryReader, p0: usize, count: usize) -> (r: Result<(Vec<Submesh>, usize), Error>)
    requires
        reader.wf(),
    ensures
        r is Ok <==> walk(p0 as int, count as nat, submesh_step(reader.bytes())) is Some,
        r matches Ok((v, q)) ==> {
            let w = walk(p0 as int, count as nat, submesh_step(reader.bytes()))->Some_0;
            &&& w.1 == q
            &&& v@.len() == w.0.len()
            &&& forall|k: int| #![trigger v@[k]] 0 <= k < v@.len() ==> v@[k] == submesh_at(reader.bytes(), reader.order(), w.0[k])
        },
        r matches Err(e) ==> e.kind == ErrorKind::UnexpectedEof || e.kind == ErrorKind::InvalidData,
{
    let ghost b = reader.bytes();
    let ghost e = reader.order();
    let ghost step = submesh_step(reader.bytes());
    let mut out: Vec<Submesh> = Vec::new();
    let mut pos = p0;
    let mut k: usize = 0;
    let ghost mut done: Seq<int> = Seq::empty();
    assert(done + Seq::<int>::empty() =~= done);
    while k < count
        invariant
            reader.wf(),
            b == reader.bytes(),
            e == reader.order(),
            step == submesh_step(reader.bytes()),
            k <= count,
            done.len() == k,
            out@.len() == k,
            after(Seq::empty(), walk(p0 as int, count as nat, step)) == after(done, walk(pos as int, (count - k) as nat, step)),
            forall|j: int| #![trigger out@[j]] 0 <= j < k ==> out@[j] == submesh_at(reader.bytes(), reader.order(), done[j]),
        decreases count - k,
    {
        let (item, next) = match read_submesh(reader, pos) {
            Ok(x) => x,
            Err(err) => {
                proof {
                    lemma_walk_fail(done, pos as int, (count - k) as nat, step);
                }
                return Err(err);
            },
        };
        proof {
            lemma_walk_step(done, pos as int, next as int, (count - k) as nat, step);
        }
        out.push(item);
        proof {
            done = done.push(pos as int);
        }
        pos = next;
        k = k + 1;
    }
    proof {
        lemma_walk_done(done, pos as int, step);
        assert(Seq::<int>::empty() + done =~= done);
    }
    Ok((out, pos))
}

/// What reading visibility groups does to the listed visible submeshes: the first
/// group's listed indices are appended when it has an entry.
pub open spec fn visible_after(b: Seq<u8>, e: Endian, version: u32, starts: Seq<int>, before: Option<Seq<usize>>) -> Option<Seq<usize>> {
    if starts.len() > 0 && group_entry_starts(b, e, version, starts[0]).len() > 0 {
        let here = listed(b, e, group_entry_starts(b, e, version, starts[0]));
        Some(match before {
            Some(v) => v + here,
            None => here,
        })
    } else {
        before
    }
}

/// The listed submeshes an optional list holds.
pub open spec fn list_view(v: Option<Vec<usize>>) -> Option<Seq<usize>> {
    match v {
        Some(l) => Some(l@),
        None => None,
    }
}

/// Reads `count` visibility group records from `p0`, collecting the first group's
/// listed submeshes into `visible`.
fn read_groups(reader: &BinaryReader, version: u32, p0: usize, count: usize, visible: &mut Option<Vec<usize>>) -> (r: Result<usize, Error>)
    requires
        reader.wf(),
    ensures
        r is Ok <==> walk(p0 as int, count as nat, group_step(reader.bytes(), reader.order(), version)) is Some,
        r matches Ok(q) ==> {
            let w = walk(p0 as int, count as nat, group_step(reader.bytes(), reader.order(), version))->Some_0;
            &&& w.1 == q
            &&& list_view(*final(visible)) == visible_after(reader.bytes(), reader.order(), version, w.0, list_view(*old(visible)))
        },
        r matches Err(e) ==> e.kind == ErrorKind::UnexpectedEof,
{
    let ghost b = reader.bytes();
    let ghost e = reader.order();
    let ghost step = group_step(b, e, version);
    let ghost start = list_view(*visible);
    let mut pos = p0;
    let mut k: usize = 0;
    let ghost mut done: Seq<int> = Seq::empty();
    assert(done + Seq::<int>::empty() =~= done);
    while k < count
        invariant
            reader.wf(),
            b == reader.bytes(),
            e == reader.order(),
            step == group_step(b, e, version),
            k <= count,
            done.len() == k,
            after(Seq::empty(), walk(p0 as int, count as nat, step)) == after(done, walk(pos as int, (count - k) as nat, step)),
            list_view(*visible) == visible_after(b, e, version, done, start),
        decreases count - k,
    {
        let ghost before = *visible;
        let next = match read_visibility_group(reader, version, pos, k == 0, visible) {
            Ok(q) => q,
            Err(err) => {
                proof {
                    lemma_walk_fail(done, pos as int, (count - k) as nat, step);
                }
                return Err(err);
            },
        };
        proof {
            lemma_walk_step(done, pos as int, next as int, (count - k) as nat, step);
            let nd = done.push(pos as int);
            if k == 0 {
                assert(nd[0] == pos);
            } else {
                assert(nd[0] == done[0]);
            }
            done = nd;
        }
        pos = next;
        k = k + 1;
    }
    proof {
        lemma_walk_done(done, pos as int, step);
        assert(Seq::<int>::empty() + done =~= done);
    }
    Ok(pos)
}

/// Reads the section at `s` into `geometry`, returning where the next section starts;
/// fails when its header or records cannot be read or its size leaves the chunk.
fn read_section(
    reader: &BinaryReader,
    version: u32,
    file_offset: usize,
    s: usize,
    geometry: &mut Geometry,
    Ghost(g): Ghost<GeometryView>,
) -> (r: Result<usize, Error>)
    requires
        reader.wf(),
        file_offset + reader.bytes().len() <= usize::MAX,
        old(geometry).holds(reader.bytes(), reader.order(), g),
    ensures
        r is Ok <==> section_next(reader.bytes(), reader.order(), version, s as int) is Some,
        r matches Ok(q) ==> section_next(reader.bytes(), reader.order(), version, s as int) == Some(q as int)
            && final(geometry).holds(reader.bytes(), reader.order(), section_adds(reader.bytes(), reader.order(), version, file_offset as int, s as int, g)),
        r matches Err(e) ==> e.kind == ErrorKind::UnexpectedEof || e.kind == ErrorKind::InvalidData,
{
    let ghost b = reader.bytes();
    let ghost e = reader.order();
    let len = reader.len();
    if s > len || len - s < 12 {
        return Err(crate::error::eof("G1MG section header is truncated"));
    }
    let kind = reader.read_u32_at(s)?;
    let size = reader.read_u32_at(s + 4)? as usize;
    let count = reader.read_u32_at(s + 8)? as usize;
    assert(kind == u32_at_le(b, e, s as int));
    let c0 = s + 12;
    if kind == 0x0001_0002 {
        let (mut items, _) = read_materials(reader, c0, count, s)?;
        let ghost starts = section_records(b, e, version, s as int)->Some_0;
        let ghost old_m = geometry.materials@;
        let ghost new_items = items@;
        geometry.materials.append(&mut items);
        proof {
            let ng = section_adds(b, e, version, file_offset as int, s as int, g);
            assert forall|k: int| #![trigger geometry.materials@[k]] 0 <= k < ng.0.len() implies geometry.materials@[k].read_from(b, e, ng.0[k].0, ng.0[k].1, ng.0[k].2) by {
                if k >= old_m.len() {
                    assert(geometry.materials@[k] == new_items[k - old_m.len()]);
                }
            }
        }
    } else if kind == 0x0001_0004 {
        let (mut items, _) = read_vertex_buffers(reader, c0, count, version, file_offset)?;
        geometry.vertex_buffers.append(&mut items);
        proof {
            let ng = section_adds(b, e, version, file_offset as int, s as int, g);
            assert(geometry.vertex_buffers@ =~= ng.1);
        }
    } else if kind == 0x0001_0005 {
        let (mut items, _) = read_attribute_sets(reader, c0, count)?;
        let ghost old_a = geometry.attributes@;
        let ghost new_items = items@;
        geometry.attributes.append(&mut items);
        proof {
            let ng = section_adds(b, e, version, file_offset as int, s as int, g);
            assert forall|k: int| #![trigger geometry.attributes@[k]] 0 <= k < ng.2.len() implies geometry.attributes@[k].read_from(b, e, ng.2[k]) by {
                if k >= old_a.len() {
                    assert(geometry.attributes@[k] == new_items[k - old_a.len()]);
                }
            }
        }
    } else if kind == 0x0001_0006 {
        let (mut items, _) = read_palettes(reader, c0, count)?;
        let ghost old_p = geometry.palettes@;
        let ghost new_items = items@;
        geometry.palettes.append(&mut items);
        proof {
            let ng = section_adds(b, e, version, file_offset as int, s as int, g);
            assert forall|k: int| #![trigger geometry.palettes@[k]] 0 <= k < ng.3.len() implies geometry.palettes@[k]@ == ng.3[k] by {
                if k >= old_p.len() {
                    assert(geometry.palettes@[k] == new_items[k - old_p.len()]);
                }
            }
        }
    } else if kind == 0x0001_0007 {
        let (mut items, _) = read_index_buffers(reader, c0, count, version, file_offset)?;
        geometry.index_buffers.append(&mut items);
        proof {
            let ng = section_adds(b, e, version, file_offset as int, s as int, g);
            assert(geometry.index_buffers@ =~= ng.4);
        }
    } else if kind == 0x0001_0008 {
        let (mut items, _) = read_submeshes(reader, c0, count)?;
        geometry.submeshes.append(&mut items);
        proof {
            let ng = section_adds(b, e, version, file_offset as int, s as int, g);
            assert(geometry.submeshes@ =~= ng.5);
        }
    } else if kind == 0x0001_0009 {
        let _ = read_groups(reader, version, c0, count, &mut geometry.visible_submeshes)?;
    }
    if size > len - s {
        return Err(crate::error::invalid("G1MG section exceeds chunk"));
    }
    Ok(s + size)
}

/// The step from one G1MG section to the next.
pub open spec fn section_step(b: Seq<u8>, e: Endian, version: u32) -> spec_fn(int) -> Option<int> {
    |s: int| section_next(b, e, version, s)
}

/// What sections starting at `starts` describe together.
pub open spec fn geometry_of(b: Seq<u8>, e: Endian, version: u32, file_offset: int, starts: Seq<int>) -> GeometryView
    decreases starts.len(),
{
    if starts.len() == 0 {
        (Seq::empty(), Seq::empty(), Seq::empty(), Seq::empty(), Seq::empty(), Seq::empty(), None)
    } else {
        section_adds(b, e, version, file_offset, starts.last(), geometry_of(b, e, version, file_offset, starts.drop_last()))
    }
}

/// The chunk version of a G1MG chunk.
pub open spec fn chunk_version(b: Seq<u8>, e: Endian) -> u32 {
    crate::binary::u32_at(b, 4, e)
}

/// Whether a G1MG chunk can be read: its header holds a section count at 44 and its
/// sections, from 48 on, can each be read.
pub open spec fn geometry_ok(b: Seq<u8>, e: Endian) -> bool {
    b.len() >= 48 && walk(48, r32(b, e, 44) as nat, section_step(b, e, chunk_version(b, e))) is Some
}

/// Reads the sections of a G1MG chunk found at `file_offset` of its file: materials,
/// vertex and index buffers, vertex layouts, bone palettes, submeshes and the first
/// visibility group's listed submeshes.
pub fn parse_geometry(data: &[u8], endian: Endian, file_offset: usize) -> (r: Result<Geometry, Error>)
    requires
        file_offset + data@.len() <= usize::MAX,
    ensures
        r is Ok <==> geometry_ok(data@, endian),
        r matches Ok(geometry) ==> geometry.holds(data@, endian, geometry_of(data@, endian, chunk_version(data@, endian), file_offset as int,
            walk(48, r32(data@, endian, 44) as nat, section_step(data@, endian, chunk_version(data@, endian)))->Some_0.0)),
        r matches Err(e) ==> e.kind == ErrorKind::UnexpectedEof || e.kind == ErrorKind::InvalidData,
{
    let ghost b = data@;
    let reader = BinaryReader::with_endian(data, endian);
    if data.len() < 48 {
        return Err(crate::error::eof("G1MG header is truncated"));
    }
    let section_count = reader.read_u32_at(44)? as usize;
    let version = reader.read_u32_at(4)?;
    let ghost step = section_step(b, endian, version);
    let mut geometry = Geometry {
        materials: Vec::new(),
        vertex_buffers: Vec::new(),
        attributes: Vec::new(),
        palettes: Vec::new(),
        index_buffers: Vec::new(),
        submeshes: Vec::new(),
        visible_submeshes: None,
    };
    let mut pos: usize = 48;
    let mut k: usize = 0;
    let ghost mut done: Seq<int> = Seq::empty();
    assert(done + Seq::<int>::empty() =~= done);
    assert(geometry.holds(b, endian, geometry_of(b, endian, version, file_offset as int, done)));
    while k < section_count
        invariant
            reader.wf(),
            reader.bytes() == b,
            reader.order() == endian,
            b == data@,
            file_offset + b.len() <= usize::MAX,
            version == chunk_version(b, endian),
            step == section_step(b, endian, version),
            k <= section_count,
            section_count == r32(b, endian, 44),
            done.len() == k,
            after(Seq::empty(), walk(48, section_count as nat, step)) == after(done, walk(pos as int, (section_count - k) as nat, step)),
            geometry.holds(b, endian, geometry_of(b, endian, version, file_offset as int, done)),
        decreases section_count - k,
    {
        let ghost g = geometry_of(b, endian, version, file_offset as int, done);
        let next = match read_section(&reader, version, file_offset, pos, &mut geometry, Ghost(g)) {
            Ok(q) => q,
            Err(err) => {
                proof {
                    lemma_walk_fail(done, pos as int, (section_count - k) as nat, step);
                }
                return Err(err);
            },
        };
        proof {
            lemma_walk_step(done, pos as int, next as int, (section_count - k) as nat, step);
            let nd = done.push(pos as int);
            assert(nd.drop_last() =~= done);
            done = nd;
        }
        pos = next;
        k = k + 1;
    }
    proof {
        lemma_walk_done(done, pos as int, step);
        assert(Seq::<int>::empty() + done =~= done);
    }
    Ok(geometry)
}

} // verus!
