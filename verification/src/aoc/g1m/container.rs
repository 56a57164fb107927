use vstd::prelude::*;
use crate::aoc::g1m::records::{attribute_at, attributes_count_at, r32, AttributeSet};
use crate::aoc::g1m::meshes::{check_meshes, geometry_parts, meshes_readable, skeletons_ok, MeshParts};
use crate::aoc::g1m::sections::{geometry_of, geometry_ok, parse_geometry, section_step, chunk_version, Geometry, GeometryView};
use crate::aoc::g1m::walk::{after, lemma_walk_done, lemma_walk_fail, lemma_walk_step, walk};
use crate::binary::{u32_at, BinaryReader, Endian};
use crate::aoc::g1m::names::{display_name, display_name_of};
use crate::aoc::g1m::skeleton::{bone_is, bones_chunk, chunk_bytes, joint_count, lemma_bones_chunk_in_range, read_bones, G1mBone};
use crate::error::{eof, invalid, Error, ErrorKind};

verus! {

/// The magic of a little-endian model, `_M1G`.
pub open spec fn g1m_magic_little() -> Seq<u8> {
    seq![0x5fu8, 0x4du8, 0x31u8, 0x47u8]
}

/// The magic of a big-endian model, `G1M_`.
pub open spec fn g1m_magic_big() -> Seq<u8> {
    seq![0x47u8, 0x31u8, 0x4du8, 0x5fu8]
}

/// A big-endian model begins with the little-endian magic read backwards (`_M1G`
/// becomes `G1M_`), so the two magics differ and the first four bytes decide the byte
/// order.
pub proof fn lemma_model_magics()
    ensures
        g1m_magic_big() == g1m_magic_little().reverse(),
        g1m_magic_big() != g1m_magic_little(),
{
    assert(g1m_magic_big() =~= g1m_magic_little().reverse());
    assert(g1m_magic_big()[0] != g1m_magic_little()[0]);
}

/// The byte order a model's magic declares, if it is a G1M model.
pub open spec fn model_endian(b: Seq<u8>) -> Option<Endian> {
    if b.len() >= 4 && b.subrange(0, 4) == g1m_magic_little() {
        Some(Endian::Little)
    } else if b.len() >= 4 && b.subrange(0, 4) == g1m_magic_big() {
        Some(Endian::Big)
    } else {
        None
    }
}

/// Whether the four bytes at `p` are a geometry chunk signature, `G1MG` or `GM1G`.
pub open spec fn is_geometry_signature(s: Seq<u8>) -> bool {
    s == seq![0x47u8, 0x31u8, 0x4du8, 0x47u8] || s == seq![0x47u8, 0x4du8, 0x31u8, 0x47u8]
}

/// Where the chunk at `start` ends: its size, at 8, is at least its 12-byte header
/// and stays in the file, and a geometry chunk's sections can be read.
pub open spec fn chunk_next(b: Seq<u8>, e: Endian, start: int) -> Option<int> {
    let size = r32(b, e, start + 8);
    if start < 0 || start + 12 > b.len() || size < 12 || start + size > b.len() {
        None
    } else if is_geometry_signature(b.subrange(start, start + 4)) && !geometry_ok(
        b.subrange(start, start + size),
        e,
    ) {
        None
    } else {
        Some(start + size)
    }
}

/// The step from one chunk to the next.
pub open spec fn chunk_step(b: Seq<u8>, e: Endian) -> spec_fn(int) -> Option<int> {
    |s: int| chunk_next(b, e, s)
}

/// The header of a G1M model.
#[derive(Clone, Debug)]
pub struct G1mHeader {
    pub version: [u8; 4],
    pub endian: String,
    pub target_address_size: u8,
    pub alignment_exponent: u8,
    pub file_size: u64,
    pub string_pool_offset: u64,
    pub string_pool_size: u64,
}

/// A chunk of a G1M model: its signature and offset.
#[derive(Clone, Debug)]
pub struct G1mSection {
    pub signature: [u8; 4],
    pub offset: u64,
    pub name: Option<String>,
}

/// The header, chunk list and geometry of a G1M model.
pub struct G1mContainer {
    pub header: G1mHeader,
    pub name: Option<String>,
    pub sections: Vec<G1mSection>,
    pub bones: Vec<G1mBone>,
    pub geometry: Geometry,
    pub format: String,
}

/// Whether the model header is readable and consistent: a known magic, the header
/// words present, a file size within the input, at most 4096 chunks, and a chunk
/// offset within the input.
pub open spec fn model_header_ok(b: Seq<u8>) -> bool {
    &&& model_endian(b) is Some
    &&& b.len() >= 24
    &&& r32(b, model_endian(b)->Some_0, 8) <= b.len()
    &&& r32(b, model_endian(b)->Some_0, 20) <= 4096
    &&& r32(b, model_endian(b)->Some_0, 12) <= b.len()
}

/// The kind of error a model whose header is not valid gives: `InvalidData` for a
/// short input, a wrong magic, a file size past the end or too many chunks, and
/// `UnexpectedEof` for a truncated header or a chunk offset past the end.
pub open spec fn header_error(b: Seq<u8>) -> ErrorKind {
    if model_endian(b) is None {
        ErrorKind::InvalidData
    } else if b.len() < 24 {
        ErrorKind::UnexpectedEof
    } else if r32(b, model_endian(b)->Some_0, 8) > b.len() || r32(b, model_endian(b)->Some_0, 20) > 4096 {
        ErrorKind::InvalidData
    } else {
        ErrorKind::UnexpectedEof
    }
}

/// The chunk starts of a model whose header is valid, when its chunks can be read.
pub open spec fn model_chunks(b: Seq<u8>) -> Option<(Seq<int>, int)> {
    let e = model_endian(b)->Some_0;
    walk(r32(b, e, 12), r32(b, e, 20) as nat, chunk_step(b, e))
}

/// The last geometry chunk among `starts`, if any.
pub open spec fn last_geometry(b: Seq<u8>, starts: Seq<int>) -> Option<int>
    decreases starts.len(),
{
    if starts.len() == 0 {
        None
    } else if is_geometry_signature(b.subrange(starts.last(), starts.last() + 4)) {
        Some(starts.last())
    } else {
        last_geometry(b, starts.drop_last())
    }
}

/// Whether `G1mContainer::read` accepts the model: a valid header, readable chunks,
/// and a geometry chunk among them.
pub open spec fn container_ok(b: Seq<u8>) -> bool {
    &&& model_header_ok(b)
    &&& model_chunks(b) is Some
    &&& last_geometry(b, model_chunks(b)->Some_0.0) is Some
}

/// The geometry chunk of a model that `read` accepts: its last.
pub open spec fn model_chunk(b: Seq<u8>) -> Seq<u8> {
    let e = model_endian(b)->Some_0;
    let g = last_geometry(b, model_chunks(b)->Some_0.0)->Some_0;
    b.subrange(g, g + r32(b, e, g + 8))
}

/// The geometry its last geometry chunk describes.
pub open spec fn model_view(b: Seq<u8>) -> GeometryView {
    let e = model_endian(b)->Some_0;
    let g = last_geometry(b, model_chunks(b)->Some_0.0)->Some_0;
    let chunk = model_chunk(b);
    geometry_of(chunk, e, chunk_version(chunk, e), g, walk(48, r32(chunk, e, 44) as nat, section_step(chunk, e, chunk_version(chunk, e)))->Some_0.0)
}

/// The parts of a geometry view that mesh building reads, the layouts read from the
/// chunk `c`.
pub open spec fn view_parts(c: Seq<u8>, e: Endian, gv: GeometryView) -> MeshParts {
    (
        gv.1,
        Seq::new(
            gv.2.len(),
            |k: int|
                (
                    Seq::new(r32(c, e, gv.2[k]) as nat, |j: int| r32(c, e, gv.2[k] + 4 + 4 * j) as usize),
                    Seq::new(
                        r32(c, e, attributes_count_at(c, e, gv.2[k])) as nat,
                        |j: int| attribute_at(c, e, attributes_count_at(c, e, gv.2[k]) + 4 + 8 * j),
                    ),
                ),
        ),
        gv.4,
        gv.5,
        gv.6,
    )
}

/// The parts of a model's geometry that mesh building reads.
pub open spec fn model_parts(b: Seq<u8>) -> MeshParts {
    view_parts(model_chunk(b), model_endian(b)->Some_0, model_view(b))
}

/// Whether `G1mContainer::parse` accepts the model: `read` does, and its skeleton
/// chunks and mesh data can be read.
pub open spec fn model_ok(b: Seq<u8>) -> bool {
    &&& container_ok(b)
    &&& skeletons_ok(b, model_endian(b)->Some_0, model_chunks(b)->Some_0.0, 0)
    &&& meshes_readable(b, model_endian(b)->Some_0, model_parts(b))
}

proof fn lemma_walk_records(p: int, n: nat, next: spec_fn(int) -> Option<int>)
    ensures
        walk(p, n, next) matches Some((starts, end)) ==> forall|i: int| 0 <= i < starts.len() ==> #[trigger] next(starts[i]) is Some,
    decreases n,
{
    if n > 0 {
        if let Some(q) = next(p) {
            lemma_walk_records(q, (n - 1) as nat, next);
            if let Some((rest, end)) = walk(q, (n - 1) as nat, next) {
                let starts = seq![p] + rest;
                assert forall|i: int| 0 <= i < starts.len() implies #[trigger] next(starts[i]) is Some by {
                    if i > 0 {
                        assert(starts[i] == rest[i - 1]);
                    }
                }
            }
        }
    }
}

proof fn lemma_parts_of_view(g: Geometry, c: Seq<u8>, e: Endian, gv: GeometryView)
    requires
        g.holds(c, e, gv),
    ensures
        geometry_parts(g) == view_parts(c, e, gv),
{
    let a = g.attributes@.map_values(|s: AttributeSet| (s.buffers@, s.attributes@));
    let v = view_parts(c, e, gv).1;
    assert forall|k: int| 0 <= k < a.len() implies a[k] == v[k] by {
        assert(g.attributes@[k].read_from(c, e, gv.2[k]));
    }
    assert(a =~= v);
}

impl G1mContainer {
    /// Reads a G1M model's header, its chunk list, and the sections of its last
    /// geometry chunk; whether its skeleton and mesh data can be read is left to
    /// `parse`.
    #[verifier::rlimit(80)]
    pub fn read(data: &[u8]) -> (r: Result<Self, Error>)
        ensures
            r is Ok <==> container_ok(data@),
            r matches Ok(c) ==> {
                let b = data@;
                let e = model_endian(b)->Some_0;
                let starts = model_chunks(b)->Some_0.0;
                let g = last_geometry(b, starts)->Some_0;
                let chunk = b.subrange(g, g + r32(b, e, g + 8));
                &&& c.header.version@ == b.subrange(4, 8)
                &&& c.name is None
                &&& c.bones@.len() == 0
                &&& c.format@ == "G1M"@
                &&& c.header.file_size == r32(b, e, 8)
                &&& c.header.endian@ == (if e == Endian::Little { "Little"@ } else { "Big"@ })
                &&& c.sections@.len() == starts.len()
                &&& forall|k: int|
                    #![trigger c.sections@[k]]
                    0 <= k < starts.len() ==> c.sections@[k].offset == starts[k]
                        && c.sections@[k].signature@ == b.subrange(starts[k], starts[k] + 4)
                        && c.sections@[k].name is None
                &&& c.geometry.holds(chunk, e, geometry_of(chunk, e, chunk_version(chunk, e), g,
                    walk(48, r32(chunk, e, 44) as nat, section_step(chunk, e, chunk_version(chunk, e)))->Some_0.0))
            },
            r matches Err(e) ==> e.kind == ErrorKind::UnexpectedEof || e.kind == ErrorKind::InvalidData,
            r matches Err(e) ==> e.kind == header_error(data@) || model_header_ok(data@),
    {
        let ghost b = data@;
        if data.len() < 4 {
            return Err(invalid("not a G1M model"));
        }
        let ghost m = b.subrange(0, 4);
        let endian = if data[0] == 0x5f && data[1] == 0x4d && data[2] == 0x31 && data[3] == 0x47 {
            assert(m =~= g1m_magic_little());
            Endian::Little
        } else if data[0] == 0x47 && data[1] == 0x31 && data[2] == 0x4d && data[3] == 0x5f {
            assert(m =~= g1m_magic_big());
            assert(m != g1m_magic_little()) by {
                assert(m[0] != g1m_magic_little()[0]);
            }
            Endian::Big
        } else {
            assert(m != g1m_magic_little()) by {
                if m == g1m_magic_little() {
                    assert(m[0] == 0x5f && m[1] == 0x4d && m[2] == 0x31 && m[3] == 0x47);
                }
            }
            assert(m != g1m_magic_big()) by {
                if m == g1m_magic_big() {
                    assert(m[0] == 0x47 && m[1] == 0x31 && m[2] == 0x4d && m[3] == 0x5f);
                }
            }
            return Err(invalid("not a G1M model"));
        };
        let reader = BinaryReader::with_endian(data, endian);
        if data.len() < 24 {
            return Err(eof("G1M header is truncated"));
        }
        let version = reader.read_array4_at(4)?;
        let file_size = reader.read_u32_at(8)? as usize;
        let chunk_offset = reader.read_u32_at(12)? as usize;
        let chunk_count = reader.read_u32_at(20)? as usize;
        if file_size > data.len() || chunk_count > 4096 {
            return Err(invalid("invalid G1M header"));
        }
        if chunk_offset > data.len() {
            return Err(eof("G1M chunk offset is past the end"));
        }
        let ghost step = chunk_step(b, endian);
        let mut sections: Vec<G1mSection> = Vec::new();
        let mut geometry: Option<Geometry> = None;
        let ghost mut geometry_at: Option<int> = None;
        let mut pos = chunk_offset;
        let mut k: usize = 0;
        let ghost mut done: Seq<int> = Seq::empty();
        assert(done + Seq::<int>::empty() =~= done);
        while k < chunk_count
            invariant
                reader.wf(),
                reader.bytes() == b,
                reader.order() == endian,
                b == data@,
                model_endian(b) == Some(endian),
                model_header_ok(b),
                step == chunk_step(b, endian),
                chunk_count == r32(b, endian, 20),
                chunk_offset == r32(b, endian, 12),
                k <= chunk_count,
                done.len() == k,
                pos <= b.len(),
                after(Seq::empty(), walk(chunk_offset as int, chunk_count as nat, step)) == after(done, walk(pos as int, (chunk_count - k) as nat, step)),
                sections@.len() == k,
                forall|j: int|
                    #![trigger sections@[j]]
                    0 <= j < k ==> sections@[j].offset == done[j] && sections@[j].signature@
                        == b.subrange(done[j], done[j] + 4) && sections@[j].name is None,
                geometry_at == last_geometry(b, done),
                geometry is Some <==> geometry_at is Some,
                geometry matches Some(gm) ==> {
                    let g = geometry_at->Some_0;
                    let chunk = b.subrange(g, g + r32(b, endian, g + 8));
                    gm.holds(chunk, endian, geometry_of(chunk, endian, chunk_version(chunk, endian), g,
                        walk(48, r32(chunk, endian, 44) as nat, section_step(chunk, endian, chunk_version(chunk, endian)))->Some_0.0))
                },
            decreases chunk_count - k,
        {
            let start = pos;
            if data.len() - start < 12 {
                proof {
                    lemma_walk_fail(done, pos as int, (chunk_count - k) as nat, step);
                }
                return Err(eof("G1M chunk header is truncated"));
            }
            let signature = reader.read_array4_at(start)?;
            let size = reader.read_u32_at(start + 8)? as usize;
            if size < 12 || size > data.len() - start {
                proof {
                    lemma_walk_fail(done, pos as int, (chunk_count - k) as nat, step);
                }
                return Err(invalid("invalid G1M chunk size"));
            }
            let geometry_chunk = (signature[0] == 0x47 && signature[1] == 0x31 && signature[2] == 0x4d
                && signature[3] == 0x47) || (signature[0] == 0x47 && signature[1] == 0x4d
                && signature[2] == 0x31 && signature[3] == 0x47);
            assert(geometry_chunk == is_geometry_signature(b.subrange(start as int, start + 4))) by {
                assert(signature@ == b.subrange(start as int, start + 4));
                if geometry_chunk {
                    assert(signature@ =~= seq![0x47u8, 0x31u8, 0x4du8, 0x47u8] || signature@ =~= seq![0x47u8, 0x4du8, 0x31u8, 0x47u8]);
                }
            }
            sections.push(G1mSection { signature, offset: start as u64, name: None });
            let chunk = &data[start..start + size];
            if geometry_chunk {
                let parsed = match parse_geometry(chunk, endian, start) {
                    Ok(g) => g,
                    Err(err) => {
                        proof {
                            lemma_walk_fail(done, pos as int, (chunk_count - k) as nat, step);
                        }
                        return Err(err);
                    },
                };
                geometry = Some(parsed);
                proof {
                    geometry_at = Some(start as int);
                }
            }
            let next = start + size;
            proof {
                lemma_walk_step(done, pos as int, next as int, (chunk_count - k) as nat, step);
                let nd = done.push(pos as int);
                assert(nd.drop_last() =~= done);
                done = nd;
            }
            pos = next;
            k = k + 1;
        }
        proof {
            lemma_walk_done(done, pos as int, step);
            assert(Seq::<int>::empty() + done =~= done);
        }
        let geometry = match geometry {
            Some(g) => g,
            None => return Err(invalid("G1M has no G1MG geometry chunk")),
        };
        let endian_name = match endian {
            Endian::Little => "Little".to_owned(),
            Endian::Big => "Big".to_owned(),
        };
        Ok(G1mContainer {
            header: G1mHeader {
                version,
                endian: endian_name,
                target_address_size: 4,
                alignment_exponent: 0,
                file_size: file_size as u64,
                string_pool_offset: 0,
                string_pool_size: 0,
            },
            name: None,
            sections,
            bones: Vec::new(),
            geometry,
            format: "G1M".to_owned(),
        })
    }

    /// Reads a G1M model as `read` does, and checks, as building its skeleton and
    /// meshes needs, that its skeleton chunks and the index and vertex data its
    /// submeshes name can be read; names it for display as `display_name` says, by
    /// `table`, the model-name table, or else by `name`; and reads its bones as
    /// `read_bones` says, named by `bone_names`, the joint-name table.
    pub fn parse(data: &[u8], name: &str, table: &Vec<(String, String)>, bone_names: &Vec<(usize, String)>) -> (r: Result<Self, Error>)
        ensures
            r is Ok <==> model_ok(data@),
            r matches Ok(c) ==> c.name matches Some(n) && n@ == display_name_of(name@, table@) && c.format@ == "G1M"@,
            r matches Ok(c) ==> {
                let b = data@;
                let e = model_endian(b)->Some_0;
                let starts = model_chunks(b)->Some_0.0;
                match bones_chunk(b, e, starts, 0) {
                    Some(k) => {
                        let d = chunk_bytes(b, e, starts[k]);
                        &&& c.bones@.len() == joint_count(d, e)
                        &&& forall|i: int| 0 <= i < c.bones@.len() ==> bone_is(#[trigger] c.bones@[i], d, e, i, bone_names@)
                    },
                    None => c.bones@.len() == 0,
                }
            },
            r matches Ok(c) ==> geometry_parts(c.geometry) == model_parts(data@),
            r matches Err(e) ==> e.kind == ErrorKind::UnexpectedEof || e.kind == ErrorKind::InvalidData,
            r matches Err(e) ==> e.kind == header_error(data@) || model_header_ok(data@),
    {
        let mut model = G1mContainer::read(data)?;
        let ghost b = data@;
        let ghost e = model_endian(b)->Some_0;
        let ghost starts = model_chunks(b)->Some_0.0;
        let endian = crate::aoc::g1m::replace::g1m_endian(data)?;
        let reader = BinaryReader::with_endian(data, endian);
        assert(reader.order() == e);
        let mut offsets: Vec<u64> = Vec::new();
        let mut sigs: Vec<[u8; 4]> = Vec::new();
        let mut k: usize = 0;
        while k < model.sections.len()
            invariant
                k <= model.sections@.len(),
                model.sections@.len() == starts.len(),
                forall|j: int|
                    #![trigger model.sections@[j]]
                    0 <= j < starts.len() ==> model.sections@[j].offset == starts[j] && model.sections@[j].signature@
                        == b.subrange(starts[j], starts[j] + 4),
                offsets@.len() == k,
                sigs@.len() == k,
                forall|j: int| 0 <= j < k ==> #[trigger] offsets@[j] == starts[j] && sigs@[j]@ == b.subrange(starts[j], starts[j] + 4),
            decreases model.sections@.len() - k,
        {
            let section = &model.sections[k];
            assert(section.offset == starts[k as int] && section.signature@ == b.subrange(starts[k as int], starts[k as int] + 4));
            let ghost old_offsets = offsets@;
            let ghost old_sigs = sigs@;
            offsets.push(section.offset);
            sigs.push(section.signature);
            assert forall|j: int| 0 <= j < k implies #[trigger] offsets@[j] == starts[j] && sigs@[j]@ == b.subrange(starts[j], starts[j] + 4) by {
                assert(offsets@[j] == old_offsets[j]);
                assert(sigs@[j] == old_sigs[j]);
            }
            assert(offsets@[k as int] == starts[k as int]);
            assert(sigs@[k as int]@ == b.subrange(starts[k as int], starts[k as int] + 4));
            k = k + 1;
        }
        proof {
            lemma_walk_records(r32(b, e, 12), r32(b, e, 20) as nat, chunk_step(b, e));
            assert(offsets@.map_values(|x: u64| x as int) =~= starts);
            assert forall|j: int| 0 <= j < offsets@.len() implies (#[trigger] offsets@[j]) + 12 <= b.len() && offsets@[j] + u32_at(
                b,
                offsets@[j] + 8,
                e,
            ) <= b.len() && sigs@[j]@ == b.subrange(offsets@[j] as int, offsets@[j] + 4) by {
                assert(offsets@[j] == starts[j]);
                assert(chunk_step(b, e)(starts[j]) is Some);
                assert(chunk_next(b, e, starts[j]) is Some);
            }
        }
        let bones = read_bones(data, endian, &offsets, &sigs, bone_names)?;
        assert(offsets@.map_values(|x: u64| x as int) == starts);
        proof {
            lemma_parts_of_view(model.geometry, model_chunk(b), e, model_view(b));
        }
        check_meshes(&reader, &model.geometry)?;
        model.name = Some(display_name(name, table));
        model.bones = bones;
        proof {
            lemma_bones_chunk_in_range(b, e, starts, 0);
            if let Some(k) = bones_chunk(b, e, starts, 0) {
                assert(offsets@.map_values(|x: u64| x as int)[k] == starts[k]);
                assert(offsets@[k] as int == starts[k]);
            }
        }
        Ok(model)
    }
}

} // verus!
