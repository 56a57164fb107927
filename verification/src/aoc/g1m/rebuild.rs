use vstd::prelude::*;
use crate::aoc::g1m::records::r32;
use crate::aoc::g1m::replace::{push_u16, push_u32, put_u32};
use crate::aoc::g1m::source::{
    parse_geometry, source_geometry_ok, source_section_step, source_view, Attr, AttrSet, Geometry, Section,
    SourceVertexBuffer, SubmeshWords,
};
use crate::aoc::g1m::walk::walk;
use crate::binary::{encode_u16, encode_u32, u32_at, BinaryReader, Endian};
use crate::error::{eof, invalid, Error, ErrorKind};

verus! {

/// The stride of vertex buffer `x`, or nothing when there is no such buffer.
pub open spec fn stride_of(vbs: Seq<SourceVertexBuffer>, x: int) -> int {
    if 0 <= x < vbs.len() {
        vbs[x].stride as int
    } else {
        0
    }
}

/// The strides of the first `n` buffers that a layout spans, added up: where the
/// vertex data of buffer slot `n` starts in an interleaved vertex.
pub open spec fn strides_upto(vbs: Seq<SourceVertexBuffer>, buffers: Seq<usize>, n: int) -> int
    decreases n,
{
    if n <= 0 {
        0
    } else {
        strides_upto(vbs, buffers, n - 1) + stride_of(vbs, buffers[n - 1] as int)
    }
}

/// The vertex layout that submesh `m` uses: the layout its second word names.
pub open spec fn layout_of(attrs: Seq<AttrSet>, subs: Seq<SubmeshWords>, m: int) -> AttrSet {
    attrs[subs[m].values@[1] as int]
}

/// Whether submesh `m` has a layout whose buffers exist and whose attributes name
/// buffer slots of the layout.
pub open spec fn layout_ok(vbs: Seq<SourceVertexBuffer>, attrs: Seq<AttrSet>, subs: Seq<SubmeshWords>, m: int) -> bool {
    let set = layout_of(attrs, subs, m);
    &&& 0 <= m < subs.len()
    &&& (subs[m].values@[1] as int) < attrs.len()
    &&& forall|i: int| 0 <= i < set.buffers@.len() ==> (#[trigger] set.buffers@[i] as int) < vbs.len()
    &&& forall|i: int| 0 <= i < set.attrs@.len() ==> (#[trigger] set.attrs@[i].buffer as int) < set.buffers@.len()
}

/// Whether the interleaved stride of submesh `m`'s layout, plus any attribute's
/// offset, fits a machine word.
pub open spec fn layout_fits(vbs: Seq<SourceVertexBuffer>, attrs: Seq<AttrSet>, subs: Seq<SubmeshWords>, m: int) -> bool {
    let set = layout_of(attrs, subs, m);
    let total = strides_upto(vbs, set.buffers@, set.buffers@.len() as int);
    &&& total <= usize::MAX
    &&& forall|k: int| 0 <= k < set.attrs@.len() ==> #[trigger] set.attrs@[k].offset + total <= usize::MAX
}

/// The attributes of submesh `m`'s layout as one interleaved buffer: each in buffer
/// slot 0, at its offset past the strides of the buffers before its own.
pub open spec fn layout_attrs(vbs: Seq<SourceVertexBuffer>, attrs: Seq<AttrSet>, subs: Seq<SubmeshWords>, m: int) -> Seq<Attr> {
    let set = layout_of(attrs, subs, m);
    Seq::new(
        set.attrs@.len(),
        |k: int|
            Attr {
                buffer: 0,
                offset: (set.attrs@[k].offset + strides_upto(vbs, set.buffers@, set.attrs@[k].buffer as int)) as usize,
                kind: set.attrs@[k].kind,
                dummy: set.attrs@[k].dummy,
                semantic: set.attrs@[k].semantic,
                layer: set.attrs@[k].layer,
            },
    )
}

proof fn lemma_strides_monotone(vbs: Seq<SourceVertexBuffer>, buffers: Seq<usize>, i: int, n: int)
    requires
        0 <= i <= n,
    ensures
        0 <= strides_upto(vbs, buffers, i) <= strides_upto(vbs, buffers, n),
    decreases n,
{
    if n > 0 && i < n {
        lemma_strides_monotone(vbs, buffers, i, n - 1);
    }
    if n > 0 && i == n {
        lemma_strides_monotone(vbs, buffers, i - 1, n - 1);
    }
}

/// The layout of submesh `mesh_index` flattened into one interleaved buffer, and that
/// buffer's stride; fails with `InvalidData` when the submesh, its layout, one of its
/// buffers or an attribute's buffer slot does not exist.
#[verifier::rlimit(40)]
pub fn source_layout(source: &Geometry<'_>, mesh_index: usize) -> (r: Result<(Vec<Attr>, usize), Error>)
    requires
        mesh_index < source.submeshes@.len() && (source.submeshes@[mesh_index as int].values@[1] as int)
            < source.attrs@.len() ==> layout_fits(
            source.vertex_buffers@,
            source.attrs@,
            source.submeshes@,
            mesh_index as int,
        ),
    ensures
        r is Ok <==> layout_ok(source.vertex_buffers@, source.attrs@, source.submeshes@, mesh_index as int),
        r matches Ok((a, stride)) ==> {
            let set = layout_of(source.attrs@, source.submeshes@, mesh_index as int);
            &&& a@ == layout_attrs(source.vertex_buffers@, source.attrs@, source.submeshes@, mesh_index as int)
            &&& stride == strides_upto(source.vertex_buffers@, set.buffers@, set.buffers@.len() as int)
        },
        r matches Err(e) ==> e.kind == ErrorKind::InvalidData,
{
    let ghost vbs = source.vertex_buffers@;
    if mesh_index >= source.submeshes.len() {
        return Err(invalid("missing submesh"));
    }
    let set_index = source.submeshes[mesh_index].values[1] as usize;
    if set_index >= source.attrs.len() {
        return Err(invalid("submesh vertex attribute set is out of range"));
    }
    let set = &source.attrs[set_index];
    assert(*set == layout_of(source.attrs@, source.submeshes@, mesh_index as int));
    let ghost total = strides_upto(vbs, set.buffers@, set.buffers@.len() as int);
    let mut bases: Vec<usize> = Vec::new();
    let mut stride: usize = 0;
    let mut i: usize = 0;
    while i < set.buffers.len()
        invariant
            vbs == source.vertex_buffers@,
            *set == layout_of(source.attrs@, source.submeshes@, mesh_index as int),
            i <= set.buffers@.len(),
            total == strides_upto(vbs, set.buffers@, set.buffers@.len() as int),
            total <= usize::MAX,
            forall|q: int| 0 <= q < set.attrs@.len() ==> #[trigger] set.attrs@[q].offset + total <= usize::MAX,
            bases@.len() == i,
            forall|j: int| 0 <= j < i ==> #[trigger] bases@[j] == strides_upto(vbs, set.buffers@, j),
            stride == strides_upto(vbs, set.buffers@, i as int),
            forall|j: int| 0 <= j < i ==> (#[trigger] set.buffers@[j] as int) < vbs.len(),
        decreases set.buffers@.len() - i,
    {
        let buffer = set.buffers[i];
        if buffer >= source.vertex_buffers.len() {
            return Err(invalid("vertex buffer is out of range"));
        }
        proof {
            lemma_strides_monotone(vbs, set.buffers@, i + 1, set.buffers@.len() as int);
        }
        bases.push(stride);
        stride = stride + source.vertex_buffers[buffer].stride;
        i = i + 1;
    }
    let mut attrs: Vec<Attr> = Vec::new();
    let mut k: usize = 0;
    while k < set.attrs.len()
        invariant
            vbs == source.vertex_buffers@,
            total == strides_upto(vbs, set.buffers@, set.buffers@.len() as int),
            total <= usize::MAX,
            forall|q: int| 0 <= q < set.attrs@.len() ==> #[trigger] set.attrs@[q].offset + total <= usize::MAX,
            bases@.len() == set.buffers@.len(),
            forall|j: int| 0 <= j < bases@.len() ==> #[trigger] bases@[j] == strides_upto(vbs, set.buffers@, j),
            k <= set.attrs@.len(),
            attrs@.len() == k,
            *set == layout_of(source.attrs@, source.submeshes@, mesh_index as int),
            forall|j: int|
                0 <= j < k ==> #[trigger] attrs@[j] == layout_attrs(vbs, source.attrs@, source.submeshes@, mesh_index as int)[j],
            forall|j: int| 0 <= j < k ==> (#[trigger] set.attrs@[j].buffer as int) < set.buffers@.len(),
        decreases set.attrs@.len() - k,
    {
        let a = set.attrs[k];
        if a.buffer >= bases.len() {
            return Err(invalid("attribute buffer slot is out of range"));
        }
        proof {
            lemma_strides_monotone(vbs, set.buffers@, a.buffer as int, set.buffers@.len() as int);
            assert(a.offset + total <= usize::MAX);
        }
        attrs.push(Attr {
            buffer: 0,
            offset: a.offset + bases[a.buffer],
            kind: a.kind,
            dummy: a.dummy,
            semantic: a.semantic,
            layer: a.layer,
        });
        k = k + 1;
    }
    proof {
        assert(attrs@ =~= layout_attrs(vbs, source.attrs@, source.submeshes@, mesh_index as int));
    }
    Ok((attrs, stride))
}

/// A G1MG section: its kind, its size with the 12-byte header, its record count (both
/// kept to their low 32 bits), and its body.
pub open spec fn section_bytes(kind: u32, count: int, body: Seq<u8>, e: Endian) -> Seq<u8> {
    encode_u32(kind, e) + encode_u32(((body.len() + 12) % 0x1_0000_0000) as u32, e) + encode_u32(
        (count % 0x1_0000_0000) as u32,
        e,
    ) + body
}

/// Frames `body` as a G1MG section of `count` records of kind `kind`.
pub fn section(kind: u32, count: usize, body: Vec<u8>, endian: Endian) -> (r: Result<Vec<u8>, Error>)
    ensures
        r matches Ok(v) && v@ == section_bytes(kind, count as int, body@, endian),
{
    let mut out: Vec<u8> = Vec::new();
    push_u32(&mut out, kind, endian);
    let low = (body.len() as u64 % 0x1_0000_0000) as u64;
    let size = ((low + 12) % 0x1_0000_0000) as u32;
    proof {
        vstd::arithmetic::div_mod::lemma_add_mod_noop(body@.len() as int, 12, 0x1_0000_0000);
        vstd::arithmetic::div_mod::lemma_mod_twice(12, 0x1_0000_0000);
    }
    push_u32(&mut out, size, endian);
    push_u32(&mut out, (count as u64 % 0x1_0000_0000) as u32, endian);
    let mut body = body;
    let ghost head = out@;
    let ghost b = body@;
    out.append(&mut body);
    assert(out@ =~= head + b);
    Ok(out)
}

/// The first submesh from `from` on whose layout word is `i`.
pub open spec fn first_mesh_for(subs: Seq<SubmeshWords>, i: int, from: int) -> Option<int>
    decreases subs.len() - from,
{
    if from < 0 || from >= subs.len() {
        None
    } else if subs[from].values@[1] as int == i {
        Some(from)
    } else {
        first_mesh_for(subs, i, from + 1)
    }
}

/// The bytes of attributes in a vertex layout record: a zero word, the offset, then
/// type, padding, semantic and layer.
pub open spec fn attrs_bytes(a: Seq<Attr>, e: Endian) -> Seq<u8>
    decreases a.len(),
{
    if a.len() == 0 {
        Seq::empty()
    } else {
        let x = a.last();
        attrs_bytes(a.drop_last(), e) + encode_u16(0, e) + encode_u16(x.offset as u16, e) + seq![
            x.kind,
            x.dummy,
            x.semantic,
            x.layer,
        ]
    }
}

/// The vertex layout record of vertex buffer `i`, from the layout of the first
/// submesh that uses it: one buffer, `i` itself, then its flattened attributes.
pub open spec fn layout_record(
    vbs: Seq<SourceVertexBuffer>,
    attrs: Seq<AttrSet>,
    subs: Seq<SubmeshWords>,
    i: int,
    e: Endian,
) -> Seq<u8> {
    let a = layout_attrs(vbs, attrs, subs, first_mesh_for(subs, i, 0)->Some_0);
    encode_u32(1, e) + encode_u32(i as u32, e) + encode_u32(a.len() as u32, e) + attrs_bytes(a, e)
}

/// The layout records of the first `n` vertex buffers.
pub open spec fn layout_records(
    vbs: Seq<SourceVertexBuffer>,
    attrs: Seq<AttrSet>,
    subs: Seq<SubmeshWords>,
    n: int,
    e: Endian,
) -> Seq<u8>
    decreases n,
{
    if n <= 0 {
        Seq::empty()
    } else {
        layout_records(vbs, attrs, subs, n - 1, e) + layout_record(vbs, attrs, subs, n - 1, e)
    }
}

/// Whether the layout of the first submesh that uses vertex buffer `i`, when it has
/// one, fits a machine word.
pub open spec fn buffer_layout_fits(vbs: Seq<SourceVertexBuffer>, attrs: Seq<AttrSet>, subs: Seq<SubmeshWords>, i: int) -> bool {
    match first_mesh_for(subs, i, 0) {
        Some(m) => (subs[m].values@[1] as int) < attrs.len() ==> layout_fits(vbs, attrs, subs, m),
        None => true,
    }
}

/// Whether every vertex buffer is used by a submesh whose layout is whole.
pub open spec fn attribute_section_ok(vbs: Seq<SourceVertexBuffer>, attrs: Seq<AttrSet>, subs: Seq<SubmeshWords>) -> bool {
    forall|i: int|
        0 <= i < vbs.len() ==> (#[trigger] first_mesh_for(subs, i, 0)) is Some && layout_ok(
            vbs,
            attrs,
            subs,
            first_mesh_for(subs, i, 0)->Some_0,
        )
}

proof fn lemma_first_mesh_for(subs: Seq<SubmeshWords>, i: int, from: int)
    ensures
        first_mesh_for(subs, i, from) matches Some(m) ==> from <= m < subs.len() && subs[m].values@[1] as int == i,
    decreases subs.len() - from,
{
    if 0 <= from < subs.len() && subs[from].values@[1] as int != i {
        lemma_first_mesh_for(subs, i, from + 1);
    }
}

/// The first submesh whose layout word is `i`.
fn first_mesh(subs: &Vec<SubmeshWords>, i: usize) -> (r: Option<usize>)
    ensures
        r is Some <==> first_mesh_for(subs@, i as int, 0) is Some,
        r matches Some(m) ==> first_mesh_for(subs@, i as int, 0) == Some(m as int),
{
    let mut m: usize = 0;
    while m < subs.len()
        invariant
            m <= subs@.len(),
            first_mesh_for(subs@, i as int, 0) == first_mesh_for(subs@, i as int, m as int),
        decreases subs@.len() - m,
    {
        if subs[m].values[1] as usize == i {
            return Some(m);
        }
        m = m + 1;
    }
    None
}

/// The vertex layout section of a rebuilt model: for each vertex buffer, the layout of
/// the first submesh that uses it, flattened into that one buffer. Fails with
/// `InvalidData` when a buffer has no submesh or such a layout is not whole.
#[verifier::rlimit(40)]
pub fn build_attribute_section(source: &Geometry<'_>, endian: Endian) -> (r: Result<Vec<u8>, Error>)
    requires
        forall|i: int|
            0 <= i < source.vertex_buffers@.len() ==> #[trigger] buffer_layout_fits(
                source.vertex_buffers@,
                source.attrs@,
                source.submeshes@,
                i,
            ),
    ensures
        r is Ok <==> attribute_section_ok(source.vertex_buffers@, source.attrs@, source.submeshes@),
        r matches Ok(v) ==> v@ == section_bytes(
            0x0001_0005,
            source.vertex_buffers@.len() as int,
            layout_records(
                source.vertex_buffers@,
                source.attrs@,
                source.submeshes@,
                source.vertex_buffers@.len() as int,
                endian,
            ),
            endian,
        ),
        r matches Err(e) ==> e.kind == ErrorKind::InvalidData,
{
    let ghost vbs = source.vertex_buffers@;
    let ghost sets = source.attrs@;
    let ghost subs = source.submeshes@;
    let mut body: Vec<u8> = Vec::new();
    let mut i: usize = 0;
    while i < source.vertex_buffers.len()
        invariant
            vbs == source.vertex_buffers@,
            sets == source.attrs@,
            subs == source.submeshes@,
            i <= vbs.len(),
            forall|j: int| 0 <= j < vbs.len() ==> #[trigger] buffer_layout_fits(vbs, sets, subs, j),
            forall|j: int|
                0 <= j < i ==> (#[trigger] first_mesh_for(subs, j, 0)) is Some && layout_ok(
                    vbs,
                    sets,
                    subs,
                    first_mesh_for(subs, j, 0)->Some_0,
                ),
            body@ == layout_records(vbs, sets, subs, i as int, endian),
        decreases vbs.len() - i,
    {
        let mesh_index = match first_mesh(&source.submeshes, i) {
            Some(m) => m,
            None => return Err(invalid("vertex buffer has no submesh")),
        };
        proof {
            lemma_first_mesh_for(subs, i as int, 0);
            assert(buffer_layout_fits(vbs, sets, subs, i as int));
        }
        let (attrs, _) = source_layout(source, mesh_index)?;
        let ghost before = body@;
        push_u32(&mut body, 1, endian);
        push_u32(&mut body, i as u32, endian);
        push_u32(&mut body, attrs.len() as u32, endian);
        let ghost head = body@;
        let mut k: usize = 0;
        while k < attrs.len()
            invariant
                k <= attrs@.len(),
                body@ == head + attrs_bytes(attrs@.take(k as int), endian),
            decreases attrs@.len() - k,
        {
            let a = attrs[k];
            push_u16(&mut body, 0, endian);
            push_u16(&mut body, a.offset as u16, endian);
            body.push(a.kind);
            body.push(a.dummy);
            body.push(a.semantic);
            body.push(a.layer);
            proof {
                assert(attrs@.take(k + 1).drop_last() =~= attrs@.take(k as int));
                assert(body@ =~= head + attrs_bytes(attrs@.take(k + 1), endian));
            }
            k = k + 1;
        }
        proof {
            assert(attrs@.take(attrs@.len() as int) =~= attrs@);
            assert(body@ =~= before + layout_record(vbs, sets, subs, i as int, endian));
        }
        i = i + 1;
    }
    section(0x0001_0005, source.vertex_buffers.len(), body, endian)
}

/// The record count of the first section of kind `kind` from `from` on, or 0.
pub open spec fn count_of(secs: Seq<(u32, int, int)>, kind: u32, from: int) -> u32
    decreases secs.len() - from,
{
    if from < 0 || from >= secs.len() {
        0
    } else if secs[from].0 == kind {
        (secs[from].1 % 0x1_0000_0000) as u32
    } else {
        count_of(secs, kind, from + 1)
    }
}

/// The sum of the words at the record starts `starts`: the buffer counts of vertex
/// layouts, or the joint counts of bone palettes.
pub open spec fn first_words(b: Seq<u8>, e: Endian, starts: Seq<int>) -> int
    decreases starts.len(),
{
    if starts.len() == 0 {
        0
    } else {
        first_words(b, e, starts.drop_last()) + r32(b, e, starts.last())
    }
}

/// The record starts of the sections of a readable G1MG chunk.
pub open spec fn chunk_sections(b: Seq<u8>, e: Endian) -> Seq<int> {
    walk(48, r32(b, e, 44) as nat, source_section_step(b, e, u32_at(b, 4, e)))->Some_0.0
}

/// The seventeen counters of a G1MF chunk rebuilt for the geometry `nb`: the counts
/// of its sections by kind, the total buffers of its vertex layouts and joints of its
/// bone palettes, with the five counters that describe other data kept from `old`.
pub open spec fn g1mf_fields(old: Seq<u8>, nb: Seq<u8>, e: Endian) -> Seq<u32> {
    let v = source_view(nb, e, u32_at(nb, 4, e), chunk_sections(nb, e));
    seq![
        count_of(v.0, 0x0001_0001, 0),
        count_of(v.0, 0x0001_0002, 0),
        count_of(v.0, 0x0001_0003, 0),
        u32_at(old, 40, e),
        u32_at(old, 44, e),
        u32_at(old, 48, e),
        count_of(v.0, 0x0001_0004, 0),
        count_of(v.0, 0x0001_0005, 0),
        first_words(nb, e, v.2) as u32,
        count_of(v.0, 0x0001_0006, 0),
        first_words(nb, e, v.3) as u32,
        count_of(v.0, 0x0001_0007, 0),
        count_of(v.0, 0x0001_0008, 0),
        count_of(v.0, 0x0001_0008, 0),
        count_of(v.0, 0x0001_0009, 0),
        u32_at(old, 88, e),
        u32_at(old, 92, e),
    ]
}

/// `old` with the counters from 28 to 96 replaced by `fields` and its own length put
/// at 8.
pub open spec fn g1mf_rebuilt(old: Seq<u8>, fields: Seq<u32>, e: Endian) -> Seq<u8> {
    Seq::new(
        old.len(),
        |j: int|
            if 28 <= j < 96 {
                encode_u32(fields[(j - 28) / 4], e)[(j - 28) % 4]
            } else if 8 <= j < 12 {
                encode_u32((old.len() % 0x1_0000_0000) as u32, e)[j - 8]
            } else {
                old[j]
            },
    )
}

/// The word at `p`, which lies in the input.
fn word_at(reader: &BinaryReader, p: usize) -> (r: u32)
    requires
        p + 4 <= reader.bytes().len(),
    ensures
        r == u32_at(reader.bytes(), p as int, reader.order()),
{
    match reader.read_u32_at(p) {
        Ok(v) => v,
        Err(_) => 0,
    }
}

/// The record count of the first section of kind `kind`, or 0.
fn section_count(sections: &Vec<Section<'_>>, kind: u32, Ghost(secs): Ghost<Seq<(u32, int, int)>>) -> (r: u32)
    requires
        sections@.len() == secs.len(),
        forall|k: int|
            0 <= k < secs.len() ==> (#[trigger] sections@[k]).kind == secs[k].0 && sections@[k].count
                == secs[k].1,
    ensures
        r == count_of(secs, kind, 0),
{
    let mut k: usize = 0;
    while k < sections.len()
        invariant
            k <= sections@.len(),
            sections@.len() == secs.len(),
            forall|j: int|
                0 <= j < secs.len() ==> (#[trigger] sections@[j]).kind == secs[j].0 && sections@[j].count
                    == secs[j].1,
            count_of(secs, kind, 0) == count_of(secs, kind, k as int),
        decreases sections@.len() - k,
    {
        if sections[k].kind == kind {
            return (sections[k].count as u64 % 0x1_0000_0000) as u32;
        }
        k = k + 1;
    }
    0
}

/// Whether the vertex layout buffers and bone palette joints of the chunk `nb`, each
/// summed, fit 32 bits.
pub open spec fn g1mf_totals_fit(nb: Seq<u8>, e: Endian) -> bool {
    let v = source_view(nb, e, u32_at(nb, 4, e), chunk_sections(nb, e));
    first_words(nb, e, v.2) <= u32::MAX && first_words(nb, e, v.3) <= u32::MAX
}

/// The G1MF chunk of a model whose geometry is replaced by `new_geometry`: the old
/// chunk with its geometry counters recomputed. Without an old chunk there is none.
/// Fails when the old chunk is shorter than its 96-byte header or the new geometry
/// cannot be read.
#[verifier::rlimit(40)]
pub fn rebuild_g1mf(old: Option<&[u8]>, old_geometry: &Geometry<'_>, new_geometry: &[u8], endian: Endian) -> (r: Result<
    Vec<u8>,
    Error,
>)
    requires
        source_geometry_ok(new_geometry@, endian) ==> g1mf_totals_fit(new_geometry@, endian),
    ensures
        old is None ==> (r matches Ok(v) && v@.len() == 0),
        old matches Some(o) ==> (r is Ok <==> o@.len() >= 96 && source_geometry_ok(new_geometry@, endian)),
        old matches Some(o) ==> (r matches Ok(v) ==> v@ == g1mf_rebuilt(o@, g1mf_fields(o@, new_geometry@, endian), endian)),
{
    let old = match old {
        Some(o) => o,
        None => return Ok(Vec::new()),
    };
    if old.len() < 96 {
        return Err(eof("G1MF chunk is truncated"));
    }
    let new = parse_geometry(new_geometry, endian)?;
    let ghost nb = new_geometry@;
    let ghost version = u32_at(nb, 4, endian);
    let ghost v = source_view(nb, endian, version, chunk_sections(nb, endian));
    let ghost secs = v.0;
    assert forall|k: int| 0 <= k < secs.len() implies (#[trigger] new.sections@[k]).kind == secs[k].0
        && new.sections@[k].count == secs[k].1 by {
        let x = new.sections@[k];
    }
    let reader = BinaryReader::with_endian(old, endian);
    let mut attr_total: u32 = 0;
    let mut i: usize = 0;
    while i < new.attrs.len()
        invariant
            i <= new.attrs@.len(),
            new.attrs@.len() == v.2.len(),
            forall|k: int| 0 <= k < v.2.len() ==> crate::aoc::g1m::source::attr_set_is(nb, endian, v.2[k], #[trigger] new.attrs@[k]),
            first_words(nb, endian, v.2) <= u32::MAX,
            attr_total == first_words(nb, endian, v.2.take(i as int)),
        decreases new.attrs@.len() - i,
    {
        proof {
            assert(v.2.take(i + 1).drop_last() =~= v.2.take(i as int));
            assert(crate::aoc::g1m::source::attr_set_is(nb, endian, v.2[i as int], new.attrs@[i as int]));
            lemma_first_words_prefix(nb, endian, v.2, i + 1);
        }
        attr_total = attr_total + new.attrs[i].buffers.len() as u32;
        i = i + 1;
    }
    let mut palette_total: u32 = 0;
    let mut i: usize = 0;
    while i < new.palettes.len()
        invariant
            i <= new.palettes@.len(),
            new.palettes@.len() == v.3.len(),
            forall|k: int| 0 <= k < v.3.len() ==> crate::aoc::g1m::source::palette_is(nb, endian, v.3[k], #[trigger] new.palettes@[k]),
            first_words(nb, endian, v.3) <= u32::MAX,
            palette_total == first_words(nb, endian, v.3.take(i as int)),
        decreases new.palettes@.len() - i,
    {
        proof {
            assert(v.3.take(i + 1).drop_last() =~= v.3.take(i as int));
            assert(crate::aoc::g1m::source::palette_is(nb, endian, v.3[i as int], new.palettes@[i as int]));
            lemma_first_words_prefix(nb, endian, v.3, i + 1);
        }
        palette_total = palette_total + new.palettes[i].raw.len() as u32;
        i = i + 1;
    }
    proof {
        assert(v.2.take(v.2.len() as int) =~= v.2);
        assert(v.3.take(v.3.len() as int) =~= v.3);
    }
    let fields: [u32; 17] = [
        section_count(&new.sections, 0x0001_0001, Ghost(secs)),
        section_count(&new.sections, 0x0001_0002, Ghost(secs)),
        section_count(&new.sections, 0x0001_0003, Ghost(secs)),
        word_at(&reader, 40),
        word_at(&reader, 44),
        word_at(&reader, 48),
        section_count(&new.sections, 0x0001_0004, Ghost(secs)),
        section_count(&new.sections, 0x0001_0005, Ghost(secs)),
        attr_total,
        section_count(&new.sections, 0x0001_0006, Ghost(secs)),
        palette_total,
        section_count(&new.sections, 0x0001_0007, Ghost(secs)),
        section_count(&new.sections, 0x0001_0008, Ghost(secs)),
        section_count(&new.sections, 0x0001_0008, Ghost(secs)),
        section_count(&new.sections, 0x0001_0009, Ghost(secs)),
        word_at(&reader, 88),
        word_at(&reader, 92),
    ];
    let ghost f = g1mf_fields(old@, nb, endian);
    assert(fields@ =~= f);
    let mut out: Vec<u8> = Vec::new();
    let mut k: usize = 0;
    while k < old.len()
        invariant
            k <= old@.len(),
            out@ =~= old@.subrange(0, k as int),
        decreases old@.len() - k,
    {
        out.push(old[k]);
        k = k + 1;
    }
    let mut i: usize = 0;
    while i < 17
        invariant
            i <= 17,
            old@.len() >= 96,
            fields@ == f,
            out@.len() == old@.len(),
            forall|j: int|
                0 <= j < old@.len() ==> #[trigger] out@[j] == if 28 <= j < 28 + 4 * i {
                    encode_u32(f[(j - 28) / 4], endian)[(j - 28) % 4]
                } else {
                    old@[j]
                },
        decreases 17 - i,
    {
        let ghost before = out@;
        let _ = put_u32(&mut out, 28 + i * 4, fields[i], endian);
        proof {
            assert forall|j: int| 0 <= j < old@.len() implies #[trigger] out@[j] == if 28 <= j < 28 + 4 * (i + 1) {
                encode_u32(f[(j - 28) / 4], endian)[(j - 28) % 4]
            } else {
                old@[j]
            } by {
                if 28 + 4 * i <= j < 28 + 4 * (i + 1) {
                    assert((j - 28) / 4 == i);
                    assert((j - 28) % 4 == j - 28 - 4 * i);
                } else if j < 28 + 4 * i && 28 <= j {
                    assert(out@[j] == before[j]);
                } else {
                    assert(out@[j] == before[j]);
                }
            }
        }
        i = i + 1;
    }
    let ghost before = out@;
    let n = (out.len() as u64 % 0x1_0000_0000) as u32;
    let _ = put_u32(&mut out, 8, n, endian);
    assert(out@ =~= g1mf_rebuilt(old@, f, endian));
    Ok(out)
}

proof fn lemma_first_words_prefix(b: Seq<u8>, e: Endian, starts: Seq<int>, n: int)
    requires
        0 <= n <= starts.len(),
    ensures
        0 <= first_words(b, e, starts.take(n)) <= first_words(b, e, starts),
    decreases starts.len(),
{
    lemma_first_words_nonneg(b, e, starts.take(n));
    if n < starts.len() {
        assert(starts.drop_last().take(n) =~= starts.take(n));
        lemma_first_words_prefix(b, e, starts.drop_last(), n);
    } else {
        assert(starts.take(n) =~= starts);
    }
}

proof fn lemma_first_words_nonneg(b: Seq<u8>, e: Endian, starts: Seq<int>)
    ensures
        first_words(b, e, starts) >= 0,
    decreases starts.len(),
{
    if starts.len() > 0 {
        lemma_first_words_nonneg(b, e, starts.drop_last());
    }
}

} // verus!
