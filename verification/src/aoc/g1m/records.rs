use vstd::prelude::*;
use vstd::string::StringExecFns;
use crate::aoc::g1m::textures::{classify_texture, texture_class};
use crate::binary::{u16_at, u32_at, BinaryReader, Endian};
use crate::error::{eof, invalid, Error, ErrorKind};
use crate::fmt::{decimal, push_decimal};

verus! {

/// The 32-bit value at `p`.
pub open spec fn r32(b: Seq<u8>, e: Endian, p: int) -> int {
    u32_at(b, p, e) as int
}

/// The 16-bit value at `p`.
pub open spec fn r16(b: Seq<u8>, e: Endian, p: int) -> int {
    u16_at(b, p, e) as int
}

/// Whether a G1MG chunk of this version has the longer buffer headers.
pub open spec fn extended(version: u32) -> bool {
    version > 0x3030_3430
}

/// A texture slot of a material.
#[derive(Clone, Debug)]
pub struct G1mTextureSlot {
    pub index: usize,
    pub name: String,
    pub uv_layer: u16,
    pub sampler: String,
    pub texture_type: String,
}

/// A material: its name, the offset of the section that holds it and its slots.
#[derive(Clone, Debug)]
pub struct G1mMaterial {
    pub name: String,
    pub offset: u64,
    pub texture_slots: Vec<G1mTextureSlot>,
}

/// Where the material record at `p` ends: a 16-byte header whose word at 4 counts
/// the 12-byte slots that follow.
pub open spec fn material_next(b: Seq<u8>, e: Endian, p: int) -> Option<int> {
    if p < 0 || p + 16 > b.len() || p + 16 + 12 * r32(b, e, p + 4) > b.len() {
        None
    } else {
        Some(p + 16 + 12 * r32(b, e, p + 4))
    }
}

impl G1mTextureSlot {
    /// Whether this is slot `j`, read from the slot record at `q`: its name is the
    /// decimal texture id, then come the UV layer and the class of its kind and subtype.
    pub open spec fn read_from(&self, b: Seq<u8>, e: Endian, q: int, j: int) -> bool {
        let class = texture_class(u16_at(b, q + 4, e), u16_at(b, q + 6, e));
        &&& self.index == j
        &&& self.name@ == decimal(r16(b, e, q) as nat)
        &&& self.uv_layer == r16(b, e, q + 2)
        &&& self.sampler@ == class.0
        &&& self.texture_type@ == class.1
    }
}

impl G1mMaterial {
    /// Whether this is material `index` of the section at `section`, read from the
    /// record at `p`.
    pub open spec fn read_from(&self, b: Seq<u8>, e: Endian, p: int, index: int, section: int) -> bool {
        &&& self.name@ == "Material "@ + decimal(index as nat)
        &&& self.offset == section
        &&& self.texture_slots@.len() == r32(b, e, p + 4)
        &&& forall|j: int|
            #![trigger self.texture_slots@[j]]
            0 <= j < self.texture_slots@.len() ==> self.texture_slots@[j].read_from(
                b,
                e,
                p + 16 + 12 * j,
                j,
            )
    }
}

/// Reads the material record at `p` as material `index` of the section at `section`;
/// fails with `UnexpectedEof` when it does not fit.
pub fn read_material(reader: &BinaryReader, p: usize, index: usize, section: usize) -> (r: Result<
    (G1mMaterial, usize),
    Error,
>)
    requires
        reader.wf(),
    ensures
        r is Ok <==> material_next(reader.bytes(), reader.order(), p as int) is Some,
        r matches Ok((m, q)) ==> material_next(reader.bytes(), reader.order(), p as int) == Some(
            q as int,
        ) && m.read_from(reader.bytes(), reader.order(), p as int, index as int, section as int),
        r matches Err(e) ==> e.kind == ErrorKind::UnexpectedEof,
{
    let ghost b = reader.bytes();
    let ghost e = reader.order();
    let len = reader.len();
    if p > len || len - p < 16 {
        return Err(eof("G1M material record is truncated"));
    }
    let count = reader.read_u32_at(p + 4)? as usize;
    assert(count == r32(b, e, p + 4));
    if count > (len - p - 16) / 12 {
        return Err(eof("G1M material slots are truncated"));
    }
    let mut slots: Vec<G1mTextureSlot> = Vec::new();
    let mut j: usize = 0;
    while j < count
        invariant
            reader.wf(),
            b == reader.bytes(),
            e == reader.order(),
            len == b.len(),
            j <= count,
            count == r32(b, e, p + 4),
            p + 16 + 12 * count <= len,
            slots@.len() == j,
            forall|k: int|
                #![trigger slots@[k]]
                0 <= k < j ==> slots@[k].read_from(b, e, p + 16 + 12 * k, k),
        decreases count - j,
    {
        let q = p + 16 + 12 * j;
        let id = reader.read_u16_at(q)?;
        let layer = reader.read_u16_at(q + 2)?;
        let kind = reader.read_u16_at(q + 4)?;
        let subtype = reader.read_u16_at(q + 6)?;
        let (sampler, classification) = classify_texture(kind, subtype);
        let mut name = String::new();
        push_decimal(&mut name, id as u64);
        assert(name@ =~= decimal(id as nat));
        slots.push(G1mTextureSlot { index: j, name, uv_layer: layer, sampler, texture_type: classification });
        j = j + 1;
    }
    let mut name = String::from_str("Material ");
    push_decimal(&mut name, index as u64);
    Ok((G1mMaterial { name, offset: section as u64, texture_slots: slots }, p + 16 + 12 * count))
}

/// A vertex buffer: where its vertices start in the file, the bytes per vertex and
/// the vertex count.
#[derive(Clone, Copy, Debug, PartialEq, Eq, Structural)]
pub struct VertexBuffer {
    pub offset: usize,
    pub stride: usize,
    pub count: usize,
}

/// The header length of a vertex or index buffer record.
pub open spec fn buffer_header(version: u32, base: int) -> int {
    if extended(version) {
        base + 4
    } else {
        base
    }
}

/// Where the vertex buffer record at `p` ends: its header, then stride times count bytes.
pub open spec fn vertex_buffer_next(b: Seq<u8>, e: Endian, version: u32, p: int) -> Option<int> {
    let h = p + buffer_header(version, 12);
    if p < 0 || h > b.len() || h + r32(b, e, p + 4) * r32(b, e, p + 8) > b.len() {
        None
    } else {
        Some(h + r32(b, e, p + 4) * r32(b, e, p + 8))
    }
}

/// The vertex buffer the record at `p` of a chunk at `file_offset` describes.
pub open spec fn vertex_buffer_at(b: Seq<u8>, e: Endian, version: u32, file_offset: int, p: int) -> VertexBuffer {
    VertexBuffer {
        offset: (file_offset + p + buffer_header(version, 12)) as usize,
        stride: r32(b, e, p + 4) as usize,
        count: r32(b, e, p + 8) as usize,
    }
}

/// Reads the vertex buffer record at `p` of a chunk found at `file_offset`.
pub fn read_vertex_buffer(reader: &BinaryReader, version: u32, file_offset: usize, p: usize) -> (r: Result<(VertexBuffer, usize), Error>)
    requires
        reader.wf(),
        file_offset + reader.bytes().len() <= usize::MAX,
    ensures
        r is Ok <==> vertex_buffer_next(reader.bytes(), reader.order(), version, p as int) is Some,
        r matches Ok((v, q)) ==> vertex_buffer_next(reader.bytes(), reader.order(), version, p as int) == Some(q as int)
            && v == vertex_buffer_at(reader.bytes(), reader.order(), version, file_offset as int, p as int),
        r matches Err(e) ==> e.kind == ErrorKind::UnexpectedEof || e.kind == ErrorKind::InvalidData,
{
    let len = reader.len();
    let header: usize = if version > 0x3030_3430 {
        16
    } else {
        12
    };
    if p > len || len - p < header {
        return Err(eof("G1M vertex buffer record is truncated"));
    }
    let stride = reader.read_u32_at(p + 4)? as usize;
    let count = reader.read_u32_at(p + 8)? as usize;
    let h = p + header;
    let size = match stride.checked_mul(count) {
        Some(v) => v,
        None => return Err(invalid("vertex buffer overflow")),
    };
    if size > len - h {
        return Err(eof("G1M vertex buffer is truncated"));
    }
    Ok((VertexBuffer { offset: file_offset + h, stride, count }, h + size))
}

/// One vertex attribute: its buffer, offset in the vertex, data type, semantic and layer.
#[derive(Clone, Copy, Debug, PartialEq, Eq, Structural)]
pub struct Attribute {
    pub buffer: usize,
    pub offset: usize,
    pub data_type: u8,
    pub semantic: u8,
    pub layer: u8,
}

/// The vertex buffers and attributes of one vertex layout.
#[derive(Clone, Debug)]
pub struct AttributeSet {
    pub buffers: Vec<usize>,
    pub attributes: Vec<Attribute>,
}

/// Where the attribute count of the layout record at `p` lies: after its buffer list.
pub open spec fn attributes_count_at(b: Seq<u8>, e: Endian, p: int) -> int {
    p + 4 + 4 * r32(b, e, p)
}

/// Where the layout record at `p` ends: a counted list of buffer indices, then a
/// counted list of 8-byte attributes.
pub open spec fn attribute_set_next(b: Seq<u8>, e: Endian, p: int) -> Option<int> {
    let a = attributes_count_at(b, e, p);
    if p < 0 || p + 4 > b.len() || a + 4 > b.len() || a + 4 + 8 * r32(b, e, a) > b.len() {
        None
    } else {
        Some(a + 4 + 8 * r32(b, e, a))
    }
}

/// The attribute described at `q`.
pub open spec fn attribute_at(b: Seq<u8>, e: Endian, q: int) -> Attribute {
    Attribute {
        buffer: r16(b, e, q) as usize,
        offset: r16(b, e, q + 2) as usize,
        data_type: b[q + 4],
        semantic: b[q + 6],
        layer: b[q + 7],
    }
}

impl AttributeSet {
    /// Whether this is the layout the record at `p` describes.
    pub open spec fn read_from(&self, b: Seq<u8>, e: Endian, p: int) -> bool {
        let a = attributes_count_at(b, e, p);
        &&& self.buffers@ == Seq::new(r32(b, e, p) as nat, |k: int| r32(b, e, p + 4 + 4 * k) as usize)
        &&& self.attributes@ == Seq::new(r32(b, e, a) as nat, |k: int| attribute_at(b, e, a + 4 + 8 * k))
    }
}

/// Reads the vertex layout record at `p`.
pub fn read_attribute_set(reader: &BinaryReader, p: usize) -> (r: Result<(AttributeSet, usize), Error>)
    requires
        reader.wf(),
    ensures
        r is Ok <==> attribute_set_next(reader.bytes(), reader.order(), p as int) is Some,
        r matches Ok((s, q)) ==> attribute_set_next(reader.bytes(), reader.order(), p as int) == Some(q as int)
            && s.read_from(reader.bytes(), reader.order(), p as int),
        r matches Err(e) ==> e.kind == ErrorKind::UnexpectedEof,
{
    let ghost b = reader.bytes();
    let ghost e = reader.order();
    let len = reader.len();
    if p > len || len - p < 4 {
        return Err(eof("G1M vertex layout is truncated"));
    }
    let list_count = reader.read_u32_at(p)? as usize;
    if list_count > (len - p - 4) / 4 {
        return Err(eof("G1M vertex layout is truncated"));
    }
    let mut buffers: Vec<usize> = Vec::new();
    let mut k: usize = 0;
    while k < list_count
        invariant
            reader.wf(),
            b == reader.bytes(),
            e == reader.order(),
            len == b.len(),
            k <= list_count,
            list_count == r32(b, e, p as int),
            p + 4 + 4 * list_count <= len,
            buffers@ =~= Seq::new(k as nat, |i: int| r32(b, e, p + 4 + 4 * i) as usize),
        decreases list_count - k,
    {
        let v = reader.read_u32_at(p + 4 + 4 * k)? as usize;
        buffers.push(v);
        k = k + 1;
    }
    let a = p + 4 + 4 * list_count;
    if len - a < 4 {
        return Err(eof("G1M vertex layout is truncated"));
    }
    let attr_count = reader.read_u32_at(a)? as usize;
    if attr_count > (len - a - 4) / 8 {
        return Err(eof("G1M vertex attributes are truncated"));
    }
    let mut attributes: Vec<Attribute> = Vec::new();
    let mut k: usize = 0;
    while k < attr_count
        invariant
            reader.wf(),
            b == reader.bytes(),
            e == reader.order(),
            len == b.len(),
            k <= attr_count,
            a == attributes_count_at(b, e, p as int),
            attr_count == r32(b, e, a as int),
            a + 4 + 8 * attr_count <= len,
            attributes@ =~= Seq::new(k as nat, |i: int| attribute_at(b, e, a + 4 + 8 * i)),
        decreases attr_count - k,
    {
        let q = a + 4 + 8 * k;
        let buffer = reader.read_u16_at(q)? as usize;
        let offset = reader.read_u16_at(q + 2)? as usize;
        let data_type = reader.read_u8_at(q + 4)?;
        let semantic = reader.read_u8_at(q + 6)?;
        let layer = reader.read_u8_at(q + 7)?;
        attributes.push(Attribute { buffer, offset, data_type, semantic, layer });
        k = k + 1;
    }
    Ok((AttributeSet { buffers, attributes }, a + 4 + 8 * attr_count))
}

/// Where the bone palette record at `p` ends: a count, then 12-byte joints.
pub open spec fn palette_next(b: Seq<u8>, e: Endian, p: int) -> Option<int> {
    if p < 0 || p + 4 > b.len() || p + 4 + 12 * r32(b, e, p) > b.len() {
        None
    } else {
        Some(p + 4 + 12 * r32(b, e, p))
    }
}

/// The bone indices of the palette record at `p`: the last word of each joint, top bit
/// cleared.
pub open spec fn palette_at(b: Seq<u8>, e: Endian, p: int) -> Seq<u32> {
    Seq::new(r32(b, e, p) as nat, |k: int| u32_at(b, p + 4 + 12 * k + 8, e) & 0x7fff_ffffu32)
}

/// Reads the bone palette record at `p`.
pub fn read_palette(reader: &BinaryReader, p: usize) -> (r: Result<(Vec<u32>, usize), Error>)
    requires
        reader.wf(),
    ensures
        r is Ok <==> palette_next(reader.bytes(), reader.order(), p as int) is Some,
        r matches Ok((v, q)) ==> palette_next(reader.bytes(), reader.order(), p as int) == Some(q as int)
            && v@ == palette_at(reader.bytes(), reader.order(), p as int),
        r matches Err(e) ==> e.kind == ErrorKind::UnexpectedEof,
{
    let ghost b = reader.bytes();
    let ghost e = reader.order();
    let len = reader.len();
    if p > len || len - p < 4 {
        return Err(eof("G1M bone palette is truncated"));
    }
    let count = reader.read_u32_at(p)? as usize;
    if count > (len - p - 4) / 12 {
        return Err(eof("G1M bone palette is truncated"));
    }
    let mut palette: Vec<u32> = Vec::new();
    let mut k: usize = 0;
    while k < count
        invariant
            reader.wf(),
            b == reader.bytes(),
            e == reader.order(),
            len == b.len(),
            k <= count,
            count == r32(b, e, p as int),
            p + 4 + 12 * count <= len,
            palette@ =~= Seq::new(k as nat, |i: int| u32_at(b, p + 4 + 12 * i + 8, e) & 0x7fff_ffffu32),
        decreases count - k,
    {
        let v = reader.read_u32_at(p + 4 + 12 * k + 8)?;
        palette.push(v & 0x7fff_ffff);
        k = k + 1;
    }
    Ok((palette, p + 4 + 12 * count))
}

/// An index buffer: where its indices start in the file, their count and their width.
#[derive(Clone, Copy, Debug, PartialEq, Eq, Structural)]
pub struct IndexBuffer {
    pub offset: usize,
    pub count: usize,
    pub stride: usize,
}

/// `v` rounded up to a multiple of four.
pub open spec fn align4(v: int) -> int {
    if v % 4 == 0 {
        v
    } else {
        v + (4 - v % 4)
    }
}

/// Where the index buffer record at `p` ends: its header, the indices, and padding to
/// a multiple of four.
pub open spec fn index_buffer_next(b: Seq<u8>, e: Endian, version: u32, p: int) -> Option<int> {
    let h = p + buffer_header(version, 8);
    let end = h + (r32(b, e, p + 4) / 8) * r32(b, e, p);
    if p < 0 || h > b.len() || end > b.len() || align4(end) > b.len() {
        None
    } else {
        Some(align4(end))
    }
}

/// The index buffer the record at `p` of a chunk at `file_offset` describes.
pub open spec fn index_buffer_at(b: Seq<u8>, e: Endian, version: u32, file_offset: int, p: int) -> IndexBuffer {
    IndexBuffer {
        offset: (file_offset + p + buffer_header(version, 8)) as usize,
        count: r32(b, e, p) as usize,
        stride: (r32(b, e, p + 4) / 8) as usize,
    }
}

/// Reads the index buffer record at `p` of a chunk found at `file_offset`.
pub fn read_index_buffer(reader: &BinaryReader, version: u32, file_offset: usize, p: usize) -> (r: Result<(IndexBuffer, usize), Error>)
    requires
        reader.wf(),
        file_offset + reader.bytes().len() <= usize::MAX,
    ensures
        r is Ok <==> index_buffer_next(reader.bytes(), reader.order(), version, p as int) is Some,
        r matches Ok((v, q)) ==> index_buffer_next(reader.bytes(), reader.order(), version, p as int) == Some(q as int)
            && v == index_buffer_at(reader.bytes(), reader.order(), version, file_offset as int, p as int),
        r matches Err(e) ==> e.kind == ErrorKind::UnexpectedEof || e.kind == ErrorKind::InvalidData,
{
    let len = reader.len();
    let header: usize = if version > 0x3030_3430 {
        12
    } else {
        8
    };
    if p > len || len - p < header {
        return Err(eof("G1M index buffer record is truncated"));
    }
    let count = reader.read_u32_at(p)? as usize;
    let bits = reader.read_u32_at(p + 4)? as usize;
    let stride = bits / 8;
    let h = p + header;
    let size = match stride.checked_mul(count) {
        Some(v) => v,
        None => return Err(invalid("index buffer overflow")),
    };
    if size > len - h {
        return Err(eof("G1M index buffer is truncated"));
    }
    let end = h + size;
    let rem = end % 4;
    let padding = if rem == 0 {
        0
    } else {
        4 - rem
    };
    if padding > len - end {
        return Err(eof("G1M index buffer padding is truncated"));
    }
    Ok((IndexBuffer { offset: file_offset + h, count, stride }, end + padding))
}

/// One submesh: its vertex buffer, bone palette, bone, material, index buffer,
/// primitive kind and index range.
#[derive(Clone, Copy, Debug, PartialEq, Eq, Structural)]
pub struct Submesh {
    pub vertex_buffer: usize,
    pub bone_palette: usize,
    pub bone_index: u32,
    pub material: u32,
    pub index_buffer: usize,
    pub primitive: u32,
    pub index_offset: usize,
    pub index_count: usize,
}

/// Where the submesh record at `p` ends: fourteen words.
pub open spec fn submesh_next(b: Seq<u8>, p: int) -> Option<int> {
    if p < 0 || p + 56 > b.len() {
        None
    } else {
        Some(p + 56)
    }
}

/// The submesh the record at `p` describes: words 1, 2, 3, 6, 7, 9, 12 and 13.
pub open spec fn submesh_at(b: Seq<u8>, e: Endian, p: int) -> Submesh {
    Submesh {
        vertex_buffer: r32(b, e, p + 4) as usize,
        bone_palette: r32(b, e, p + 8) as usize,
        bone_index: u32_at(b, p + 12, e),
        material: u32_at(b, p + 24, e),
        index_buffer: r32(b, e, p + 28) as usize,
        primitive: u32_at(b, p + 36, e),
        index_offset: r32(b, e, p + 48) as usize,
        index_count: r32(b, e, p + 52) as usize,
    }
}

/// Reads the submesh record at `p`.
pub fn read_submesh(reader: &BinaryReader, p: usize) -> (r: Result<(Submesh, usize), Error>)
    requires
        reader.wf(),
    ensures
        r is Ok <==> submesh_next(reader.bytes(), p as int) is Some,
        r matches Ok((s, q)) ==> submesh_next(reader.bytes(), p as int) == Some(q as int) && s
            == submesh_at(reader.bytes(), reader.order(), p as int),
        r matches Err(e) ==> e.kind == ErrorKind::UnexpectedEof,
{
    let len = reader.len();
    if p > len || len - p < 56 {
        return Err(eof("G1M submesh record is truncated"));
    }
    let s = Submesh {
        vertex_buffer: reader.read_u32_at(p + 4)? as usize,
        bone_palette: reader.read_u32_at(p + 8)? as usize,
        bone_index: reader.read_u32_at(p + 12)?,
        material: reader.read_u32_at(p + 24)?,
        index_buffer: reader.read_u32_at(p + 28)? as usize,
        primitive: reader.read_u32_at(p + 36)?,
        index_offset: reader.read_u32_at(p + 48)? as usize,
        index_count: reader.read_u32_at(p + 52)? as usize,
    };
    Ok((s, p + 56))
}

} // verus!
