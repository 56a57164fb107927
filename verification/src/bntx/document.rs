use vstd::prelude::*;
use crate::binary as bin;
use crate::binary::{BinaryReader, Endian};
use crate::bntx::error::BntxError;
use crate::bntx::texture::BntxTexture;
use crate::text::{string_from_utf8_lossy, utf8_lossy};

verus! {

/// The little-endian 16-bit value at `o`.
pub open spec fn le16(b: Seq<u8>, o: int) -> int {
    bin::u16_at(b, o, Endian::Little) as int
}

/// The little-endian 32-bit value at `o`.
pub open spec fn le32(b: Seq<u8>, o: int) -> int {
    bin::u32_at(b, o, Endian::Little) as int
}

/// The little-endian 64-bit value at `o`.
pub open spec fn le64(b: Seq<u8>, o: int) -> int {
    bin::u64_at(b, o, Endian::Little) as int
}

/// The magic of a BNTX file, `BNTX`.
pub open spec fn bntx_magic() -> Seq<u8> {
    seq![0x42u8, 0x4eu8, 0x54u8, 0x58u8]
}

/// The magic of a texture descriptor, `BRTI`.
pub open spec fn brti_magic() -> Seq<u8> {
    seq![0x42u8, 0x52u8, 0x54u8, 0x49u8]
}

/// The number of data pointers of the descriptor at `p`: one per mip level and
/// array layer, an array length of zero counting as one.
pub open spec fn mip_pointer_count(b: Seq<u8>, p: int) -> int {
    le16(b, p + 0x16) * (if le32(b, p + 0x30) == 0 {
        1
    } else {
        le32(b, p + 0x30)
    })
}

/// Where reading the texture descriptor at `p` fails, if it does.
pub open spec fn texture_error(b: Seq<u8>, p: int) -> Option<usize> {
    let n = le64(b, p + 0x60);
    let m = le64(b, p + 0x70);
    let k = mip_pointer_count(b, p);
    if p + 4 > b.len() || b.subrange(p, p + 4) != brti_magic() {
        Some(p as usize)
    } else if p + 0x60 > usize::MAX {
        Some(p as usize)
    } else if p + 0x68 > b.len() || n > usize::MAX {
        Some((p + 0x60) as usize)
    } else if n + 2 > b.len() {
        Some(n as usize)
    } else if n + 2 + le16(b, n) > b.len() {
        Some((n + 2) as usize)
    } else if p + 0x70 > usize::MAX {
        Some(p as usize)
    } else if p + 0x78 > b.len() || m > usize::MAX {
        Some((p + 0x70) as usize)
    } else if k > usize::MAX {
        Some((p + 0x30) as usize)
    } else if 8 * k > usize::MAX || m + 8 * k > b.len() {
        Some(m as usize)
    } else {
        None
    }
}

impl BntxTexture {
    /// Whether every field is the one the descriptor at `p` of `b` holds.
    pub open spec fn read_from(&self, b: Seq<u8>, p: int) -> bool {
        let n = le64(b, p + 0x60);
        let m = le64(b, p + 0x70);
        let k = mip_pointer_count(b, p);
        &&& self.name@ == utf8_lossy(b.subrange(n + 2, n + 2 + le16(b, n)))
        &&& self.width == le32(b, p + 0x24)
        &&& self.height == le32(b, p + 0x28)
        &&& self.depth == le32(b, p + 0x2c)
        &&& self.array_length == le32(b, p + 0x30)
        &&& self.mip_count == le16(b, p + 0x16)
        &&& self.format == le32(b, p + 0x1c)
        &&& self.image_size == le32(b, p + 0x50)
        &&& self.alignment == le32(b, p + 0x54)
        &&& self.tile_mode == le16(b, p + 0x12)
        &&& self.swizzle == le16(b, p + 0x14)
        &&& self.block_height_log2 == bin::u32_at(b, p + 0x34, Endian::Little) & 7
        &&& self.channel_types@ == b.subrange(p + 0x58, p + 0x5c)
        &&& self.data_offsets@ == Seq::new(
            k as nat,
            |i: int| bin::u64_at(b, m + 8 * i, Endian::Little),
        )
        &&& self.name_offset == n
        &&& self.name_capacity == le16(b, n)
        &&& self.format_offset == p + 0x1c
    }
}

/// The pointer to texture descriptor `i` in the table at `info`.
pub open spec fn texture_pointer(b: Seq<u8>, info: int, i: int) -> int {
    le64(b, info + 8 * i)
}

/// Where reading descriptors `i` and on of the table at `info` fails, if it does.
pub open spec fn textures_error(b: Seq<u8>, info: int, count: int, i: int) -> Option<usize>
    decreases count - i,
{
    if i >= count {
        None
    } else if texture_pointer(b, info, i) > usize::MAX {
        Some((info + 8 * i) as usize)
    } else if texture_error(b, texture_pointer(b, info, i)) is Some {
        texture_error(b, texture_pointer(b, info, i))
    } else {
        textures_error(b, info, count, i + 1)
    }
}

/// Where parsing `b` as a BNTX file fails, if it does.
pub open spec fn file_error(b: Seq<u8>) -> Option<usize> {
    let info = le64(b, 0x28);
    let count = le32(b, 0x24);
    if b.len() < 4 || b.subrange(0, 4) != bntx_magic() {
        Some(0)
    } else if b.len() < 0x20 || le32(b, 0x1c) > b.len() {
        Some(0x1c)
    } else if b.len() < 0x24 {
        Some(0x20)
    } else if b.len() < 0x28 {
        Some(0x24)
    } else if b.len() < 0x30 || info > usize::MAX {
        Some(0x28)
    } else if 8 * count > usize::MAX {
        Some(0x24)
    } else if info + 8 * count > b.len() {
        Some(info as usize)
    } else {
        textures_error(b, info, count, 0)
    }
}

/// A parsed BNTX file: its version, target platform, size and texture descriptors.
#[derive(Debug, Clone, PartialEq, Eq)]
pub struct BntxFile {
    pub version: [u8; 4],
    pub target: String,
    pub file_size: u32,
    pub textures: Vec<BntxTexture>,
}

impl BntxFile {
    /// Whether every field is the one `b` holds.
    pub open spec fn read_from(&self, b: Seq<u8>) -> bool {
        let info = le64(b, 0x28);
        &&& self.version@ == b.subrange(8, 12)
        &&& self.target@ == utf8_lossy(b.subrange(0x20, 0x24))
        &&& self.file_size == le32(b, 0x1c)
        &&& self.textures@.len() == le32(b, 0x24)
        &&& forall|i: int|
            0 <= i < self.textures@.len() ==> #[trigger] self.textures@[i].read_from(
                b,
                texture_pointer(b, info, i),
            )
    }

    /// Parses a BNTX file; the error says at which offset it failed.
    pub fn parse(data: &[u8]) -> (r: Result<Self, BntxError>)
        ensures
            r is Ok <==> file_error(data@) is None,
            r matches Ok(f) ==> f.read_from(data@),
            r matches Err(e) ==> file_error(data@) == Some(e.offset),
    {
        let ghost b = data@;
        let reader = BinaryReader::new(data);
        let magic = bytes_at(&reader, 0, 4)?;
        if !(magic[0] == 0x42 && magic[1] == 0x4e && magic[2] == 0x54 && magic[3] == 0x58) {
            assert(b.subrange(0, 4) != bntx_magic()) by {
                assert(b.subrange(0, 4) == magic@);
            }
            return Err(BntxError::new(0, "missing BNTX magic"));
        }
        assert(b.subrange(0, 4) =~= bntx_magic());
        let file_size = u32_at(&reader, 0x1c)?;
        if file_size as usize > data.len() {
            return Err(BntxError::new(0x1c, "declared file size exceeds input"));
        }
        let target = string_from_utf8_lossy(bytes_at(&reader, 0x20, 4)?);
        let texture_count = u32_at(&reader, 0x24)? as usize;
        let info = u64_at(&reader, 0x28)?;
        if info > usize::MAX as u64 {
            return Err(BntxError::new(0x28, "texture table pointer is too large"));
        }
        let info_ptrs = info as usize;
        let table_size = match texture_count.checked_mul(8) {
            Some(v) => v,
            None => return Err(BntxError::new(0x24, "texture table size overflow")),
        };
        bytes_at(&reader, info_ptrs, table_size)?;
        let mut textures: Vec<BntxTexture> = Vec::new();
        let mut index: usize = 0;
        while index < texture_count
            invariant
                b == data@,
                reader.bytes() == b,
                reader.wf(),
                reader.order() == Endian::Little,
                index <= texture_count,
                texture_count == le32(b, 0x24),
                info_ptrs == le64(b, 0x28),
                info_ptrs + 8 * texture_count <= b.len(),
                file_error(b) == textures_error(b, info_ptrs as int, texture_count as int, index as int),
                textures@.len() == index,
                forall|i: int|
                    0 <= i < index ==> #[trigger] textures@[i].read_from(
                        b,
                        texture_pointer(b, info_ptrs as int, i),
                    ),
            decreases texture_count - index,
        {
            let entry = info_ptrs + index * 8;
            let raw = u64_at(&reader, entry)?;
            assert(raw == texture_pointer(b, info_ptrs as int, index as int));
            if raw > usize::MAX as u64 {
                return Err(BntxError::new(entry, "texture pointer is too large"));
            }
            let texture = parse_texture(&reader, raw as usize)?;
            textures.push(texture);
            index = index + 1;
        }
        let version = array_at(&reader, 8)?;
        Ok(BntxFile { version, target, file_size, textures })
    }
}

/// Reads the texture descriptor at `p`.
fn parse_texture(reader: &BinaryReader<'_>, p: usize) -> (r: Result<BntxTexture, BntxError>)
    requires
        reader.wf(),
        reader.order() == Endian::Little,
    ensures
        r is Ok <==> texture_error(reader.bytes(), p as int) is None,
        r matches Ok(t) ==> t.read_from(reader.bytes(), p as int),
        r matches Err(e) ==> texture_error(reader.bytes(), p as int) == Some(e.offset),
{
    let ghost b = reader.bytes();
    let magic = bytes_at(reader, p, 4)?;
    if !(magic[0] == 0x42 && magic[1] == 0x52 && magic[2] == 0x54 && magic[3] == 0x49) {
        assert(b.subrange(p as int, p + 4) != brti_magic()) by {
            assert(b.subrange(p as int, p + 4) == magic@);
        }
        return Err(BntxError::new(p, "texture pointer does not reference BRTI"));
    }
    assert(b.subrange(p as int, p + 4) =~= brti_magic());
    let name_field = match at(p, 0x60) {
        Some(v) => v,
        None => return Err(BntxError::new(p, "texture field offset overflow")),
    };
    let name_raw = u64_at(reader, name_field)?;
    if name_raw > usize::MAX as u64 {
        return Err(BntxError::new(name_field, "name pointer is too large"));
    }
    let name_ptr = name_raw as usize;
    let name = read_res_string(reader, name_ptr)?;
    let name_capacity = u16_at(reader, name_ptr)? as usize;
    let mip_count = u16_at(reader, p + 0x16)?;
    let array_length = u32_at(reader, p + 0x30)?;
    let mip_field = match at(p, 0x70) {
        Some(v) => v,
        None => return Err(BntxError::new(p, "texture field offset overflow")),
    };
    let mip_raw = u64_at(reader, mip_field)?;
    if mip_raw > usize::MAX as u64 {
        return Err(BntxError::new(mip_field, "mip pointer table is too large"));
    }
    let mip_ptrs = mip_raw as usize;
    let layers: u32 = if array_length == 0 {
        1
    } else {
        array_length
    };
    let pointer_count = match (mip_count as usize).checked_mul(layers as usize) {
        Some(v) => v,
        None => return Err(BntxError::new(p + 0x30, "mip pointer count overflow")),
    };
    let pointer_bytes = match pointer_count.checked_mul(8) {
        Some(v) => v,
        None => return Err(BntxError::new(mip_ptrs, "mip pointer table size overflow")),
    };
    bytes_at(reader, mip_ptrs, pointer_bytes)?;
    let mut data_offsets: Vec<u64> = Vec::new();
    let mut i: usize = 0;
    while i < pointer_count
        invariant
            b == reader.bytes(),
            reader.wf(),
            reader.order() == Endian::Little,
            i <= pointer_count,
            mip_ptrs + 8 * pointer_count <= b.len(),
            data_offsets@.len() == i,
            forall|j: int|
                0 <= j < i ==> data_offsets@[j] == bin::u64_at(b, mip_ptrs + 8 * j, Endian::Little),
        decreases pointer_count - i,
    {
        let v = u64_at(reader, mip_ptrs + i * 8)?;
        data_offsets.push(v);
        i = i + 1;
    }
    assert(data_offsets@ =~= Seq::new(
        mip_pointer_count(b, p as int) as nat,
        |j: int| bin::u64_at(b, mip_ptrs + 8 * j, Endian::Little),
    ));
    let block = u32_at(reader, p + 0x34)?;
    assert(block & 7 < 8) by (bit_vector);
    let block_height_log2 = (block & 7) as u8;
    Ok(BntxTexture {
        name,
        width: u32_at(reader, p + 0x24)?,
        height: u32_at(reader, p + 0x28)?,
        depth: u32_at(reader, p + 0x2c)?,
        array_length,
        mip_count,
        format: u32_at(reader, p + 0x1c)?,
        image_size: u32_at(reader, p + 0x50)?,
        alignment: u32_at(reader, p + 0x54)?,
        tile_mode: u16_at(reader, p + 0x12)?,
        swizzle: u16_at(reader, p + 0x14)?,
        block_height_log2,
        channel_types: array_at(reader, p + 0x58)?,
        data_offsets,
        name_offset: name_ptr,
        name_capacity,
        format_offset: p + 0x1c,
    })
}

/// `p + relative`, or `None` when it overflows.
fn at(p: usize, relative: usize) -> (r: Option<usize>)
    ensures
        r is Some <==> p + relative <= usize::MAX,
        r matches Some(v) ==> v == p + relative,
{
    p.checked_add(relative)
}

/// The length-prefixed string at `p`: a 16-bit length, then that many bytes.
fn read_res_string(reader: &BinaryReader<'_>, p: usize) -> (r: Result<String, BntxError>)
    requires
        reader.wf(),
        reader.order() == Endian::Little,
    ensures
        r is Ok <==> p + 2 <= reader.bytes().len() && p + 2 + le16(reader.bytes(), p as int)
            <= reader.bytes().len(),
        r matches Ok(s) ==> s@ == utf8_lossy(
            reader.bytes().subrange(p + 2, p + 2 + le16(reader.bytes(), p as int)),
        ),
        r matches Err(e) ==> e.offset == (if p + 2 > reader.bytes().len() {
            p
        } else {
            (p + 2) as usize
        }),
{
    let length = u16_at(reader, p)? as usize;
    let text = match p.checked_add(2) {
        Some(v) => v,
        None => return Err(BntxError::new(p, "string offset overflow")),
    };
    Ok(string_from_utf8_lossy(bytes_at(reader, text, length)?))
}

/// The `n` bytes at `p`.
fn bytes_at<'a>(reader: &BinaryReader<'a>, p: usize, n: usize) -> (r: Result<&'a [u8], BntxError>)
    ensures
        r is Ok <==> p + n <= reader.bytes().len(),
        r matches Ok(s) ==> s@ == reader.bytes().subrange(p as int, p + n),
        r matches Err(e) ==> e.offset == p,
{
    match reader.read_bytes_at(p, n) {
        Ok(s) => Ok(s),
        Err(error) => Err(BntxError::new(p, error.message)),
    }
}

/// The four bytes at `p`.
fn array_at(reader: &BinaryReader<'_>, p: usize) -> (r: Result<[u8; 4], BntxError>)
    ensures
        r is Ok <==> p + 4 <= reader.bytes().len(),
        r matches Ok(a) ==> a@ == reader.bytes().subrange(p as int, p + 4),
        r matches Err(e) ==> e.offset == p,
{
    match reader.read_array4_at(p) {
        Ok(a) => Ok(a),
        Err(error) => Err(BntxError::new(p, error.message)),
    }
}

/// The 16-bit value at `p`.
fn u16_at(reader: &BinaryReader<'_>, p: usize) -> (r: Result<u16, BntxError>)
    ensures
        r is Ok <==> p + 2 <= reader.bytes().len(),
        r matches Ok(v) ==> v == bin::u16_at(reader.bytes(), p as int, reader.order()),
        r matches Err(e) ==> e.offset == p,
{
    match reader.read_u16_at(p) {
        Ok(v) => Ok(v),
        Err(error) => Err(BntxError::new(p, error.message)),
    }
}

/// The 32-bit value at `p`.
fn u32_at(reader: &BinaryReader<'_>, p: usize) -> (r: Result<u32, BntxError>)
    ensures
        r is Ok <==> p + 4 <= reader.bytes().len(),
        r matches Ok(v) ==> v == bin::u32_at(reader.bytes(), p as int, reader.order()),
        r matches Err(e) ==> e.offset == p,
{
    match reader.read_u32_at(p) {
        Ok(v) => Ok(v),
        Err(error) => Err(BntxError::new(p, error.message)),
    }
}

/// The 64-bit value at `p`.
fn u64_at(reader: &BinaryReader<'_>, p: usize) -> (r: Result<u64, BntxError>)
    ensures
        r is Ok <==> p + 8 <= reader.bytes().len(),
        r matches Ok(v) ==> v == bin::u64_at(reader.bytes(), p as int, reader.order()),
        r matches Err(e) ==> e.offset == p,
{
    match reader.read_u64_at(p) {
        Ok(v) => Ok(v),
        Err(error) => Err(BntxError::new(p, error.message)),
    }
}

} // verus!
