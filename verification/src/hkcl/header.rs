use vstd::prelude::*;
use crate::binary::{fixed_string, signed32, u16_at, u32_at, BinaryReader, Endian};
use crate::error::{eof, invalid, Error, ErrorKind};

verus! {

/// Size of the packfile header.
pub const HEADER_SIZE: usize = 0x40;

/// The eight magic bytes that open every packfile.
pub open spec fn packfile_magic() -> Seq<u8> {
    seq![0x57u8, 0xe0u8, 0xe0u8, 0x57u8, 0x10u8, 0xc0u8, 0xc0u8, 0x10u8]
}

/// The byte order a packfile declares: its little-endian flag at 0x11.
pub open spec fn layout_endian(b: Seq<u8>) -> Endian {
    if b[0x11] == 0 {
        Endian::Big
    } else {
        Endian::Little
    }
}

/// The signed 32-bit value at `o`.
pub open spec fn i32_at(b: Seq<u8>, o: int, e: Endian) -> int {
    signed32(u32_at(b, o, e) as int)
}

/// A section index as stored: negative means no section.
pub open spec fn stored_index(raw: int) -> Option<usize> {
    if raw < 0 {
        None
    } else {
        Some(raw as usize)
    }
}

/// Whether a stored section index is absent or names one of `count` sections.
pub open spec fn index_fits(raw: int, count: int) -> bool {
    raw < count
}

/// Why the first 0x40 bytes of `b` are not a packfile header, if they are not.
pub open spec fn header_error(b: Seq<u8>) -> Option<ErrorKind> {
    let e = layout_endian(b);
    if b.len() < 0x40 {
        Some(ErrorKind::UnexpectedEof)
    } else if b.subrange(0, 8) != packfile_magic() {
        Some(ErrorKind::InvalidData)
    } else if i32_at(b, 0x14, e) < 0 {
        Some(ErrorKind::InvalidData)
    } else if !index_fits(i32_at(b, 0x18, e), i32_at(b, 0x14, e)) || !index_fits(
        i32_at(b, 0x20, e),
        i32_at(b, 0x14, e),
    ) {
        Some(ErrorKind::InvalidData)
    } else if fixed_string(b.subrange(0x28, 0x38)) is None {
        Some(ErrorKind::InvalidData)
    } else {
        None
    }
}

/// The memory layout a packfile was written for.
#[derive(Clone, Copy, Debug, PartialEq, Eq, Structural)]
pub struct HkclLayout {
    pub pointer_size: u8,
    pub endian: Endian,
    pub reuse_padding_optimization: bool,
    pub empty_base_class_optimization: bool,
}

/// The fixed header of a packfile.
#[derive(Clone, Debug)]
pub struct HkclHeader {
    pub user_tag: u32,
    pub file_version: u32,
    pub layout: HkclLayout,
    pub section_count: usize,
    pub contents_section_index: Option<usize>,
    pub contents_section_offset: u32,
    pub contents_class_name_section_index: Option<usize>,
    pub contents_class_name_section_offset: u32,
    pub contents_version: String,
    pub flags: u32,
    pub max_predicate: u16,
    pub predicate_array_size: u16,
}

impl HkclHeader {
    /// Whether every field of this header is the one stored in `b`.
    pub open spec fn read_from(&self, b: Seq<u8>) -> bool {
        let e = layout_endian(b);
        &&& self.user_tag == u32_at(b, 0x08, e)
        &&& self.file_version == u32_at(b, 0x0c, e)
        &&& self.layout == HkclLayout {
            pointer_size: b[0x10],
            endian: e,
            reuse_padding_optimization: b[0x12] != 0,
            empty_base_class_optimization: b[0x13] != 0,
        }
        &&& self.section_count == i32_at(b, 0x14, e)
        &&& self.contents_section_index == stored_index(i32_at(b, 0x18, e))
        &&& self.contents_section_offset == u32_at(b, 0x1c, e)
        &&& self.contents_class_name_section_index == stored_index(i32_at(b, 0x20, e))
        &&& self.contents_class_name_section_offset == u32_at(b, 0x24, e)
        &&& self.contents_version@ == fixed_string(b.subrange(0x28, 0x38))->Some_0
        &&& self.flags == u32_at(b, 0x38, e)
        &&& self.max_predicate == u16_at(b, 0x3c, e)
        &&& self.predicate_array_size == u16_at(b, 0x3e, e)
    }

    /// Reads the header at the start of `data`. Fails with `UnexpectedEof` on a short
    /// input, and with `InvalidData` on a wrong magic, a negative section count, a
    /// section index past the count, or a version text that is not UTF-8.
    pub fn read(data: &[u8]) -> (r: Result<Self, Error>)
        ensures
            r is Ok <==> header_error(data@) is None,
            r matches Ok(h) ==> h.read_from(data@),
            r matches Err(e) ==> header_error(data@) == Some(e.kind),
    {
        if data.len() < HEADER_SIZE {
            return Err(eof("HKCL header is truncated"));
        }
        let magic: [u8; 8] = [0x57, 0xe0, 0xe0, 0x57, 0x10, 0xc0, 0xc0, 0x10];
        let mut i: usize = 0;
        while i < 8
            invariant
                i <= 8,
                data@.len() >= 0x40,
                magic@ == packfile_magic(),
                forall|j: int| 0 <= j < i ==> data@[j] == packfile_magic()[j],
            decreases 8 - i,
        {
            if data[i] != magic[i] {
                assert(data@.subrange(0, 8)[i as int] != packfile_magic()[i as int]);
                return Err(invalid("HKCL magic mismatch"));
            }
            i = i + 1;
        }
        assert(data@.subrange(0, 8) =~= packfile_magic());
        let endian = if data[0x11] == 0 {
            Endian::Big
        } else {
            Endian::Little
        };
        let reader = BinaryReader::with_endian(data, endian);
        let user_tag = reader.read_u32_at(0x08)?;
        let file_version = reader.read_u32_at(0x0c)?;
        let count = crate::binary::to_i32(reader.read_u32_at(0x14)?);
        if count < 0 {
            return Err(invalid("HKCL section count is negative"));
        }
        let contents_index = crate::binary::to_i32(reader.read_u32_at(0x18)?);
        let contents_offset = reader.read_u32_at(0x1c)?;
        let class_index = crate::binary::to_i32(reader.read_u32_at(0x20)?);
        let class_offset = reader.read_u32_at(0x24)?;
        if contents_index >= count || class_index >= count {
            return Err(invalid("HKCL section index exceeds the section count"));
        }
        let version = match reader.read_fixed_string_at(0x28, 16) {
            Ok(v) => v,
            Err(_) => return Err(invalid("HKCL contents version is not UTF-8")),
        };
        let flags = reader.read_u32_at(0x38)?;
        let max_predicate = reader.read_u16_at(0x3c)?;
        let predicate_array_size = reader.read_u16_at(0x3e)?;
        Ok(HkclHeader {
            user_tag,
            file_version,
            layout: HkclLayout {
                pointer_size: data[0x10],
                endian,
                reuse_padding_optimization: data[0x12] != 0,
                empty_base_class_optimization: data[0x13] != 0,
            },
            section_count: count as usize,
            contents_section_index: if contents_index < 0 {
                None
            } else {
                Some(contents_index as usize)
            },
            contents_section_offset: contents_offset,
            contents_class_name_section_index: if class_index < 0 {
                None
            } else {
                Some(class_index as usize)
            },
            contents_class_name_section_offset: class_offset,
            contents_version: version,
            flags,
            max_predicate,
            predicate_array_size,
        })
    }
}

} // verus!
