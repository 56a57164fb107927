use vstd::prelude::*;
use crate::binary::{fixed_string, u32_at, BinaryReader, Endian};
use crate::error::{invalid, Error, ErrorKind};

verus! {

/// Size of one entry of the section table.
pub const SECTION_HEADER_SIZE: usize = 0x30;

/// The six offsets of a section entry at `o`, relative to its data start: local
/// fixups, global fixups, virtual fixups, exports, imports and end.
pub open spec fn section_offsets(b: Seq<u8>, o: int, e: Endian) -> Seq<u32> {
    Seq::new(6, |k: int| u32_at(b, o + 24 + 4 * k, e))
}

/// The data start of the section entry at `o`.
pub open spec fn section_start(b: Seq<u8>, o: int, e: Endian) -> u32 {
    u32_at(b, o + 20, e)
}

/// Why the section entry at `o` is not valid, if it is not: the entry must lie in the
/// input, its tag must be UTF-8, its offsets must not decrease, and its data must
/// lie in the input.
pub open spec fn section_error(b: Seq<u8>, o: int, e: Endian) -> Option<ErrorKind> {
    let offs = section_offsets(b, o, e);
    if o + 0x30 > b.len() {
        Some(ErrorKind::UnexpectedEof)
    } else if fixed_string(b.subrange(o, o + 20)) is None {
        Some(ErrorKind::InvalidData)
    } else if !(offs[0] <= offs[1] <= offs[2] <= offs[3] <= offs[4] <= offs[5]) {
        Some(ErrorKind::InvalidData)
    } else if section_start(b, o, e) + offs[5] > b.len() {
        Some(ErrorKind::InvalidData)
    } else {
        None
    }
}

/// One section of a packfile, with its offsets made absolute.
#[derive(Clone, Debug)]
pub struct HkclSection {
    pub tag: String,
    pub absolute_data_start: usize,
    pub local_fixups_offset: usize,
    pub global_fixups_offset: usize,
    pub virtual_fixups_offset: usize,
    pub exports_offset: usize,
    pub imports_offset: usize,
    pub end: usize,
}

impl HkclSection {
    /// Whether every field of this section is the one the entry at `o` gives.
    pub open spec fn read_from(&self, b: Seq<u8>, o: int, e: Endian) -> bool {
        let start = section_start(b, o, e);
        let offs = section_offsets(b, o, e);
        &&& self.tag@ == fixed_string(b.subrange(o, o + 20))->Some_0
        &&& self.absolute_data_start == start
        &&& self.local_fixups_offset == start + offs[0]
        &&& self.global_fixups_offset == start + offs[1]
        &&& self.virtual_fixups_offset == start + offs[2]
        &&& self.exports_offset == start + offs[3]
        &&& self.imports_offset == start + offs[4]
        &&& self.end == start + offs[5]
    }

    /// Reads the section entry at `offset` of `data`.
    pub fn read(data: &[u8], offset: usize, endian: Endian) -> (r: Result<Self, Error>)
        ensures
            r is Ok <==> section_error(data@, offset as int, endian) is None,
            r matches Ok(s) ==> s.read_from(data@, offset as int, endian),
            r matches Err(e) ==> section_error(data@, offset as int, endian) == Some(e.kind),
    {
        let reader = BinaryReader::with_endian(data, endian);
        let ghost b = data@;
        let _entry = reader.read_bytes_at(offset, SECTION_HEADER_SIZE)?;
        let tag = match reader.read_fixed_string_at(offset, 20) {
            Ok(t) => t,
            Err(_) => return Err(invalid("HKCL section tag is not UTF-8")),
        };
        let start = reader.read_u32_at(offset + 20)?;
        let local = reader.read_u32_at(offset + 24)?;
        let global = reader.read_u32_at(offset + 28)?;
        let virt = reader.read_u32_at(offset + 32)?;
        let exports = reader.read_u32_at(offset + 36)?;
        let imports = reader.read_u32_at(offset + 40)?;
        let end = reader.read_u32_at(offset + 44)?;
        let ghost offs = section_offsets(b, offset as int, endian);
        assert(offs[0] == local && offs[1] == global && offs[2] == virt && offs[3] == exports
            && offs[4] == imports && offs[5] == end);
        if !(local <= global && global <= virt && virt <= exports && exports <= imports && imports
            <= end) {
            return Err(invalid("HKCL section offsets are not in order"));
        }
        let start = start as usize;
        let end = end as usize;
        if end > data.len() || start > data.len() - end {
            return Err(invalid("HKCL section data lies outside the file"));
        }
        Ok(HkclSection {
            tag,
            absolute_data_start: start,
            local_fixups_offset: start + local as usize,
            global_fixups_offset: start + global as usize,
            virtual_fixups_offset: start + virt as usize,
            exports_offset: start + exports as usize,
            imports_offset: start + imports as usize,
            end: start + end,
        })
    }

    /// The range of bytes the section's data occupies in the file.
    pub fn data(&self) -> (r: core::ops::Range<usize>)
        ensures
            r.start == self.absolute_data_start,
            r.end == self.end,
    {
        self.absolute_data_start..self.end
    }
}

} // verus!
