use vstd::prelude::*;
use crate::aoc::g1t::format::{chain_computable, chain_size, format_of_type, mip_chain_size, format_for_type};
use crate::binary::{u32_at, BinaryReader, Endian};
use crate::error::{eof, invalid, Error, ErrorKind};

verus! {

/// The magic of a little-endian archive, `GT1G`.
pub open spec fn magic_little() -> Seq<u8> {
    seq![0x47u8, 0x54u8, 0x31u8, 0x47u8]
}

/// The magic of a big-endian archive, `G1TG`.
pub open spec fn magic_big() -> Seq<u8> {
    seq![0x47u8, 0x31u8, 0x54u8, 0x47u8]
}

/// A big-endian archive begins with the little-endian magic read backwards (`GT1G`
/// becomes `G1TG`), so the two magics differ and the first four bytes decide the byte
/// order.
pub proof fn lemma_archive_magics()
    ensures
        magic_big() == magic_little().reverse(),
        magic_big() != magic_little(),
{
    assert(magic_big() =~= magic_little().reverse());
    assert(magic_big()[1] != magic_little()[1]);
}

/// The byte order an archive's magic declares, if it is a G1T archive.
pub open spec fn archive_endian(b: Seq<u8>) -> Option<Endian> {
    if b.len() >= 4 && b.subrange(0, 4) == magic_little() {
        Some(Endian::Little)
    } else if b.len() >= 4 && b.subrange(0, 4) == magic_big() {
        Some(Endian::Big)
    } else {
        None
    }
}

/// The byte order of an archive from its magic; fails with `InvalidData` when `data`
/// is not a G1T archive.
pub fn g1t_endian(data: &[u8]) -> (r: Result<Endian, Error>)
    ensures
        r is Ok <==> archive_endian(data@) is Some,
        r matches Ok(e) ==> archive_endian(data@) == Some(e),
        r matches Err(e) ==> e.kind == ErrorKind::InvalidData,
{
    if data.len() < 4 {
        return Err(invalid("not a G1T texture archive"));
    }
    let ghost m = data@.subrange(0, 4);
    if data[0] == 0x47 && data[1] == 0x54 && data[2] == 0x31 && data[3] == 0x47 {
        assert(m =~= magic_little());
        Ok(Endian::Little)
    } else if data[0] == 0x47 && data[1] == 0x31 && data[2] == 0x54 && data[3] == 0x47 {
        assert(m =~= magic_big());
        assert(m != magic_little()) by {
            assert(m[1] != magic_little()[1]);
        }
        Ok(Endian::Big)
    } else {
        assert(m != magic_little()) by {
            if m == magic_little() {
                assert(m[0] == 0x47 && m[1] == 0x54 && m[2] == 0x31 && m[3] == 0x47);
            }
        }
        assert(m != magic_big()) by {
            if m == magic_big() {
                assert(m[0] == 0x47 && m[1] == 0x31 && m[2] == 0x54 && m[3] == 0x47);
            }
        }
        Err(invalid("not a G1T texture archive"))
    }
}

/// The archive header fields: total size, table offset, texture count, platform and
/// extra header size.
pub open spec fn header_word(b: Seq<u8>, k: int) -> int {
    u32_at(b, 8 + 4 * k, archive_endian(b)->Some_0) as int
}

/// Whether the archive header is readable and consistent: a known magic, all header
/// words present, the total size within the input, the table within the total size,
/// at most 65536 textures, and the offset table within the total size.
pub open spec fn header_ok(b: Seq<u8>) -> bool {
    &&& archive_endian(b) is Some
    &&& b.len() >= 28
    &&& header_word(b, 0) <= b.len()
    &&& header_word(b, 1) <= header_word(b, 0)
    &&& header_word(b, 2) <= 65536
    &&& header_word(b, 1) + 4 * header_word(b, 2) <= header_word(b, 0)
}

/// The table offset of texture `i`, relative to the table.
pub open spec fn entry_relative(b: Seq<u8>, i: int) -> int {
    u32_at(b, header_word(b, 1) + 4 * i, archive_endian(b)->Some_0) as int
}

/// Where the entry of texture `i` ends, relative to the table: the next entry's
/// offset, or the end of the archive for the last texture.
pub open spec fn entry_next(b: Seq<u8>, i: int) -> int {
    if i + 1 < header_word(b, 2) {
        entry_relative(b, i + 1)
    } else {
        header_word(b, 0) - header_word(b, 1)
    }
}

/// Whether texture `i` is passed over: its offset falls inside the offset table and
/// extra header, or the next offset lies before it.
pub open spec fn entry_skipped(b: Seq<u8>, i: int) -> bool {
    entry_relative(b, i) < 4 * header_word(b, 2) + header_word(b, 4) || entry_next(b, i)
        < entry_relative(b, i)
}

/// The absolute start of the entry of texture `i`.
pub open spec fn entry_start(b: Seq<u8>, i: int) -> int {
    header_word(b, 1) + entry_relative(b, i)
}

/// The absolute end of the entry of texture `i`, cut at the end of the input.
pub open spec fn entry_end(b: Seq<u8>, i: int) -> int {
    let e = header_word(b, 1) + entry_next(b, i);
    if e > b.len() {
        b.len() as int
    } else {
        e
    }
}

/// Whether the texture table can be walked: every entry that is not passed over
/// starts within the input.
pub open spec fn table_ok(b: Seq<u8>) -> bool {
    forall|i: int|
        0 <= i < header_word(b, 2) && !#[trigger] entry_skipped(b, i) ==> entry_start(b, i) <= b.len()
}

/// The kind of error an archive that cannot be walked gives: `InvalidData` for a wrong
/// magic or an inconsistent header, `UnexpectedEof` for a short header or an entry
/// that starts past the end.
pub open spec fn archive_error(b: Seq<u8>) -> ErrorKind {
    if archive_endian(b) is None {
        ErrorKind::InvalidData
    } else if b.len() < 28 {
        ErrorKind::UnexpectedEof
    } else if !header_ok(b) {
        ErrorKind::InvalidData
    } else {
        ErrorKind::UnexpectedEof
    }
}

/// One entry of the texture table: the texture's index and its bytes' range.
#[derive(Clone, Copy, Debug, PartialEq, Eq, Structural)]
pub struct TableEntry {
    pub index: usize,
    pub start: usize,
    pub end: usize,
}

/// The entries a table walk yields from index `i` on, in order.
pub open spec fn entries_from(b: Seq<u8>, i: int) -> Seq<TableEntry>
    decreases header_word(b, 2) - i,
{
    if i >= header_word(b, 2) || i < 0 {
        Seq::empty()
    } else if entry_skipped(b, i) {
        entries_from(b, i + 1)
    } else {
        seq![TableEntry { index: i as usize, start: entry_start(b, i) as usize, end: entry_end(b, i) as usize }]
            + entries_from(b, i + 1)
    }
}

/// The archive header words and the entries of its texture table, in order. Fails
/// with `UnexpectedEof` on a short header or an entry that starts past the end, and with
/// `InvalidData` on a wrong magic or inconsistent header.
pub fn table_entries(data: &[u8]) -> (r: Result<(Endian, Vec<TableEntry>), Error>)
    ensures
        r is Ok <==> header_ok(data@) && table_ok(data@),
        r matches Ok((e, v)) ==> archive_endian(data@) == Some(e) && v@ == entries_from(data@, 0),
        r matches Err(e) ==> e.kind == archive_error(data@),
{
    let ghost b = data@;
    let endian = g1t_endian(data)?;
    if data.len() < 28 {
        return Err(eof("G1T header is truncated"));
    }
    let table = BinaryReader::with_endian(data, endian);
    let total_size = table.read_u32_at(8)? as usize;
    let table_offset = table.read_u32_at(12)? as usize;
    let texture_count = table.read_u32_at(16)? as usize;
    let extra_size = table.read_u32_at(24)? as u64;
    assert(total_size == header_word(b, 0) && table_offset == header_word(b, 1) && texture_count
        == header_word(b, 2) && extra_size == header_word(b, 4));
    if total_size > data.len() || table_offset > total_size || texture_count > 65_536 {
        return Err(invalid("invalid G1T header bounds"));
    }
    if texture_count * 4 > total_size - table_offset {
        return Err(invalid("invalid G1T texture offset table"));
    }
    let mut entries: Vec<TableEntry> = Vec::new();
    let mut index: usize = 0;
    while index < texture_count
        invariant
            b == data@,
            table.bytes() == b,
            table.order() == endian,
            archive_endian(b) == Some(endian),
            header_ok(b),
            total_size == header_word(b, 0),
            table_offset == header_word(b, 1),
            texture_count == header_word(b, 2),
            extra_size == header_word(b, 4),
            index <= texture_count,
            entries_from(b, 0) == entries@ + entries_from(b, index as int),
            forall|i: int|
                0 <= i < index && !#[trigger] entry_skipped(b, i) ==> entry_start(b, i) <= b.len(),
        decreases texture_count - index,
    {
        let relative = table.read_u32_at(table_offset + index * 4)? as usize;
        let next_relative = if index + 1 < texture_count {
            table.read_u32_at(table_offset + (index + 1) * 4)? as usize
        } else {
            total_size - table_offset
        };
        assert(relative == entry_relative(b, index as int) && next_relative == entry_next(b, index as int));
        if (relative as u64) < (texture_count as u64) * 4 + extra_size || next_relative < relative {
            assert(entry_skipped(b, index as int));
            assert(entries_from(b, index as int) == entries_from(b, index + 1));
            index = index + 1;
            continue;
        }
        assert(!entry_skipped(b, index as int));
        if relative > data.len() - table_offset {
            assert(entry_start(b, index as int) > b.len());
            return Err(eof("G1T texture entry starts past the end"));
        }
        let start = table_offset + relative;
        let end = if next_relative > data.len() - table_offset {
            data.len()
        } else {
            table_offset + next_relative
        };
        let entry = TableEntry { index, start, end };
        assert(entries_from(b, index as int) == seq![entry] + entries_from(b, index + 1));
        entries.push(entry);
        assert(entries_from(b, 0) == entries@ + entries_from(b, index + 1)) by {
            assert(entries@ == entries@.drop_last().push(entry));
            assert(entries@.drop_last() + (seq![entry] + entries_from(b, index + 1)) =~= entries@
                + entries_from(b, index + 1));
        }
        index = index + 1;
    }
    assert(entries@ + entries_from(b, index as int) =~= entries@);
    Ok((endian, entries))
}

} // verus!
