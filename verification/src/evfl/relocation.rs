use vstd::prelude::*;
use crate::binary::{u32_at, BinaryReader, Endian};
use crate::error::{Error, ErrorKind};

verus! {

/// The little-endian 32-bit value at `p`.
pub open spec fn w32(b: Seq<u8>, p: int) -> int {
    u32_at(b, p, Endian::Little) as int
}

/// The base address of relocation entry `i` of the table whose entries start at `t`.
pub open spec fn entry_base(b: Seq<u8>, t: int, i: int) -> int {
    w32(b, t + 8 * i)
}

/// The bit flags of relocation entry `i`: bit `k` marks the pointer at base + 8k.
pub open spec fn entry_flags(b: Seq<u8>, t: int, i: int) -> u32 {
    u32_at(b, t + 8 * i + 4, Endian::Little)
}

/// Where a binary search between `lo` and `hi` for the first entry whose base is above
/// `address` ends.
pub open spec fn search(b: Seq<u8>, t: int, address: int, lo: int, hi: int) -> int
    decreases hi - lo,
{
    if lo >= hi {
        lo
    } else {
        let mid = (lo + hi) / 2;
        if entry_base(b, t, mid) <= address {
            search(b, t, address, mid + 1, hi)
        } else {
            search(b, t, address, lo, mid)
        }
    }
}

/// Whether entry `i` covers `address`: the address is one of the 32 eight-byte slots
/// from its base.
pub open spec fn covers(b: Seq<u8>, t: int, i: int, address: int) -> bool {
    entry_base(b, t, i) <= address < entry_base(b, t, i) + 256 && (address - entry_base(b, t, i)) % 8
        == 0
}

/// Whether the slot of `address` is flagged in entry `i`, which covers it.
pub open spec fn flagged(b: Seq<u8>, t: int, i: int, address: int) -> bool {
    entry_flags(b, t, i) & (1u32 << (((address - entry_base(b, t, i)) / 8) as u32)) != 0
}

/// The answer for `address` given where the search ended: the first of the two entries
/// before that point that covers the address decides; none covering means no pointer.
pub open spec fn answer(b: Seq<u8>, t: int, low: int, address: int) -> bool {
    let first = if low >= 2 { low - 2 } else { 0 };
    if first < low && covers(b, t, first, address) {
        flagged(b, t, first, address)
    } else if first + 1 < low && covers(b, t, first + 1, address) {
        flagged(b, t, first + 1, address)
    } else {
        false
    }
}

/// What the lookup answers for `address` in the file `b`: the search over the table
/// whose offset is the header word at 24, then the check of the entries before where
/// it ends.
pub open spec fn relocated(b: Seq<u8>, address: int) -> bool {
    let t = w32(b, 24) + 40;
    answer(b, t, search(b, t, address, 0, w32(b, w32(b, 24) + 36)), address)
}

/// Whether the entries the final check reads are present: each entry before where the
/// search ended, from two back, is read whole until one covers the address.
pub open spec fn scan_ok(b: Seq<u8>, t: int, low: int, address: int) -> bool {
    let first = if low >= 2 { low - 2 } else { 0 };
    first < low ==> {
        &&& t + 8 * first + 8 <= b.len()
        &&& (!covers(b, t, first, address) && first + 1 < low) ==> t + 8 * (first + 1) + 8
            <= b.len()
    }
}

/// Whether the relocation table can be looked up: the header word at 24 gives its
/// offset, its entry count at 36 is present, and the entries the search and the check
/// read are present.
pub open spec fn lookup_ok(b: Seq<u8>, address: int) -> bool {
    let r = w32(b, 24);
    let t = r + 40;
    let n = w32(b, r + 36);
    &&& 28 <= b.len()
    &&& r + 40 <= b.len()
    &&& search_reads_ok(b, t, address, 0, n)
    &&& scan_ok(b, t, search(b, t, address, 0, n), address)
}

/// Whether every entry the binary search looks at is present.
pub open spec fn search_reads_ok(b: Seq<u8>, t: int, address: int, lo: int, hi: int) -> bool
    decreases hi - lo,
{
    if lo >= hi {
        true
    } else {
        let mid = (lo + hi) / 2;
        t + 8 * mid + 4 <= b.len() && if entry_base(b, t, mid) <= address {
            search_reads_ok(b, t, address, mid + 1, hi)
        } else {
            search_reads_ok(b, t, address, lo, mid)
        }
    }
}

/// The binary search over the `count` entries that start at `entries`: the index of
/// the first entry whose base is above `address`.
fn search_entries(data: &[u8], entries: usize, count: usize, address: usize) -> (r: Result<usize, Error>)
    requires
        entries <= data@.len(),
        count <= u32::MAX,
    ensures
        r is Ok <==> search_reads_ok(data@, entries as int, address as int, 0, count as int),
        r matches Ok(low) ==> low == search(data@, entries as int, address as int, 0, count as int),
        r matches Err(e) ==> e.kind == ErrorKind::UnexpectedEof,
{
    let ghost b = data@;
    let ghost t = entries as int;
    let ghost a = address as int;
    let reader = BinaryReader::new(data);
    let len = data.len();
    let mut low: usize = 0;
    let mut high: usize = count;
    while low < high
        invariant
            reader.bytes() == b,
            b == data@,
            reader.order() == Endian::Little,
            len == b.len(),
            entries <= len,
            t == entries,
            a == address,
            low <= high <= count,
            count <= u32::MAX,
            search(b, t, a, 0, count as int) == search(b, t, a, low as int, high as int),
            search_reads_ok(b, t, a, 0, count as int) <==> search_reads_ok(b, t, a, low as int, high as int),
        decreases high - low,
    {
        let middle = low + (high - low) / 2;
        assert(middle == (low + high) / 2);
        let room = len - entries;
        if room < 4 || middle > (room - 4) / 8 {
            assert(t + 8 * middle + 4 > len) by (nonlinear_arith)
                requires
                    t + room == len,
                    room < 4 || middle > (room - 4) / 8,
                    0 <= middle,
            ;
            return Err(crate::error::eof("EVFL relocation entry is truncated"));
        }
        assert(t + 8 * middle + 4 <= len) by (nonlinear_arith)
            requires
                t + room == len,
                room >= 4,
                middle <= (room - 4) / 8,
        ;
        let base = reader.read_u32_at(entries + middle * 8)?;
        assert(base == entry_base(b, t, middle as int));
        if base as usize <= address {
            low = middle + 1;
        } else {
            high = middle;
        }
    }
    Ok(low)
}

/// Entry `index`, read whole: `Some` of whether the slot of `address` is flagged when
/// the entry covers it, else `None`.
fn entry_answer(data: &[u8], entries: usize, index: usize, address: usize) -> (r: Result<Option<bool>, Error>)
    requires
        entries <= data@.len(),
    ensures
        r is Ok <==> entries + 8 * index + 8 <= data@.len(),
        r matches Ok(v) ==> (v is Some <==> covers(data@, entries as int, index as int, address as int)),
        r matches Ok(v) ==> (v matches Some(f) ==> f == flagged(data@, entries as int, index as int, address as int)),
        r matches Err(e) ==> e.kind == ErrorKind::UnexpectedEof,
{
    let len = data.len();
    if index >= (len - entries) / 8 {
        return Err(crate::error::eof("EVFL relocation entry is truncated"));
    }
    let reader = BinaryReader::new(data);
    let at = entries + index * 8;
    let base = reader.read_u32_at(at)? as usize;
    let flags = reader.read_u32_at(at + 4)?;
    assert(base == entry_base(data@, entries as int, index as int));
    assert(flags == entry_flags(data@, entries as int, index as int));
    if address >= base && address - base < 256 && (address - base) % 8 == 0 {
        let shift = ((address - base) / 8) as u32;
        Ok(Some(flags & (1u32 << shift) != 0))
    } else {
        Ok(None)
    }
}

/// Whether the pointer slot at `address` of an EVFL file is listed in its relocation
/// table: a binary search by base address, then a check of the two entries before
/// where it ends.
pub fn is_relocated_pointer(data: &[u8], address: usize) -> (r: Result<bool, Error>)
    ensures
        r is Ok <==> lookup_ok(data@, address as int),
        r matches Ok(v) ==> v == relocated(data@, address as int),
        r matches Err(e) ==> e.kind == ErrorKind::UnexpectedEof,
{
    let reader = BinaryReader::new(data);
    let len = data.len();
    let relocation = reader.read_u32_at(24)? as usize;
    assert(relocation as int == w32(data@, 24));
    if relocation > len || len - relocation < 40 {
        return Err(crate::error::eof("EVFL relocation table is truncated"));
    }
    let count = reader.read_u32_at(relocation + 36)? as usize;
    assert(count as int == w32(data@, relocation + 36));
    let entries = relocation + 40;
    let low = search_entries(data, entries, count, address)?;
    let first = if low >= 2 {
        low - 2
    } else {
        0
    };
    if first < low {
        if let Some(flag) = entry_answer(data, entries, first, address)? {
            return Ok(flag);
        }
        if first + 1 < low {
            if let Some(flag) = entry_answer(data, entries, first + 1, address)? {
                return Ok(flag);
            }
        }
    }
    Ok(false)
}

} // verus!
