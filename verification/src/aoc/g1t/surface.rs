use vstd::prelude::*;
use crate::aoc::g1t::archive::{table_entries, TableEntry, archive_endian, archive_error, entries_from, header_ok, table_ok};
use crate::aoc::g1t::format::{
    chain_computable, chain_size, format_for_type, format_of_type, mip_chain_size, TextureFormat,
};
use crate::aoc::g1t::header::{bit_len, decode_mips, read_texture_header, texture_header_of, G1tTextureHeader};
use crate::binary::Endian;
use crate::error::{invalid, Error, ErrorKind};

verus! {

/// Where a texture's pixel data lies and how it is laid out, without decoding it.
#[derive(Clone, Copy, Debug, PartialEq, Eq, Structural)]
pub struct G1tTextureSurface {
    pub index: usize,
    pub width: u32,
    pub height: u32,
    pub mip_count: u8,
    pub texture_type: u8,
    pub array_count: u32,
    pub data_offset: usize,
    pub layer_stride: usize,
}

/// A layer count limited to between 1 and 256.
pub open spec fn clamp_layers(n: int) -> int {
    if n < 1 {
        1
    } else if n > 256 {
        256
    } else {
        n
    }
}

/// The number of levels of a texture that are worth decoding.
pub fn decode_mip_count_of(h: G1tTextureHeader) -> (n: u8)
    ensures
        n == decode_mips(h),
{
    let m = if h.width > h.height {
        h.width
    } else {
        h.height
    };
    let bits = bit_len(m);
    if h.mip_count < bits {
        h.mip_count
    } else {
        bits
    }
}

/// The surface of the texture entry `t` at `start`, if it can be laid out: a valid
/// header and known type, chain sizes that can be computed, and a layer stride that
/// is the whole chain, or the decodable part of it, when either divides the payload,
/// else the decodable part when the payload holds it. A stride of zero is refused.
pub open spec fn surface_of(index: usize, start: int, t: Seq<u8>, e: Endian) -> Option<
    G1tTextureSurface,
> {
    match texture_header_of(t, e) {
        None => None,
        Some(h) => match format_of_type(h.texture_type) {
            None => None,
            Some(f) => {
                let dm = decode_mips(h);
                let plen = t.len() - h.payload_start;
                if !chain_computable(f, h.width as int, h.height as int, dm as nat)
                    || !chain_computable(f, h.width as int, h.height as int, h.mip_count as nat) {
                    None
                } else {
                    let decode = chain_size(f, h.width as int, h.height as int, dm as nat);
                    let full = chain_size(f, h.width as int, h.height as int, h.mip_count as nat);
                    let stride = if full > 0 && plen % full == 0 {
                        full
                    } else if decode > 0 && plen % decode == 0 {
                        decode
                    } else if plen >= decode {
                        decode
                    } else {
                        0
                    };
                    if stride <= 0 {
                        None
                    } else {
                        Some(
                            G1tTextureSurface {
                                index,
                                width: h.width,
                                height: h.height,
                                mip_count: h.mip_count,
                                texture_type: h.texture_type,
                                array_count: clamp_layers(plen / stride) as u32,
                                data_offset: (start + h.payload_start) as usize,
                                layer_stride: stride as usize,
                            },
                        )
                    }
                }
            },
        },
    }
}

/// Lays out the texture entry `entry`, found at `entry_offset` of its archive; fails
/// when `surface_of` gives none.
pub fn parse_surface(
    index: usize,
    entry_offset: usize,
    entry: &[u8],
    endian: Endian,
    _preview_layers_only: bool,
) -> (r: Result<G1tTextureSurface, Error>)
    requires
        entry_offset + entry@.len() <= usize::MAX,
    ensures
        r is Ok <==> surface_of(index, entry_offset as int, entry@, endian) is Some,
        r matches Ok(s) ==> surface_of(index, entry_offset as int, entry@, endian) == Some(s),
        r matches Err(e) ==> e.kind == ErrorKind::UnexpectedEof || e.kind == ErrorKind::InvalidData,
{
    let header = read_texture_header(entry, endian)?;
    let format = format_for_type(header.texture_type)?;
    let plen = entry.len() - header.payload_start;
    let dm = decode_mip_count_of(header);
    let decode = match mip_chain_size(format, header.width, header.height, dm) {
        Some(v) => v,
        None => return Err(invalid("G1T texture size overflows")),
    };
    let full = match mip_chain_size(format, header.width, header.height, header.mip_count) {
        Some(v) => v,
        None => return Err(invalid("G1T texture size overflows")),
    };
    let stride = if full > 0 && plen % full == 0 {
        full
    } else if decode > 0 && plen % decode == 0 {
        decode
    } else if plen >= decode {
        decode
    } else {
        return Err(invalid("truncated G1T texture payload"));
    };
    if stride == 0 {
        return Err(invalid("G1T texture has an empty layer"));
    }
    let layers = plen / stride;
    let array_count: u32 = if layers < 1 {
        1
    } else if layers > 256 {
        256
    } else {
        layers as u32
    };
    Ok(G1tTextureSurface {
        index,
        width: header.width,
        height: header.height,
        mip_count: header.mip_count,
        texture_type: header.texture_type,
        array_count,
        data_offset: entry_offset + header.payload_start,
        layer_stride: stride,
    })
}

/// The surfaces of the entries, in order, leaving out those that cannot be laid out.
pub open spec fn surfaces_of(b: Seq<u8>, entries: Seq<TableEntry>, e: Endian) -> Seq<
    G1tTextureSurface,
>
    decreases entries.len(),
{
    if entries.len() == 0 {
        Seq::empty()
    } else {
        let rest = surfaces_of(b, entries.drop_last(), e);
        let en = entries.last();
        match surface_of(en.index, en.start as int, b.subrange(en.start as int, en.end as int), e) {
            Some(s) => rest.push(s),
            None => rest,
        }
    }
}

/// Whether every entry lies within the input.
pub open spec fn entries_in(b: Seq<u8>, entries: Seq<TableEntry>) -> bool {
    forall|k: int|
        #![trigger entries[k]]
        0 <= k < entries.len() ==> entries[k].start <= entries[k].end && entries[k].end <= b.len()
}

pub(crate) proof fn lemma_entries_in(b: Seq<u8>, i: int)
    requires
        header_ok(b),
        table_ok(b),
        0 <= i,
        b.len() <= usize::MAX,
    ensures
        entries_in(b, entries_from(b, i)),
    decreases crate::aoc::g1t::archive::header_word(b, 2) - i,
{
    if i < crate::aoc::g1t::archive::header_word(b, 2) {
        lemma_entries_in(b, i + 1);
        if !crate::aoc::g1t::archive::entry_skipped(b, i) {
            let s = entries_from(b, i);
            let r = entries_from(b, i + 1);
            assert forall|k: int| #![trigger s[k]] 0 <= k < s.len() implies s[k].start <= s[k].end && s[k].end <= b.len() by {
                if k > 0 {
                    assert(s[k] == r[k - 1]);
                } else {
                    assert(!crate::aoc::g1t::archive::entry_skipped(b, i));
                    assert(crate::aoc::g1t::archive::entry_start(b, i) <= b.len());
                }
            }
            assert(entries_in(b, s));
        } else {
            assert(entries_from(b, i) == entries_from(b, i + 1));
        }
    } else {
        assert(entries_from(b, i).len() == 0);
    }
}

/// The surfaces of every texture of a G1T archive that can be laid out.
pub fn parse_surfaces_internal(data: &[u8]) -> (r: Result<Vec<G1tTextureSurface>, Error>)
    ensures
        r is Ok <==> header_ok(data@) && table_ok(data@),
        r matches Ok(v) ==> v@ == surfaces_of(data@, entries_from(data@, 0), archive_endian(data@)->Some_0),
        r matches Err(e) ==> e.kind == archive_error(data@),
{
    let ghost b = data@;
    let (endian, entries) = table_entries(data)?;
    let n = data.len();
    proof {
        lemma_entries_in(b, 0);
    }
    let mut surfaces: Vec<G1tTextureSurface> = Vec::new();
    let mut k: usize = 0;
    while k < entries.len()
        invariant
            b == data@,
            k <= entries@.len(),
            entries_in(b, entries@),
            surfaces@ == surfaces_of(b, entries@.subrange(0, k as int), endian),
        decreases entries@.len() - k,
    {
        let en = entries[k];
        assert(en.start <= en.end <= b.len());
        let entry = &data[en.start..en.end];
        let found = parse_surface(en.index, en.start, entry, endian, false);
        assert(entries@.subrange(0, k + 1).drop_last() =~= entries@.subrange(0, k as int));
        if let Ok(surface) = found {
            surfaces.push(surface);
        }
        k = k + 1;
    }
    assert(entries@.subrange(0, k as int) =~= entries@);
    Ok(surfaces)
}

} // verus!
