use vstd::prelude::*;
use crate::binary::{u32_at, BinaryReader, Endian};
use crate::error::{eof, invalid, Error, ErrorKind};

verus! {

/// The header of one texture entry.
#[derive(Clone, Copy, Debug, PartialEq, Eq, Structural)]
pub struct G1tTextureHeader {
    pub mip_count: u8,
    pub texture_type: u8,
    pub width: u32,
    pub height: u32,
    pub payload_start: usize,
}

/// The mip count and the two size exponents packed in a texture header, whose nibble
/// order depends on the byte order.
pub open spec fn packed_fields(mip_byte: u8, dims: u8, e: Endian) -> (u8, u8, u8) {
    match e {
        Endian::Little => (mip_byte >> 4u8, dims & 0x0fu8, dims >> 4u8),
        Endian::Big => (mip_byte & 0x0fu8, dims >> 4u8, dims & 0x0fu8),
    }
}

/// The header of the texture entry `t`, if it is valid: a non-zero mip count, size
/// exponents of at most 30, and, when the extension flag at byte 7 is set, an extended
/// header of 12, 16 or 20 bytes that fits, whose words at 20 and 24 override the width
/// and height when present.
pub open spec fn texture_header_of(t: Seq<u8>, e: Endian) -> Option<G1tTextureHeader> {
    if t.len() < 8 {
        None
    } else {
        let (mip, dx, dy) = packed_fields(t[0], t[2], e);
        if mip == 0 || dx > 30 || dy > 30 {
            None
        } else if t[7] == 0 {
            Some(G1tTextureHeader {
                mip_count: mip,
                texture_type: t[1],
                width: 1u32 << dx,
                height: 1u32 << dy,
                payload_start: 8,
            })
        } else if t.len() < 12 {
            None
        } else {
            let size = u32_at(t, 8, e);
            if !(size == 12 || size == 16 || size == 20) || size > t.len() - 8 {
                None
            } else {
                Some(G1tTextureHeader {
                    mip_count: mip,
                    texture_type: t[1],
                    width: if size >= 16 { u32_at(t, 20, e) } else { 1u32 << dx },
                    height: if size >= 20 { u32_at(t, 24, e) } else { 1u32 << dy },
                    payload_start: (8 + size) as usize,
                })
            }
        }
    }
}

/// Reads the header of a texture entry; fails with `UnexpectedEof` or `InvalidData`
/// when it is not valid.
pub fn read_texture_header(entry: &[u8], endian: Endian) -> (r: Result<G1tTextureHeader, Error>)
    ensures
        r is Ok <==> texture_header_of(entry@, endian) is Some,
        r matches Ok(h) ==> texture_header_of(entry@, endian) == Some(h),
        r matches Err(e) ==> e.kind == ErrorKind::UnexpectedEof || e.kind == ErrorKind::InvalidData,
{
    if entry.len() < 8 {
        return Err(eof("G1T texture header is truncated"));
    }
    let mip_byte = entry[0];
    let texture_type = entry[1];
    let dimensions = entry[2];
    let extra_header_version = entry[7];
    let (mip_count, dx, dy) = match endian {
        Endian::Little => (mip_byte >> 4u8, dimensions & 0x0fu8, dimensions >> 4u8),
        Endian::Big => (mip_byte & 0x0fu8, dimensions >> 4u8, dimensions & 0x0fu8),
    };
    if mip_count == 0 || dx > 30 || dy > 30 {
        return Err(invalid("invalid G1T dimensions or mip count"));
    }
    let mut width = 1u32 << dx;
    let mut height = 1u32 << dy;
    let mut payload_start: usize = 8;
    if extra_header_version > 0 {
        let reader = BinaryReader::with_endian(entry, endian);
        let size = reader.read_u32_at(8)? as usize;
        if !(size == 12 || size == 16 || size == 20) || size > entry.len() - 8 {
            return Err(invalid("unsupported G1T extended header"));
        }
        if size >= 16 {
            width = reader.read_u32_at(20)?;
        }
        if size >= 20 {
            height = reader.read_u32_at(24)?;
        }
        payload_start = 8 + size;
    }
    Ok(G1tTextureHeader { mip_count, texture_type, width, height, payload_start })
}

/// The number of binary digits of `v`: 0 for 0.
pub open spec fn bit_length(v: nat) -> nat
    decreases v,
{
    if v == 0 {
        0
    } else {
        1 + bit_length(v / 2)
    }
}

/// The number of binary digits of `v`.
pub fn bit_len(v: u32) -> (n: u8)
    ensures
        n == bit_length(v as nat),
        n <= 32,
{
    let mut rest = v;
    let mut n: u8 = 0;
    proof {
        assert(pow2_nat(32) == 0x1_0000_0000nat) by {
            reveal_with_fuel(pow2_nat, 33);
        }
        lemma_bit_length_bound(v as nat, 32);
    }
    while rest > 0
        invariant
            bit_length(v as nat) == n + bit_length(rest as nat),
            bit_length(rest as nat) + n <= 32,
        decreases rest,
    {
        rest = rest / 2;
        n = n + 1;
    }
    n
}

proof fn lemma_bit_length_bound(v: nat, k: nat)
    requires
        v < pow2_nat(k),
    ensures
        bit_length(v) <= k,
    decreases k,
{
    if v > 0 {
        assert(k > 0);
        assert(v / 2 < pow2_nat((k - 1) as nat));
        lemma_bit_length_bound(v / 2, (k - 1) as nat);
    }
}

/// Two to the power `k`.
pub open spec fn pow2_nat(k: nat) -> nat
    decreases k,
{
    if k == 0 {
        1
    } else {
        2 * pow2_nat((k - 1) as nat)
    }
}

/// The number of mip levels worth decoding: at most one per binary digit of the
/// larger side, since levels past a 1x1 image repeat it.
pub open spec fn decode_mips(h: G1tTextureHeader) -> u8 {
    let m = if h.width > h.height { h.width } else { h.height };
    if (h.mip_count as nat) < bit_length(m as nat) {
        h.mip_count
    } else {
        bit_length(m as nat) as u8
    }
}

} // verus!
