use vstd::prelude::*;
use crate::binary::{encode_u32, BinaryWriter, Endian};
use crate::error::{invalid, Error, ErrorKind};

verus! {

/// The pixel encodings a G1T texture can use.
#[derive(Clone, Copy, Debug, PartialEq, Eq, Structural)]
pub enum TextureFormat {
    Rgba8,
    Rgba32Float,
    Bc1,
    Bc3,
    Bc4,
    Bc5,
    Bc6,
    Bc7,
}

/// The block edge in pixels and the bytes per block of a format.
pub open spec fn block_of(f: TextureFormat) -> (u32, u32) {
    match f {
        TextureFormat::Rgba8 => (1, 4),
        TextureFormat::Rgba32Float => (1, 16),
        TextureFormat::Bc1 | TextureFormat::Bc4 => (4, 8),
        _ => (4, 16),
    }
}

/// The DXGI format code a format is written with in a DX10 header, if it needs one.
pub open spec fn dxgi_of(f: TextureFormat, srgb: bool) -> Option<u32> {
    match f {
        TextureFormat::Rgba32Float => Some(2),
        TextureFormat::Bc5 => Some(83),
        TextureFormat::Bc6 => Some(95),
        TextureFormat::Bc7 => Some(if srgb { 99u32 } else { 98u32 }),
        _ => None,
    }
}

/// The four-character code of a format that has one.
pub open spec fn fourcc_of(f: TextureFormat) -> Option<Seq<u8>> {
    match f {
        TextureFormat::Bc1 => Some(seq![0x44u8, 0x58u8, 0x54u8, 0x31u8]),
        TextureFormat::Bc3 => Some(seq![0x44u8, 0x58u8, 0x54u8, 0x35u8]),
        TextureFormat::Bc4 => Some(seq![0x41u8, 0x54u8, 0x49u8, 0x31u8]),
        _ => None,
    }
}

/// The format of a G1T texture type byte, if it is a known one.
pub open spec fn format_of_type(t: u8) -> Option<TextureFormat> {
    if t == 0x00 || t == 0x01 || t == 0x02 || t == 0x21 {
        Some(TextureFormat::Rgba8)
    } else if t == 0x04 {
        Some(TextureFormat::Rgba32Float)
    } else if t == 0x06 || t == 0x59 {
        Some(TextureFormat::Bc1)
    } else if t == 0x08 || t == 0x5b {
        Some(TextureFormat::Bc3)
    } else if t == 0x5c {
        Some(TextureFormat::Bc4)
    } else if t == 0x5d {
        Some(TextureFormat::Bc5)
    } else if t == 0x5e {
        Some(TextureFormat::Bc6)
    } else if t == 0x5f || t == 0x72 {
        Some(TextureFormat::Bc7)
    } else {
        None
    }
}

/// How a G1T texture of type byte `t` is encoded: the block edge and bytes per block,
/// and the DDS four-character or DXGI code its layers are decoded under. Types 0x00,
/// 0x01, 0x02 and 0x21 are 8-bit RGBA pixels; 0x04 is four 32-bit floats per pixel;
/// 0x06 and 0x59 are 8-byte DXT1 blocks; 0x08 and 0x5b are 16-byte DXT5 blocks; 0x5c is
/// 8-byte ATI1 blocks; 0x5d, 0x5e, 0x5f and 0x72 are 16-byte blocks of DXGI formats 83
/// (BC5), 95 (BC6H) and 98 or 99 (BC7); no other type is known.
pub proof fn lemma_texture_type_encodings(t: u8)
    ensures
        t == 0x00 || t == 0x01 || t == 0x02 || t == 0x21 ==> (format_of_type(t) matches Some(f) && block_of(f)
            == (1u32, 4u32) && fourcc_of(f) is None && dxgi_of(f, false) is None),
        t == 0x04 ==> (format_of_type(t) matches Some(f) && block_of(f) == (1u32, 16u32) && fourcc_of(f) is None
            && dxgi_of(f, false) == Some(2u32)),
        t == 0x06 || t == 0x59 ==> (format_of_type(t) matches Some(f) && block_of(f) == (4u32, 8u32) && fourcc_of(f)
            == Some(seq![0x44u8, 0x58u8, 0x54u8, 0x31u8])),
        t == 0x08 || t == 0x5b ==> (format_of_type(t) matches Some(f) && block_of(f) == (4u32, 16u32) && fourcc_of(f)
            == Some(seq![0x44u8, 0x58u8, 0x54u8, 0x35u8])),
        t == 0x5c ==> (format_of_type(t) matches Some(f) && block_of(f) == (4u32, 8u32) && fourcc_of(f) == Some(
            seq![0x41u8, 0x54u8, 0x49u8, 0x31u8],
        )),
        t == 0x5d ==> (format_of_type(t) matches Some(f) && block_of(f) == (4u32, 16u32) && fourcc_of(f) is None
            && dxgi_of(f, false) == Some(83u32)),
        t == 0x5e ==> (format_of_type(t) matches Some(f) && block_of(f) == (4u32, 16u32) && fourcc_of(f) is None
            && dxgi_of(f, false) == Some(95u32)),
        t == 0x5f || t == 0x72 ==> (format_of_type(t) matches Some(f) && block_of(f) == (4u32, 16u32) && fourcc_of(f)
            is None && dxgi_of(f, false) == Some(98u32) && dxgi_of(f, true) == Some(99u32)),
        format_of_type(t) is Some <==> (t == 0x00 || t == 0x01 || t == 0x02 || t == 0x21 || t == 0x04 || t == 0x06
            || t == 0x59 || t == 0x08 || t == 0x5b || t == 0x5c || t == 0x5d || t == 0x5e || t == 0x5f || t == 0x72),
{
}

/// Type bytes that name the same encoding give the same format, and each format has
/// exactly the type bytes listed: two for DXT1, DXT5 and BC7 blocks, four for RGBA
/// pixels, one for each other format.
pub proof fn lemma_texture_type_codes(t: u8)
    ensures
        format_of_type(t) == Some(TextureFormat::Rgba8) <==> (t == 0x00 || t == 0x01 || t == 0x02 || t == 0x21),
        format_of_type(t) == Some(TextureFormat::Rgba32Float) <==> t == 0x04,
        format_of_type(t) == Some(TextureFormat::Bc1) <==> (t == 0x06 || t == 0x59),
        format_of_type(t) == Some(TextureFormat::Bc3) <==> (t == 0x08 || t == 0x5b),
        format_of_type(t) == Some(TextureFormat::Bc4) <==> t == 0x5c,
        format_of_type(t) == Some(TextureFormat::Bc5) <==> t == 0x5d,
        format_of_type(t) == Some(TextureFormat::Bc6) <==> t == 0x5e,
        format_of_type(t) == Some(TextureFormat::Bc7) <==> (t == 0x5f || t == 0x72),
        format_of_type(0x59) == format_of_type(0x06),
        format_of_type(0x5b) == format_of_type(0x08),
        format_of_type(0x72) == format_of_type(0x5f),
{
}

impl TextureFormat {
    /// The block edge and bytes per block.
    pub fn block(self) -> (r: (u32, u32))
        ensures
            r == block_of(self),
    {
        match self {
            TextureFormat::Rgba8 => (1, 4),
            TextureFormat::Rgba32Float => (1, 16),
            TextureFormat::Bc1 | TextureFormat::Bc4 => (4, 8),
            TextureFormat::Bc3 | TextureFormat::Bc5 | TextureFormat::Bc6 | TextureFormat::Bc7 => (
                4,
                16,
            ),
        }
    }

    /// The DXGI code of the format, for formats written with a DX10 header.
    pub fn dxgi(self, srgb: bool) -> (r: Option<u32>)
        ensures
            r == dxgi_of(self, srgb),
    {
        match self {
            TextureFormat::Rgba32Float => Some(2),
            TextureFormat::Bc5 => Some(83),
            TextureFormat::Bc6 => Some(95),
            TextureFormat::Bc7 => Some(
                if srgb {
                    99
                } else {
                    98
                },
            ),
            _ => None,
        }
    }

    /// The four-character code of the format, for formats that have one.
    pub fn fourcc(self) -> (r: Option<[u8; 4]>)
        ensures
            r is Some <==> fourcc_of(self) is Some,
            r matches Some(c) ==> c@ == fourcc_of(self)->Some_0,
    {
        match self {
            TextureFormat::Bc1 => {
                let c: [u8; 4] = [0x44, 0x58, 0x54, 0x31];
                assert(c@ =~= fourcc_of(self)->Some_0);
                Some(c)
            },
            TextureFormat::Bc3 => {
                let c: [u8; 4] = [0x44, 0x58, 0x54, 0x35];
                assert(c@ =~= fourcc_of(self)->Some_0);
                Some(c)
            },
            TextureFormat::Bc4 => {
                let c: [u8; 4] = [0x41, 0x54, 0x49, 0x31];
                assert(c@ =~= fourcc_of(self)->Some_0);
                Some(c)
            },
            _ => None,
        }
    }
}

/// The format of a texture type byte; fails with `InvalidData` for an unknown type.
pub fn format_for_type(texture_type: u8) -> (r: Result<TextureFormat, Error>)
    ensures
        r is Ok <==> format_of_type(texture_type) is Some,
        r matches Ok(f) ==> format_of_type(texture_type) == Some(f),
        r matches Err(e) ==> e.kind == ErrorKind::InvalidData,
{
    let t = texture_type;
    if t == 0x00 || t == 0x01 || t == 0x02 || t == 0x21 {
        Ok(TextureFormat::Rgba8)
    } else if t == 0x04 {
        Ok(TextureFormat::Rgba32Float)
    } else if t == 0x06 || t == 0x59 {
        Ok(TextureFormat::Bc1)
    } else if t == 0x08 || t == 0x5b {
        Ok(TextureFormat::Bc3)
    } else if t == 0x5c {
        Ok(TextureFormat::Bc4)
    } else if t == 0x5d {
        Ok(TextureFormat::Bc5)
    } else if t == 0x5e {
        Ok(TextureFormat::Bc6)
    } else if t == 0x5f || t == 0x72 {
        Ok(TextureFormat::Bc7)
    } else {
        Err(invalid("unsupported G1T texture type"))
    }
}

/// `n / d` rounded up.
pub open spec fn ceil_div(n: int, d: int) -> int {
    (n + d - 1) / d
}

/// The bytes of one mip level of `w` by `h` pixels: whole blocks in each direction,
/// a dimension of zero counting as one.
pub open spec fn level_size(f: TextureFormat, w: int, h: int) -> int {
    let (block, bytes) = block_of(f);
    ceil_div(if w < 1 { 1 } else { w }, block as int) * ceil_div(if h < 1 { 1 } else { h }, block as int)
        * bytes
}

/// The bytes of `n` mip levels starting at `w` by `h`, each level halving both sides.
pub open spec fn chain_size(f: TextureFormat, w: int, h: int, n: nat) -> int
    decreases n,
{
    if n == 0 {
        0
    } else {
        level_size(f, w, h) + chain_size(f, w / 2, h / 2, (n - 1) as nat)
    }
}

/// Whether every level of such a chain has a size that fits in 32 bits.
pub open spec fn chain_levels_fit(f: TextureFormat, w: int, h: int, n: nat) -> bool
    decreases n,
{
    n == 0 || (level_size(f, w, h) <= u32::MAX && chain_levels_fit(f, w / 2, h / 2, (n - 1) as nat))
}

/// Whether the size of such a chain can be computed: each level fits in 32 bits and the
/// total in a `usize`.
pub open spec fn chain_computable(f: TextureFormat, w: int, h: int, n: nat) -> bool {
    chain_levels_fit(f, w, h, n) && chain_size(f, w, h, n) <= usize::MAX
}

pub(crate) proof fn lemma_level_size_nonneg(f: TextureFormat, w: int, h: int)
    ensures
        level_size(f, w, h) >= 1,
{
    let (block, bytes) = block_of(f);
    let a = ceil_div(if w < 1 { 1 } else { w }, block as int);
    let c = ceil_div(if h < 1 { 1 } else { h }, block as int);
    assert(a >= 1 && c >= 1);
    assert(a * c >= 1) by (nonlinear_arith)
        requires
            a >= 1,
            c >= 1,
    ;
    assert(a * c * bytes >= 1) by (nonlinear_arith)
        requires
            a * c >= 1,
            bytes >= 1,
    ;
}

pub(crate) proof fn lemma_chain_size_grows(f: TextureFormat, w: int, h: int, n: nat)
    ensures
        chain_size(f, w, h, n) >= n,
    decreases n,
{
    if n > 0 {
        lemma_level_size_nonneg(f, w, h);
        lemma_chain_size_grows(f, w / 2, h / 2, (n - 1) as nat);
    }
}

/// The bytes of one level of `w` by `h`, or `None` when it does not fit in 32 bits.
fn level_bytes(format: TextureFormat, width: u32, height: u32) -> (r: Option<u32>)
    ensures
        r is Some <==> level_size(format, width as int, height as int) <= u32::MAX,
        r matches Some(v) ==> v == level_size(format, width as int, height as int),
{
    let (block, bytes) = format.block();
    let w: u32 = if width < 1 {
        1
    } else {
        width
    };
    let h: u32 = if height < 1 {
        1
    } else {
        height
    };
    assert(block == 1 || block == 4);
    let a = w / block + if w % block == 0 {
        0
    } else {
        1
    };
    let c = h / block + if h % block == 0 {
        0
    } else {
        1
    };
    assert(a == ceil_div(w as int, block as int)) by {
        assert(block == 1 || block == 4);
    }
    assert(c == ceil_div(h as int, block as int)) by {
        assert(block == 1 || block == 4);
    }
    assert((a as u64) * (c as u64) <= u64::MAX) by (nonlinear_arith)
        requires
            a <= u32::MAX,
            c <= u32::MAX,
    ;
    let ac = (a as u64) * (c as u64);
    assert(ac == a * c) by (nonlinear_arith)
        requires
            ac == (a as u64) * (c as u64),
            a <= u32::MAX,
            c <= u32::MAX,
    ;
    if ac > u32::MAX as u64 {
        assert(a * c * bytes > u32::MAX) by (nonlinear_arith)
            requires
                a * c > u32::MAX,
                bytes >= 1,
        ;
        return None;
    }
    let total = ac * (bytes as u64);
    if total > u32::MAX as u64 {
        return None;
    }
    Some(total as u32)
}

/// The bytes of a chain of `mip_count` levels from `width` by `height`, or `None`
/// when a level does not fit in 32 bits or the total in a `usize`.
pub fn mip_chain_size(format: TextureFormat, width: u32, height: u32, mip_count: u8) -> (r: Option<
    usize,
>)
    ensures
        r is Some <==> chain_computable(format, width as int, height as int, mip_count as nat),
        r matches Some(v) ==> v == chain_size(format, width as int, height as int, mip_count as nat),
{
    let ghost full = chain_size(format, width as int, height as int, mip_count as nat);
    let mut total: usize = 0;
    let mut w = width;
    let mut h = height;
    let mut level: u8 = 0;
    proof {
        lemma_chain_size_grows(format, width as int, height as int, mip_count as nat);
    }
    while level < mip_count
        invariant
            level <= mip_count,
            full == chain_size(format, width as int, height as int, mip_count as nat),
            full == total + chain_size(format, w as int, h as int, (mip_count - level) as nat),
            chain_levels_fit(format, width as int, height as int, mip_count as nat)
                <== chain_levels_fit(format, w as int, h as int, (mip_count - level) as nat),
            chain_levels_fit(format, width as int, height as int, mip_count as nat)
                ==> chain_levels_fit(format, w as int, h as int, (mip_count - level) as nat),
            total <= full,
        decreases mip_count - level,
    {
        proof {
            lemma_chain_size_grows(format, w as int, h as int, (mip_count - level) as nat);
        }
        let size = match level_bytes(format, w, h) {
            Some(v) => v,
            None => return None,
        };
        proof {
            lemma_chain_size_grows(format, (w / 2) as int, (h / 2) as int, (mip_count - level - 1) as nat);
        }
        assert(chain_size(format, w as int, h as int, (mip_count - level) as nat) == level_size(
            format,
            w as int,
            h as int,
        ) + chain_size(format, (w / 2) as int, (h / 2) as int, (mip_count - level - 1) as nat));
        total = match total.checked_add(size as usize) {
            Some(v) => v,
            None => {
                assert(total + size > usize::MAX);
                assert(full > usize::MAX);
                return None;
            },
        };
        w = w / 2;
        h = h / 2;
        level = level + 1;
    }
    Some(total)
}

/// The four little-endian bytes of `v`.
pub open spec fn le_word(v: u32) -> Seq<u8> {
    encode_u32(v, Endian::Little)
}

/// `n` zero words.
pub open spec fn zero_words(n: nat) -> Seq<u8> {
    Seq::new(4 * n, |i: int| 0u8)
}

/// The row pitch a DDS header records: whole blocks across times whole blocks down
/// times bytes per block.
pub open spec fn dds_pitch(f: TextureFormat, w: u32, h: u32) -> int {
    ceil_div(w as int, block_of(f).0 as int) * ceil_div(h as int, block_of(f).0 as int) * block_of(
        f,
    ).1
}

/// The bytes `DDS `.
pub open spec fn dds_magic() -> Seq<u8> {
    seq![0x44u8, 0x44u8, 0x53u8, 0x20u8]
}

/// The bytes `DX10`.
pub open spec fn dx10_magic() -> Seq<u8> {
    seq![0x44u8, 0x58u8, 0x31u8, 0x30u8]
}

/// A DDS file holding `payload` as a `w` by `h` texture of `mips` levels: the fixed
/// header fields, then a four-character-code pixel format, or a DX10 extension, or an
/// uncompressed 32-bit RGBA mask format, then the payload.
pub open spec fn dds_file(
    f: TextureFormat,
    w: u32,
    h: u32,
    mips: u8,
    srgb: bool,
    payload: Seq<u8>,
) -> Seq<u8> {
    let common = dds_magic() + le_word(124) + le_word(0x000a_1007) + le_word(h) + le_word(w)
        + le_word(dds_pitch(f, w, h) as u32) + le_word(0) + le_word(mips as u32) + zero_words(11)
        + le_word(32);
    match fourcc_of(f) {
        Some(cc) => common + le_word(4) + cc + zero_words(5) + le_word(0x0040_0008) + zero_words(4)
            + payload,
        None => match dxgi_of(f, srgb) {
            Some(code) => common + le_word(4) + dx10_magic() + zero_words(5) + le_word(0x0040_0008)
                + zero_words(4) + le_word(code) + le_word(3) + le_word(0) + le_word(1) + le_word(0)
                + payload,
            None => common + le_word(0x41) + le_word(0) + le_word(32) + le_word(0x00ff_0000)
                + le_word(0x0000_ff00) + le_word(0x0000_00ff) + le_word(0xff00_0000) + le_word(
                0x0040_0008,
            ) + zero_words(4) + payload,
        },
    }
}

/// Appends `n` zero words.
fn write_zero_words(writer: &mut BinaryWriter, n: usize)
    requires
        old(writer).order() == Endian::Little,
    ensures
        final(writer).bytes() == old(writer).bytes() + zero_words(n as nat),
        final(writer).order() == Endian::Little,
{
    let ghost start = writer.bytes();
    let mut k: usize = 0;
    while k < n
        invariant
            k <= n,
            writer.order() == Endian::Little,
            writer.bytes() == start + zero_words(k as nat),
        decreases n - k,
    {
        writer.write_u32(0);
        assert(encode_u32(0, Endian::Little) =~= seq![0u8, 0u8, 0u8, 0u8]);
        assert(start + zero_words(k as nat) + encode_u32(0, Endian::Little) =~= start + zero_words(
            (k + 1) as nat,
        ));
        k = k + 1;
    }
}

/// A DDS file holding `payload` as a texture of the given format and size.
#[verifier::rlimit(40)]
pub fn make_dds(
    format: TextureFormat,
    width: u32,
    height: u32,
    mips: u8,
    srgb: bool,
    payload: &[u8],
) -> (r: Vec<u8>)
    requires
        dds_pitch(format, width, height) <= u32::MAX,
    ensures
        r@ == dds_file(format, width, height, mips, srgb, payload@),
{
    let mut writer = BinaryWriter::new();
    let magic: [u8; 4] = [0x44, 0x44, 0x53, 0x20];
    assert(magic@ =~= dds_magic());
    writer.write_bytes(&magic);
    writer.write_u32(124);
    writer.write_u32(0x000a_1007);
    writer.write_u32(height);
    writer.write_u32(width);
    let (block, bytes) = format.block();
    assert(block == 1 || block == 4);
    let across = width / block + if width % block == 0 {
        0
    } else {
        1
    };
    let down = height / block + if height % block == 0 {
        0
    } else {
        1
    };
    assert(across == ceil_div(width as int, block as int) && down == ceil_div(height as int, block as int)) by {
        assert(block == 1 || block == 4);
    }
    assert(across * down * bytes == dds_pitch(format, width, height));
    assert(across * down <= u32::MAX) by (nonlinear_arith)
        requires
            across * down * bytes <= u32::MAX,
            bytes >= 1,
            across >= 0,
            down >= 0,
    ;
    let pitch = across * down * bytes;
    writer.write_u32(pitch);
    writer.write_u32(0);
    writer.write_u32(mips as u32);
    write_zero_words(&mut writer, 11);
    writer.write_u32(32);
    match format.fourcc() {
        Some(fourcc) => {
            writer.write_u32(4);
            writer.write_bytes(&fourcc);
            write_zero_words(&mut writer, 5);
        },
        None => match format.dxgi(srgb) {
            Some(dxgi) => {
                writer.write_u32(4);
                let dx10: [u8; 4] = [0x44, 0x58, 0x31, 0x30];
                assert(dx10@ =~= dx10_magic());
                writer.write_bytes(&dx10);
                write_zero_words(&mut writer, 5);
                writer.write_u32(0x0040_0008);
                write_zero_words(&mut writer, 4);
                writer.write_u32(dxgi);
                writer.write_u32(3);
                writer.write_u32(0);
                writer.write_u32(1);
                writer.write_u32(0);
                writer.write_bytes(payload);
                return writer.into_inner();
            },
            None => {
                writer.write_u32(0x41);
                writer.write_u32(0);
                writer.write_u32(32);
                writer.write_u32(0x00ff_0000);
                writer.write_u32(0x0000_ff00);
                writer.write_u32(0x0000_00ff);
                writer.write_u32(0xff00_0000);
            },
        },
    }
    writer.write_u32(0x0040_0008);
    write_zero_words(&mut writer, 4);
    writer.write_bytes(payload);
    writer.into_inner()
}

/// The bytes of mip level `mip_level` of a texture of the given type and size; fails
/// with `InvalidData` for an unknown type.
pub fn texture_mip_size(texture_type: u8, width: u32, height: u32, mip_level: u8) -> (r: Result<
    usize,
    Error,
>)
    requires
        mip_level < 32,
        format_of_type(texture_type) matches Some(f) ==> level_size(
            f,
            (width >> (mip_level as u32)) as int,
            (height >> (mip_level as u32)) as int,
        ) <= u32::MAX,
    ensures
        r is Ok <==> format_of_type(texture_type) is Some,
        r matches Ok(v) ==> v == level_size(
            format_of_type(texture_type)->Some_0,
            (width >> (mip_level as u32)) as int,
            (height >> (mip_level as u32)) as int,
        ),
        r matches Err(e) ==> e.kind == ErrorKind::InvalidData,
{
    let format = format_for_type(texture_type)?;
    let shift = mip_level as u32;
    let size = level_bytes(format, width >> shift, height >> shift).unwrap();
    Ok(size as usize)
}

/// The bytes of levels `0..n` of a texture, each level's sides being the full sides
/// shifted right by the level.
pub open spec fn shifted_chain(f: TextureFormat, w: u32, h: u32, n: nat) -> int
    decreases n,
{
    if n == 0 {
        0
    } else {
        shifted_chain(f, w, h, (n - 1) as nat) + level_size(
            f,
            (w >> ((n - 1) as u32)) as int,
            (h >> ((n - 1) as u32)) as int,
        )
    }
}

/// The bytes of the first `mip_count` levels of a texture, saturating at `usize::MAX`;
/// fails with `InvalidData` for an unknown type.
pub fn texture_chain_size(texture_type: u8, width: u32, height: u32, mip_count: u8) -> (r: Result<
    usize,
    Error,
>)
    requires
        mip_count <= 32,
        format_of_type(texture_type) matches Some(f) ==> forall|m: u32|
            m < mip_count ==> #[trigger] level_size(f, (width >> m) as int, (height >> m) as int)
                <= u32::MAX,
    ensures
        r is Ok <==> mip_count == 0 || format_of_type(texture_type) is Some,
        r matches Ok(v) ==> mip_count == 0 || v == (if shifted_chain(
            format_of_type(texture_type)->Some_0,
            width,
            height,
            mip_count as nat,
        ) > usize::MAX {
            usize::MAX as int
        } else {
            shifted_chain(format_of_type(texture_type)->Some_0, width, height, mip_count as nat)
        }),
        r matches Err(e) ==> e.kind == ErrorKind::InvalidData,
{
    let mut total: usize = 0;
    let mut mip: u8 = 0;
    while mip < mip_count
        invariant
            mip <= mip_count <= 32,
            format_of_type(texture_type) matches Some(f) ==> forall|m: u32|
                m < mip_count ==> #[trigger] level_size(f, (width >> m) as int, (height >> m) as int)
                    <= u32::MAX,
            mip > 0 ==> format_of_type(texture_type) is Some,
            mip > 0 ==> total == (if shifted_chain(
                format_of_type(texture_type)->Some_0,
                width,
                height,
                mip as nat,
            ) > usize::MAX {
                usize::MAX as int
            } else {
                shifted_chain(format_of_type(texture_type)->Some_0, width, height, mip as nat)
            }),
            mip == 0 ==> total == 0,
        decreases mip_count - mip,
    {
        proof {
            if let Some(f) = format_of_type(texture_type) {
                assert(level_size(f, (width >> (mip as u32)) as int, (height >> (mip as u32)) as int)
                    <= u32::MAX);
            }
        }
        let size = texture_mip_size(texture_type, width, height, mip)?;
        total = total.saturating_add(size);
        assert(shifted_chain(format_of_type(texture_type)->Some_0, width, height, (mip + 1) as nat)
            == shifted_chain(format_of_type(texture_type)->Some_0, width, height, mip as nat) + size);
        mip = mip + 1;
    }
    Ok(total)
}

/// The length of the DDS header `make_dds` writes for a format: 148 bytes with a DX10
/// extension, else 128.
pub open spec fn dds_header_len(f: TextureFormat, srgb: bool) -> int {
    if fourcc_of(f) is None && dxgi_of(f, srgb) is Some {
        148
    } else {
        128
    }
}

/// Every DDS file `make_dds` writes starts with `DDS `, holds the payload unchanged after
/// a header of fixed length, and records the width, height and mip count in the header.
pub proof fn lemma_dds_layout(f: TextureFormat, w: u32, h: u32, mips: u8, srgb: bool, payload: Seq<u8>)
    ensures
        dds_file(f, w, h, mips, srgb, payload).len() == dds_header_len(f, srgb) + payload.len(),
        dds_file(f, w, h, mips, srgb, payload).subrange(0, 4) == dds_magic(),
        dds_file(f, w, h, mips, srgb, payload).subrange(12, 16) == le_word(h),
        dds_file(f, w, h, mips, srgb, payload).subrange(16, 20) == le_word(w),
        dds_file(f, w, h, mips, srgb, payload).subrange(28, 32) == le_word(mips as u32),
        dds_file(f, w, h, mips, srgb, payload).subrange(dds_header_len(f, srgb), dds_file(f, w, h, mips, srgb, payload).len() as int) == payload,
{
    let d = dds_file(f, w, h, mips, srgb, payload);
    let n = dds_header_len(f, srgb);
    assert(d.len() == n + payload.len());
    assert(d.subrange(0, 4) =~= dds_magic());
    assert(d.subrange(12, 16) =~= le_word(h));
    assert(d.subrange(16, 20) =~= le_word(w));
    assert(d.subrange(28, 32) =~= le_word(mips as u32));
    assert(d.subrange(n, d.len() as int) =~= payload);
}

} // verus!
