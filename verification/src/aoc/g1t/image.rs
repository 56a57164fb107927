use vstd::prelude::*;
use vstd::string::StringExecFns;
use crate::error::{invalid, Error, ErrorKind};

verus! {

/// An 8-bit RGBA image: its size and its pixels, row by row, four bytes each.
pub struct RgbaImage {
    pub width: u32,
    pub height: u32,
    pub pixels: Vec<u8>,
}

impl RgbaImage {
    /// Whether the pixel buffer holds exactly one RGBA quadruple per pixel.
    pub open spec fn wf(&self) -> bool {
        self.pixels@.len() == 4 * (self.width * self.height)
    }
}

/// Whether an image with these pixels is worth showing: more than one pixel, and some
/// pixel that is not transparent and not black.
pub open spec fn renderable(width: u32, height: u32, pixels: Seq<u8>) -> bool {
    &&& width * height > 1
    &&& exists|p: int|
        0 <= p < width * height && #[trigger] pixels[4 * p + 3] != 0 && (pixels[4 * p] != 0
            || pixels[4 * p + 1] != 0 || pixels[4 * p + 2] != 0)
}

/// Whether the image is worth showing: more than one pixel, and some pixel that is
/// neither transparent nor black.
pub fn is_renderable_texture(image: &RgbaImage) -> (r: bool)
    requires
        image.wf(),
    ensures
        r == renderable(image.width, image.height, image.pixels@),
{
    let ghost wh: int = image.width * image.height;
    assert((image.width as u64) * (image.height as u64) <= u64::MAX) by (nonlinear_arith)
        requires
            image.width <= u32::MAX,
            image.height <= u32::MAX,
    ;
    let count = (image.width as u64) * (image.height as u64);
    assert(count == wh);
    if count <= 1 {
        return false;
    }
    let px = &image.pixels;
    let len = px.len();
    assert(len == 4 * wh);
    let n = len / 4;
    assert(n == wh);
    let mut p: usize = 0;
    while p < n
        invariant
            n == wh,
            wh > 1,
            px@ == image.pixels@,
            wh == image.width * image.height,
            len == px@.len(),
            len == 4 * n,
            p <= n,
            forall|q: int|
                0 <= q < p ==> !(#[trigger] px@[4 * q + 3] != 0 && (px@[4 * q] != 0 || px@[4 * q + 1]
                    != 0 || px@[4 * q + 2] != 0)),
        decreases n - p,
    {
        if px[4 * p + 3] != 0 && (px[4 * p] != 0 || px[4 * p + 1] != 0 || px[4 * p + 2] != 0) {
            assert(px@[4 * (p as int) + 3] != 0);
            return true;
        }
        p = p + 1;
    }
    false
}

/// The standard base64 digit for `v`, `0 <= v < 64`.
pub open spec fn base64_digit(v: int) -> char {
    if v < 26 {
        (65 + v) as char
    } else if v < 52 {
        (71 + v) as char
    } else if v < 62 {
        (v - 4) as char
    } else if v == 62 {
        '+'
    } else {
        '/'
    }
}

/// The standard base64 alphabet: digits 0 to 25 are `A` to `Z`, 26 to 51 `a` to `z`,
/// 52 to 61 `0` to `9`, 62 is `+` and 63 is `/`; no two digits share a character.
pub proof fn lemma_base64_alphabet(v: int, w: int)
    requires
        0 <= v < w < 64,
    ensures
        base64_digit(0) == 'A' && base64_digit(25) == 'Z',
        base64_digit(26) == 'a' && base64_digit(51) == 'z',
        base64_digit(52) == '0' && base64_digit(61) == '9',
        base64_digit(62) == '+' && base64_digit(63) == '/',
        v < 26 ==> 'A' <= base64_digit(v) <= 'Z',
        26 <= v < 52 ==> 'a' <= base64_digit(v) <= 'z',
        52 <= v < 62 ==> '0' <= base64_digit(v) <= '9',
        base64_digit(v) != base64_digit(w),
{
}

/// The standard, padded base64 text of `b`: each group of three bytes as four digits,
/// a final group of one or two bytes padded with `=`.
pub open spec fn base64_of(b: Seq<u8>) -> Seq<char>
    decreases b.len(),
{
    if b.len() == 0 {
        Seq::empty()
    } else if b.len() == 1 {
        seq![base64_digit((b[0] / 4) as int), base64_digit((b[0] % 4) * 16), '=', '=']
    } else if b.len() == 2 {
        seq![
            base64_digit((b[0] / 4) as int),
            base64_digit((b[0] % 4) * 16 + b[1] / 16),
            base64_digit((b[1] % 16) * 4),
            '=',
        ]
    } else {
        seq![
            base64_digit((b[0] / 4) as int),
            base64_digit((b[0] % 4) * 16 + b[1] / 16),
            base64_digit((b[1] % 16) * 4 + b[2] / 64),
            base64_digit((b[2] % 64) as int),
        ] + base64_of(b.skip(3))
    }
}

/// Calls `base64::Engine::encode` with the standard engine: per the crate's
/// documentation, the standard alphabet with `=` padding.
#[verifier::external_body]
fn base64_encode(bytes: &[u8]) -> (s: String)
    ensures
        s@ == base64_of(bytes@),
{
    base64::Engine::encode(&base64::engine::general_purpose::STANDARD, bytes)
}

/// The PNG file the `image` crate's encoder writes for an RGBA image.
pub uninterp spec fn png_encoding(width: u32, height: u32, rgba: Seq<u8>) -> Seq<u8>;

/// Calls `image::ImageEncoder::write_image` on a `PngEncoder` writing to a vector. Its
/// output is named by `png_encoding`. The encoder reports an error only for a zero
/// width or height (the `png` writer's header check), and then this gives `None`; it
/// panics on a buffer that is not four bytes per pixel, which `requires` leaves out.
#[verifier::external_body]
fn encode_png(width: u32, height: u32, rgba: &[u8]) -> (r: Option<Vec<u8>>)
    requires
        rgba@.len() == 4 * (width * height),
    ensures
        (width != 0 && height != 0) <==> r is Some,
        r matches Some(v) ==> v@ == png_encoding(width, height, rgba@),
{
    let mut out: Vec<u8> = Vec::new();
    let encoder = image::codecs::png::PngEncoder::new(&mut out);
    match image::ImageEncoder::write_image(encoder, rgba, width, height, image::ExtendedColorType::Rgba8) {
        Ok(()) => Some(out),
        Err(_) => None,
    }
}

/// The prefix of a PNG data URL.
pub open spec fn png_url_prefix() -> Seq<char> {
    "data:image/png;base64,"@
}

/// The `data:` URL of an RGBA image: the base64 text of its PNG encoding.
pub open spec fn png_url(width: u32, height: u32, rgba: Seq<u8>) -> Seq<char> {
    png_url_prefix() + base64_of(png_encoding(width, height, rgba))
}

/// A `data:` URL holding the image as a base64 PNG; fails with `InvalidData` when the
/// encoder fails, which it does for an image with no pixels.
pub fn png_data_url(image: &RgbaImage) -> (r: Result<String, Error>)
    requires
        image.wf(),
    ensures
        r is Ok <==> image.width != 0 && image.height != 0,
        r matches Ok(s) ==> s@ == png_url(image.width, image.height, image.pixels@),
        r matches Err(e) ==> e.kind == ErrorKind::InvalidData,
{
    let png = match encode_png(image.width, image.height, image.pixels.as_slice()) {
        Some(v) => v,
        None => return Err(invalid("PNG encoding failed")),
    };
    let encoded = base64_encode(png.as_slice());
    let url = String::from_str("data:image/png;base64,");
    Ok(url.concat(encoded.as_str()))
}

/// Base64 text is four digits for every started group of three bytes.
pub proof fn lemma_base64_length(b: Seq<u8>)
    ensures
        base64_of(b).len() == 4 * ((b.len() + 2) / 3),
    decreases b.len(),
{
    if b.len() >= 3 {
        lemma_base64_length(b.skip(3));
    }
}

} // verus!
