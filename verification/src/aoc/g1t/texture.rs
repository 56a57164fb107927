use vstd::prelude::*;
use crate::aoc::g1t::archive::{
    archive_endian, entries_from, g1t_endian, header_ok, header_word, table_entries, table_ok,
    TableEntry,
};
use crate::aoc::g1t::format::{dds_file,
    block_of, ceil_div, chain_computable, chain_size, dds_pitch, format_for_type, format_of_type,
    level_size, make_dds, mip_chain_size, TextureFormat,
};
use crate::aoc::g1t::header::{decode_mips, read_texture_header, texture_header_of, G1tTextureHeader};
use crate::aoc::g1t::image::{is_renderable_texture, png_data_url, png_url, renderable, RgbaImage};
use crate::aoc::g1t::surface::{clamp_layers, decode_mip_count_of, parse_surfaces_internal, G1tTextureSurface};
use crate::binary::{BinaryReader, Endian};
use crate::error::{eof, invalid, Error, ErrorKind};

verus! {

/// How a texture's layers are laid out in its entry: its header and format, the
/// bytes per layer, the number of layers and the bytes of the top mip level.
#[derive(Clone, Copy, Debug, PartialEq, Eq, Structural)]
pub struct TexturePlan {
    pub header: G1tTextureHeader,
    pub format: TextureFormat,
    pub layer_stride: usize,
    pub array_count: usize,
    pub base_size: usize,
}

/// The layout of the texture entry `t`, if its layers can be decoded: a valid header
/// and known type, chain sizes that can be computed, a payload that holds the
/// decodable levels, a layer stride that is the whole chain, or the decodable part of
/// it, dividing the payload, and a payload that holds the top level.
pub open spec fn plan_of(t: Seq<u8>, e: Endian) -> Option<TexturePlan> {
    match texture_header_of(t, e) {
        None => None,
        Some(h) => match format_of_type(h.texture_type) {
            None => None,
            Some(f) => {
                let dm = decode_mips(h);
                let plen = t.len() - h.payload_start;
                if !chain_computable(f, h.width as int, h.height as int, dm as nat)
                    || !chain_computable(f, h.width as int, h.height as int, h.mip_count as nat) {
                    None
                } else {
                    let decode = chain_size(f, h.width as int, h.height as int, dm as nat);
                    let full = chain_size(f, h.width as int, h.height as int, h.mip_count as nat);
                    let base = chain_size(f, h.width as int, h.height as int, 1);
                    let stride = if full > 0 && plen % full == 0 {
                        full
                    } else if decode > 0 && plen % decode == 0 {
                        decode
                    } else {
                        0
                    };
                    if plen < decode || stride <= 0 || stride < decode || plen < base {
                        None
                    } else {
                        Some(
                            TexturePlan {
                                header: h,
                                format: f,
                                layer_stride: stride as usize,
                                array_count: clamp_layers(plen / stride) as usize,
                                base_size: base as usize,
                            },
                        )
                    }
                }
            },
        },
    }
}

proof fn lemma_chain_prefix(f: TextureFormat, w: int, h: int, n: nat)
    requires
        n >= 1,
    ensures
        chain_size(f, w, h, n) >= chain_size(f, w, h, 1),
        chain_size(f, w, h, 1) == level_size(f, w, h),
        level_size(f, w, h) >= 1,
        chain_computable(f, w, h, n) ==> chain_computable(f, w, h, 1),
{
    crate::aoc::g1t::format::lemma_chain_size_grows(f, w / 2, h / 2, (n - 1) as nat);
    crate::aoc::g1t::format::lemma_level_size_nonneg(f, w, h);
    assert(chain_size(f, w / 2, h / 2, 0) == 0);
    assert(crate::aoc::g1t::format::chain_levels_fit(f, w / 2, h / 2, 0));
}

/// Lays out the layers of a texture entry; fails when `plan_of` gives none.
pub fn texture_plan(entry: &[u8], endian: Endian) -> (r: Result<TexturePlan, Error>)
    ensures
        r is Ok <==> plan_of(entry@, endian) is Some,
        r matches Ok(p) ==> plan_of(entry@, endian) == Some(p),
        r matches Err(e) ==> e.kind == ErrorKind::UnexpectedEof || e.kind == ErrorKind::InvalidData,
{
    let header = read_texture_header(entry, endian)?;
    let format = format_for_type(header.texture_type)?;
    let plen = entry.len() - header.payload_start;
    let dm = decode_mip_count_of(header);
    let decode = match mip_chain_size(format, header.width, header.height, dm) {
        Some(v) => v,
        None => return Err(invalid("G1T texture size overflows")),
    };
    let full = match mip_chain_size(format, header.width, header.height, header.mip_count) {
        Some(v) => v,
        None => return Err(invalid("G1T texture size overflows")),
    };
    proof {
        lemma_chain_prefix(format, header.width as int, header.height as int, header.mip_count as nat);
    }
    let base = mip_chain_size(format, header.width, header.height, 1).unwrap();
    if plen < decode {
        return Err(invalid("truncated G1T texture payload"));
    }
    let stride = if full > 0 && plen % full == 0 {
        full
    } else if decode > 0 && plen % decode == 0 {
        decode
    } else {
        return Err(invalid("truncated G1T texture payload"));
    };
    if stride < decode || plen < base {
        return Err(invalid("truncated G1T texture payload"));
    }
    let layers = plen / stride;
    let array_count: usize = if layers < 1 {
        1
    } else if layers > 256 {
        256
    } else {
        layers
    };
    Ok(TexturePlan { header, format, layer_stride: stride, array_count, base_size: base })
}

/// The layers that are decoded: the first and the last for a preview of more than two
/// layers, else all of them in order.
pub open spec fn layers_of(array_count: usize, preview: bool) -> Seq<usize> {
    if preview && array_count > 2 {
        seq![0usize, (array_count - 1) as usize]
    } else {
        Seq::new(array_count as nat, |i: int| i as usize)
    }
}

/// The layers of a texture that are decoded.
pub fn texture_layers(array_count: usize, preview_layers_only: bool) -> (r: Vec<usize>)
    ensures
        r@ == layers_of(array_count, preview_layers_only),
{
    let mut layers: Vec<usize> = Vec::new();
    if preview_layers_only && array_count > 2 {
        layers.push(0);
        layers.push(array_count - 1);
        assert(layers@ =~= layers_of(array_count, preview_layers_only));
        return layers;
    }
    let mut i: usize = 0;
    while i < array_count
        invariant
            i <= array_count,
            layers@ =~= Seq::new(i as nat, |k: int| k as usize),
        decreases array_count - i,
    {
        layers.push(i);
        i = i + 1;
    }
    layers
}

/// The bytes of the top mip level of layer `layer` of a planned texture entry.
pub open spec fn layer_bytes(t: Seq<u8>, p: TexturePlan, layer: int) -> Seq<u8> {
    let start = p.header.payload_start + layer * p.layer_stride;
    t.subrange(start, start + p.base_size)
}

proof fn lemma_layer_in_entry(t: Seq<u8>, e: Endian, p: TexturePlan, layer: int)
    requires
        plan_of(t, e) == Some(p),
        0 <= layer < p.array_count,
    ensures
        p.header.payload_start + layer * p.layer_stride + p.base_size <= t.len(),
        dds_pitch(p.format, p.header.width, p.header.height) <= u32::MAX,
{
    let h = p.header;
    let f = p.format;
    let plen = t.len() - h.payload_start;
    let s = p.layer_stride as int;
    let dm = decode_mips(h);
    lemma_chain_prefix(f, h.width as int, h.height as int, h.mip_count as nat);
    if dm >= 1 {
        lemma_chain_prefix(f, h.width as int, h.height as int, dm as nat);
    } else {
        assert(chain_size(f, h.width as int, h.height as int, 0) == 0);
    }
    assert(p.base_size <= s);
    assert(plen % s == 0);
    assert(plen >= s) by {
        if plen < s {
            assert(plen == 0) by (nonlinear_arith)
                requires
                    0 <= plen < s,
                    plen % s == 0,
            ;
        }
    }
    assert(plen / s >= 1) by (nonlinear_arith)
        requires
            plen >= s,
            s > 0,
    ;
    assert(layer < plen / s);
    assert(layer * s + s <= plen) by (nonlinear_arith)
        requires
            0 <= layer < plen / s,
            s > 0,
            plen >= 0,
    ;
    let (block, bytes) = block_of(f);
    let w = h.width as int;
    let hh = h.height as int;
    let a1 = ceil_div(w, block as int);
    let c1 = ceil_div(hh, block as int);
    let a2 = ceil_div(if w < 1 { 1 } else { w }, block as int);
    let c2 = ceil_div(if hh < 1 { 1 } else { hh }, block as int);
    assert(0 <= a1 <= a2 && 0 <= c1 <= c2) by {
        assert(block == 1 || block == 4);
    }
    assert(a1 * c1 * bytes <= a2 * c2 * bytes) by (nonlinear_arith)
        requires
            0 <= a1 <= a2,
            0 <= c1 <= c2,
            bytes >= 0,
    ;
    assert(chain_size(f, w, hh, h.mip_count as nat) == level_size(f, w, hh) + chain_size(
        f,
        w / 2,
        hh / 2,
        (h.mip_count - 1) as nat,
    ));
}

/// The DDS file that holds the top mip level of layer `layer` of a planned texture
/// entry: its format and size, one mip level, and the level's bytes.
pub open spec fn layer_dds_bytes(entry: Seq<u8>, plan: TexturePlan, layer: int) -> Seq<u8> {
    let start = plan.header.payload_start + layer * plan.layer_stride;
    dds_file(plan.format, plan.header.width, plan.header.height, 1, false, entry.subrange(start, start + plan.base_size))
}

/// What `image_dds` decodes from a DDS file: the width, height and RGBA buffer of
/// its first mip level, or `None` where the file cannot be read or decoded.
pub uninterp spec fn dds_rgba(dds: Seq<u8>) -> Option<(u32, u32, Seq<u8>)>;

/// Reads a DDS file with `ddsfile::Dds::read` and decodes its first mip level with
/// `image_dds::image_from_dds`; the container the first call gives is opaque, so the
/// two calls stand together. The result is named by `dds_rgba`: `None` when either
/// call reports an error, else the image's size and raw buffer, which, as the `image`
/// crate's `ImageBuffer` guarantees, holds at least four bytes per pixel.
#[verifier::external_body]
fn decode_dds(dds: &[u8]) -> (r: Option<(u32, u32, Vec<u8>)>)
    ensures
        r is Some <==> dds_rgba(dds@) is Some,
        r matches Some((w, h, px)) ==> dds_rgba(dds@) == Some((w, h, px@)) && px@.len() >= 4 * (w
            * h),
{
    let container = match image_dds::ddsfile::Dds::read(dds) {
        Ok(c) => c,
        Err(_) => return None,
    };
    match image_dds::image_from_dds(&container, 0) {
        Ok(image) => Some((image.width(), image.height(), image.into_raw())),
        Err(_) => None,
    }
}

/// The DDS file that holds the top mip level of layer `layer` of a planned texture
/// entry, as it is handed to the decoder.
pub fn layer_dds(plan: TexturePlan, entry: &[u8], endian: Endian, layer: usize) -> (r: Vec<u8>)
    requires
        plan_of(entry@, endian) == Some(plan),
        layer < plan.array_count,
    ensures
        r@ == layer_dds_bytes(entry@, plan, layer as int),
{
    let _n = entry.len();
    proof {
        lemma_layer_in_entry(entry@, endian, plan, layer as int);
    }
    let start = plan.header.payload_start + layer * plan.layer_stride;
    let payload = &entry[start..start + plan.base_size];
    assert(payload@ == entry@.subrange(start as int, start + plan.base_size));
    make_dds(plan.format, plan.header.width, plan.header.height, 1, false, payload)
}

/// The image a decoder gave as its width, height and RGBA buffer: one RGBA quadruple
/// per pixel, the buffer's first `4 * width * height` bytes.
pub fn decoded_image(width: u32, height: u32, pixels: Vec<u8>) -> (img: RgbaImage)
    requires
        pixels@.len() >= 4 * (width * height),
    ensures
        img.width == width,
        img.height == height,
        img.pixels@ == pixels@.take(4 * (width * height)),
        img.wf(),
{
    let mut pixels = pixels;
    let total = pixels.len();
    assert((width as int) * (height as int) <= total && (width as int) * (height as int) * 4
        <= total) by (nonlinear_arith)
        requires
            total >= 4 * (width * height),
    ;
    let wh = (width as usize) * (height as usize);
    let needed = wh * 4;
    let ghost before = pixels@;
    pixels.truncate(needed);
    assert(pixels@ =~= before.take(4 * (width * height)));
    RgbaImage { width, height, pixels }
}

/// The image decoded from layer `layer` of a planned texture entry: the decoder's
/// width and height and the first `4 * width * height` bytes of its buffer.
pub open spec fn decoded_layer(entry: Seq<u8>, plan: TexturePlan, layer: int) -> Option<(u32, u32, Seq<u8>)> {
    match dds_rgba(layer_dds_bytes(entry, plan, layer)) {
        Some((w, h, px)) => Some((w, h, px.take(4 * (w * h)))),
        None => None,
    }
}

/// Decodes the top mip level of layer `layer` of a planned texture entry: the DDS file
/// `layer_dds` builds goes to the decoder, and the image it gives is taken as
/// `decoded_image` says. Fails with `InvalidData` when the decoder rejects it.
pub fn layer_image(plan: TexturePlan, entry: &[u8], endian: Endian, layer: usize) -> (r: Result<
    RgbaImage,
    Error,
>)
    requires
        plan_of(entry@, endian) == Some(plan),
        layer < plan.array_count,
    ensures
        r is Ok <==> decoded_layer(entry@, plan, layer as int) is Some,
        r matches Ok(img) ==> img.wf() && decoded_layer(entry@, plan, layer as int) == Some(
            (img.width, img.height, img.pixels@),
        ),
        r matches Err(e) ==> e.kind == ErrorKind::InvalidData,
{
    let dds = layer_dds(plan, entry, endian, layer);
    match decode_dds(dds.as_slice()) {
        Some((width, height, pixels)) => Ok(decoded_image(width, height, pixels)),
        None => Err(invalid("DDS surface cannot be decoded")),
    }
}

/// The PNG data URL of layer `layer` of a planned texture entry, if the layer decodes
/// to an image with a nonzero width and height.
pub open spec fn layer_url(entry: Seq<u8>, plan: TexturePlan, layer: int) -> Option<Seq<char>> {
    match decoded_layer(entry, plan, layer) {
        Some((w, h, px)) => if w != 0 && h != 0 {
            Some(png_url(w, h, px))
        } else {
            None
        },
        None => None,
    }
}

/// Whether every layer of the texture entry decodes to a PNG data URL.
pub open spec fn texture_decodes(entry: Seq<u8>, e: Endian) -> bool {
    plan_of(entry, e) matches Some(p) && forall|k: int|
        0 <= k < p.array_count ==> #[trigger] layer_url(entry, p, k) is Some
}

/// Whether the first layer of a planned texture entry decodes to an image worth showing.
pub open spec fn first_layer_renderable(entry: Seq<u8>, plan: TexturePlan) -> bool {
    decoded_layer(entry, plan, 0) matches Some((w, h, px)) && renderable(w, h, px)
}

/// A decoded texture of a G1T archive: its metadata and one PNG data URL per layer.
#[derive(Debug, Clone)]
pub struct G1tTexture {
    pub index: usize,
    pub width: u32,
    pub height: u32,
    pub mip_count: u8,
    pub texture_type: u8,
    pub array_count: u32,
    pub renderable: bool,
    pub data_url: String,
    pub data_urls: Vec<String>,
}

impl G1tTexture {
    /// Whether this texture's metadata is the one that texture `index`, planned as `p`,
    /// has, with one data URL per layer, the first repeated in `data_url`.
    pub open spec fn planned_as(&self, index: usize, p: TexturePlan) -> bool {
        &&& self.index == index
        &&& self.width == p.header.width
        &&& self.height == p.header.height
        &&& self.mip_count == p.header.mip_count
        &&& self.texture_type == p.header.texture_type
        &&& self.array_count == p.array_count
        &&& self.data_urls@.len() == p.array_count
        &&& self.data_url@ == self.data_urls@[0]@
    }
}

/// Whether `t` is texture `index` decoded from entry `entry`: the entry's metadata, the
/// data URL of each layer in order, and whether the first layer is worth showing.
pub open spec fn texture_is(t: G1tTexture, index: usize, entry: Seq<u8>, e: Endian) -> bool {
    plan_of(entry, e) matches Some(p) && {
        &&& t.planned_as(index, p)
        &&& forall|k: int|
            0 <= k < p.array_count ==> #[trigger] layer_url(entry, p, k) == Some(t.data_urls@[k]@)
        &&& t.renderable == first_layer_renderable(entry, p)
    }
}

/// Decodes every layer of the texture entry `entry` to a PNG data URL; fails when it
/// cannot be planned or a layer cannot be decoded or encoded.
pub fn parse_texture(index: usize, entry: &[u8], endian: Endian) -> (r: Result<G1tTexture, Error>)
    ensures
        r is Ok <==> texture_decodes(entry@, endian),
        r matches Ok(t) ==> texture_is(t, index, entry@, endian),
        r matches Err(e) ==> e.kind == ErrorKind::UnexpectedEof || e.kind == ErrorKind::InvalidData,
{
    let plan = texture_plan(entry, endian)?;
    let layers = texture_layers(plan.array_count, false);
    let mut data_urls: Vec<String> = Vec::new();
    let mut renderable = false;
    let mut k: usize = 0;
    while k < layers.len()
        invariant
            plan_of(entry@, endian) == Some(plan),
            layers@ == layers_of(plan.array_count, false),
            k <= layers@.len(),
            data_urls@.len() == k,
            forall|j: int|
                0 <= j < k ==> #[trigger] layer_url(entry@, plan, j) == Some(data_urls@[j]@),
            k > 0 ==> renderable == first_layer_renderable(entry@, plan),
        decreases layers@.len() - k,
    {
        let layer = layers[k];
        assert(layer == k);
        let image = match layer_image(plan, entry, endian, layer) {
            Ok(image) => image,
            Err(e) => {
                assert(layer_url(entry@, plan, k as int) is None);
                return Err(e);
            },
        };
        if layer == 0 {
            renderable = is_renderable_texture(&image);
        }
        let url = match png_data_url(&image) {
            Ok(url) => url,
            Err(e) => {
                assert(layer_url(entry@, plan, k as int) is None);
                return Err(e);
            },
        };
        data_urls.push(url);
        k = k + 1;
    }
    assert(plan.array_count >= 1);
    let data_url = data_urls[0].clone();
    let t = G1tTexture {
        index,
        width: plan.header.width,
        height: plan.header.height,
        mip_count: plan.header.mip_count,
        texture_type: plan.header.texture_type,
        array_count: plan.array_count as u32,
        renderable,
        data_url,
        data_urls,
    };
    assert forall|j: int| 0 <= j < plan.array_count implies #[trigger] layer_url(entry@, plan, j) is Some by {
        assert(layer_url(entry@, plan, j) == Some(t.data_urls@[j]@));
    }
    Ok(t)
}

/// Whether `t` is the preview texture `index`, planned as `plan`, of the images of the
/// layers it shows: each as a PNG data URL, the first repeated in `data_url` (empty when
/// there is none), and whether the first is worth showing.
pub open spec fn preview_texture_is(t: G1tTexture, index: usize, plan: TexturePlan, images: Seq<RgbaImage>) -> bool {
    &&& t.index == index
    &&& t.width == plan.header.width
    &&& t.height == plan.header.height
    &&& t.mip_count == plan.header.mip_count
    &&& t.texture_type == plan.header.texture_type
    &&& t.array_count == plan.array_count
    &&& t.data_urls@.len() == images.len()
    &&& forall|k: int|
        0 <= k < images.len() ==> (#[trigger] t.data_urls@[k])@ == png_url(images[k].width, images[k].height, images[k].pixels@)
    &&& t.data_url@ == (if images.len() > 0 { t.data_urls@[0]@ } else { Seq::<char>::empty() })
    &&& t.renderable == (images.len() > 0 && renderable(images[0].width, images[0].height, images[0].pixels@))
}

/// A texture of the preview, from its plan and the images of the layers it shows, in
/// order: each image as a PNG data URL, the first repeated in `data_url` (empty when
/// there is none), and whether the first is worth showing. Fails with `InvalidData`
/// when an image has no pixels.
pub fn preview_texture(index: usize, plan: TexturePlan, images: &[RgbaImage]) -> (r: Result<G1tTexture, Error>)
    requires
        plan.array_count <= 256,
        forall|k: int| 0 <= k < images@.len() ==> (#[trigger] images@[k]).wf(),
    ensures
        r is Ok <==> forall|k: int|
            0 <= k < images@.len() ==> (#[trigger] images@[k]).width != 0 && images@[k].height != 0,
        r matches Ok(t) ==> preview_texture_is(t, index, plan, images@),
        r matches Err(e) ==> e.kind == ErrorKind::InvalidData,
{
    let mut data_urls: Vec<String> = Vec::new();
    let mut k: usize = 0;
    while k < images.len()
        invariant
            k <= images@.len(),
            forall|j: int| 0 <= j < images@.len() ==> (#[trigger] images@[j]).wf(),
            forall|j: int| 0 <= j < k ==> (#[trigger] images@[j]).width != 0 && images@[j].height != 0,
            data_urls@.len() == k,
            forall|j: int|
                0 <= j < k ==> (#[trigger] data_urls@[j])@ == png_url(
                    images@[j].width,
                    images@[j].height,
                    images@[j].pixels@,
                ),
        decreases images@.len() - k,
    {
        let url = png_data_url(&images[k])?;
        data_urls.push(url);
        k = k + 1;
    }
    let renderable = if images.len() > 0 {
        is_renderable_texture(&images[0])
    } else {
        false
    };
    let data_url = if data_urls.len() > 0 {
        data_urls[0].clone()
    } else {
        String::new()
    };
    Ok(G1tTexture {
        index,
        width: plan.header.width,
        height: plan.header.height,
        mip_count: plan.header.mip_count,
        texture_type: plan.header.texture_type,
        array_count: plan.array_count as u32,
        renderable,
        data_url,
        data_urls,
    })
}

/// Whether every layer the preview shows of the texture entry decodes.
pub open spec fn preview_decodes(entry: Seq<u8>, e: Endian) -> bool {
    plan_of(entry, e) matches Some(p) && forall|k: int|
        0 <= k < layers_of(p.array_count, true).len() ==> #[trigger] decoded_layer(
            entry,
            p,
            layers_of(p.array_count, true)[k] as int,
        ) is Some
}

/// Whether `images` are the decoded images of the layers the preview shows of a planned
/// entry, in order.
pub open spec fn preview_images_are(images: Seq<RgbaImage>, entry: Seq<u8>, p: TexturePlan) -> bool {
    let layers = layers_of(p.array_count, true);
    &&& images.len() == layers.len()
    &&& forall|k: int|
        0 <= k < layers.len() ==> (#[trigger] images[k]).wf() && decoded_layer(entry, p, layers[k] as int) == Some(
            (images[k].width, images[k].height, images[k].pixels@),
        )
}

/// Plans the texture entry and decodes the layers the preview shows: the first and
/// the last of more than two, else all. Fails when the entry cannot be planned or a
/// layer cannot be decoded.
pub fn preview_layers(entry: &[u8], endian: Endian) -> (r: Result<(TexturePlan, Vec<RgbaImage>), Error>)
    ensures
        r is Ok <==> preview_decodes(entry@, endian),
        r matches Ok((p, images)) ==> plan_of(entry@, endian) == Some(p) && preview_images_are(images@, entry@, p),
        r matches Err(e) ==> e.kind == ErrorKind::UnexpectedEof || e.kind == ErrorKind::InvalidData,
{
    let plan = texture_plan(entry, endian)?;
    let layers = texture_layers(plan.array_count, true);
    let mut images: Vec<RgbaImage> = Vec::new();
    let mut k: usize = 0;
    while k < layers.len()
        invariant
            plan_of(entry@, endian) == Some(plan),
            layers@ == layers_of(plan.array_count, true),
            k <= layers@.len(),
            images@.len() == k,
            forall|j: int|
                0 <= j < k ==> (#[trigger] images@[j]).wf() && decoded_layer(entry@, plan, layers@[j] as int) == Some(
                    (images@[j].width, images@[j].height, images@[j].pixels@),
                ),
        decreases layers@.len() - k,
    {
        let layer = layers[k];
        assert(layer < plan.array_count) by {
            assert(plan.array_count >= 1);
        }
        let image = match layer_image(plan, entry, endian, layer) {
            Ok(i) => i,
            Err(e) => {
                assert(decoded_layer(entry@, plan, layers@[k as int] as int) is None);
                return Err(e);
            },
        };
        images.push(image);
        k = k + 1;
    }
    assert forall|j: int| 0 <= j < layers_of(plan.array_count, true).len() implies #[trigger] decoded_layer(
        entry@,
        plan,
        layers_of(plan.array_count, true)[j] as int,
    ) is Some by {
        assert(decoded_layer(entry@, plan, layers@[j] as int) == Some((images@[j].width, images@[j].height, images@[j].pixels@)));
    }
    Ok((plan, images))
}

/// Every texture entry whose layers can be decoded also has a surface layout, and the
/// two agree: same size, mip count, type, layer count and layer stride, and the
/// surface's data starts where the decoded payload does.
pub proof fn lemma_plan_has_surface(index: usize, start: int, t: Seq<u8>, e: Endian)
    requires
        plan_of(t, e) is Some,
        0 <= start,
        start + t.len() <= usize::MAX,
    ensures
        crate::aoc::g1t::surface::surface_of(index, start, t, e) matches Some(s) && {
            let p = plan_of(t, e)->Some_0;
            &&& s.index == index
            &&& s.width == p.header.width
            &&& s.height == p.header.height
            &&& s.mip_count == p.header.mip_count
            &&& s.texture_type == p.header.texture_type
            &&& s.array_count == p.array_count
            &&& s.layer_stride == p.layer_stride
            &&& s.data_offset == start + p.header.payload_start
        },
{
}

} // verus!
