use asset_parsers::aoc::g1t::file::{assemble_preview, preview_items, G1tFile};
use asset_parsers::aoc::g1t::format::{
    format_for_type, make_dds, mip_chain_size, texture_chain_size, texture_mip_size, TextureFormat,
};
use asset_parsers::aoc::g1t::image::{is_renderable_texture, png_data_url, RgbaImage};
use asset_parsers::aoc::g1t::texture::{decoded_image, layer_image, parse_texture, texture_layers, texture_plan};
use asset_parsers::binary::Endian;
use asset_parsers::error::ErrorKind;

#[test]
fn g1t_dds_header_has_expected_size() {
    assert_eq!(make_dds(TextureFormat::Bc1, 4, 4, 1, false, &[0; 8]).len(), 136);
    assert_eq!(&make_dds(TextureFormat::Bc7, 4, 4, 1, false, &[0; 16])[..4], b"DDS ");
}

#[test]
fn mod_dds_header_has_expected_size() {
    assert_eq!(make_dds(TextureFormat::Bc1, 4, 4, 1, false, &[0; 8]).len(), 136);
    assert_eq!(&make_dds(TextureFormat::Bc7, 4, 4, 1, false, &[0; 16])[..4], b"DDS ");
}

fn image(width: u32, height: u32, pixel: [u8; 4]) -> RgbaImage {
    let mut pixels = Vec::new();
    for _ in 0..width * height {
        pixels.extend_from_slice(&pixel);
    }
    RgbaImage { width, height, pixels }
}

#[test]
fn rejects_placeholder_emission_images() {
    let one_pixel = image(1, 1, [255, 255, 255, 255]);
    let black = image(2, 2, [0, 0, 0, 255]);
    let transparent = image(2, 2, [255, 80, 20, 0]);
    let mut visible = image(2, 2, [0, 0, 0, 255]);
    let at = 4 * (1 * 2 + 1);
    visible.pixels[at..at + 4].copy_from_slice(&[1, 0, 0, 255]);

    assert!(!is_renderable_texture(&one_pixel));
    assert!(!is_renderable_texture(&black));
    assert!(!is_renderable_texture(&transparent));
    assert!(is_renderable_texture(&visible));
}

#[test]
fn dds_headers_follow_the_format() {
    let dx10 = make_dds(TextureFormat::Bc7, 8, 4, 2, true, &[7; 32]);
    assert_eq!(dx10.len(), 148 + 32);
    assert_eq!(&dx10[84..88], b"DX10");
    assert_eq!(u32::from_le_bytes(dx10[128..132].try_into().unwrap()), 99);
    assert_eq!(u32::from_le_bytes(dx10[20..24].try_into().unwrap()), 32);
    assert_eq!(u32::from_le_bytes(dx10[28..32].try_into().unwrap()), 2);
    let plain = make_dds(TextureFormat::Rgba8, 2, 2, 1, false, &[1; 16]);
    assert_eq!(plain.len(), 128 + 16);
    assert_eq!(u32::from_le_bytes(plain[80..84].try_into().unwrap()), 0x41);
    assert_eq!(u32::from_le_bytes(plain[20..24].try_into().unwrap()), 16);
    let bc1 = make_dds(TextureFormat::Bc1, 4, 4, 1, false, &[0; 8]);
    assert_eq!(&bc1[84..88], b"DXT1");
}

#[test]
fn texture_sizes_follow_block_layout() {
    assert_eq!(mip_chain_size(TextureFormat::Bc1, 16, 16, 3), Some(128 + 32 + 8));
    assert_eq!(mip_chain_size(TextureFormat::Rgba8, 4, 2, 3), Some(32 + 8 + 4));
    assert_eq!(mip_chain_size(TextureFormat::Bc7, 1, 1, 0), Some(0));
    assert_eq!(mip_chain_size(TextureFormat::Rgba32Float, 0x10000, 0x10000, 1), None);
    assert_eq!(texture_mip_size(0x5f, 256, 128, 1).unwrap(), 32 * 16 * 16);
    assert_eq!(texture_chain_size(0x00, 4, 4, 2).unwrap(), 64 + 16);
    assert!(texture_chain_size(0x99, 4, 4, 2).is_err());
    assert!(format_for_type(0x72).unwrap() == TextureFormat::Bc7);
    assert!(format_for_type(0x03).is_err());
}

#[test]
fn preview_decodes_first_and_last_layers() {
    assert_eq!(texture_layers(5, true), vec![0, 4]);
    assert_eq!(texture_layers(2, true), vec![0, 1]);
    assert_eq!(texture_layers(3, false), vec![0, 1, 2]);
}

#[test]
fn png_data_urls_hold_a_base64_png() {
    let url = png_data_url(&image(2, 2, [10, 20, 30, 255])).unwrap();
    assert!(url.starts_with("data:image/png;base64,iVBORw0KGgo"));
}

/// A little-endian archive with one 2x2 RGBA8 texture of the given pixel.
fn archive(pixel: [u8; 4]) -> Vec<u8> {
    let mut data = Vec::new();
    data.extend_from_slice(b"GT1G");
    data.extend_from_slice(b"0600");
    let total = 0x1c + 4 + 8 + 16;
    data.extend_from_slice(&(total as u32).to_le_bytes());
    data.extend_from_slice(&0x1cu32.to_le_bytes());
    data.extend_from_slice(&1u32.to_le_bytes());
    data.extend_from_slice(&0x10u32.to_le_bytes());
    data.extend_from_slice(&0u32.to_le_bytes());
    data.extend_from_slice(&4u32.to_le_bytes());
    data.extend_from_slice(&[0x10, 0x00, 0x11, 0, 0, 0, 0, 0]);
    for _ in 0..4 {
        data.extend_from_slice(&pixel);
    }
    assert_eq!(data.len(), total);
    data
}

#[test]
fn parses_an_rgba_archive() {
    let data = archive([200, 100, 50, 255]);
    let file = G1tFile::parse(&data).unwrap();
    assert_eq!(&file.version, b"0600");
    assert_eq!(file.platform, 0x10);
    assert_eq!(file.textures.len(), 1);
    let texture = &file.textures[0];
    assert_eq!((texture.index, texture.width, texture.height), (0, 2, 2));
    assert_eq!((texture.mip_count, texture.texture_type, texture.array_count), (1, 0, 1));
    assert!(texture.renderable);
    assert_eq!(texture.data_urls.len(), 1);
    assert_eq!(texture.data_url, texture.data_urls[0]);
    assert!(texture.data_url.starts_with("data:image/png;base64,"));
    let black = G1tFile::parse(&archive([0, 0, 0, 255])).unwrap();
    assert!(!black.textures[0].renderable);
}

#[test]
fn lays_out_archive_surfaces() {
    let data = archive([1, 2, 3, 4]);
    let surfaces = G1tFile::parse_surfaces(&data).unwrap();
    assert_eq!(surfaces.len(), 1);
    let s = surfaces[0];
    assert_eq!((s.width, s.height, s.mip_count, s.array_count), (2, 2, 1, 1));
    assert_eq!((s.data_offset, s.layer_stride), (0x1c + 4 + 8, 16));
}

#[test]
fn rejects_bad_archive_headers() {
    let mut data = archive([1, 2, 3, 4]);
    data[0] = b'X';
    assert!(G1tFile::parse(&data).is_err());
    let mut data = archive([1, 2, 3, 4]);
    data[16..20].copy_from_slice(&70000u32.to_le_bytes());
    assert!(G1tFile::parse(&data).is_err());
    let data = archive([1, 2, 3, 4]);
    assert!(G1tFile::parse(&data[..20]).is_err());
}

#[test]
fn skips_textures_that_cannot_be_laid_out() {
    let mut data = archive([1, 2, 3, 4]);
    data[0x20 + 1] = 0x33;
    let file = G1tFile::parse(&data).unwrap();
    assert!(file.textures.is_empty());
    assert!(G1tFile::parse_surfaces(&data).unwrap().is_empty());
}

#[test]
fn decoded_images_keep_one_quadruple_per_pixel() {
    let img = decoded_image(2, 1, vec![1, 2, 3, 4, 5, 6, 7, 8, 9, 10]);
    assert_eq!((img.width, img.height), (2, 1));
    assert_eq!(img.pixels, vec![1, 2, 3, 4, 5, 6, 7, 8]);
}

#[test]
fn png_data_urls_need_pixels() {
    let empty = RgbaImage { width: 0, height: 0, pixels: Vec::new() };
    assert_eq!(png_data_url(&empty).unwrap_err().kind, ErrorKind::InvalidData);
    let row = RgbaImage { width: 3, height: 0, pixels: Vec::new() };
    assert!(png_data_url(&row).is_err());
}

#[test]
fn archive_errors_name_their_kind() {
    let mut data = archive([1, 2, 3, 4]);
    data[0] = b'X';
    assert_eq!(G1tFile::parse(&data).unwrap_err().kind, ErrorKind::InvalidData);
    let data = archive([1, 2, 3, 4]);
    assert_eq!(G1tFile::parse(&data[..20]).unwrap_err().kind, ErrorKind::UnexpectedEof);
    let mut data = archive([1, 2, 3, 4]);
    data[16..20].copy_from_slice(&70000u32.to_le_bytes());
    assert_eq!(G1tFile::parse(&data).unwrap_err().kind, ErrorKind::InvalidData);
    assert_eq!(G1tFile::parse_surfaces(&data).unwrap_err().kind, ErrorKind::InvalidData);
}

#[test]
fn raw_rgba_layers_decode_to_their_pixels() {
    let data = archive([200, 100, 50, 255]);
    let entry = &data[0x20..];
    let plan = texture_plan(entry, Endian::Little).unwrap();
    let image = layer_image(plan, entry, Endian::Little, 0).unwrap();
    assert_eq!((image.width, image.height), (2, 2));
    // The DDS header declares the payload as B8G8R8A8, so blue and red trade places.
    assert_eq!(image.pixels, [50, 100, 200, 255].repeat(4));
    let texture = parse_texture(7, entry, Endian::Little).unwrap();
    assert_eq!(texture.index, 7);
    assert_eq!(texture.data_urls[0], png_data_url(&image).unwrap());
}

#[test]
fn preview_items_decode_and_assemble_into_textures() {
    let data = archive([200, 100, 50, 255]);
    let items = preview_items(&data).unwrap();
    assert_eq!(items.len(), 1);
    assert_eq!((items[0].index, items[0].images.len()), (0, 1));
    assert_eq!(items[0].images[0].pixels, [50, 100, 200, 255].repeat(4));
    let file = assemble_preview(&data, items).unwrap();
    let full = G1tFile::parse(&data).unwrap();
    assert_eq!(file.textures.len(), 1);
    assert_eq!(file.textures[0].data_url, full.textures[0].data_url);
    assert_eq!((file.version, file.platform), (full.version, full.platform));
    let mut emptied = preview_items(&data).unwrap();
    emptied[0].images[0] = RgbaImage { width: 0, height: 0, pixels: Vec::new() };
    assert!(assemble_preview(&data, emptied).unwrap().textures.is_empty());
    let mut bad = data.clone();
    bad[0] = b'X';
    assert!(preview_items(&bad).is_err());
}
