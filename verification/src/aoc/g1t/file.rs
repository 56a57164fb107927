use vstd::prelude::*;
use crate::aoc::g1t::archive::{
    archive_endian, archive_error, entries_from, entry_skipped, g1t_endian, header_ok, header_word,
    table_entries, table_ok, TableEntry,
};
use crate::aoc::g1t::surface::{entries_in, lemma_entries_in, parse_surfaces_internal, surfaces_of, G1tTextureSurface};
use crate::aoc::g1t::image::RgbaImage;
use crate::aoc::g1t::texture::{
    parse_texture, plan_of, preview_decodes, preview_images_are, preview_layers, preview_texture, preview_texture_is,
    texture_decodes, texture_is, G1tTexture, TexturePlan,
};
use crate::binary::{u32_at, BinaryReader, Endian};
use crate::error::{eof, Error, ErrorKind};

verus! {

/// The bytes of a table entry.
pub open spec fn entry_bytes(b: Seq<u8>, en: TableEntry) -> Seq<u8> {
    b.subrange(en.start as int, en.end as int)
}

/// Whether the indices of `entries` strictly increase and are all at least `i`.
pub open spec fn indices_increase(entries: Seq<TableEntry>, i: int) -> bool {
    &&& forall|k: int| #![trigger entries[k]] 0 <= k < entries.len() ==> entries[k].index >= i
    &&& forall|k1: int, k2: int|
        #![trigger entries[k1], entries[k2]]
        0 <= k1 < k2 < entries.len() ==> entries[k1].index < entries[k2].index
}

proof fn lemma_indices_increase(b: Seq<u8>, i: int)
    requires
        0 <= i,
        header_ok(b),
        b.len() <= usize::MAX,
    ensures
        indices_increase(entries_from(b, i), i),
    decreases header_word(b, 2) - i,
{
    if i < header_word(b, 2) {
        lemma_indices_increase(b, i + 1);
        let s = entries_from(b, i);
        let r = entries_from(b, i + 1);
        if !entry_skipped(b, i) {
            assert(s == seq![s[0]] + r);
            assert(s[0].index == i);
            assert forall|k: int| #![trigger s[k]] 0 <= k < s.len() implies s[k].index >= i by {
                if k > 0 {
                    assert(s[k] == r[k - 1]);
                }
            }
            assert forall|k1: int, k2: int|
                #![trigger s[k1], s[k2]]
                0 <= k1 < k2 < s.len() implies s[k1].index < s[k2].index by {
                assert(s[k2] == r[k2 - 1]);
                if k1 > 0 {
                    assert(s[k1] == r[k1 - 1]);
                } else {
                    assert(r[k2 - 1].index >= i + 1);
                }
            }
        } else {
            assert(s == r);
        }
    } else {
        assert(entries_from(b, i).len() == 0);
    }
}

/// The entries, in order, whose every layer decodes to a PNG data URL.
pub open spec fn decodable_entries(b: Seq<u8>, entries: Seq<TableEntry>, e: Endian) -> Seq<TableEntry>
    decreases entries.len(),
{
    if entries.len() == 0 {
        Seq::empty()
    } else {
        let rest = decodable_entries(b, entries.drop_last(), e);
        if texture_decodes(entry_bytes(b, entries.last()), e) {
            rest.push(entries.last())
        } else {
            rest
        }
    }
}

/// The decodable entries are entries of the table, in table order, so their indices
/// increase as the table's do.
proof fn lemma_decodable_increase(b: Seq<u8>, entries: Seq<TableEntry>, e: Endian, i: int)
    requires
        indices_increase(entries, i),
    ensures
        indices_increase(decodable_entries(b, entries, e), i),
        forall|k: int|
            0 <= k < decodable_entries(b, entries, e).len() ==> exists|j: int|
                0 <= j < entries.len() && #[trigger] decodable_entries(b, entries, e)[k]
                    == #[trigger] entries[j],
    decreases entries.len(),
{
    if entries.len() > 0 {
        let dl = entries.drop_last();
        assert forall|k: int| 0 <= k < dl.len() implies #[trigger] dl[k] == entries[k] by {}
        assert(indices_increase(dl, i));
        lemma_decodable_increase(b, dl, e, i);
        let d = decodable_entries(b, entries, e);
        let r = decodable_entries(b, dl, e);
        let last = entries.last();
        assert forall|k: int| #![trigger r[k]] 0 <= k < r.len() implies r[k].index < last.index by {
            let j = choose|j: int| 0 <= j < dl.len() && r[k] == #[trigger] dl[j];
            assert(dl[j] == entries[j]);
            assert(entries[j].index < entries[entries.len() - 1].index);
        }
        if texture_decodes(entry_bytes(b, last), e) {
            assert(d == r.push(last));
            assert forall|k: int| 0 <= k < d.len() implies exists|j: int|
                0 <= j < entries.len() && #[trigger] d[k] == #[trigger] entries[j] by {
                if k < r.len() {
                    let j = choose|j: int| 0 <= j < dl.len() && r[k] == #[trigger] dl[j];
                    assert(d[k] == entries[j]);
                } else {
                    assert(d[k] == entries[entries.len() - 1]);
                }
            }
            assert forall|k1: int, k2: int|
                #![trigger d[k1], d[k2]]
                0 <= k1 < k2 < d.len() implies d[k1].index < d[k2].index by {
                assert(d[k1] == r[k1]);
                if k2 < r.len() {
                    assert(d[k2] == r[k2]);
                }
            }
            assert forall|k: int| #![trigger d[k]] 0 <= k < d.len() implies d[k].index >= i by {
                if k < r.len() {
                    assert(d[k] == r[k]);
                } else {
                    assert(entries[entries.len() - 1].index >= i);
                }
            }
        } else {
            assert forall|k: int| 0 <= k < d.len() implies exists|j: int|
                0 <= j < entries.len() && #[trigger] d[k] == #[trigger] entries[j] by {
                let j = choose|j: int| 0 <= j < dl.len() && r[k] == #[trigger] dl[j];
                assert(d[k] == entries[j]);
            }
        }
    }
}

/// Whether `textures` are, in order, the textures decoded from the entries whose every
/// layer decodes, and nothing else.
pub open spec fn textures_from(b: Seq<u8>, entries: Seq<TableEntry>, e: Endian, textures: Seq<G1tTexture>) -> bool {
    let d = decodable_entries(b, entries, e);
    &&& textures.len() == d.len()
    &&& forall|k: int|
        0 <= k < textures.len() ==> texture_is(#[trigger] textures[k], d[k].index, entry_bytes(b, d[k]), e)
}

/// The textures of every entry of a G1T archive whose layers all decode, in table
/// order; an entry that cannot be decoded is passed over.
pub fn parse_internal(data: &[u8]) -> (r: Result<Vec<G1tTexture>, Error>)
    ensures
        r is Ok <==> header_ok(data@) && table_ok(data@),
        r matches Ok(v) ==> textures_from(data@, entries_from(data@, 0), archive_endian(data@)->Some_0, v@),
        r matches Err(e) ==> e.kind == archive_error(data@),
{
    let ghost b = data@;
    let (endian, entries) = table_entries(data)?;
    let _n = data.len();
    proof {
        lemma_entries_in(b, 0);
    }
    let ghost es = entries@;
    let mut textures: Vec<G1tTexture> = Vec::new();
    let mut pos: usize = 0;
    while pos < entries.len()
        invariant
            b == data@,
            es == entries@,
            pos <= es.len(),
            entries_in(b, es),
            textures_from(b, es.take(pos as int), endian, textures@),
        decreases es.len() - pos,
    {
        let en = entries[pos];
        assert(es[pos as int] == en);
        assert(en.start <= en.end <= b.len());
        let entry = &data[en.start..en.end];
        assert(entry@ == entry_bytes(b, en));
        let ghost before = textures@;
        assert(es.take(pos + 1).drop_last() =~= es.take(pos as int));
        assert(es.take(pos + 1).last() == en);
        match parse_texture(en.index, entry, endian) {
            Ok(texture) => {
                textures.push(texture);
                let ghost d = decodable_entries(b, es.take(pos + 1), endian);
                assert(d == decodable_entries(b, es.take(pos as int), endian).push(en));
                assert forall|k: int| 0 <= k < textures@.len() implies texture_is(
                    #[trigger] textures@[k],
                    d[k].index,
                    entry_bytes(b, d[k]),
                    endian,
                ) by {
                    if k < before.len() {
                        assert(textures@[k] == before[k]);
                    }
                }
            },
            Err(_) => {
                assert(decodable_entries(b, es.take(pos + 1), endian) == decodable_entries(
                    b,
                    es.take(pos as int),
                    endian,
                ));
            },
        }
        pos = pos + 1;
    }
    assert(es.take(pos as int) =~= es);
    Ok(textures)
}

/// The four version bytes of a G1T archive.
pub fn parse_version(data: &[u8]) -> (r: Result<[u8; 4], Error>)
    ensures
        r is Ok <==> archive_endian(data@) is Some && data@.len() >= 8,
        r matches Ok(v) ==> v@ == data@.subrange(4, 8),
        r matches Err(e) ==> e.kind == ErrorKind::UnexpectedEof || e.kind == ErrorKind::InvalidData,
{
    let endian = g1t_endian(data)?;
    BinaryReader::with_endian(data, endian).read_array4_at(4)
}

/// The platform word of a G1T archive.
pub fn parse_platform(data: &[u8]) -> (r: Result<u32, Error>)
    ensures
        r is Ok <==> archive_endian(data@) is Some && data@.len() >= 24,
        r matches Ok(v) ==> v == u32_at(data@, 20, archive_endian(data@)->Some_0),
        r matches Err(e) ==> e.kind == ErrorKind::UnexpectedEof || e.kind == ErrorKind::InvalidData,
{
    let endian = g1t_endian(data)?;
    let reader = BinaryReader::with_endian(data, endian);
    let _ = reader.read_u32_at(16)?;
    reader.read_u32_at(20)
}

/// A G1T archive: its version, platform and decoded textures.
#[derive(Debug, Clone)]
pub struct G1tFile {
    pub version: [u8; 4],
    pub platform: u32,
    pub textures: Vec<G1tTexture>,
}

impl G1tFile {
    /// Parses an archive and decodes each texture to PNG data URLs, one per layer;
    /// textures that cannot be decoded are left out.
    pub fn parse(data: &[u8]) -> (r: Result<Self, Error>)
        ensures
            r is Ok <==> header_ok(data@) && table_ok(data@),
            r matches Ok(f) ==> {
                &&& f.version@ == data@.subrange(4, 8)
                &&& f.platform == header_word(data@, 3)
                &&& textures_from(data@, entries_from(data@, 0), archive_endian(data@)->Some_0, f.textures@)
                &&& forall|k1: int, k2: int|
                    0 <= k1 < k2 < f.textures@.len() ==> (#[trigger] f.textures@[k1]).index
                        < (#[trigger] f.textures@[k2]).index
            },
            r matches Err(e) ==> e.kind == archive_error(data@),
    {
        let textures = parse_internal(data)?;
        let _n = data.len();
        proof {
            let b = data@;
            let e = archive_endian(b)->Some_0;
            lemma_indices_increase(b, 0);
            lemma_decodable_increase(b, entries_from(b, 0), e, 0);
            let d = decodable_entries(b, entries_from(b, 0), e);
            assert forall|k1: int, k2: int|
                0 <= k1 < k2 < textures@.len() implies (#[trigger] textures@[k1]).index
                    < (#[trigger] textures@[k2]).index by {
                assert(textures@[k1].index == d[k1].index);
                assert(textures@[k2].index == d[k2].index);
            }
        }
        let version = parse_version(data)?;
        let platform = parse_platform(data)?;
        Ok(G1tFile { version, platform, textures })
    }

    /// The layout of every texture of an archive that can be laid out.
    pub fn parse_surfaces(data: &[u8]) -> (r: Result<Vec<G1tTextureSurface>, Error>)
        ensures
            r is Ok <==> header_ok(data@) && table_ok(data@),
            r matches Ok(v) ==> v@ == surfaces_of(data@, entries_from(data@, 0), archive_endian(data@)->Some_0),
            r matches Err(e) ==> e.kind == archive_error(data@),
    {
        let surfaces = parse_surfaces_internal(data)?;
        Ok(surfaces)
    }
}

/// The entries, in order, whose every preview layer decodes.
pub open spec fn preview_entries(b: Seq<u8>, entries: Seq<TableEntry>, e: Endian) -> Seq<TableEntry>
    decreases entries.len(),
{
    if entries.len() == 0 {
        Seq::empty()
    } else {
        let rest = preview_entries(b, entries.drop_last(), e);
        if preview_decodes(entry_bytes(b, entries.last()), e) {
            rest.push(entries.last())
        } else {
            rest
        }
    }
}

/// A texture entry whose preview layers decoded: its index, its plan, and the decoded
/// images of the layers the preview shows.
pub struct PreviewItem {
    pub index: usize,
    pub plan: TexturePlan,
    pub images: Vec<RgbaImage>,
}

/// Whether `items` are, in order, the entries whose preview layers decode, with their
/// plans and decoded layers.
pub open spec fn preview_items_are(items: Seq<PreviewItem>, b: Seq<u8>, entries: Seq<TableEntry>, e: Endian) -> bool {
    let d = preview_entries(b, entries, e);
    &&& items.len() == d.len()
    &&& forall|m: int|
        0 <= m < items.len() ==> {
            &&& (#[trigger] items[m]).index == d[m].index
            &&& plan_of(entry_bytes(b, d[m]), e) == Some(items[m].plan)
            &&& preview_images_are(items[m].images@, entry_bytes(b, d[m]), items[m].plan)
        }
}

/// Walks the texture table of an archive and decodes the layers the preview shows of
/// each entry, passing over an entry that cannot be planned or decoded; the images are
/// then downscaled and put together by `assemble_preview`.
pub fn preview_items(data: &[u8]) -> (r: Result<Vec<PreviewItem>, Error>)
    ensures
        r is Ok <==> header_ok(data@) && table_ok(data@),
        r matches Ok(v) ==> preview_items_are(v@, data@, entries_from(data@, 0), archive_endian(data@)->Some_0),
        r matches Err(e) ==> e.kind == archive_error(data@),
{
    let ghost b = data@;
    let (endian, entries) = table_entries(data)?;
    let _n = data.len();
    proof {
        lemma_entries_in(b, 0);
    }
    let ghost es = entries@;
    let mut items: Vec<PreviewItem> = Vec::new();
    let mut pos: usize = 0;
    while pos < entries.len()
        invariant
            b == data@,
            es == entries@,
            pos <= es.len(),
            entries_in(b, es),
            preview_items_are(items@, b, es.take(pos as int), endian),
        decreases es.len() - pos,
    {
        let en = entries[pos];
        assert(es[pos as int] == en);
        assert(en.start <= en.end <= b.len());
        let entry = &data[en.start..en.end];
        assert(entry@ == entry_bytes(b, en));
        let ghost before = items@;
        assert(es.take(pos + 1).drop_last() =~= es.take(pos as int));
        assert(es.take(pos + 1).last() == en);
        match preview_layers(entry, endian) {
            Ok((plan, images)) => {
                items.push(PreviewItem { index: en.index, plan, images });
                let ghost d = preview_entries(b, es.take(pos + 1), endian);
                assert(d == preview_entries(b, es.take(pos as int), endian).push(en));
                assert forall|m: int| 0 <= m < items@.len() implies {
                    &&& (#[trigger] items@[m]).index == d[m].index
                    &&& plan_of(entry_bytes(b, d[m]), endian) == Some(items@[m].plan)
                    &&& preview_images_are(items@[m].images@, entry_bytes(b, d[m]), items@[m].plan)
                } by {
                    if m < before.len() {
                        assert(items@[m] == before[m]);
                    }
                }
            },
            Err(_) => {
                assert(preview_entries(b, es.take(pos + 1), endian) == preview_entries(b, es.take(pos as int), endian));
            },
        }
        pos = pos + 1;
    }
    assert(es.take(pos as int) =~= es);
    Ok(items)
}

/// Whether every image of a preview item has pixels.
pub open spec fn item_encodes(item: PreviewItem) -> bool {
    forall|k: int| 0 <= k < item.images@.len() ==> (#[trigger] item.images@[k]).width != 0 && item.images@[k].height != 0
}

/// The items, in order, all of whose images have pixels.
pub open spec fn encodable_items(items: Seq<PreviewItem>) -> Seq<PreviewItem>
    decreases items.len(),
{
    if items.len() == 0 {
        Seq::empty()
    } else {
        let rest = encodable_items(items.drop_last());
        if item_encodes(items.last()) {
            rest.push(items.last())
        } else {
            rest
        }
    }
}

/// The archive for the preview: its version and platform, and a texture for each item,
/// in order, whose images all have pixels, as `preview_texture` builds it from the
/// item's downscaled images; an item with an image without pixels is passed over.
pub fn assemble_preview(data: &[u8], items: Vec<PreviewItem>) -> (r: Result<G1tFile, Error>)
    requires
        forall|m: int|
            0 <= m < items@.len() ==> (#[trigger] items@[m]).plan.array_count <= 256 && forall|k: int|
                0 <= k < items@[m].images@.len() ==> (#[trigger] items@[m].images@[k]).wf(),
    ensures
        r is Ok <==> archive_endian(data@) is Some && data@.len() >= 24,
        r matches Ok(f) ==> {
            let kept = encodable_items(items@);
            &&& f.version@ == data@.subrange(4, 8)
            &&& f.platform == u32_at(data@, 20, archive_endian(data@)->Some_0)
            &&& f.textures@.len() == kept.len()
            &&& forall|m: int|
                0 <= m < kept.len() ==> preview_texture_is(
                    #[trigger] f.textures@[m],
                    kept[m].index,
                    kept[m].plan,
                    kept[m].images@,
                )
        },
        r matches Err(e) ==> e.kind == ErrorKind::UnexpectedEof || e.kind == ErrorKind::InvalidData,
{
    let version = parse_version(data)?;
    let platform = parse_platform(data)?;
    let ghost all = items@;
    let mut textures: Vec<G1tTexture> = Vec::new();
    let mut i: usize = 0;
    while i < items.len()
        invariant
            all == items@,
            i <= all.len(),
            forall|m: int|
                0 <= m < all.len() ==> (#[trigger] all[m]).plan.array_count <= 256 && forall|k: int|
                    0 <= k < all[m].images@.len() ==> (#[trigger] all[m].images@[k]).wf(),
            textures@.len() == encodable_items(all.take(i as int)).len(),
            forall|m: int|
                0 <= m < textures@.len() ==> preview_texture_is(
                    #[trigger] textures@[m],
                    encodable_items(all.take(i as int))[m].index,
                    encodable_items(all.take(i as int))[m].plan,
                    encodable_items(all.take(i as int))[m].images@,
                ),
        decreases all.len() - i,
    {
        let item = &items[i];
        assert(all.take(i + 1).drop_last() =~= all.take(i as int));
        assert(all.take(i + 1).last() == all[i as int]);
        let ghost before = textures@;
        let ghost kept = encodable_items(all.take(i + 1));
        match preview_texture(item.index, item.plan, item.images.as_slice()) {
            Ok(t) => {
                textures.push(t);
                assert(kept == encodable_items(all.take(i as int)).push(all[i as int]));
                assert forall|m: int| 0 <= m < textures@.len() implies preview_texture_is(
                    #[trigger] textures@[m],
                    kept[m].index,
                    kept[m].plan,
                    kept[m].images@,
                ) by {
                    if m < before.len() {
                        assert(textures@[m] == before[m]);
                    }
                }
            },
            Err(_) => {
                assert(!item_encodes(all[i as int]));
                assert(kept == encodable_items(all.take(i as int)));
            },
        }
        i = i + 1;
    }
    assert(all.take(i as int) =~= all);
    Ok(G1tFile { version, platform, textures })
}

} // verus!
