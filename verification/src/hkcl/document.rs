use vstd::prelude::*;
use crate::binary::{c_string_at, BinaryReader, Endian};
use crate::error::{invalid, Error, ErrorKind};
use crate::hkcl::header::{header_error, layout_endian, HkclHeader, HEADER_SIZE};
use crate::hkcl::section::{
    section_error, section_offsets, section_start, HkclSection, SECTION_HEADER_SIZE,
};
use crate::text::str_eq;

verus! {

/// Where the entry of section `i` lies in the section table.
pub open spec fn section_entry(i: int) -> int {
    0x40 + 0x30 * i
}

/// Whether the first `count` section entries of `b` are valid.
pub open spec fn sections_valid(b: Seq<u8>, count: int, e: Endian) -> bool {
    forall|i: int| 0 <= i < count ==> #[trigger] section_error(b, section_entry(i), e) is None
}

/// The absolute end of the data of section `i`.
pub open spec fn section_data_end(b: Seq<u8>, i: int, e: Endian) -> int {
    section_start(b, section_entry(i), e) + section_offsets(b, section_entry(i), e)[5]
}

/// The absolute offset that `relative` into section `index` names, when it falls
/// inside that section's data.
pub open spec fn resolved(b: Seq<u8>, index: Option<usize>, relative: u32, e: Endian) -> Option<
    usize,
> {
    match index {
        None => None,
        Some(i) => Some((section_start(b, section_entry(i as int), e) + relative) as usize),
    }
}

/// Whether a section-relative offset is absent or falls inside its section's data.
pub open spec fn resolves(b: Seq<u8>, index: Option<usize>, relative: u32, e: Endian) -> bool {
    match index {
        None => true,
        Some(i) => section_start(b, section_entry(i as int), e) + relative < section_data_end(
            b,
            i as int,
            e,
        ),
    }
}

/// Whether `b` is a packfile that `HkclDocument::parse` accepts: a valid header,
/// valid section entries, contents and class-name offsets inside their sections, and a
/// terminated UTF-8 class name.
pub open spec fn packfile_ok(b: Seq<u8>) -> bool {
    let e = layout_endian(b);
    let h = crate::hkcl::header::i32_at(b, 0x14, e);
    let ci = crate::hkcl::header::stored_index(crate::hkcl::header::i32_at(b, 0x18, e));
    let co = crate::binary::u32_at(b, 0x1c, e);
    let ni = crate::hkcl::header::stored_index(crate::hkcl::header::i32_at(b, 0x20, e));
    let no = crate::binary::u32_at(b, 0x24, e);
    &&& header_error(b) is None
    &&& sections_valid(b, h, e)
    &&& resolves(b, ci, co, e)
    &&& resolves(b, ni, no, e)
    &&& (resolved(b, ni, no, e) matches Some(at) ==> c_string_at(b, at as int) is Some)
}

/// A parsed packfile: header, sections and the location of its contents root.
#[derive(Clone, Debug)]
pub struct HkclDocument {
    pub raw: Vec<u8>,
    pub header: HkclHeader,
    pub sections: Vec<HkclSection>,
    pub contents_offset: Option<usize>,
    pub contents_class_name_offset: Option<usize>,
    pub contents_class_name: Option<String>,
}

impl HkclDocument {
    /// Parses a packfile.
    #[verifier::rlimit(30)]
    pub fn parse(data: &[u8]) -> (r: Result<Self, Error>)
        ensures
            r is Ok <==> packfile_ok(data@),
            r matches Ok(d) ==> {
                let b = data@;
                let e = layout_endian(b);
                &&& d.raw@ == b
                &&& d.header.read_from(b)
                &&& d.sections@.len() == d.header.section_count
                &&& forall|i: int|
                    0 <= i < d.sections@.len() ==> #[trigger] d.sections@[i].read_from(
                        b,
                        section_entry(i),
                        e,
                    )
                &&& d.contents_offset == resolved(
                    b,
                    d.header.contents_section_index,
                    d.header.contents_section_offset,
                    e,
                )
                &&& d.contents_class_name_offset == resolved(
                    b,
                    d.header.contents_class_name_section_index,
                    d.header.contents_class_name_section_offset,
                    e,
                )
                &&& match d.contents_class_name_offset {
                    None => d.contents_class_name is None,
                    Some(at) => d.contents_class_name matches Some(n) && n@ == c_string_at(
                        b,
                        at as int,
                    )->Some_0,
                }
            },
            r matches Err(e) ==> e.kind == ErrorKind::UnexpectedEof || e.kind
                == ErrorKind::InvalidData,
    {
        let ghost b = data@;
        let header = HkclHeader::read(data)?;
        let endian = header.layout.endian;
        let sections = read_sections(data, header.section_count, endian)?;
        let ghost e = endian;
        assert(header.section_count == crate::hkcl::header::i32_at(b, 0x14, e));
        assert(sections_valid(b, crate::hkcl::header::i32_at(b, 0x14, e), e));
        proof {
            if let Some(i) = header.contents_section_index {
                lemma_section_fields(b, sections@, i as int, e);
            }
            if let Some(i) = header.contents_class_name_section_index {
                lemma_section_fields(b, sections@, i as int, e);
            }
        }
        let contents_offset = resolve_offset(
            &sections,
            header.contents_section_index,
            header.contents_section_offset,
        )?;
        assert(resolves(b, header.contents_section_index, header.contents_section_offset, e));
        assert(contents_offset == resolved(b, header.contents_section_index, header.contents_section_offset, e));
        let contents_class_name_offset = resolve_offset(
            &sections,
            header.contents_class_name_section_index,
            header.contents_class_name_section_offset,
        )?;
        let contents_class_name = match contents_class_name_offset {
            None => None,
            Some(at) => Some(BinaryReader::new(data).read_c_string_at(at)?),
        };
        Ok(HkclDocument {
            raw: vstd::slice::slice_to_vec(data),
            header,
            sections,
            contents_offset,
            contents_class_name_offset,
            contents_class_name,
        })
    }

    /// The first section whose tag is `tag`.
    pub fn section(&self, tag: &str) -> (r: Option<&HkclSection>)
        ensures
            r is Some <==> exists|i: int|
                0 <= i < self.sections@.len() && #[trigger] self.sections@[i].tag@ == tag@,
            r matches Some(s) ==> exists|i: int|
                0 <= i < self.sections@.len() && self.sections@[i] == *s && s.tag@ == tag@
                    && forall|j: int| 0 <= j < i ==> #[trigger] self.sections@[j].tag@ != tag@,
    {
        let mut i: usize = 0;
        while i < self.sections.len()
            invariant
                i <= self.sections@.len(),
                forall|j: int| 0 <= j < i ==> #[trigger] self.sections@[j].tag@ != tag@,
            decreases self.sections@.len() - i,
        {
            if str_eq(self.sections[i].tag.as_str(), tag) {
                return Some(&self.sections[i]);
            }
            i = i + 1;
        }
        None
    }
}

proof fn lemma_section_fields(b: Seq<u8>, sections: Seq<HkclSection>, i: int, e: Endian)
    requires
        0 <= i < sections.len(),
        forall|k: int| 0 <= k < sections.len() ==> #[trigger] sections[k].read_from(b, section_entry(k), e),
    ensures
        sections[i].absolute_data_start == section_start(b, section_entry(i), e),
        sections[i].end == section_data_end(b, i, e),
{
    assert(sections[i].read_from(b, section_entry(i), e));
}

/// Reads the first `count` entries of the section table.
fn read_sections(data: &[u8], count: usize, endian: Endian) -> (r: Result<Vec<HkclSection>, Error>)
    ensures
        r is Ok <==> sections_valid(data@, count as int, endian),
        r matches Ok(v) ==> v@.len() == count && forall|i: int|
            0 <= i < count ==> #[trigger] v@[i].read_from(data@, section_entry(i), endian),
        r matches Err(e) ==> e.kind == ErrorKind::UnexpectedEof || e.kind == ErrorKind::InvalidData,
{
    let ghost b = data@;
    let n = data.len();
    let mut sections: Vec<HkclSection> = Vec::new();
    let mut offset: usize = HEADER_SIZE;
    let mut index: usize = 0;
    while index < count
        invariant
            b == data@,
            n == b.len(),
            index <= count,
            offset == section_entry(index as int),
            index == 0 || offset <= b.len(),
            sections@.len() == index,
            forall|i: int|
                0 <= i < index ==> #[trigger] section_error(b, section_entry(i), endian) is None,
            forall|i: int|
                0 <= i < index ==> #[trigger] sections@[i].read_from(b, section_entry(i), endian),
        decreases count - index,
    {
        let section = match HkclSection::read(data, offset, endian) {
            Ok(s) => s,
            Err(e) => {
                assert(section_error(b, section_entry(index as int), endian) is Some);
                return Err(e);
            },
        };
        sections.push(section);
        offset = offset + SECTION_HEADER_SIZE;
        index = index + 1;
    }
    Ok(sections)
}

/// The absolute offset of `relative_offset` into section `section_index`, or `None`
/// when there is no section. Fails with `InvalidData` when the offset does not fall
/// inside the section's data.
fn resolve_offset(
    sections: &Vec<HkclSection>,
    section_index: Option<usize>,
    relative_offset: u32,
) -> (r: Result<Option<usize>, Error>)
    requires
        section_index matches Some(i) ==> i < sections@.len(),
    ensures
        section_index is None ==> r == Ok::<Option<usize>, Error>(None),
        section_index matches Some(i) ==> {
            let s = sections@[i as int];
            &&& r is Ok <==> s.absolute_data_start + relative_offset < s.end
            &&& r matches Ok(v) ==> v == Some((s.absolute_data_start + relative_offset) as usize)
            &&& r matches Err(e) ==> e.kind == ErrorKind::InvalidData
        },
{
    let section_index = match section_index {
        None => return Ok(None),
        Some(i) => i,
    };
    let section = &sections[section_index];
    let absolute = match section.absolute_data_start.checked_add(relative_offset as usize) {
        Some(a) => a,
        None => return Err(invalid("HKCL offset overflows")),
    };
    if absolute >= section.end {
        return Err(invalid("HKCL offset exceeds its section"));
    }
    Ok(Some(absolute))
}

/// In every packfile `parse` accepts, the contents offset and the class-name offset
/// lie inside the data of the sections they name.
pub proof fn lemma_contents_in_section(b: Seq<u8>)
    requires
        packfile_ok(b),
        b.len() <= usize::MAX,
    ensures
        ({
            let e = layout_endian(b);
            let ci = crate::hkcl::header::stored_index(crate::hkcl::header::i32_at(b, 0x18, e));
            let co = crate::binary::u32_at(b, 0x1c, e);
            ci matches Some(i) ==> section_start(b, section_entry(i as int), e) <= resolved(b, ci, co, e)->Some_0
                < section_data_end(b, i as int, e)
        }),
        ({
            let e = layout_endian(b);
            let ni = crate::hkcl::header::stored_index(crate::hkcl::header::i32_at(b, 0x20, e));
            let no = crate::binary::u32_at(b, 0x24, e);
            ni matches Some(i) ==> section_start(b, section_entry(i as int), e) <= resolved(b, ni, no, e)->Some_0
                < section_data_end(b, i as int, e)
        }),
{
    let e = layout_endian(b);
    let ci = crate::hkcl::header::stored_index(crate::hkcl::header::i32_at(b, 0x18, e));
    let ni = crate::hkcl::header::stored_index(crate::hkcl::header::i32_at(b, 0x20, e));
    if let Some(i) = ci {
        assert(section_data_end(b, i as int, e) <= b.len()) by {
            assert(0 <= i < crate::hkcl::header::i32_at(b, 0x14, e));
            assert(section_error(b, section_entry(i as int), e) is None);
        }
    }
    if let Some(i) = ni {
        assert(section_data_end(b, i as int, e) <= b.len()) by {
            assert(0 <= i < crate::hkcl::header::i32_at(b, 0x14, e));
            assert(section_error(b, section_entry(i as int), e) is None);
        }
    }
}

} // verus!
