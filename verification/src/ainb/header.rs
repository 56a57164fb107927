use vstd::prelude::*;
use crate::binary::{u32_at, BinaryReader, Endian};
use crate::error::{invalid, Error, ErrorKind};

verus! {

/// The size of an AINB header.
pub const HEADER_SIZE: usize = 0x74;

/// The AINB versions that can be read.
pub const SUPPORTED_VERSIONS: [u32; 3] = [0x404, 0x407, 0x408];

/// Whether an AINB version can be read.
pub open spec fn version_supported(v: u32) -> bool {
    v == 0x404 || v == 0x407 || v == 0x408
}

/// The fixed header of an AINB file.
#[derive(Clone, Copy, Debug)]
pub struct AinbHeader {
    pub version: u32,
    pub filename_offset: u32,
    pub command_count: u32,
    pub node_count: u32,
    pub query_count: u32,
    pub attachment_count: u32,
    pub output_count: u32,
    pub blackboard_offset: u32,
    pub string_pool_offset: u32,
    pub enum_resolve_offset: u32,
    pub property_offset: u32,
    pub transition_offset: u32,
    pub io_param_offset: u32,
    pub multi_param_offset: u32,
    pub attachment_offset: u32,
    pub attachment_index_offset: u32,
    pub expression_offset: u32,
    pub replacement_offset: u32,
    pub query_offset: u32,
    pub section_0x50_offset: u32,
    pub section_0x54_value: u32,
    pub section_0x58_offset: u32,
    pub module_offset: u32,
    pub category_name_offset: u32,
    pub category: u32,
    pub action_offset: u32,
    pub section_0x6c_offset: u32,
    pub blackboard_id_offset: u32,
}

/// Whether the four bytes at `p` are the AINB magic `AIB `.
pub open spec fn ainb_magic_at(b: Seq<u8>, p: int) -> bool {
    b[p] == 0x41 && b[p + 1] == 0x49 && b[p + 2] == 0x42 && b[p + 3] == 0x20
}

/// The header whose magic is at `p` of `b`.
pub open spec fn ainb_header_at(b: Seq<u8>, p: int, e: Endian) -> AinbHeader {
    AinbHeader {
        version: u32_at(b, p + 4, e),
        filename_offset: u32_at(b, p + 8, e),
        command_count: u32_at(b, p + 12, e),
        node_count: u32_at(b, p + 16, e),
        query_count: u32_at(b, p + 20, e),
        attachment_count: u32_at(b, p + 24, e),
        output_count: u32_at(b, p + 28, e),
        blackboard_offset: u32_at(b, p + 32, e),
        string_pool_offset: u32_at(b, p + 36, e),
        enum_resolve_offset: u32_at(b, p + 40, e),
        property_offset: u32_at(b, p + 44, e),
        transition_offset: u32_at(b, p + 48, e),
        io_param_offset: u32_at(b, p + 52, e),
        multi_param_offset: u32_at(b, p + 56, e),
        attachment_offset: u32_at(b, p + 60, e),
        attachment_index_offset: u32_at(b, p + 64, e),
        expression_offset: u32_at(b, p + 68, e),
        replacement_offset: u32_at(b, p + 72, e),
        query_offset: u32_at(b, p + 76, e),
        section_0x50_offset: u32_at(b, p + 80, e),
        section_0x54_value: u32_at(b, p + 84, e),
        section_0x58_offset: u32_at(b, p + 88, e),
        module_offset: u32_at(b, p + 92, e),
        category_name_offset: u32_at(b, p + 96, e),
        category: u32_at(b, p + 100, e),
        action_offset: u32_at(b, p + 104, e),
        section_0x6c_offset: u32_at(b, p + 108, e),
        blackboard_id_offset: u32_at(b, p + 112, e),
    }
}

/// The error `AinbHeader::read` gives for a header at `p` of `b`, if any.
pub open spec fn ainb_header_error(b: Seq<u8>, p: int, e: Endian) -> Option<ErrorKind> {
    if p + 4 > b.len() {
        Some(ErrorKind::UnexpectedEof)
    } else if !ainb_magic_at(b, p) {
        Some(ErrorKind::InvalidData)
    } else if p + 8 > b.len() {
        Some(ErrorKind::UnexpectedEof)
    } else if !version_supported(u32_at(b, p + 4, e)) {
        Some(ErrorKind::InvalidData)
    } else if p + 0x74 > b.len() {
        Some(ErrorKind::UnexpectedEof)
    } else {
        None
    }
}

impl AinbHeader {
    /// Reads the header at the reader's position: the magic `AIB `, a supported
    /// version, then 27 offsets and counts.
    pub fn read(reader: &mut BinaryReader<'_>) -> (r: Result<Self, Error>)
        requires
            old(reader).wf(),
        ensures
            final(reader).wf(),
            final(reader).bytes() == old(reader).bytes(),
            final(reader).order() == old(reader).order(),
            r is Ok <==> ainb_header_error(old(reader).bytes(), old(reader).pos(), old(reader).order()) is None,
            r matches Err(err) ==> Some(err.kind) == ainb_header_error(old(reader).bytes(), old(reader).pos(), old(reader).order()),
            r matches Ok(h) ==> h == ainb_header_at(old(reader).bytes(), old(reader).pos(), old(reader).order())
                && final(reader).pos() == old(reader).pos() + 0x74,
    {
        let magic = reader.read_bytes(4)?;
        assert(magic@.len() == 4);
        if !(magic[0] == 0x41 && magic[1] == 0x49 && magic[2] == 0x42 && magic[3] == 0x20) {
            return Err(invalid("invalid AINB magic"));
        }
        let version = reader.read_u32()?;
        if !(version == SUPPORTED_VERSIONS[0] || version == SUPPORTED_VERSIONS[1] || version == SUPPORTED_VERSIONS[2]) {
            return Err(invalid("unsupported AINB version"));
        }
        let filename_offset = reader.read_u32()?;
        let command_count = reader.read_u32()?;
        let node_count = reader.read_u32()?;
        let query_count = reader.read_u32()?;
        let attachment_count = reader.read_u32()?;
        let output_count = reader.read_u32()?;
        let blackboard_offset = reader.read_u32()?;
        let string_pool_offset = reader.read_u32()?;
        let enum_resolve_offset = reader.read_u32()?;
        let property_offset = reader.read_u32()?;
        let transition_offset = reader.read_u32()?;
        let io_param_offset = reader.read_u32()?;
        let multi_param_offset = reader.read_u32()?;
        let attachment_offset = reader.read_u32()?;
        let attachment_index_offset = reader.read_u32()?;
        let expression_offset = reader.read_u32()?;
        let replacement_offset = reader.read_u32()?;
        let query_offset = reader.read_u32()?;
        let section_0x50_offset = reader.read_u32()?;
        let section_0x54_value = reader.read_u32()?;
        let section_0x58_offset = reader.read_u32()?;
        let module_offset = reader.read_u32()?;
        let category_name_offset = reader.read_u32()?;
        let category = reader.read_u32()?;
        let action_offset = reader.read_u32()?;
        let section_0x6c_offset = reader.read_u32()?;
        let blackboard_id_offset = reader.read_u32()?;
        Ok(AinbHeader {
            version,
            filename_offset,
            command_count,
            node_count,
            query_count,
            attachment_count,
            output_count,
            blackboard_offset,
            string_pool_offset,
            enum_resolve_offset,
            property_offset,
            transition_offset,
            io_param_offset,
            multi_param_offset,
            attachment_offset,
            attachment_index_offset,
            expression_offset,
            replacement_offset,
            query_offset,
            section_0x50_offset,
            section_0x54_value,
            section_0x58_offset,
            module_offset,
            category_name_offset,
            category,
            action_offset,
            section_0x6c_offset,
            blackboard_id_offset,
        })
    }

    /// The section offsets of the header, each with the section's name.
    pub fn named_offsets(&self) -> (r: [(&'static str, u32); 17])
        ensures
            forall|i: int| 0 <= i < 17 ==> (#[trigger] r@[i]).0@ == self.offset_names()[i] && r@[i].1 == self.section_offsets()[i],
    {
        let r = [
            ("blackboard", self.blackboard_offset),
            ("properties", self.property_offset),
            ("transitions", self.transition_offset),
            ("io_parameters", self.io_param_offset),
            ("multi_parameters", self.multi_param_offset),
            ("attachments", self.attachment_offset),
            ("attachment_indices", self.attachment_index_offset),
            ("expressions", self.expression_offset),
            ("replacements", self.replacement_offset),
            ("queries", self.query_offset),
            ("section_0x50", self.section_0x50_offset),
            ("section_0x58", self.section_0x58_offset),
            ("modules", self.module_offset),
            ("actions", self.action_offset),
            ("section_0x6c", self.section_0x6c_offset),
            ("blackboard_ids", self.blackboard_id_offset),
            ("enum_resolve", self.enum_resolve_offset),
        ];
        assert(r@[0].0@ == self.offset_names()[0]);
        r
    }

    /// The names `named_offsets` gives the sections, in order.
    pub open spec fn offset_names(&self) -> Seq<Seq<char>> {
        seq![
            "blackboard"@,
            "properties"@,
            "transitions"@,
            "io_parameters"@,
            "multi_parameters"@,
            "attachments"@,
            "attachment_indices"@,
            "expressions"@,
            "replacements"@,
            "queries"@,
            "section_0x50"@,
            "section_0x58"@,
            "modules"@,
            "actions"@,
            "section_0x6c"@,
            "blackboard_ids"@,
            "enum_resolve"@,
        ]
    }

    /// Each section name goes with its own offset field: "blackboard" with the
    /// blackboard offset, "properties" with the property offset, and so on to
    /// "enum_resolve" with the enum resolve offset.
    pub proof fn lemma_offset_names(&self)
        ensures
            self.offset_names().len() == 17 && self.section_offsets().len() == 17,
            self.offset_names()[0] == "blackboard"@ && self.section_offsets()[0] == self.blackboard_offset,
            self.offset_names()[1] == "properties"@ && self.section_offsets()[1] == self.property_offset,
            self.offset_names()[2] == "transitions"@ && self.section_offsets()[2] == self.transition_offset,
            self.offset_names()[3] == "io_parameters"@ && self.section_offsets()[3] == self.io_param_offset,
            self.offset_names()[4] == "multi_parameters"@ && self.section_offsets()[4] == self.multi_param_offset,
            self.offset_names()[5] == "attachments"@ && self.section_offsets()[5] == self.attachment_offset,
            self.offset_names()[6] == "attachment_indices"@ && self.section_offsets()[6] == self.attachment_index_offset,
            self.offset_names()[7] == "expressions"@ && self.section_offsets()[7] == self.expression_offset,
            self.offset_names()[8] == "replacements"@ && self.section_offsets()[8] == self.replacement_offset,
            self.offset_names()[9] == "queries"@ && self.section_offsets()[9] == self.query_offset,
            self.offset_names()[10] == "section_0x50"@ && self.section_offsets()[10] == self.section_0x50_offset,
            self.offset_names()[11] == "section_0x58"@ && self.section_offsets()[11] == self.section_0x58_offset,
            self.offset_names()[12] == "modules"@ && self.section_offsets()[12] == self.module_offset,
            self.offset_names()[13] == "actions"@ && self.section_offsets()[13] == self.action_offset,
            self.offset_names()[14] == "section_0x6c"@ && self.section_offsets()[14] == self.section_0x6c_offset,
            self.offset_names()[15] == "blackboard_ids"@ && self.section_offsets()[15] == self.blackboard_id_offset,
            self.offset_names()[16] == "enum_resolve"@ && self.section_offsets()[16] == self.enum_resolve_offset,
    {
    }

    /// The section offsets `named_offsets` gives, in order.
    pub open spec fn section_offsets(&self) -> Seq<u32> {
        seq![
            self.blackboard_offset,
            self.property_offset,
            self.transition_offset,
            self.io_param_offset,
            self.multi_param_offset,
            self.attachment_offset,
            self.attachment_index_offset,
            self.expression_offset,
            self.replacement_offset,
            self.query_offset,
            self.section_0x50_offset,
            self.section_0x58_offset,
            self.module_offset,
            self.action_offset,
            self.section_0x6c_offset,
            self.blackboard_id_offset,
            self.enum_resolve_offset,
        ]
    }
}

} // verus!
