use vstd::prelude::*;
use crate::binary::{u32_at, u64_at, BinaryReader};
use crate::error::{invalid, Error, ErrorKind};

verus! {

/// The location and shape of an array in a BAEV section.
#[derive(Clone, Copy, Debug)]
pub struct BaevArray {
    pub offset: u64,
    pub count: u32,
    pub element_size: u32,
}

impl BaevArray {
    /// Reads a 64-bit offset, a 32-bit count and a 32-bit element size.
    pub fn read(reader: &mut BinaryReader<'_>) -> (r: Result<Self, Error>)
        requires
            old(reader).wf(),
        ensures
            final(reader).wf(),
            final(reader).bytes() == old(reader).bytes(),
            final(reader).order() == old(reader).order(),
            r is Ok <==> old(reader).pos() + 16 <= old(reader).bytes().len(),
            r matches Ok(a) ==> {
                let b = old(reader).bytes();
                let p = old(reader).pos();
                let e = old(reader).order();
                &&& a.offset == u64_at(b, p, e)
                &&& a.count == u32_at(b, p + 8, e)
                &&& a.element_size == u32_at(b, p + 12, e)
                &&& final(reader).pos() == p + 16
            },
            r matches Err(err) ==> err.kind == ErrorKind::UnexpectedEof,
    {
        let offset = reader.read_u64()?;
        let count = reader.read_u32()?;
        let element_size = reader.read_u32()?;
        Ok(BaevArray { offset, count, element_size })
    }

    /// The offset as a `usize`; fails with `InvalidData` when it does not fit.
    pub fn offset(&self) -> (r: Result<usize, Error>)
        ensures
            r is Ok <==> self.offset <= usize::MAX,
            r matches Ok(o) ==> o == self.offset,
            r matches Err(e) ==> e.kind == ErrorKind::InvalidData,
    {
        if self.offset > usize::MAX as u64 {
            return Err(invalid("BAEV offset exceeds usize"));
        }
        Ok(self.offset as usize)
    }
}

} // verus!
