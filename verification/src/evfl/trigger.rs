use vstd::prelude::*;
use crate::binary::{signed16, u16_at, BinaryReader, Endian};
use crate::error::{Error, ErrorKind};

verus! {

/// A timeline trigger: the clip it belongs to and its kind.
#[derive(Clone, Copy, Debug, PartialEq, Eq, Structural)]
pub struct Trigger {
    pub clip_index: i16,
    pub trigger_type: u8,
}

impl Trigger {
    /// The trigger at `offset`: a little-endian 16-bit clip index, then its kind; fails
    /// with `UnexpectedEof` when its three bytes are not all there.
    pub fn read(data: &[u8], offset: u64) -> (r: Result<Self, Error>)
        ensures
            r is Ok <==> offset as usize + 3 <= data@.len(),
            r matches Ok(t) ==> t.clip_index == signed16(u16_at(data@, offset as usize as int, Endian::Little) as int)
                && t.trigger_type == data@[offset as usize + 2],
            r matches Err(e) ==> e.kind == ErrorKind::UnexpectedEof,
    {
        let mut reader = BinaryReader::new(data);
        reader.seek(offset as usize)?;
        let clip_index = reader.read_i16()?;
        let trigger_type = reader.read_u8()?;
        Ok(Trigger { clip_index, trigger_type })
    }
}

} // verus!
