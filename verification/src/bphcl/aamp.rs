use vstd::prelude::*;
use crate::error::{invalid, Error, ErrorKind};

verus! {

/// The AAMP parameter archive embedded in a BPHCL file.
#[derive(Clone, Debug)]
pub struct AampSection {
    pub offset: usize,
    pub size: usize,
    pub raw: Vec<u8>,
}

/// The magic of an AAMP archive.
pub open spec fn aamp_magic() -> Seq<u8> {
    seq![0x41u8, 0x41u8, 0x4du8, 0x50u8]
}

impl AampSection {
    /// The `size` bytes at `offset` of `data` as an AAMP section; `None` when `size` is
    /// zero. Fails with `InvalidData` when the range leaves `data` or does not start
    /// with `AAMP`.
    pub fn read(data: &[u8], offset: u32, size: u32) -> (r: Result<Option<Self>, Error>)
        ensures
            size == 0 ==> r matches Ok(None),
            size != 0 ==> (r is Ok <==> offset + size <= data@.len() && size >= 4
                && data@.subrange(offset as int, offset + 4) == aamp_magic()),
            size != 0 && r is Ok ==> r matches Ok(Some(_)),
            r matches Ok(Some(s)) ==> s.offset == offset && s.size == size && s.raw@
                == data@.subrange(offset as int, offset + size),
            r matches Err(e) ==> e.kind == ErrorKind::InvalidData,
    {
        if size == 0 {
            return Ok(None);
        }
        let len = data.len();
        let o = offset as usize;
        let s = size as usize;
        let end = match o.checked_add(s) {
            Some(v) => v,
            None => return Err(invalid("AAMP range overflow")),
        };
        if end > data.len() {
            return Err(invalid("AAMP outside BPHCL"));
        }
        let raw = &data[o..end];
        if !(raw.len() >= 4 && raw[0] == 0x41 && raw[1] == 0x41 && raw[2] == 0x4d && raw[3] == 0x50) {
            assert(!(size >= 4 && data@.subrange(offset as int, offset + 4) == aamp_magic())) by {
                if size >= 4 && data@.subrange(offset as int, offset + 4) == aamp_magic() {
                    assert(raw@[0] == data@.subrange(offset as int, offset + 4)[0]);
                    assert(raw@[1] == data@.subrange(offset as int, offset + 4)[1]);
                    assert(raw@[2] == data@.subrange(offset as int, offset + 4)[2]);
                    assert(raw@[3] == data@.subrange(offset as int, offset + 4)[3]);
                }
            }
            return Err(invalid("parameter section is not AAMP"));
        }
        assert(data@.subrange(offset as int, offset + 4) =~= aamp_magic());
        Ok(Some(AampSection { offset: o, size: s, raw: vstd::slice::slice_to_vec(raw) }))
    }
}

} // verus!
