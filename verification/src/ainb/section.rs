use vstd::prelude::*;

verus! {

/// A named byte range of an AINB file.
#[derive(Clone, Debug)]
pub struct AinbSection {
    pub name: String,
    pub offset: u32,
    pub size: u32,
}

impl AinbSection {
    /// The section called `name` that starts at `offset` and holds `data`; the offset
    /// and length are truncated to 32 bits.
    pub fn new(name: &str, offset: usize, data: &[u8]) -> (s: Self)
        ensures
            s.name@ == name@,
            s.offset == offset as u32,
            s.size == data@.len() as u32,
    {
        AinbSection { name: name.to_owned(), offset: offset as u32, size: data.len() as u32 }
    }
}

} // verus!
