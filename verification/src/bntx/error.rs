use vstd::prelude::*;

verus! {

/// A failure to read a BNTX file: where it happened and why.
#[derive(Debug, Clone, PartialEq, Eq)]
pub struct BntxError {
    pub offset: usize,
    pub message: String,
}

impl BntxError {
    /// An error at `offset` with the given description.
    pub fn new(offset: usize, message: &str) -> (e: Self)
        ensures
            e.offset == offset,
            e.message@ == message@,
    {
        BntxError { offset, message: message.to_owned() }
    }
}

} // verus!
