use vstd::prelude::*;

verus! {

/// Inputs at least this many bytes long are imported by several workers.
pub const PARALLEL_IMPORT_MIN_BYTES: usize = 8388608;

/// The number of workers a G1M import of `data_len` bytes with `section_count`
/// geometry sections uses: one below the size threshold, otherwise the section
/// count clamped to between one and four.
pub open spec fn spec_worker_count(data_len: usize, section_count: usize) -> usize {
    if data_len < PARALLEL_IMPORT_MIN_BYTES {
        1
    } else if section_count < 1 {
        1
    } else if section_count > 4 {
        4
    } else {
        section_count
    }
}

/// Coordinates the bounded worker set used by large G1M imports.
pub struct G1mImportTask {
    pub data_len: usize,
    pub section_count: usize,
}

impl G1mImportTask {
    /// A task for an input of `data_len` bytes with `section_count` sections.
    pub fn new(data_len: usize, section_count: usize) -> (t: Self)
        ensures
            t.data_len == data_len,
            t.section_count == section_count,
    {
        G1mImportTask { data_len, section_count }
    }

    /// How many 3D workers the import uses.
    pub fn worker_count(&self) -> (n: usize)
        ensures
            n == spec_worker_count(self.data_len, self.section_count),
            1 <= n <= 4,
    {
        if self.data_len < PARALLEL_IMPORT_MIN_BYTES {
            1
        } else if self.section_count < 1 {
            1
        } else if self.section_count > 4 {
            4
        } else {
            self.section_count
        }
    }
}

} // verus!
