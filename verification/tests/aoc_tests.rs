use asset_parsers::aoc::import_task::{G1mImportTask, PARALLEL_IMPORT_MIN_BYTES};
use asset_parsers::aoc::ktid::KtidFile;

#[test]
fn large_imports_use_at_most_four_3d_workers() {
    assert_eq!(G1mImportTask::new(PARALLEL_IMPORT_MIN_BYTES, 12).worker_count(), 4);
    assert_eq!(G1mImportTask::new(PARALLEL_IMPORT_MIN_BYTES, 3).worker_count(), 3);
}

#[test]
fn small_imports_remain_single_threaded() {
    assert_eq!(G1mImportTask::new(PARALLEL_IMPORT_MIN_BYTES - 1, 12).worker_count(), 1);
}

#[test]
fn parses_complete_pairs_and_ignores_trailing_bytes() {
    let mut data = Vec::new();
    data.extend_from_slice(&3_u32.to_le_bytes());
    data.extend_from_slice(&0xaabb_ccdd_u32.to_le_bytes());
    data.extend_from_slice(&[1, 2, 3]);
    let ktid = KtidFile::parse(&data).unwrap();
    assert_eq!(ktid.get(3), Some(0xaabb_ccdd));
}

#[test]
fn ktid_later_pair_for_an_index_wins() {
    let mut data = Vec::new();
    for (index, value) in [(7_u32, 1_u32), (8, 2), (7, 3)] {
        data.extend_from_slice(&index.to_le_bytes());
        data.extend_from_slice(&value.to_le_bytes());
    }
    let ktid = KtidFile::parse(&data).unwrap();
    assert_eq!(ktid.get(7), Some(3));
    assert_eq!(ktid.get(8), Some(2));
    assert_eq!(ktid.get(9), None);
}

#[test]
fn small_import_with_one_section_uses_one_worker() {
    assert_eq!(G1mImportTask::new(PARALLEL_IMPORT_MIN_BYTES, 1).worker_count(), 1);
    assert_eq!(G1mImportTask::new(0, 0).worker_count(), 1);
}
