//! AMTA material-animation metadata: the inspector that describes a file's header,
//! sections, strings and words.
pub mod document;
pub mod file;
