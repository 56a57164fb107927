//! Havok cloth packfiles: header, section table and contents root.
pub mod header;
pub mod section;
pub mod document;
