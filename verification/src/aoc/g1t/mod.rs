//! G1T texture archives: header, texture table and texture headers.
pub mod format;
pub mod archive;
pub mod header;
pub mod surface;
pub mod image;
pub mod texture;
pub mod file;
