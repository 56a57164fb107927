//! BNTX texture containers: the file header and the texture descriptors it points to.
pub mod error;
pub mod texture;
pub mod document;
