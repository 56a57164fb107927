//! FBX export options.
pub mod export;
