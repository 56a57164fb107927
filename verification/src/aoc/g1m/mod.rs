//! G1M models: texture classification, strip triangulation, texture tables, the
//! geometry chunk as read for display and for mesh replacement, and the rebuilt
//! layout section and G1MF counters.
pub mod textures;
pub mod walk;
pub mod records;
pub mod visibility;
pub mod sections;
pub mod container;
pub mod replace;
pub mod source;
pub mod rebuild;
pub mod validate;
pub mod names;
pub mod meshes;
pub mod skeleton;
pub mod kidsobj;
