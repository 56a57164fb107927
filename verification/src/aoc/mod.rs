//! Formats of the musou-engine games: KTID tables, G1T textures and G1M model imports.
pub mod ktid;
pub mod import_task;
pub mod g1t;
pub mod g1m;
