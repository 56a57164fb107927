//! Havok cloth BPHCL files: the embedded AAMP parameter section and tagfile integers.
pub mod aamp;
pub mod varuint;
