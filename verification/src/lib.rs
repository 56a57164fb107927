//! Readers, writers and parsers for game asset formats.
pub mod error;
pub mod binary;
pub mod text;
pub mod fmt;
pub mod aoc;
pub mod ainb;
pub mod asb;
pub mod hkcl;
pub mod bntx;
pub mod bphcl;
pub mod amta;
pub mod evfl;
pub mod fbx;
