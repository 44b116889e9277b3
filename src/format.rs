//! Binary and textual formats.

pub mod udmf;
pub mod wad;
