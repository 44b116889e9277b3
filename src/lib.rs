//! Readers for a level-based game's lump container and its textual map-definition language.

pub mod editor;
pub mod format;
pub mod map;
pub mod text;
