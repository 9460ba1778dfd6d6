//! Level-name extraction from Doom-engine WAD files, and the bookkeeping of a
//! launched game's console output.

pub mod ascii;
pub mod wad;
pub mod locator;
pub mod tokenizer;
pub mod levels;
pub mod blocks;
pub mod mapinfo;
pub mod umapinfo;
pub mod vanilla;
pub mod dehacked;
pub mod table;
pub mod merge;
pub mod extract;
pub mod session;
pub mod launcher;
pub mod persist;
