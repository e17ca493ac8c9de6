//! Reading and writing of gma archives, the addon package format of Garry's Mod.
//!
//! An archive is handled as a sequence of bytes in memory: the reader parses a
//! byte buffer (decompressing it first when it is LZMA-compressed) and the
//! builder produces the bytes of an archive.
use vstd::prelude::*;

pub mod addon_metadata;
pub mod binary;
pub mod checksum;
pub mod compression;
pub mod error;
pub mod gma_builder;
pub mod gma_reader;
pub mod laws;
pub mod layout;

pub use error::Error;
pub use gma_builder::GMABuilder;
pub use gma_reader::{load, load_from_memory, FileEntry, GMAFile, GMAFileReader};

verus! {

/// The four bytes that open every uncompressed archive.
pub const IDENT: [u8; 4] = [71u8, 77u8, 65u8, 68u8];

/// `b"GMAD"` as a sequence.
pub open spec fn ident_seq() -> Seq<u8> {
    seq![71u8, 77u8, 65u8, 68u8]
}

/// The archive format versions that can be read.
pub open spec fn valid_version(v: u8) -> bool {
    1 <= v <= 3
}

/// The kind of content an addon provides.
#[derive(Debug, Clone, Copy, PartialEq, Eq, Structural)]
pub enum AddonType {
    Gamemode,
    GameMap,
    Weapon,
    Vehicle,
    NPC,
    Entity,
    Tool,
    Effects,
    Model,
    ServerContent,
}

/// A classification tag of an addon.
#[derive(Debug, Clone, Copy, PartialEq, Eq, Structural)]
pub enum AddonTag {
    Fun,
    Roleplay,
    Scenic,
    Movie,
    Realism,
    Cartoon,
    Water,
    Comic,
    Build,
}

} // verus!
