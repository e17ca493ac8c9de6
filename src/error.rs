use vstd::prelude::*;

verus! {

/// The ways in which reading or writing an archive can fail.
#[derive(Debug, PartialEq, Eq)]
pub enum Error {
    /// The stream ended before a field could be read in full.
    IOError,
    /// A string to be written holds a null byte.
    InvalidString,
    /// A string field does not hold valid UTF-8.
    UTF8Error,
    /// The stream does not start with `GMAD`.
    InvalidIdent,
    /// The version byte is not one of the supported versions (1, 2 or 3).
    InvalidVersion(u8),
    /// The stream could not be decompressed, or compressed.
    CompressionError,
    /// A name that is no addon type.
    InvalidAddonType(String),
    /// A name that is no addon tag.
    InvalidAddonTag(String),
}

} // verus!
