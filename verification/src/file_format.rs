//! What marks a file as an Open-Meteo file: the header of the legacy format and the trailer of
//! the current one.

use vstd::prelude::*;

use crate::errors::OmFilesError;
use crate::little_endian::{self, read_u64};
use crate::variable::OmOffsetSize;

verus! {

/// The size in bytes of a legacy header, which is also the least that any file starts with.
pub const HEADER_SIZE: usize = 40;

/// The size in bytes of the trailer that ends a file of the current format.
pub const TRAILER_SIZE: usize = 24;

/// The first magic byte, the letter `O`.
pub const MAGIC_1: u8 = 0x4f;

/// The second magic byte, the letter `M`.
pub const MAGIC_2: u8 = 0x4d;

/// What the first bytes of a file say about its format.
#[derive(Debug, Clone, Copy, PartialEq, Eq, Structural)]
pub enum HeaderType {
    /// Not an Open-Meteo file.
    Invalid,
    /// A file of version 1 or 2, described by its header alone.
    Legacy,
    /// A file of version 3, described by its trailer.
    ReadTrailer,
}

/// The bytes start with the magic letters and the number of a version.
pub open spec fn has_version(bytes: Seq<u8>, version: u8) -> bool {
    &&& bytes.len() >= 3
    &&& bytes[0] == MAGIC_1
    &&& bytes[1] == MAGIC_2
    &&& bytes[2] == version
}

/// What `bytes`, the first of a file, say about its format.
pub open spec fn spec_header_type(bytes: Seq<u8>) -> HeaderType {
    if has_version(bytes, 1) || has_version(bytes, 2) {
        HeaderType::Legacy
    } else if has_version(bytes, 3) {
        HeaderType::ReadTrailer
    } else {
        HeaderType::Invalid
    }
}

/// Where the trailer `bytes` says that the root variable is, or `None` if it is no trailer.
pub open spec fn spec_trailer(bytes: Seq<u8>) -> Option<OmOffsetSize> {
    if bytes.len() >= TRAILER_SIZE && has_version(bytes, 3) {
        Some(
            OmOffsetSize {
                offset: little_endian::le_at(bytes, 8, 8) as u64,
                size: little_endian::le_at(bytes, 16, 8) as u64,
            },
        )
    } else {
        None
    }
}

/// Tells from the first bytes of a file which format it has.
pub fn header_type(header: &[u8]) -> (kind: HeaderType)
    ensures
        kind == spec_header_type(header@),
{
    if header.len() < 3 {
        return HeaderType::Invalid;
    }
    if header[0] != MAGIC_1 || header[1] != MAGIC_2 || header[2] > 3 || header[2] == 0 {
        return HeaderType::Invalid;
    }
    if header[2] == 3 {
        HeaderType::ReadTrailer
    } else {
        HeaderType::Legacy
    }
}

/// Reads the location of the root variable from the trailer of a file.
pub fn process_trailer(trailer: &[u8]) -> (root: Result<OmOffsetSize, OmFilesError>)
    ensures
        root == (match spec_trailer(trailer@) {
            Some(offset_size) => Ok::<OmOffsetSize, OmFilesError>(offset_size),
            None => Err(OmFilesError::NotAnOmFile),
        }),
{
    if trailer.len() < TRAILER_SIZE {
        return Err(OmFilesError::NotAnOmFile);
    }
    if trailer[0] != MAGIC_1 || trailer[1] != MAGIC_2 || trailer[2] != 3 {
        return Err(OmFilesError::NotAnOmFile);
    }
    Ok(OmOffsetSize::new(read_u64(trailer, 8), read_u64(trailer, 16)))
}

} // verus!
