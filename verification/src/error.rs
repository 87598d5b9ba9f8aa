//! The errors that container operations report.

use vstd::prelude::*;

verus! {

/// Why a byte buffer refused an operation.
#[derive(Debug, Clone, Copy, PartialEq, Eq, Structural)]
pub enum IoFault {
    /// A seek to a negative position, or to one that does not fit the machine.
    InvalidSeek,
    /// A size or an offset that the format or the machine cannot hold.
    Overflow,
    /// An earlier save of the container failed.
    Poisoned,
    /// The data is not in memory.
    NotLoaded,
}

/// The compression codecs of the format.
#[derive(Debug, Clone, Copy, PartialEq, Eq, Structural)]
pub enum Codec {
    Xz,
    Zlib,
}

/// A feature of the format that a reader may lack.
#[derive(Debug, Clone, Copy, PartialEq, Eq, Structural)]
pub enum Feature {
    /// Payloads stored as zlib streams.
    CompressZlib,
    /// Payloads checked by a CRC-32.
    CheckCrc32,
}

impl Feature {
    /// The name of the flag that asks for the feature.
    pub fn name(&self) -> (r: &'static str)
        ensures
            r@ == match *self {
                Feature::CompressZlib => "FLAG_COMPRESS_ZLIB"@,
                Feature::CheckCrc32 => "FLAG_CHECK_CRC32"@,
            },
    {
        match self {
            Feature::CompressZlib => "FLAG_COMPRESS_ZLIB",
            Feature::CheckCrc32 => "FLAG_CHECK_CRC32",
        }
    }
}

/// What can go wrong with a container.
#[derive(Debug, Clone, Copy, PartialEq, Eq, Structural)]
pub enum Error {
    /// A checksum does not match: the computed value, then the expected one.
    Checksum(u32, u32),
    /// The main header does not start with the format's signature.
    BadSignature,
    /// The main header names a version that is not known.
    BadVersion,
    /// The data ended inside a record or a payload.
    Eos,
    /// The backend refused an operation.
    Io(IoFault),
    /// The section's payload is handed out already.
    SectionInUse,
    /// The section's payload was not loaded yet.
    SectionNotLoaded,
    /// A compressed payload is malformed.
    Inflate(Codec),
    /// A payload could not be compressed.
    Deflate(Codec),
    /// The reader does not support a feature that the container uses.
    Unsupported(Feature),
}

} // verus!
