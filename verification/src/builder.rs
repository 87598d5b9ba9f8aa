//! Builders for the two headers.

use vstd::prelude::*;
use crate::header::{
    MainHeader,
    SectionHeader,
    FLAG_CHECK_CRC32,
    FLAG_CHECK_WEAK,
    FLAG_COMPRESS_XZ,
    FLAG_COMPRESS_ZLIB,
};

verus! {

/// The size up to which a section stays uncompressed unless its builder says
/// otherwise.
pub const DEFAULT_COMPRESSION_THRESHOLD: u32 = 65536;

/// The checksums that a section can be checked by.
#[derive(Debug, Clone, Copy, PartialEq, Eq, Structural)]
pub enum Checksum {
    Weak,
    Crc32,
}

/// The codecs that a section can be compressed by.
#[derive(Debug, Clone, Copy, PartialEq, Eq, Structural)]
pub enum CompressionMethod {
    Xz,
    Zlib,
}

/// Builds the header to create a section with. A new builder asks for no
/// checksum and no compression, type 0 and the default threshold.
#[derive(Debug, Clone, Copy)]
pub struct SectionHeaderBuilder {
    pub header: SectionHeader,
}

impl SectionHeaderBuilder {
    /// A builder of a header without flags, of type 0.
    pub fn new() -> (r: Self)
        ensures
            r.header == (SectionHeader {
                pointer: 0,
                csize: 0,
                size: 0,
                chksum: 0,
                ty: 0,
                flags: 0,
            }),
    {
        SectionHeaderBuilder { header: SectionHeader::new() }
    }

    /// Asks for the section to be checked by `chksum`, in place of any
    /// checksum asked for before.
    pub fn with_checksum(self, chksum: Checksum) -> (r: Self)
        ensures
            r.header == (SectionHeader {
                flags: (self.header.flags & !(FLAG_CHECK_WEAK | FLAG_CHECK_CRC32)) | match chksum {
                    Checksum::Weak => FLAG_CHECK_WEAK,
                    Checksum::Crc32 => FLAG_CHECK_CRC32,
                },
                ..self.header
            }),
    {
        let bit = match chksum {
            Checksum::Weak => FLAG_CHECK_WEAK,
            Checksum::Crc32 => FLAG_CHECK_CRC32,
        };
        let mut header = self.header;
        header.flags = (header.flags & !(FLAG_CHECK_WEAK | FLAG_CHECK_CRC32)) | bit;
        SectionHeaderBuilder { header }
    }

    /// Asks for the section to be compressed by `method` where its payload is
    /// larger than the threshold, in place of any method asked for before.
    /// The threshold becomes the default one where none was set.
    pub fn with_compression(self, method: CompressionMethod) -> (r: Self)
        ensures
            r.header == (SectionHeader {
                flags: (self.header.flags & !(FLAG_COMPRESS_XZ | FLAG_COMPRESS_ZLIB))
                    | match method {
                    CompressionMethod::Xz => FLAG_COMPRESS_XZ,
                    CompressionMethod::Zlib => FLAG_COMPRESS_ZLIB,
                },
                csize: if self.header.csize == 0 {
                    DEFAULT_COMPRESSION_THRESHOLD
                } else {
                    self.header.csize
                },
                ..self.header
            }),
    {
        let bit = match method {
            CompressionMethod::Xz => FLAG_COMPRESS_XZ,
            CompressionMethod::Zlib => FLAG_COMPRESS_ZLIB,
        };
        let mut header = self.header;
        header.flags = (header.flags & !(FLAG_COMPRESS_XZ | FLAG_COMPRESS_ZLIB)) | bit;
        if header.csize == 0 {
            header.csize = DEFAULT_COMPRESSION_THRESHOLD;
        }
        SectionHeaderBuilder { header }
    }

    /// Sets the size up to which the payload stays uncompressed.
    pub fn with_threshold(self, threshold: u32) -> (r: Self)
        ensures
            r.header == (SectionHeader { csize: threshold, ..self.header }),
    {
        let mut header = self.header;
        header.csize = threshold;
        SectionHeaderBuilder { header }
    }

    /// Sets the section's type tag.
    pub fn with_type(self, ty: u8) -> (r: Self)
        ensures
            r.header == (SectionHeader { ty, ..self.header }),
    {
        let mut header = self.header;
        header.ty = ty;
        SectionHeaderBuilder { header }
    }

    /// The header as built: its flags are the flags asked for, and its stored
    /// size is the threshold.
    pub fn build(self) -> (r: SectionHeader)
        ensures
            r == self.header,
    {
        self.header
    }
}

/// Builds the main header to create a container with.
#[derive(Debug, Clone, Copy)]
pub struct MainHeaderBuilder {
    pub header: MainHeader,
}

impl MainHeaderBuilder {
    /// A builder of the main header of an empty container.
    pub fn new() -> (r: Self)
        ensures
            r.header.signature@ == seq![0x42u8, 0x50u8, 0x58u8],
            r.header.version == crate::header::BPX_CURRENT_VERSION,
            r.header.ty == 0x50,
            r.header.type_ext@ == crate::utils::zeros(23),
            r.header.file_size == crate::header::SIZE_MAIN_HEADER,
            r.header.section_num == 0,
            r.header.chksum == 0,
    {
        let header = MainHeader::new();
        assert(header.signature@ =~= seq![0x42u8, 0x50u8, 0x58u8]);
        MainHeaderBuilder { header }
    }

    /// Sets the container's type tag.
    pub fn with_type(self, ty: u8) -> (r: Self)
        ensures
            r.header == (MainHeader { ty, ..self.header }),
    {
        let mut header = self.header;
        header.ty = ty;
        MainHeaderBuilder { header }
    }

    /// Sets the bytes whose meaning depends on the container's type.
    pub fn with_type_ext(self, type_ext: [u8; 23]) -> (r: Self)
        ensures
            r.header == (MainHeader { type_ext, ..self.header }),
    {
        let mut header = self.header;
        header.type_ext = type_ext;
        MainHeaderBuilder { header }
    }

    /// Sets the format version that the container is written with.
    pub fn with_version(self, version: u8) -> (r: Self)
        ensures
            r.header == (MainHeader { version, ..self.header }),
    {
        let mut header = self.header;
        header.version = version;
        MainHeaderBuilder { header }
    }

    /// The header as built.
    pub fn build(self) -> (r: MainHeader)
        ensures
            r == self.header,
    {
        self.header
    }
}

} // verus!
