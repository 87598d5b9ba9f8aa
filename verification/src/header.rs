//! The two records of the format, the main header and the section header, and
//! their little-endian byte images.

use vstd::prelude::*;
use vstd::bytes::{
    spec_u32_from_le_bytes,
    spec_u32_to_le_bytes,
    spec_u64_from_le_bytes,
    spec_u64_to_le_bytes,
    u32_from_le_bytes,
    u32_to_le_bytes,
    u64_from_le_bytes,
    u64_to_le_bytes,
    lemma_auto_spec_u32_to_from_le_bytes,
    lemma_auto_spec_u64_to_from_le_bytes,
};
use vstd::slice::slice_subrange;
use crate::checksum::{weak_checksum, WeakChecksum};
use crate::error::{Error, IoFault};
use crate::utils::{ByteBuf, extend_bytes, written};

verus! {

/// The payload carries a weak checksum.
pub const FLAG_CHECK_WEAK: u8 = 0x01;

/// The payload carries a CRC-32.
pub const FLAG_CHECK_CRC32: u8 = 0x02;

/// The payload is stored as an XZ stream.
pub const FLAG_COMPRESS_XZ: u8 = 0x04;

/// The payload is stored as a zlib stream.
pub const FLAG_COMPRESS_ZLIB: u8 = 0x08;

/// The size of the main header's byte image.
pub const SIZE_MAIN_HEADER: usize = 40;

/// The size of a section header's byte image.
pub const SIZE_SECTION_HEADER: usize = 24;

/// The number of type-specific bytes in the main header.
pub const SIZE_TYPE_EXT: usize = 23;

/// The version that new containers are written with.
pub const BPX_CURRENT_VERSION: u8 = 2;

/// The weak checksum of a byte slice.
pub fn weak_checksum_of(bytes: &[u8]) -> (r: u32)
    ensures
        r == weak_checksum(bytes@),
{
    let mut engine = WeakChecksum::new();
    engine.push(bytes);
    engine.finish()
}

/// The header of one section.
#[derive(Debug, Clone, Copy, PartialEq, Eq, Structural)]
pub struct SectionHeader {
    /// Where the stored payload begins in the backend.
    pub pointer: u64,
    /// The number of stored bytes.
    pub csize: u32,
    /// The number of payload bytes.
    pub size: u32,
    /// The checksum of the payload.
    pub chksum: u32,
    /// The section's type tag.
    pub ty: u8,
    /// The checksum and compression flags.
    pub flags: u8,
}

/// The byte image of a section header.
pub open spec fn section_header_bytes(h: SectionHeader) -> Seq<u8> {
    spec_u64_to_le_bytes(h.pointer) + spec_u32_to_le_bytes(h.csize) + spec_u32_to_le_bytes(h.size)
        + spec_u32_to_le_bytes(h.chksum) + seq![h.ty, h.flags, 0u8, 0u8]
}

/// The section header that a byte image of 24 bytes holds.
pub open spec fn parse_section_header(b: Seq<u8>) -> SectionHeader {
    SectionHeader {
        pointer: spec_u64_from_le_bytes(b.subrange(0, 8)),
        csize: spec_u32_from_le_bytes(b.subrange(8, 12)),
        size: spec_u32_from_le_bytes(b.subrange(12, 16)),
        chksum: spec_u32_from_le_bytes(b.subrange(16, 20)),
        ty: b[20],
        flags: b[21],
    }
}

/// A section header's byte image has 24 bytes and parses back to the header.
pub proof fn lemma_section_header_round_trip(h: SectionHeader)
    ensures
        section_header_bytes(h).len() == SIZE_SECTION_HEADER,
        parse_section_header(section_header_bytes(h)) == h,
{
    lemma_auto_spec_u32_to_from_le_bytes();
    lemma_auto_spec_u64_to_from_le_bytes();
    let b = section_header_bytes(h);
    assert(spec_u64_to_le_bytes(h.pointer).len() == 8);
    assert(spec_u32_to_le_bytes(h.csize).len() == 4);
    assert(spec_u32_to_le_bytes(h.size).len() == 4);
    assert(spec_u32_to_le_bytes(h.chksum).len() == 4);
    assert(b.subrange(0, 8) =~= spec_u64_to_le_bytes(h.pointer));
    assert(b.subrange(8, 12) =~= spec_u32_to_le_bytes(h.csize));
    assert(b.subrange(12, 16) =~= spec_u32_to_le_bytes(h.size));
    assert(b.subrange(16, 20) =~= spec_u32_to_le_bytes(h.chksum));
}

impl SectionHeader {
    /// A header of an empty, unchecked, uncompressed section of type 0.
    pub fn new() -> (r: Self)
        ensures
            r == (SectionHeader { pointer: 0, csize: 0, size: 0, chksum: 0, ty: 0, flags: 0 }),
    {
        SectionHeader { pointer: 0, csize: 0, size: 0, chksum: 0, ty: 0, flags: 0 }
    }

    /// The header's byte image.
    pub fn to_bytes(&self) -> (r: Vec<u8>)
        ensures
            r@ == section_header_bytes(*self),
            r@.len() == SIZE_SECTION_HEADER,
    {
        proof {
            lemma_section_header_round_trip(*self);
        }
        let mut out = u64_to_le_bytes(self.pointer);
        let csize = u32_to_le_bytes(self.csize);
        extend_bytes(&mut out, csize.as_slice());
        let size = u32_to_le_bytes(self.size);
        extend_bytes(&mut out, size.as_slice());
        let chksum = u32_to_le_bytes(self.chksum);
        extend_bytes(&mut out, chksum.as_slice());
        out.push(self.ty);
        out.push(self.flags);
        out.push(0u8);
        out.push(0u8);
        assert(out@ =~= section_header_bytes(*self));
        out
    }

    /// The header that the first 24 bytes of `bytes` hold.
    pub fn from_bytes(bytes: &[u8]) -> (r: Self)
        requires
            bytes@.len() >= SIZE_SECTION_HEADER,
        ensures
            r == parse_section_header(bytes@),
    {
        SectionHeader {
            pointer: u64_from_le_bytes(slice_subrange(bytes, 0, 8)),
            csize: u32_from_le_bytes(slice_subrange(bytes, 8, 12)),
            size: u32_from_le_bytes(slice_subrange(bytes, 12, 16)),
            chksum: u32_from_le_bytes(slice_subrange(bytes, 16, 20)),
            ty: bytes[20],
            flags: bytes[21],
        }
    }

    /// Reads one section header at the backend's position. Gives the weak
    /// checksum of the 24 bytes read, and the header they hold; `Eos` where
    /// fewer than 24 bytes are left.
    pub fn read(backend: &mut ByteBuf) -> (r: Result<(u32, SectionHeader), Error>)
        ensures
            final(backend).data@ == old(backend).data@,
            old(backend).pos + SIZE_SECTION_HEADER <= old(backend).data@.len() ==> {
                let rec = old(backend).data@.subrange(
                    old(backend).pos as int,
                    old(backend).pos + SIZE_SECTION_HEADER,
                );
                &&& r == Ok::<(u32, SectionHeader), Error>(
                    (weak_checksum(rec), parse_section_header(rec)),
                )
                &&& final(backend).pos == old(backend).pos + SIZE_SECTION_HEADER
            },
            old(backend).pos + SIZE_SECTION_HEADER > old(backend).data@.len() ==> r == Err::<
                (u32, SectionHeader),
                Error,
            >(Error::Eos),
    {
        let rec = backend.read(SIZE_SECTION_HEADER);
        if rec.len() != SIZE_SECTION_HEADER {
            return Err(Error::Eos);
        }
        let chksum = weak_checksum_of(rec.as_slice());
        let header = SectionHeader::from_bytes(rec.as_slice());
        Ok((chksum, header))
    }

    /// Writes the header's byte image at the backend's position and gives its
    /// weak checksum.
    pub fn write(&self, backend: &mut ByteBuf) -> (r: Result<u32, Error>)
        ensures
            old(backend).pos + SIZE_SECTION_HEADER <= usize::MAX ==> {
                &&& r == Ok::<u32, Error>(weak_checksum(section_header_bytes(*self)))
                &&& final(backend).data@ == written(
                    old(backend).data@,
                    old(backend).pos as nat,
                    section_header_bytes(*self),
                )
                &&& final(backend).pos == old(backend).pos + SIZE_SECTION_HEADER
            },
            old(backend).pos + SIZE_SECTION_HEADER > usize::MAX ==> r == Err::<u32, Error>(
                Error::Io(IoFault::Overflow),
            ) && *final(backend) == *old(backend),
    {
        let bytes = self.to_bytes();
        match backend.write(bytes.as_slice()) {
            Ok(_) => Ok(weak_checksum_of(bytes.as_slice())),
            Err(e) => Err(e),
        }
    }
}

/// The main header of a container.
#[derive(Debug, Clone, Copy, PartialEq, Eq)]
pub struct MainHeader {
    /// The format's signature, the letters B, P and X.
    pub signature: [u8; 3],
    /// The format version.
    pub version: u8,
    /// The type tag of the container.
    pub ty: u8,
    /// Bytes whose meaning depends on the container's type.
    pub type_ext: [u8; 23],
    /// The size of the whole container in bytes.
    pub file_size: u32,
    /// The number of sections.
    pub section_num: u32,
    /// The wrapping sum of the weak checksums of all section header records.
    pub chksum: u32,
}

/// The byte image of a main header.
pub open spec fn main_header_bytes(h: MainHeader) -> Seq<u8> {
    h.signature@ + seq![h.version, h.ty] + h.type_ext@ + spec_u32_to_le_bytes(h.file_size)
        + spec_u32_to_le_bytes(h.section_num) + spec_u32_to_le_bytes(h.chksum)
}

/// The fields that a byte image of 40 bytes holds, whatever its signature and version.
pub open spec fn main_header_fields(b: Seq<u8>, h: MainHeader) -> bool {
    &&& h.signature@ == b.subrange(0, 3)
    &&& h.version == b[3]
    &&& h.ty == b[4]
    &&& h.type_ext@ == b.subrange(5, 28)
    &&& h.file_size == spec_u32_from_le_bytes(b.subrange(28, 32))
    &&& h.section_num == spec_u32_from_le_bytes(b.subrange(32, 36))
    &&& h.chksum == spec_u32_from_le_bytes(b.subrange(36, 40))
}

/// The number of sections that a container's byte image gives.
pub open spec fn image_section_num(data: Seq<u8>) -> u32 {
    spec_u32_from_le_bytes(data.subrange(32, 36))
}

/// The aggregate checksum that a container's byte image gives.
pub open spec fn image_chksum(data: Seq<u8>) -> u32 {
    spec_u32_from_le_bytes(data.subrange(36, 40))
}

/// True where the first three bytes are the format's signature.
pub open spec fn has_signature(b: Seq<u8>) -> bool {
    b[0] == 0x42 && b[1] == 0x50 && b[2] == 0x58
}

/// True for a version that this library reads.
pub open spec fn known_version(v: u8) -> bool {
    v == 1 || v == 2
}

/// Two main headers with the same fields are the same header.
pub proof fn lemma_main_header_ext(a: MainHeader, b: MainHeader)
    requires
        a.signature@ == b.signature@,
        a.version == b.version,
        a.ty == b.ty,
        a.type_ext@ == b.type_ext@,
        a.file_size == b.file_size,
        a.section_num == b.section_num,
        a.chksum == b.chksum,
    ensures
        a == b,
{
    assert(a.signature =~= b.signature);
    assert(a.type_ext =~= b.type_ext);
}

/// A main header's byte image has 40 bytes and holds the header's fields.
pub proof fn lemma_main_header_round_trip(h: MainHeader)
    ensures
        main_header_bytes(h).len() == SIZE_MAIN_HEADER,
        main_header_fields(main_header_bytes(h), h),
{
    lemma_auto_spec_u32_to_from_le_bytes();
    let b = main_header_bytes(h);
    assert(h.signature@.len() == 3);
    assert(h.type_ext@.len() == 23);
    assert(spec_u32_to_le_bytes(h.file_size).len() == 4);
    assert(spec_u32_to_le_bytes(h.section_num).len() == 4);
    assert(spec_u32_to_le_bytes(h.chksum).len() == 4);
    assert(b.subrange(0, 3) =~= h.signature@);
    assert(b.subrange(5, 28) =~= h.type_ext@);
    assert(b.subrange(28, 32) =~= spec_u32_to_le_bytes(h.file_size));
    assert(b.subrange(32, 36) =~= spec_u32_to_le_bytes(h.section_num));
    assert(b.subrange(36, 40) =~= spec_u32_to_le_bytes(h.chksum));
}

impl MainHeader {
    /// The header of an empty container: the signature, the current version,
    /// type `P`, no sections.
    pub fn new() -> (r: Self)
        ensures
            has_signature(r.signature@),
            r.version == BPX_CURRENT_VERSION,
            r.ty == 0x50,
            r.type_ext@ == crate::utils::zeros(23),
            r.file_size == SIZE_MAIN_HEADER,
            r.section_num == 0,
            r.chksum == 0,
    {
        let r = MainHeader {
            signature: [0x42u8, 0x50u8, 0x58u8],
            version: BPX_CURRENT_VERSION,
            ty: 0x50,
            type_ext: [0u8; 23],
            file_size: 40,
            section_num: 0,
            chksum: 0,
        };
        assert(r.type_ext@ =~= crate::utils::zeros(23));
        r
    }

    /// The header's byte image.
    pub fn to_bytes(&self) -> (r: Vec<u8>)
        ensures
            r@ == main_header_bytes(*self),
            r@.len() == SIZE_MAIN_HEADER,
    {
        proof {
            lemma_main_header_round_trip(*self);
        }
        let mut out: Vec<u8> = Vec::new();
        extend_bytes(&mut out, self.signature.as_slice());
        out.push(self.version);
        out.push(self.ty);
        extend_bytes(&mut out, self.type_ext.as_slice());
        let file_size = u32_to_le_bytes(self.file_size);
        extend_bytes(&mut out, file_size.as_slice());
        let section_num = u32_to_le_bytes(self.section_num);
        extend_bytes(&mut out, section_num.as_slice());
        let chksum = u32_to_le_bytes(self.chksum);
        extend_bytes(&mut out, chksum.as_slice());
        assert(out@ =~= main_header_bytes(*self));
        out
    }

    /// The header that the first 40 bytes of `bytes` hold, whatever its
    /// signature and version.
    pub fn from_bytes(bytes: &[u8]) -> (r: Self)
        requires
            bytes@.len() >= SIZE_MAIN_HEADER,
        ensures
            main_header_fields(bytes@, r),
    {
        let mut signature = [0u8; 3];
        signature[0] = bytes[0];
        signature[1] = bytes[1];
        signature[2] = bytes[2];
        let mut type_ext = [0u8; 23];
        let mut i: usize = 0;
        while i < 23
            invariant
                i <= 23,
                bytes@.len() >= SIZE_MAIN_HEADER,
                forall|k: int| 0 <= k < i ==> type_ext@[k] == bytes@[5 + k],
            decreases 23 - i,
        {
            type_ext[i] = bytes[5 + i];
            i += 1;
        }
        assert(signature@ =~= bytes@.subrange(0, 3));
        assert(type_ext@ =~= bytes@.subrange(5, 28));
        MainHeader {
            signature,
            version: bytes[3],
            ty: bytes[4],
            type_ext,
            file_size: u32_from_le_bytes(slice_subrange(bytes, 28, 32)),
            section_num: u32_from_le_bytes(slice_subrange(bytes, 32, 36)),
            chksum: u32_from_le_bytes(slice_subrange(bytes, 36, 40)),
        }
    }

    /// Reads the main header at the backend's position. Gives the weak
    /// checksum of the 40 bytes read, and the header they hold. `Eos` where
    /// fewer than 40 bytes are left; else `BadSignature` where the record does
    /// not start with the signature; else `BadVersion` where its version is
    /// not known.
    pub fn read(backend: &mut ByteBuf) -> (r: Result<(u32, MainHeader), Error>)
        ensures
            final(backend).data@ == old(backend).data@,
            old(backend).pos + SIZE_MAIN_HEADER > old(backend).data@.len() ==> r == Err::<
                (u32, MainHeader),
                Error,
            >(Error::Eos),
            old(backend).pos + SIZE_MAIN_HEADER <= old(backend).data@.len() ==> {
                let rec = old(backend).data@.subrange(
                    old(backend).pos as int,
                    old(backend).pos + SIZE_MAIN_HEADER,
                );
                &&& final(backend).pos == old(backend).pos + SIZE_MAIN_HEADER
                &&& !has_signature(rec) ==> r == Err::<(u32, MainHeader), Error>(
                    Error::BadSignature,
                )
                &&& has_signature(rec) && !known_version(rec[3]) ==> r == Err::<
                    (u32, MainHeader),
                    Error,
                >(Error::BadVersion)
                &&& has_signature(rec) && known_version(rec[3]) ==> r is Ok && r->Ok_0.0
                    == weak_checksum(rec) && main_header_fields(rec, r->Ok_0.1)
            },
    {
        let rec = backend.read(SIZE_MAIN_HEADER);
        if rec.len() != SIZE_MAIN_HEADER {
            return Err(Error::Eos);
        }
        if rec[0] != 0x42 || rec[1] != 0x50 || rec[2] != 0x58 {
            return Err(Error::BadSignature);
        }
        if rec[3] != 1 && rec[3] != 2 {
            return Err(Error::BadVersion);
        }
        let chksum = weak_checksum_of(rec.as_slice());
        let header = MainHeader::from_bytes(rec.as_slice());
        Ok((chksum, header))
    }

    /// Writes the header's byte image at the backend's position and gives its
    /// weak checksum.
    pub fn write(&self, backend: &mut ByteBuf) -> (r: Result<u32, Error>)
        ensures
            old(backend).pos + SIZE_MAIN_HEADER <= usize::MAX ==> {
                &&& r == Ok::<u32, Error>(weak_checksum(main_header_bytes(*self)))
                &&& final(backend).data@ == written(
                    old(backend).data@,
                    old(backend).pos as nat,
                    main_header_bytes(*self),
                )
                &&& final(backend).pos == old(backend).pos + SIZE_MAIN_HEADER
            },
            old(backend).pos + SIZE_MAIN_HEADER > usize::MAX ==> r == Err::<u32, Error>(
                Error::Io(IoFault::Overflow),
            ) && *final(backend) == *old(backend),
    {
        let bytes = self.to_bytes();
        match backend.write(bytes.as_slice()) {
            Ok(_) => Ok(weak_checksum_of(bytes.as_slice())),
            Err(e) => Err(e),
        }
    }
}

} // verus!
