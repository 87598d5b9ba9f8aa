//! The header of an object of a package.

use vstd::prelude::*;
use vstd::bytes::{
    spec_u32_from_le_bytes,
    spec_u64_from_le_bytes,
    u32_from_le_bytes,
    u64_from_le_bytes,
};
use vstd::slice::slice_subrange;
use crate::table::Item;

verus! {

/// The size of an object header's byte image.
pub const SIZE_OBJECT_HEADER: usize = 20;

/// The header of an object: where its bytes lie in the data sections.
#[derive(Debug, Clone, Copy, PartialEq, Eq, Structural)]
pub struct ObjectHeader {
    /// The number of bytes of the object.
    pub size: u64,
    /// The address of the object's name in the string section.
    pub name: u32,
    /// The index of the section in which the object begins.
    pub start: u32,
    /// Where the object begins in that section.
    pub offset: u32,
}

/// The object header that a byte image of 20 bytes holds.
pub open spec fn parse_object_header(b: Seq<u8>) -> ObjectHeader {
    ObjectHeader {
        size: spec_u64_from_le_bytes(b.subrange(0, 8)),
        name: spec_u32_from_le_bytes(b.subrange(8, 12)),
        start: spec_u32_from_le_bytes(b.subrange(12, 16)),
        offset: spec_u32_from_le_bytes(b.subrange(16, 20)),
    }
}

impl ObjectHeader {
    /// The header that the first 20 bytes of `bytes` hold.
    pub fn from_bytes(bytes: &[u8]) -> (r: Self)
        requires
            bytes@.len() >= SIZE_OBJECT_HEADER,
        ensures
            r == parse_object_header(bytes@),
    {
        ObjectHeader {
            size: u64_from_le_bytes(slice_subrange(bytes, 0, 8)),
            name: u32_from_le_bytes(slice_subrange(bytes, 8, 12)),
            start: u32_from_le_bytes(slice_subrange(bytes, 12, 16)),
            offset: u32_from_le_bytes(slice_subrange(bytes, 16, 20)),
        }
    }
}

impl Item for ObjectHeader {
    open spec fn name_address(&self) -> u32 {
        self.name
    }

    fn get_name_address(&self) -> (r: u32) {
        self.name
    }
}

} // verus!
