//! A container format made of a main header, a table of section headers and
//! independently compressed and checksummed sections.

use vstd::prelude::*;

pub mod builder;
pub mod checksum;
pub mod compression;
pub mod container;
pub mod decoder;
pub mod error;
pub mod header;
pub mod package;
pub mod section;
pub mod strings;
pub mod table;
pub mod utils;

verus! {

/// Names a section of a container. A handle stays valid while its section
/// exists, whatever is created or removed beside it, and is never given out
/// twice by one container.
#[derive(Debug, Clone, Copy, PartialEq, Eq, Structural)]
pub struct Handle(pub u32);

impl Handle {
    /// The handle with the given key. Nothing checks that a container has a
    /// section under it.
    pub fn from_raw(raw: u32) -> (r: Self)
        ensures
            r.0 == raw,
    {
        Handle(raw)
    }

    /// The handle's key.
    pub fn into_raw(self) -> (r: u32)
        ensures
            r == self.0,
    {
        self.0
    }
}

} // verus!
