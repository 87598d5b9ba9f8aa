//! The errors of the string section helpers.

use vstd::prelude::*;
use crate::error::IoFault;

verus! {

/// Why a string could not be read.
#[derive(Debug, Clone, Copy, PartialEq, Eq, Structural)]
pub enum ReadError {
    /// The bytes of the string are not UTF-8.
    Utf8,
    /// The section ends before the string does.
    Eos,
    /// The string section is not loaded.
    SectionNotLoaded,
    /// The payload of the string section is handed out.
    SectionInUse,
}

/// Why a string could not be written.
#[derive(Debug, Clone, Copy, PartialEq, Eq, Structural)]
pub enum WriteError {
    /// The string section is not loaded.
    SectionNotLoaded,
    /// The payload of the string section is handed out.
    SectionInUse,
    /// The section's buffer refused the write.
    Io(IoFault),
}

/// Why a path has no name to pack it under.
#[derive(Debug, Clone, Copy, PartialEq, Eq, Structural)]
pub enum PathError {
    /// The file name is not UTF-8.
    Utf8,
    /// The path names no file.
    Directory,
}

} // verus!
