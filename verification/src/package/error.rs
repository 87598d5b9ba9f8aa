//! The errors of the package helpers.

use vstd::prelude::*;
use crate::error::Error;

verus! {

/// Which code of a package header is not known.
#[derive(Debug, Clone, Copy, PartialEq, Eq, Structural)]
pub enum InvalidCodeContext {
    Arch,
    Platform,
}

/// What ended before it was complete.
#[derive(Debug, Clone, Copy, PartialEq, Eq, Structural)]
pub enum EosContext {
    /// The bytes of an object.
    Object,
    /// The table of object headers.
    ObjectTable,
}

/// Why a package could not be read.
#[derive(Debug, Clone, Copy, PartialEq, Eq, Structural)]
pub enum ReadError {
    /// A code of the package header is not known: which one, and the code.
    InvalidCode(InvalidCodeContext, u8),
    /// The data ended early.
    Eos(EosContext),
    /// An object has an empty name.
    BlankString,
    /// The container refused to hand out a section.
    Section(Error),
}

/// Why a package could not be written.
#[derive(Debug, Clone, Copy, PartialEq, Eq, Structural)]
pub enum WriteError {
    /// The container refused to hand out or to write a section.
    Section(Error),
    /// The name of a file could not be written.
    Strings(crate::strings::error::WriteError),
    /// The path names no file.
    Path(crate::strings::error::PathError),
}

} // verus!
