//! Packages: containers that hold files as objects.

use vstd::prelude::*;

pub mod decoder;
pub mod error;
pub mod object;

verus! {

/// The processor architecture that a package is made for.
#[allow(non_camel_case_types)]
#[derive(Debug, Clone, Copy, PartialEq, Eq, Structural)]
pub enum Architecture {
    X86_64,
    Aarch64,
    X86,
    Armv7hl,
    Any,
}

/// The platform that a package is made for.
#[derive(Debug, Clone, Copy, PartialEq, Eq, Structural)]
pub enum Platform {
    Linux,
    Mac,
    Windows,
    Android,
    Any,
}

} // verus!
