//! The buffers that hold the payload of a section.

pub mod auto;
pub mod memory;
