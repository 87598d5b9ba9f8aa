//! Access to the payload of one section at a time.

use vstd::prelude::*;
use vstd::std_specs::convert::FromSpecImpl;
use crate::container::data::auto::{AutoSectionData, MEMORY_THRESHOLD};
use crate::container::section::SectionEntry;
use crate::error::IoFault;

verus! {

/// Why the payload of a section was not handed out.
#[derive(Debug, Clone, Copy, PartialEq, Eq, Structural)]
pub enum Error {
    /// The payload is handed out already.
    AlreadyOpen,
    /// The payload could not be had.
    Io(IoFault),
}

impl From<IoFault> for Error {
    fn from(e: IoFault) -> (r: Self) {
        Error::Io(e)
    }
}

impl FromSpecImpl<IoFault> for Error {
    open spec fn obeys_from_spec() -> bool {
        true
    }

    open spec fn from_spec(e: IoFault) -> Self {
        Error::Io(e)
    }
}

/// A section whose payload is handed out to one user at a time.
pub trait Section {
    /// True while the payload is handed out.
    spec fn is_open(&self) -> bool;

    /// Hands out the payload, to be given back when the user is done with it.
    /// A payload that is handed out already is refused.
    fn open(&mut self) -> (r: Result<AutoSectionData, Error>)
        ensures
            old(self).is_open() ==> r == Err::<AutoSectionData, Error>(Error::AlreadyOpen),
            r is Ok ==> final(self).is_open(),
            r is Err ==> final(self).is_open() == old(self).is_open(),
    ;

    /// Replaces the payload by an empty one that is about to take `size`
    /// bytes. Refused while the payload is handed out.
    fn realloc(&mut self, size: u32) -> (r: Result<(), Error>)
        ensures
            old(self).is_open() ==> r == Err::<(), Error>(Error::AlreadyOpen),
            !old(self).is_open() ==> r is Ok,
            final(self).is_open() == old(self).is_open(),
    ;
}

impl Section for SectionEntry {
    open spec fn is_open(&self) -> bool {
        self.in_use
    }

    /// Hands out the payload and marks the section as modified. `NotLoaded`
    /// where the payload was never loaded.
    fn open(&mut self) -> (r: Result<AutoSectionData, Error>)
        ensures
            !old(self).in_use && old(self).data is None ==> r == Err::<AutoSectionData, Error>(
                Error::Io(IoFault::NotLoaded),
            ),
            r is Err ==> *final(self) == *old(self),
            !old(self).in_use && old(self).data is Some ==> r == Ok::<AutoSectionData, Error>(
                old(self).data->Some_0,
            ) && *final(self) == (SectionEntry {
                data: None,
                in_use: true,
                modified: true,
                ..*old(self)
            }),
    {
        if self.in_use {
            return Err(Error::AlreadyOpen);
        }
        match self.data.take() {
            Some(d) => {
                self.in_use = true;
                self.modified = true;
                Ok(d)
            },
            None => Err(Error::from(IoFault::NotLoaded)),
        }
    }

    /// The section is marked as modified where its payload is replaced.
    fn realloc(&mut self, size: u32) -> (r: Result<(), Error>)
        ensures
            r is Err ==> *final(self) == *old(self),
            r is Ok ==> {
                &&& final(self).wf()
                &&& final(self).data is Some
                &&& final(self).data->Some_0.contents() == Seq::<u8>::empty()
                &&& final(self).data->Some_0.pos() == 0
                &&& final(self).data->Some_0.threshold == MEMORY_THRESHOLD
                &&& final(self).data->Some_0.spilled == (size > MEMORY_THRESHOLD)
                &&& final(self).modified
                &&& final(self).header == old(self).header
                &&& final(self).entry1 == old(self).entry1
                &&& final(self).index == old(self).index
                &&& final(self).handle == old(self).handle
            },
    {
        if self.in_use {
            return Err(Error::AlreadyOpen);
        }
        match AutoSectionData::new_with_size(size) {
            Ok(d) => {
                self.data = Some(d);
                self.modified = true;
                Ok(())
            },
            Err(_) => {
                assert(false);
                Err(Error::AlreadyOpen)
            },
        }
    }
}

} // verus!
