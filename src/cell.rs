use vstd::prelude::*;

use crate::value::{TypeKey, Value};

verus! {

/// Why extracting a parameter for one invocation failed.
#[derive(Clone, Copy, Debug, PartialEq, Eq, Structural)]
pub enum ExtractError {
    /// No entry holds a value of the requested type.
    MissingResource(TypeKey),
    /// The stored value was built from another type than the requested one.
    TypeMismatch { requested: TypeKey, actual: TypeKey },
    /// A guard on the cell conflicts with one already issued; names the type
    /// held by the cell.
    AlreadyBorrowed(TypeKey),
}

/// A value with a runtime single-writer / multiple-reader discipline:
/// any number of read guards, or exactly one write guard.
#[derive(Debug, PartialEq, Eq)]
pub struct AliasingCell {
    pub value: Value,
    /// Number of live read guards.
    pub readers: usize,
    /// Whether a write guard is live.
    pub writer: bool,
}

/// A cell holding `v` with no guard live.
pub open spec fn idle_cell(v: Value) -> AliasingCell {
    AliasingCell { value: v, readers: 0, writer: false }
}

impl AliasingCell {
    pub open spec fn is_idle(&self) -> bool {
        self.readers == 0 && !self.writer
    }

    pub fn new(value: Value) -> (r: Self)
        ensures
            r == idle_cell(value),
    {
        AliasingCell { value, readers: 0, writer: false }
    }

    /// Issues a read guard unless a write guard is live.
    pub fn acquire_read(&mut self) -> (r: Result<(), ExtractError>)
        requires
            old(self).readers < usize::MAX,
        ensures
            old(self).writer ==> r == Err::<(), ExtractError>(
                ExtractError::AlreadyBorrowed(old(self).value.key()),
            ) && *final(self) == *old(self),
            !old(self).writer ==> r is Ok && *final(self) == (AliasingCell {
                readers: (old(self).readers + 1) as usize,
                ..*old(self)
            }),
    {
        if self.writer {
            Err(ExtractError::AlreadyBorrowed(self.value.type_key()))
        } else {
            self.readers = self.readers + 1;
            Ok(())
        }
    }

    /// Issues the write guard unless any guard is live.
    pub fn acquire_write(&mut self) -> (r: Result<(), ExtractError>)
        ensures
            (old(self).writer || old(self).readers > 0) ==> r == Err::<(), ExtractError>(
                ExtractError::AlreadyBorrowed(old(self).value.key()),
            ) && *final(self) == *old(self),
            old(self).is_idle() ==> r is Ok && *final(self) == (AliasingCell {
                writer: true,
                ..*old(self)
            }),
    {
        if self.writer || self.readers > 0 {
            Err(ExtractError::AlreadyBorrowed(self.value.type_key()))
        } else {
            self.writer = true;
            Ok(())
        }
    }

    /// Releases one read guard.
    pub fn release_read(&mut self)
        requires
            old(self).readers > 0,
        ensures
            *final(self) == (AliasingCell { readers: (old(self).readers - 1) as usize, ..*old(self) }),
    {
        self.readers = self.readers - 1;
    }

    /// Releases the write guard.
    pub fn release_write(&mut self)
        requires
            old(self).writer,
        ensures
            *final(self) == (AliasingCell { writer: false, ..*old(self) }),
    {
        self.writer = false;
    }
}

} // verus!
