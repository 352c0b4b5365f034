//! Handles: the small integers by which a table's entries are known outside.

use vstd::prelude::*;

verus! {

/// The number above which a table starts to count its handles. What lies at
/// or below it is left to the caller for handles of its own.
pub const HANDLE_FLOOR: u32 = 1000;

/// An opaque token for one entry of a table. Its number is never zero: zero
/// is left free to mean "no handle" wherever handles travel.
#[derive(Clone, Copy, PartialEq, Eq, Structural, Hash, Debug)]
pub struct Handle {
    value: u32,
}

impl View for Handle {
    type V = u32;

    /// The number of the handle.
    closed spec fn view(&self) -> u32 {
        self.value
    }
}

/// Why a node was not created.
#[derive(Clone, Copy, PartialEq, Eq, Structural, Debug)]
pub enum CreateError {
    /// The parent handle stands for nothing in the current generation.
    UnknownParent,
    /// The path needs a new handle, and every number was handed out.
    Exhausted,
}

/// The number of the handle, where there is a handle.
pub open spec fn number_of(handle: Option<Handle>) -> Option<u32> {
    match handle {
        Some(h) => Some(h@),
        None => None,
    }
}

impl Handle {
    #[verifier::type_invariant]
    spec fn nonzero(self) -> bool {
        self.value != 0
    }

    /// The handle of the given number, if the number is not zero.
    pub fn new(value: u32) -> (handle: Option<Handle>)
        ensures
            value == 0 ==> handle is None,
            value != 0 ==> handle is Some && handle.unwrap()@ == value,
    {
        if value == 0 {
            None
        } else {
            Some(Handle { value })
        }
    }

    /// The number of the handle.
    pub fn get(self) -> (value: u32)
        ensures
            value == self@,
            value != 0,
    {
        proof {
            use_type_invariant(self);
        }
        self.value
    }

    /// Handles of one number are one handle.
    pub proof fn lemma_by_number(self, other: Handle)
        ensures
            (self@ == other@) == (self == other),
    {
    }
}

} // verus!
