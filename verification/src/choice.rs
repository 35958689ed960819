//! The explicit choice flag: a boolean result that signals to callers that
//! the comparison or test it came from is meant to be consumed without a
//! data-dependent branch. Keeping it a distinct type stops callers from
//! silently confusing it with an ordinary boolean.

use vstd::prelude::*;

verus! {

#[derive(Clone, Copy, Debug, PartialEq, Eq, Structural)]
pub struct Choice {
    set: bool,
}

impl Choice {
    /// Whether the flag is set.
    pub closed spec fn is_set(self) -> bool {
        self.set
    }

    pub fn yes() -> (r: Choice)
        ensures
            r.is_set(),
    {
        Choice { set: true }
    }

    pub fn no() -> (r: Choice)
        ensures
            !r.is_set(),
    {
        Choice { set: false }
    }

    pub fn from_bool(b: bool) -> (r: Choice)
        ensures
            r.is_set() == b,
    {
        Choice { set: b }
    }

    /// The flag as a plain boolean, for callers that have to branch after all.
    pub fn as_bool(&self) -> (r: bool)
        ensures
            r == self.is_set(),
    {
        self.set
    }

    /// The flag as a byte, 1 when set and 0 when clear.
    pub fn unwrap_u8(&self) -> (r: u8)
        ensures
            r == 1 <==> self.is_set(),
            r == 0 || r == 1,
    {
        if self.set {
            1
        } else {
            0
        }
    }
}

} // verus!
