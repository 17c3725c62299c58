//! Small counts that are never zero.

use vstd::prelude::*;

verus! {

/// A count from one to 255.
#[derive(Debug, Clone, Copy, PartialEq, Eq, Structural)]
pub struct NonZeroU8 {
    value: u8,
}

impl NonZeroU8 {
    #[verifier::type_invariant]
    spec fn positive(self) -> bool {
        self.value > 0
    }

    /// The count as a number.
    pub closed spec fn count(self) -> u8 {
        self.value
    }

    /// Creates a count, unless it is zero.
    pub fn new(value: u8) -> (count: Option<Self>)
        ensures
            match count {
                Some(count) => value > 0 && count.count() == value,
                None => value == 0,
            },
    {
        if value == 0 {
            None
        } else {
            Some(NonZeroU8 { value })
        }
    }

    /// The smallest count.
    pub fn one() -> (count: Self)
        ensures
            count.count() == 1,
    {
        NonZeroU8 { value: 1 }
    }

    /// The count of three.
    pub(crate) fn three() -> (count: Self)
        ensures
            count.count() == 3,
    {
        NonZeroU8 { value: 3 }
    }

    /// Returns the count as a number.
    pub fn get(self) -> (value: u8)
        ensures
            value == self.count(),
            value > 0,
    {
        proof {
            use_type_invariant(&self);
        }
        self.value
    }
}

} // verus!
