use vstd::prelude::*;

verus! {

/// A metadata generation number. Valid versions start at one; zero is reserved as invalid.
#[derive(Clone, Copy, Debug, PartialEq, Eq, Structural, PartialOrd, Ord, Hash)]
pub struct Version {
    pub value: u32,
}

impl Version {
    /// The reserved version that no stored value carries.
    pub fn invalid() -> (r: Version)
        ensures
            r.value == 0,
    {
        Version { value: 0 }
    }

    /// The first version a value can carry.
    pub fn min() -> (r: Version)
        ensures
            r.value == 1,
    {
        Version { value: 1 }
    }

    pub fn from(value: u32) -> (r: Version)
        ensures
            r.value == value,
    {
        Version { value }
    }

    /// The version that follows this one.
    pub fn next(self) -> (r: Version)
        requires
            self.value < u32::MAX,
        ensures
            r.value == self.value + 1,
    {
        Version { value: self.value + 1 }
    }

    pub fn is_valid(self) -> (r: bool)
        ensures
            r == (self.value > 0),
    {
        self.value > 0
    }
}

} // verus!
