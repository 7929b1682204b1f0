use vstd::prelude::*;

verus! {

/// A span of time in whole nanoseconds.
#[derive(Clone, Copy, Debug, PartialEq, Eq, PartialOrd, Ord, Structural)]
pub struct Duration {
    pub(crate) nanoseconds: u128,
}

impl Duration {
    pub open(crate) spec fn spec_nanos(self) -> u128 {
        self.nanoseconds
    }

    #[must_use]
    pub fn from_nanos(nanoseconds: u64) -> (r: Self)
        ensures
            r.spec_nanos() == nanoseconds,
    {
        Self { nanoseconds: nanoseconds as u128 }
    }

    #[must_use]
    pub fn from_millis(milliseconds: u64) -> (r: Self)
        ensures
            r.spec_nanos() == milliseconds * 1_000_000,
    {
        Self { nanoseconds: milliseconds as u128 * 1_000_000 }
    }

    #[must_use]
    pub fn from_secs(seconds: u64) -> (r: Self)
        ensures
            r.spec_nanos() == seconds * 1_000_000_000,
    {
        Self { nanoseconds: seconds as u128 * 1_000_000_000 }
    }

    #[must_use]
    pub fn is_zero(self) -> (r: bool)
        ensures
            r == (self.spec_nanos() == 0),
    {
        self.nanoseconds == 0
    }

    #[must_use]
    pub fn as_nanos(self) -> (r: u128)
        ensures
            r == self.spec_nanos(),
    {
        self.nanoseconds
    }

    #[must_use]
    pub fn as_millis(self) -> (r: u128)
        ensures
            r == self.spec_nanos() / 1_000_000,
    {
        self.nanoseconds / 1_000_000
    }

    #[must_use]
    pub fn as_secs(self) -> (r: u128)
        ensures
            r == self.spec_nanos() / 1_000_000_000,
    {
        self.nanoseconds / 1_000_000_000
    }
}

} // verus!
