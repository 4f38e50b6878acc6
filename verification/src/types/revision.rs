//! Monotonic authoritative-state revision numbers.
//!
//! A revision identifies which committed authoritative state a query used.
//! It is not simulation time and is not an event identity.
use std::cmp::Ordering;
use vstd::prelude::*;
use vstd::string::*;

verus! {

#[derive(Debug, Clone, Copy, PartialEq, Eq, Structural)]
pub enum RevisionError {
    Overflow,
}

impl RevisionError {
    pub fn message(&self) -> (r: String)
        ensures
            r@ == "state revision overflowed"@,
    {
        String::from_str("state revision overflowed")
    }
}

#[derive(Clone, Copy, Debug, Default, PartialEq, Eq, Structural, Ord, Hash)]
pub struct StateRevision(u64);

impl PartialOrd for StateRevision {
    fn partial_cmp(&self, other: &Self) -> (r: Option<Ordering>) {
        if self.0 < other.0 {
            Some(Ordering::Less)
        } else if self.0 == other.0 {
            Some(Ordering::Equal)
        } else {
            Some(Ordering::Greater)
        }
    }
}

impl vstd::std_specs::cmp::PartialOrdSpecImpl for StateRevision {
    open spec fn obeys_partial_cmp_spec() -> bool {
        true
    }

    /// Values are ordered as their views are.
    open spec fn partial_cmp_spec(&self, other: &Self) -> Option<Ordering> {
        if self@ < other@ {
            Some(Ordering::Less)
        } else if self@ == other@ {
            Some(Ordering::Equal)
        } else {
            Some(Ordering::Greater)
        }
    }
}

impl View for StateRevision {
    type V = u64;

    closed spec fn view(&self) -> u64 {
        self.0
    }
}

impl StateRevision {

    pub fn initial() -> (r: Self)
        ensures
            r@ == 0,
    {
        Self(0)
    }

    pub fn new(value: u64) -> (r: Self)
        ensures
            r@ == value,
    {
        Self(value)
    }

    pub fn get(self) -> (r: u64)
        ensures
            r == self@,
    {
        self.0
    }

    /// The following revision; fails only at `u64::MAX`.
    pub fn next(self) -> (r: Result<Self, RevisionError>)
        ensures
            match r {
                Ok(n) => self@ < u64::MAX && n@ == self@ + 1,
                Err(e) => self@ == u64::MAX && e == RevisionError::Overflow,
            },
    {
        if self.0 == u64::MAX {
            Err(RevisionError::Overflow)
        } else {
            Ok(Self(self.0 + 1))
        }
    }
}

} // verus!
