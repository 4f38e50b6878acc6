//! Integer simulation time and strict event ordering.
//!
//! Simulation time is not wall-clock time: it counts milliseconds from a
//! scenario epoch. Several events may share one simulation time;
//! `EventSequence` supplies their strict historical order.
use std::cmp::Ordering;
use vstd::prelude::*;
use vstd::string::*;

verus! {

#[derive(Debug, Clone, Copy, PartialEq, Eq, Structural)]
pub enum TimeError {
    NegativeDuration,
    Overflow,
}

pub open spec fn time_error_text(e: TimeError) -> Seq<char> {
    match e {
        TimeError::NegativeDuration => "simulation duration cannot be negative"@,
        TimeError::Overflow => "simulation time arithmetic overflowed"@,
    }
}

impl TimeError {
    pub fn message(&self) -> (r: String)
        ensures
            r@ == time_error_text(*self),
    {
        match self {
            TimeError::NegativeDuration => String::from_str("simulation duration cannot be negative"),
            TimeError::Overflow => String::from_str("simulation time arithmetic overflowed"),
        }
    }
}

/// Milliseconds relative to the scenario epoch; negative values refer to
/// times before the epoch.
#[derive(Clone, Copy, Debug, Default, PartialEq, Eq, Structural, Ord, Hash)]
pub struct SimTime(i64);

impl PartialOrd for SimTime {
    fn partial_cmp(&self, other: &Self) -> (r: Option<Ordering>) {
        if self.0 < other.0 {
            Some(Ordering::Less)
        } else if self.0 == other.0 {
            Some(Ordering::Equal)
        } else {
            Some(Ordering::Greater)
        }
    }
}

impl vstd::std_specs::cmp::PartialOrdSpecImpl for SimTime {
    open spec fn obeys_partial_cmp_spec() -> bool {
        true
    }

    /// Values are ordered as their views are.
    open spec fn partial_cmp_spec(&self, other: &Self) -> Option<Ordering> {
        if self@ < other@ {
            Some(Ordering::Less)
        } else if self@ == other@ {
            Some(Ordering::Equal)
        } else {
            Some(Ordering::Greater)
        }
    }
}

impl View for SimTime {
    type V = i64;

    closed spec fn view(&self) -> i64 {
        self.0
    }
}

/// Non-negative elapsed simulation time in milliseconds.
#[derive(Clone, Copy, Debug, Default, PartialEq, Eq, Structural, Ord, Hash)]
pub struct SimDuration(i64);

impl PartialOrd for SimDuration {
    fn partial_cmp(&self, other: &Self) -> (r: Option<Ordering>) {
        if self.0 < other.0 {
            Some(Ordering::Less)
        } else if self.0 == other.0 {
            Some(Ordering::Equal)
        } else {
            Some(Ordering::Greater)
        }
    }
}

impl vstd::std_specs::cmp::PartialOrdSpecImpl for SimDuration {
    open spec fn obeys_partial_cmp_spec() -> bool {
        true
    }

    /// Values are ordered as their views are.
    open spec fn partial_cmp_spec(&self, other: &Self) -> Option<Ordering> {
        if self@ < other@ {
            Some(Ordering::Less)
        } else if self@ == other@ {
            Some(Ordering::Equal)
        } else {
            Some(Ordering::Greater)
        }
    }
}

impl View for SimDuration {
    type V = i64;

    closed spec fn view(&self) -> i64 {
        self.0
    }
}

impl SimTime {

    pub fn zero() -> (r: Self)
        ensures
            r@ == 0,
    {
        Self(0)
    }

    pub fn from_millis(milliseconds: i64) -> (r: Self)
        ensures
            r@ == milliseconds,
    {
        Self(milliseconds)
    }

    pub fn as_millis(self) -> (r: i64)
        ensures
            r == self@,
    {
        self.0
    }

    /// `self + duration`, refused when it leaves the range of `i64`.
    pub fn checked_add(self, duration: SimDuration) -> (r: Result<Self, TimeError>)
        ensures
            match r {
                Ok(t) => t@ == self@ + duration@,
                Err(e) => !(i64::MIN <= self@ + duration@ <= i64::MAX) && e == TimeError::Overflow,
            },
    {
        match self.0.checked_add(duration.0) {
            Some(v) => Ok(Self(v)),
            None => Err(TimeError::Overflow),
        }
    }

    /// `self - duration`, refused when it leaves the range of `i64`.
    pub fn checked_sub(self, duration: SimDuration) -> (r: Result<Self, TimeError>)
        ensures
            match r {
                Ok(t) => t@ == self@ - duration@,
                Err(e) => !(i64::MIN <= self@ - duration@ <= i64::MAX) && e == TimeError::Overflow,
            },
    {
        match self.0.checked_sub(duration.0) {
            Some(v) => Ok(Self(v)),
            None => Err(TimeError::Overflow),
        }
    }

    pub fn lt(self, other: Self) -> (r: bool)
        ensures
            r == (self@ < other@),
    {
        self.0 < other.0
    }
}

impl SimDuration {
    #[verifier::type_invariant]
    closed spec fn non_negative(self) -> bool {
        self.0 >= 0
    }


    pub fn zero() -> (r: Self)
        ensures
            r@ == 0,
    {
        Self(0)
    }

    pub fn from_millis(milliseconds: i64) -> (r: Result<Self, TimeError>)
        ensures
            match r {
                Ok(d) => milliseconds >= 0 && d@ == milliseconds,
                Err(e) => milliseconds < 0 && e == TimeError::NegativeDuration,
            },
    {
        if milliseconds < 0 {
            Err(TimeError::NegativeDuration)
        } else {
            Ok(Self(milliseconds))
        }
    }

    /// Whole seconds as a duration; overflow is reported before sign.
    pub fn from_seconds(seconds: i64) -> (r: Result<Self, TimeError>)
        ensures
            match r {
                Ok(d) => seconds >= 0 && d@ == seconds * 1000,
                Err(e) => if !(i64::MIN <= seconds * 1000 <= i64::MAX) {
                    e == TimeError::Overflow
                } else {
                    seconds < 0 && e == TimeError::NegativeDuration
                },
            },
    {
        match seconds.checked_mul(1_000) {
            Some(ms) => Self::from_millis(ms),
            None => Err(TimeError::Overflow),
        }
    }

    pub fn as_millis(self) -> (r: i64)
        ensures
            r == self@,
            r >= 0,
    {
        proof {
            use_type_invariant(&self);
        }
        self.0
    }
}

/// Strict append order for events, separate from simulation time.
#[derive(Clone, Copy, Debug, Default, PartialEq, Eq, Structural, Ord, Hash)]
pub struct EventSequence(u64);

impl PartialOrd for EventSequence {
    fn partial_cmp(&self, other: &Self) -> (r: Option<Ordering>) {
        if self.0 < other.0 {
            Some(Ordering::Less)
        } else if self.0 == other.0 {
            Some(Ordering::Equal)
        } else {
            Some(Ordering::Greater)
        }
    }
}

impl vstd::std_specs::cmp::PartialOrdSpecImpl for EventSequence {
    open spec fn obeys_partial_cmp_spec() -> bool {
        true
    }

    /// Values are ordered as their views are.
    open spec fn partial_cmp_spec(&self, other: &Self) -> Option<Ordering> {
        if self@ < other@ {
            Some(Ordering::Less)
        } else if self@ == other@ {
            Some(Ordering::Equal)
        } else {
            Some(Ordering::Greater)
        }
    }
}

impl View for EventSequence {
    type V = u64;

    closed spec fn view(&self) -> u64 {
        self.0
    }
}

impl EventSequence {

    pub fn zero() -> (r: Self)
        ensures
            r@ == 0,
    {
        Self(0)
    }

    pub fn new(value: u64) -> (r: Self)
        ensures
            r@ == value,
    {
        Self(value)
    }

    pub fn get(self) -> (r: u64)
        ensures
            r == self@,
    {
        self.0
    }

    /// The following position; `None` only at `u64::MAX`.
    pub fn next(self) -> (r: Option<Self>)
        ensures
            match r {
                Some(n) => self@ < u64::MAX && n@ == self@ + 1,
                None => self@ == u64::MAX,
            },
    {
        if self.0 == u64::MAX {
            None
        } else {
            Some(Self(self.0 + 1))
        }
    }
}

impl SimTime {
    /// `t + d` and `t - d` are `t.checked_add(d)` and `t.checked_sub(d)`:
    /// the result when it fits in `i64`, an overflow otherwise.
    pub proof fn lemma_operators(self, d: SimDuration)
        ensures
            match vstd::std_specs::ops::AddSpec::add_spec(self, d) {
                Ok(t) => i64::MIN <= self@ + d@ <= i64::MAX && t@ == self@ + d@,
                Err(e) => !(i64::MIN <= self@ + d@ <= i64::MAX) && e == TimeError::Overflow,
            },
            match vstd::std_specs::ops::SubSpec::sub_spec(self, d) {
                Ok(t) => i64::MIN <= self@ - d@ <= i64::MAX && t@ == self@ - d@,
                Err(e) => !(i64::MIN <= self@ - d@ <= i64::MAX) && e == TimeError::Overflow,
            },
    {
    }
}

impl std::ops::Add<SimDuration> for SimTime {
    type Output = Result<SimTime, TimeError>;

    fn add(self, rhs: SimDuration) -> Self::Output {
        self.checked_add(rhs)
    }
}

impl vstd::std_specs::ops::AddSpecImpl<SimDuration> for SimTime {
    open spec fn obeys_add_spec() -> bool {
        true
    }

    open spec fn add_req(self, rhs: SimDuration) -> bool {
        true
    }

    closed spec fn add_spec(self, rhs: SimDuration) -> Result<SimTime, TimeError> {
        if i64::MIN <= self.0 + rhs.0 <= i64::MAX {
            Ok(SimTime((self.0 + rhs.0) as i64))
        } else {
            Err(TimeError::Overflow)
        }
    }
}

impl std::ops::Sub<SimDuration> for SimTime {
    type Output = Result<SimTime, TimeError>;

    fn sub(self, rhs: SimDuration) -> Self::Output {
        self.checked_sub(rhs)
    }
}

impl vstd::std_specs::ops::SubSpecImpl<SimDuration> for SimTime {
    open spec fn obeys_sub_spec() -> bool {
        true
    }

    open spec fn sub_req(self, rhs: SimDuration) -> bool {
        true
    }

    closed spec fn sub_spec(self, rhs: SimDuration) -> Result<SimTime, TimeError> {
        if i64::MIN <= self.0 - rhs.0 <= i64::MAX {
            Ok(SimTime((self.0 - rhs.0) as i64))
        } else {
            Err(TimeError::Overflow)
        }
    }
}

} // verus!
