//! Physical quantities held as canonical non-negative integers.
//!
//! Conversions from unlabelled decimal numbers are done by callers; this
//! module holds the canonical integer forms.
use std::cmp::Ordering;
use vstd::prelude::*;
use vstd::string::*;

verus! {

#[derive(Debug, Clone, Copy, PartialEq, Eq, Structural)]
pub enum QuantityError {
    NegativeDistance,
    NegativeSpeed,
    NegativeRotationalSpeed,
    NonFiniteValue,
    OutOfRange,
}

pub open spec fn quantity_error_text(e: QuantityError) -> Seq<char> {
    match e {
        QuantityError::NegativeDistance => "distance cannot be negative"@,
        QuantityError::NegativeSpeed => "speed cannot be negative"@,
        QuantityError::NegativeRotationalSpeed => "rotational speed cannot be negative"@,
        QuantityError::NonFiniteValue => "quantity must be a finite number"@,
        QuantityError::OutOfRange => "quantity is outside the supported range"@,
    }
}

impl QuantityError {
    pub fn message(&self) -> (r: String)
        ensures
            r@ == quantity_error_text(*self),
    {
        match self {
            QuantityError::NegativeDistance => String::from_str("distance cannot be negative"),
            QuantityError::NegativeSpeed => String::from_str("speed cannot be negative"),
            QuantityError::NegativeRotationalSpeed => String::from_str(
                "rotational speed cannot be negative",
            ),
            QuantityError::NonFiniteValue => String::from_str("quantity must be a finite number"),
            QuantityError::OutOfRange => String::from_str("quantity is outside the supported range"),
        }
    }
}

/// Non-negative distance in integer millimetres.
#[derive(Clone, Copy, Debug, Default, PartialEq, Eq, Structural, Ord, Hash)]
pub struct Distance(u64);

impl PartialOrd for Distance {
    fn partial_cmp(&self, other: &Self) -> (r: Option<Ordering>) {
        if self.0 < other.0 {
            Some(Ordering::Less)
        } else if self.0 == other.0 {
            Some(Ordering::Equal)
        } else {
            Some(Ordering::Greater)
        }
    }
}

impl vstd::std_specs::cmp::PartialOrdSpecImpl for Distance {
    open spec fn obeys_partial_cmp_spec() -> bool {
        true
    }

    /// Values are ordered as their views are.
    open spec fn partial_cmp_spec(&self, other: &Self) -> Option<Ordering> {
        if self@ < other@ {
            Some(Ordering::Less)
        } else if self@ == other@ {
            Some(Ordering::Equal)
        } else {
            Some(Ordering::Greater)
        }
    }
}

impl View for Distance {
    type V = u64;

    closed spec fn view(&self) -> u64 {
        self.0
    }
}

impl Distance {
    pub fn zero() -> (r: Self)
        ensures
            r@ == 0,
    {
        Self(0)
    }


    pub fn from_millimetres(mm: u64) -> (r: Self)
        ensures
            r@ == mm,
    {
        Self(mm)
    }

    pub fn as_millimetres(self) -> (r: u64)
        ensures
            r == self@,
    {
        self.0
    }
}

/// Non-negative speed in integer millimetres per second.
#[derive(Clone, Copy, Debug, Default, PartialEq, Eq, Structural, Ord, Hash)]
pub struct Speed(u64);

impl PartialOrd for Speed {
    fn partial_cmp(&self, other: &Self) -> (r: Option<Ordering>) {
        if self.0 < other.0 {
            Some(Ordering::Less)
        } else if self.0 == other.0 {
            Some(Ordering::Equal)
        } else {
            Some(Ordering::Greater)
        }
    }
}

impl vstd::std_specs::cmp::PartialOrdSpecImpl for Speed {
    open spec fn obeys_partial_cmp_spec() -> bool {
        true
    }

    /// Values are ordered as their views are.
    open spec fn partial_cmp_spec(&self, other: &Self) -> Option<Ordering> {
        if self@ < other@ {
            Some(Ordering::Less)
        } else if self@ == other@ {
            Some(Ordering::Equal)
        } else {
            Some(Ordering::Greater)
        }
    }
}

impl View for Speed {
    type V = u64;

    closed spec fn view(&self) -> u64 {
        self.0
    }
}

impl Speed {
    pub fn zero() -> (r: Self)
        ensures
            r@ == 0,
    {
        Self(0)
    }


    pub fn from_mm_per_second(value: u64) -> (r: Self)
        ensures
            r@ == value,
    {
        Self(value)
    }

    pub fn as_mm_per_second(self) -> (r: u64)
        ensures
            r == self@,
    {
        self.0
    }
}

/// Non-negative rotational speed in integer milli-revolutions per minute.
#[derive(Clone, Copy, Debug, Default, PartialEq, Eq, Structural, Ord, Hash)]
pub struct RotationalSpeed(u64);

impl PartialOrd for RotationalSpeed {
    fn partial_cmp(&self, other: &Self) -> (r: Option<Ordering>) {
        if self.0 < other.0 {
            Some(Ordering::Less)
        } else if self.0 == other.0 {
            Some(Ordering::Equal)
        } else {
            Some(Ordering::Greater)
        }
    }
}

impl vstd::std_specs::cmp::PartialOrdSpecImpl for RotationalSpeed {
    open spec fn obeys_partial_cmp_spec() -> bool {
        true
    }

    /// Values are ordered as their views are.
    open spec fn partial_cmp_spec(&self, other: &Self) -> Option<Ordering> {
        if self@ < other@ {
            Some(Ordering::Less)
        } else if self@ == other@ {
            Some(Ordering::Equal)
        } else {
            Some(Ordering::Greater)
        }
    }
}

impl View for RotationalSpeed {
    type V = u64;

    closed spec fn view(&self) -> u64 {
        self.0
    }
}

impl RotationalSpeed {
    pub fn zero() -> (r: Self)
        ensures
            r@ == 0,
    {
        Self(0)
    }


    pub fn from_milli_rpm(value: u64) -> (r: Self)
        ensures
            r@ == value,
    {
        Self(value)
    }

    pub fn as_milli_rpm(self) -> (r: u64)
        ensures
            r == self@,
    {
        self.0
    }
}

/// Millidegrees in one full turn.
pub const FULL_CIRCLE_MILLIDEGREES: u32 = 360_000;

/// Heading or orientation in integer millidegrees, normalized to `[0, 360000)`.
#[derive(Clone, Copy, Debug, Default, PartialEq, Eq, Structural, Ord, Hash)]
pub struct Angle(u32);

impl PartialOrd for Angle {
    fn partial_cmp(&self, other: &Self) -> (r: Option<Ordering>) {
        if self.0 < other.0 {
            Some(Ordering::Less)
        } else if self.0 == other.0 {
            Some(Ordering::Equal)
        } else {
            Some(Ordering::Greater)
        }
    }
}

impl vstd::std_specs::cmp::PartialOrdSpecImpl for Angle {
    open spec fn obeys_partial_cmp_spec() -> bool {
        true
    }

    /// Values are ordered as their views are.
    open spec fn partial_cmp_spec(&self, other: &Self) -> Option<Ordering> {
        if self@ < other@ {
            Some(Ordering::Less)
        } else if self@ == other@ {
            Some(Ordering::Equal)
        } else {
            Some(Ordering::Greater)
        }
    }
}

impl View for Angle {
    type V = u32;

    closed spec fn view(&self) -> u32 {
        self.0
    }
}

impl Angle {
    #[verifier::type_invariant]
    closed spec fn normalized(self) -> bool {
        self.0 < FULL_CIRCLE_MILLIDEGREES
    }

    /// Accepts only an already normalized value.
    pub fn from_millidegrees(value: u32) -> (r: Result<Self, QuantityError>)
        ensures
            match r {
                Ok(a) => value < FULL_CIRCLE_MILLIDEGREES && a@ == value,
                Err(e) => value >= FULL_CIRCLE_MILLIDEGREES && e == QuantityError::OutOfRange,
            },
    {
        if value >= FULL_CIRCLE_MILLIDEGREES {
            Err(QuantityError::OutOfRange)
        } else {
            Ok(Self(value))
        }
    }

    /// Normalizes any whole number of millidegrees into one turn, so that
    /// `-90000` becomes `270000` and `450000` becomes `90000`.
    pub fn from_whole_millidegrees(value: i64) -> (r: Self)
        ensures
            r@ as int == (value as int) % (FULL_CIRCLE_MILLIDEGREES as int),
    {
        let full: i64 = 360_000;
        let m = value % full;
        let n: i64 = if m < 0 {
            m + full
        } else {
            m
        };
        assert(n as int == (value as int) % 360_000) by {
            assert(value as int == (value as int / 360_000) * 360_000 + (value as int % 360_000)) by (
            nonlinear_arith);
        }
        Self(n as u32)
    }

    pub fn as_millidegrees(self) -> (r: u32)
        ensures
            r == self@,
            r < FULL_CIRCLE_MILLIDEGREES,
    {
        proof {
            use_type_invariant(&self);
        }
        self.0
    }
}

} // verus!
