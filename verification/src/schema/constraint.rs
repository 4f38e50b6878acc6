use crate::schema::decimal::Decimal;
use crate::text::{i64_text, int_text, join, some_text, some_wrapped, str_debug, str_debug_text, u64_text, usize_text};
use vstd::prelude::*;
use vstd::string::*;

verus! {

/// A decimal bound as seen by contracts: its bit pattern and its texts.
pub struct DecimalView {
    pub bits: u64,
    pub display: Seq<char>,
    pub debug: Seq<char>,
    pub json: Seq<char>,
}

pub open spec fn decimal_view(d: Decimal) -> DecimalView {
    DecimalView { bits: d.bits, display: d.display@, debug: d.debug@, json: d.json@ }
}

pub open spec fn opt_decimal_view(d: Option<Decimal>) -> Option<DecimalView> {
    match d {
        Some(x) => Some(decimal_view(x)),
        None => None,
    }
}

/// Optional structural restrictions applied after a field's base type matches.
#[derive(Debug, PartialEq)]
pub enum FieldConstraint {
    IntegerRange { min: Option<i64>, max: Option<i64> },
    UnsignedRange { min: Option<u64>, max: Option<u64> },
    DecimalRange { min: Option<Decimal>, max: Option<Decimal> },
    StringLength { min: Option<usize>, max: Option<usize> },
    ArrayLength { min: Option<usize>, max: Option<usize> },
    AllowedStrings { values: Vec<String> },
}

/// A constraint as seen by contracts.
pub enum FieldConstraintView {
    IntegerRange { min: Option<i64>, max: Option<i64> },
    UnsignedRange { min: Option<u64>, max: Option<u64> },
    DecimalRange { min: Option<DecimalView>, max: Option<DecimalView> },
    StringLength { min: Option<usize>, max: Option<usize> },
    ArrayLength { min: Option<usize>, max: Option<usize> },
    AllowedStrings { values: Seq<Seq<char>> },
}

impl View for FieldConstraint {
    type V = FieldConstraintView;

    open spec fn view(&self) -> FieldConstraintView {
        match *self {
            FieldConstraint::IntegerRange { min, max } => FieldConstraintView::IntegerRange { min, max },
            FieldConstraint::UnsignedRange { min, max } => FieldConstraintView::UnsignedRange {
                min,
                max,
            },
            FieldConstraint::DecimalRange { min, max } => FieldConstraintView::DecimalRange {
                min: opt_decimal_view(min),
                max: opt_decimal_view(max),
            },
            FieldConstraint::StringLength { min, max } => FieldConstraintView::StringLength { min, max },
            FieldConstraint::ArrayLength { min, max } => FieldConstraintView::ArrayLength { min, max },
            FieldConstraint::AllowedStrings { values } => FieldConstraintView::AllowedStrings {
                values: values@.map_values(|s: String| s@),
            },
        }
    }
}

fn clone_strings(v: &Vec<String>) -> (r: Vec<String>)
    ensures
        r@ == v@,
{
    let mut out: Vec<String> = Vec::new();
    for i in 0..v.len()
        invariant
            out@ == v@.subrange(0, i as int),
    {
        out.push(v[i].clone());
        assert(out@ =~= v@.subrange(0, i + 1));
    }
    assert(v@.subrange(0, v@.len() as int) =~= v@);
    out
}

fn clone_decimal(d: &Option<Decimal>) -> (r: Option<Decimal>)
    ensures
        r == *d,
{
    match d {
        Some(x) => Some(x.clone()),
        None => None,
    }
}

impl Clone for FieldConstraint {
    fn clone(&self) -> (r: Self)
        ensures
            r@ == self@,
    {
        match self {
            FieldConstraint::IntegerRange { min, max } => FieldConstraint::IntegerRange {
                min: *min,
                max: *max,
            },
            FieldConstraint::UnsignedRange { min, max } => FieldConstraint::UnsignedRange {
                min: *min,
                max: *max,
            },
            FieldConstraint::DecimalRange { min, max } => FieldConstraint::DecimalRange {
                min: clone_decimal(min),
                max: clone_decimal(max),
            },
            FieldConstraint::StringLength { min, max } => FieldConstraint::StringLength {
                min: *min,
                max: *max,
            },
            FieldConstraint::ArrayLength { min, max } => FieldConstraint::ArrayLength {
                min: *min,
                max: *max,
            },
            FieldConstraint::AllowedStrings { values } => FieldConstraint::AllowedStrings {
                values: clone_strings(values),
            },
        }
    }
}

// ----------------------------------------------------------------------
// Debug text
// ----------------------------------------------------------------------
/// What `Debug` writes for an optional integer bound.
pub open spec fn opt_int_text(o: Option<int>) -> Seq<char> {
    match o {
        Some(v) => some_text(int_text(v)),
        None => "None"@,
    }
}

pub open spec fn opt_i64(o: Option<i64>) -> Option<int> {
    match o {
        Some(v) => Some(v as int),
        None => None,
    }
}

pub open spec fn opt_u64(o: Option<u64>) -> Option<int> {
    match o {
        Some(v) => Some(v as int),
        None => None,
    }
}

pub open spec fn opt_usize(o: Option<usize>) -> Option<int> {
    match o {
        Some(v) => Some(v as int),
        None => None,
    }
}

/// What `Debug` writes for an optional decimal bound.
pub open spec fn opt_decimal_text(o: Option<Decimal>) -> Seq<char> {
    match o {
        Some(d) => some_text(d.debug@),
        None => "None"@,
    }
}

/// The `Debug` texts of the first `n` strings, separated by `", "`.
pub open spec fn strings_debug_items(values: Seq<String>, n: int) -> Seq<char>
    decreases n,
{
    if n <= 0 {
        Seq::empty()
    } else if n == 1 {
        str_debug_text(values[0]@)
    } else {
        strings_debug_items(values, n - 1) + ", "@ + str_debug_text(values[n - 1]@)
    }
}

/// What `Debug` writes for a list of strings.
pub open spec fn strings_debug_text(values: Seq<String>) -> Seq<char> {
    "["@ + strings_debug_items(values, values.len() as int) + "]"@
}

/// What `Debug` writes for a pair of bounds named `name`.
pub open spec fn bounds_text(name: Seq<char>, min: Seq<char>, max: Seq<char>) -> Seq<char> {
    name + " { min: "@ + min + ", max: "@ + max + " }"@
}

/// What the derived `Debug` writes for a constraint.
pub open spec fn constraint_debug_text(c: FieldConstraint) -> Seq<char> {
    match c {
        FieldConstraint::IntegerRange { min, max } => bounds_text(
            "IntegerRange"@,
            opt_int_text(opt_i64(min)),
            opt_int_text(opt_i64(max)),
        ),
        FieldConstraint::UnsignedRange { min, max } => bounds_text(
            "UnsignedRange"@,
            opt_int_text(opt_u64(min)),
            opt_int_text(opt_u64(max)),
        ),
        FieldConstraint::DecimalRange { min, max } => bounds_text(
            "DecimalRange"@,
            opt_decimal_text(min),
            opt_decimal_text(max),
        ),
        FieldConstraint::StringLength { min, max } => bounds_text(
            "StringLength"@,
            opt_int_text(opt_usize(min)),
            opt_int_text(opt_usize(max)),
        ),
        FieldConstraint::ArrayLength { min, max } => bounds_text(
            "ArrayLength"@,
            opt_int_text(opt_usize(min)),
            opt_int_text(opt_usize(max)),
        ),
        FieldConstraint::AllowedStrings { values } => "AllowedStrings { values: "@ + strings_debug_text(
            values@,
        ) + " }"@,
    }
}

fn opt_text(digits: Option<String>) -> (r: String)
    ensures
        r@ == match digits {
            Some(d) => some_text(d@),
            None => "None"@,
        },
{
    match digits {
        Some(d) => some_wrapped(d.as_str()),
        None => String::from_str("None"),
    }
}

fn bounds(name: &str, min: String, max: String) -> (r: String)
    ensures
        r@ == bounds_text(name@, min@, max@),
{
    let out = join(name.to_owned(), " { min: ");
    let out = join(out, min.as_str());
    let out = join(out, ", max: ");
    let out = join(out, max.as_str());
    join(out, " }")
}

fn strings_debug(values: &Vec<String>) -> (r: String)
    ensures
        r@ == strings_debug_text(values@),
{
    let mut out = String::from_str("[");
    let n = values.len();
    for i in 0..n
        invariant
            n == values@.len(),
            out@ == "["@ + strings_debug_items(values@, i as int),
    {
        let item = str_debug(values[i].as_str());
        if i > 0 {
            out = join(out, ", ");
        }
        out = join(out, item.as_str());
        proof {
            if i == 0 {
                assert(strings_debug_items(values@, 1) == str_debug_text(values@[0]@));
            }
        }
        assert(out@ =~= "["@ + strings_debug_items(values@, i + 1));
    }
    let r = join(out, "]");
    assert(r@ =~= strings_debug_text(values@));
    r
}

impl FieldConstraint {
    /// The text the derived `Debug` writes for this constraint.
    pub fn debug_text(&self) -> (r: String)
        ensures
            r@ == constraint_debug_text(*self),
    {
        match self {
            FieldConstraint::IntegerRange { min, max } => {
                let a = match min { Some(v) => Some(i64_text(*v)), None => None };
                let b = match max { Some(v) => Some(i64_text(*v)), None => None };
                bounds("IntegerRange", opt_text(a), opt_text(b))
            },
            FieldConstraint::UnsignedRange { min, max } => {
                let a = match min { Some(v) => Some(u64_text(*v)), None => None };
                let b = match max { Some(v) => Some(u64_text(*v)), None => None };
                bounds("UnsignedRange", opt_text(a), opt_text(b))
            },
            FieldConstraint::DecimalRange { min, max } => {
                let a = match min { Some(d) => Some(d.debug.clone()), None => None };
                let b = match max { Some(d) => Some(d.debug.clone()), None => None };
                bounds("DecimalRange", opt_text(a), opt_text(b))
            },
            FieldConstraint::StringLength { min, max } => {
                let a = match min { Some(v) => Some(usize_text(*v)), None => None };
                let b = match max { Some(v) => Some(usize_text(*v)), None => None };
                bounds("StringLength", opt_text(a), opt_text(b))
            },
            FieldConstraint::ArrayLength { min, max } => {
                let a = match min { Some(v) => Some(usize_text(*v)), None => None };
                let b = match max { Some(v) => Some(usize_text(*v)), None => None };
                bounds("ArrayLength", opt_text(a), opt_text(b))
            },
            FieldConstraint::AllowedStrings { values } => {
                let out = join(String::from_str("AllowedStrings { values: "), strings_debug(values).as_str());
                join(out, " }")
            },
        }
    }
}

} // verus!
