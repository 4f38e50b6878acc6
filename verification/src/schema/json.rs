//! The JSON values that component payloads and relationship properties are
//! made of, with the reading operations that validation uses.
//!
//! Objects keep their members in key order with no repeated key, as a
//! `serde_json` map does; numbers are non-negative integers, negative
//! integers, or finite decimals, as a `serde_json` number is.
use crate::ordered_map::{OrderedMap, strictly_sorted};
use crate::schema::decimal::{Decimal, is_finite_bits, u64_to_f64_bits, i64_to_f64_bits, u64_to_bits, i64_to_bits};
use vstd::prelude::*;

verus! {

#[derive(Clone, Copy, Debug, PartialEq, Eq, Structural)]
pub enum JsonValueKind {
    Null,
    Bool,
    Number,
    String,
    Array,
    Object,
}

#[derive(Debug)]
pub enum NumberRepr {
    PosInt(u64),
    NegInt(i64),
    Float(Decimal),
}

/// A JSON number.
#[derive(Debug)]
pub struct JsonNumber {
    repr: NumberRepr,
}

impl JsonNumber {
    #[verifier::type_invariant]
    closed spec fn canonical(self) -> bool {
        match self.repr {
            NumberRepr::PosInt(_) => true,
            NumberRepr::NegInt(i) => i < 0,
            NumberRepr::Float(d) => is_finite_bits(d.bits),
        }
    }

    /// The representation: a non-negative integer, a negative integer, or a finite decimal.
    pub closed spec fn repr(self) -> NumberRepr {
        self.repr
    }

    pub fn from_u64(value: u64) -> (r: Self)
        ensures
            r.repr() == NumberRepr::PosInt(value),
    {
        JsonNumber { repr: NumberRepr::PosInt(value) }
    }

    pub fn from_i64(value: i64) -> (r: Self)
        ensures
            value >= 0 ==> r.repr() == NumberRepr::PosInt(value as u64),
            value < 0 ==> r.repr() == NumberRepr::NegInt(value),
    {
        if value >= 0 {
            JsonNumber { repr: NumberRepr::PosInt(value as u64) }
        } else {
            JsonNumber { repr: NumberRepr::NegInt(value) }
        }
    }

    /// A decimal number; `None` for infinities and NaN, which JSON cannot hold.
    pub fn from_decimal(value: Decimal) -> (r: Option<Self>)
        ensures
            is_finite_bits(value.bits) ==> r == Some(JsonNumber::spec_float(value)),
            !is_finite_bits(value.bits) ==> r is None,
    {
        if value.is_finite() {
            Some(JsonNumber { repr: NumberRepr::Float(value) })
        } else {
            None
        }
    }

    pub closed spec fn spec_float(value: Decimal) -> JsonNumber {
        JsonNumber { repr: NumberRepr::Float(value) }
    }

    pub proof fn lemma_spec_float(value: Decimal)
        ensures
            JsonNumber::spec_float(value).repr() == NumberRepr::Float(value),
    {
    }

    /// `serde_json::Number::as_i64`: integers that fit in `i64`.
    pub open spec fn spec_as_i64(self) -> Option<i64> {
        match self.repr() {
            NumberRepr::PosInt(u) => if u <= i64::MAX {
                Some(u as i64)
            } else {
                None
            },
            NumberRepr::NegInt(i) => Some(i),
            NumberRepr::Float(_) => None,
        }
    }

    /// `serde_json::Number::as_u64`: non-negative integers.
    pub open spec fn spec_as_u64(self) -> Option<u64> {
        match self.repr() {
            NumberRepr::PosInt(u) => Some(u),
            _ => None,
        }
    }

    /// `serde_json::Number::as_f64`, as a bit pattern: integers are rounded to
    /// the nearest `f64`.
    pub open spec fn spec_as_f64_bits(self) -> u64 {
        match self.repr() {
            NumberRepr::PosInt(u) => u64_to_f64_bits(u),
            NumberRepr::NegInt(i) => i64_to_f64_bits(i),
            NumberRepr::Float(d) => d.bits,
        }
    }

    pub fn as_i64(&self) -> (r: Option<i64>)
        ensures
            r == self.spec_as_i64(),
    {
        match &self.repr {
            NumberRepr::PosInt(u) => if *u <= i64::MAX as u64 {
                Some(*u as i64)
            } else {
                None
            },
            NumberRepr::NegInt(i) => Some(*i),
            NumberRepr::Float(_) => None,
        }
    }

    pub fn as_u64(&self) -> (r: Option<u64>)
        ensures
            r == self.spec_as_u64(),
    {
        match &self.repr {
            NumberRepr::PosInt(u) => Some(*u),
            _ => None,
        }
    }

    pub fn as_f64_bits(&self) -> (r: u64)
        ensures
            r == self.spec_as_f64_bits(),
    {
        match &self.repr {
            NumberRepr::PosInt(u) => u64_to_bits(*u),
            NumberRepr::NegInt(i) => i64_to_bits(*i),
            NumberRepr::Float(d) => d.bits,
        }
    }

    /// The decimal, when this number was written as one.
    pub fn as_decimal(&self) -> (r: Option<&Decimal>)
        ensures
            match self.repr() {
                NumberRepr::Float(d) => r == Some(&d),
                _ => r is None,
            },
    {
        match &self.repr {
            NumberRepr::Float(d) => Some(d),
            _ => None,
        }
    }

    /// Every number is a non-negative integer, a negative integer, or a
    /// finite decimal.
    pub proof fn lemma_canonical_spec(&self)
        ensures
            self.repr() is NegInt ==> self.spec_as_i64() is Some,
    {
    }

    pub fn lemma_canonical(&self)
        ensures
            self.repr() matches NumberRepr::NegInt(i) ==> i < 0,
            self.repr() matches NumberRepr::Float(d) ==> is_finite_bits(d.bits),
    {
        proof {
            use_type_invariant(self);
        }
    }
}

impl Clone for NumberRepr {
    fn clone(&self) -> (r: Self)
        ensures
            r == *self,
    {
        match self {
            NumberRepr::PosInt(u) => NumberRepr::PosInt(*u),
            NumberRepr::NegInt(i) => NumberRepr::NegInt(*i),
            NumberRepr::Float(d) => NumberRepr::Float(d.clone()),
        }
    }
}

impl Clone for JsonNumber {
    fn clone(&self) -> (r: Self)
        ensures
            r == *self,
    {
        proof {
            use_type_invariant(self);
        }
        JsonNumber { repr: self.repr.clone() }
    }
}

/// A JSON object: members in key order, no key twice.
pub type JsonObject = OrderedMap<String, JsonValue>;

/// A JSON value.
#[derive(Debug)]
pub enum JsonValue {
    Null,
    Bool(bool),
    Number(JsonNumber),
    String(String),
    Array(Vec<JsonValue>),
    Object(JsonObject),
}

/// The content of a JSON value, as contracts see it.
pub enum JsonData {
    Null,
    Bool(bool),
    Number(JsonNumber),
    Str(Seq<char>),
    Array(Seq<JsonData>),
    Object(Map<Seq<char>, JsonData>),
}

/// The content of `v`: strings by their characters, arrays by their items'
/// content, objects by the content of each member.
pub open spec fn json_data(v: JsonValue) -> JsonData
    decreases v,
{
    match v {
        JsonValue::Null => JsonData::Null,
        JsonValue::Bool(b) => JsonData::Bool(b),
        JsonValue::Number(n) => JsonData::Number(n),
        JsonValue::String(s) => JsonData::Str(s@),
        JsonValue::Array(a) => JsonData::Array(
            Seq::new(
                a@.len(),
                |i: int|
                    if 0 <= i < a@.len() {
                        json_data(a@[i])
                    } else {
                        JsonData::Null
                    },
            ),
        ),
        JsonValue::Object(m) => JsonData::Object(
            Map::new(
                |k: Seq<char>| m.keys().contains(k),
                |k: Seq<char>|
                    {
                        let i = m.keys().index_of(k);
                        if 0 <= i < m.values().len() {
                            proof {
                                m.lemma_value_decreases(i);
                            }
                            json_data(m.values()[i])
                        } else {
                            JsonData::Null
                        }
                    },
            ),
        ),
    }
}

impl View for JsonValue {
    type V = JsonData;

    open spec fn view(&self) -> JsonData {
        json_data(*self)
    }
}

impl Clone for JsonValue {
    fn clone(&self) -> (r: Self)
        ensures
            r@ == self@,
        decreases self,
    {
        match self {
            JsonValue::Null => JsonValue::Null,
            JsonValue::Bool(b) => JsonValue::Bool(*b),
            JsonValue::Number(n) => JsonValue::Number(n.clone()),
            JsonValue::String(s) => JsonValue::String(s.clone()),
            JsonValue::Array(a) => {
                let n = a.len();
                let mut items: Vec<JsonValue> = Vec::new();
                for i in 0..n
                    invariant
                        n == a@.len(),
                        *self == JsonValue::Array(*a),
                        items@.len() == i,
                        forall|j: int| 0 <= j < i ==> (#[trigger] items@[j])@ == a@[j]@,
                {
                    proof {
                        assert(decreases_to!(*self => self->Array_0));
                        assert(decreases_to!(*a => a@)) by {
                            broadcast use vstd::std_specs::vec::axiom_vec_decreases_to_view;
                        }
                        assert(decreases_to!(a@ => a@[i as int]));
                    }
                    let item = a[i].clone();
                    items.push(item);
                }
                let r = JsonValue::Array(items);
                proof {
                    if let (JsonData::Array(x), JsonData::Array(y)) = (r@, self@) {
                        assert(x =~= y);
                    }
                }
                r
            },
            JsonValue::Object(m) => {
                let n = m.len();
                let mut out: JsonObject = OrderedMap::new();
                m.lemma_sorted();
                for i in 0..n
                    invariant
                        n == m.keys().len(),
                        m.keys().len() == m.values().len(),
                        *self == JsonValue::Object(*m),
                        strictly_sorted::<String>(m.keys()),
                        out.keys() == m.keys().subrange(0, i as int),
                        out.values().len() == i,
                        forall|j: int| 0 <= j < i ==> (#[trigger] out.values()[j])@ == m.values()[j]@,
                {
                    proof {
                        assert(decreases_to!(*self => self->Object_0));
                        m.lemma_value_decreases(i as int);
                    }
                    let key = m.key_at(i).clone();
                    let value = m.value_at(i).clone();
                    let ghost before = out.values();
                    proof {
                        if i > 0 {
                            assert(out.keys().last() == m.keys()[i - 1]);
                        }
                    }
                    out.push_greatest(key, value);
                    proof {
                        assert(out.keys() =~= m.keys().subrange(0, i + 1));
                        assert(out.values() == before.push(value));
                    }
                }
                proof {
                    out.lemma_view();
                    assert(out.keys() =~= m.keys());
                }
                let r = JsonValue::Object(out);
                proof {
                    if let (JsonData::Object(x), JsonData::Object(y)) = (r@, self@) {
                        assert(x =~= y);
                    }
                }
                r
            },
        }
    }
}

/// The JSON kind of a value.
pub open spec fn kind_of(value: JsonValue) -> JsonValueKind {
    match value {
        JsonValue::Null => JsonValueKind::Null,
        JsonValue::Bool(_) => JsonValueKind::Bool,
        JsonValue::Number(_) => JsonValueKind::Number,
        JsonValue::String(_) => JsonValueKind::String,
        JsonValue::Array(_) => JsonValueKind::Array,
        JsonValue::Object(_) => JsonValueKind::Object,
    }
}

impl JsonValueKind {
    pub fn of(value: &JsonValue) -> (r: Self)
        ensures
            r == kind_of(*value),
    {
        match value {
            JsonValue::Null => JsonValueKind::Null,
            JsonValue::Bool(_) => JsonValueKind::Bool,
            JsonValue::Number(_) => JsonValueKind::Number,
            JsonValue::String(_) => JsonValueKind::String,
            JsonValue::Array(_) => JsonValueKind::Array,
            JsonValue::Object(_) => JsonValueKind::Object,
        }
    }
}

impl JsonValue {
    pub fn as_object(&self) -> (r: Option<&JsonObject>)
        ensures
            match *self {
                JsonValue::Object(o) => r == Some(&o),
                _ => r is None,
            },
    {
        match self {
            JsonValue::Object(o) => Some(o),
            _ => None,
        }
    }

    pub fn as_array(&self) -> (r: Option<&Vec<JsonValue>>)
        ensures
            match *self {
                JsonValue::Array(a) => r == Some(&a),
                _ => r is None,
            },
    {
        match self {
            JsonValue::Array(a) => Some(a),
            _ => None,
        }
    }

    pub fn as_str(&self) -> (r: Option<&str>)
        ensures
            match *self {
                JsonValue::String(s) => r is Some && r->0@ == s@,
                _ => r is None,
            },
    {
        match self {
            JsonValue::String(s) => Some(s.as_str()),
            _ => None,
        }
    }

    pub fn as_number(&self) -> (r: Option<&JsonNumber>)
        ensures
            match *self {
                JsonValue::Number(n) => r == Some(&n),
                _ => r is None,
            },
    {
        match self {
            JsonValue::Number(n) => Some(n),
            _ => None,
        }
    }
}

} // verus!
