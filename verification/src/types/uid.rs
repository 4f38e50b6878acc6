//! Permanent machine identities backed by UUIDs.
//!
//! An identity is held as the 128-bit value of its UUID; the nil UUID is
//! never a valid identity.
use crate::ordered_map::OrderedKey;
use vstd::arithmetic::power2::pow2;
use crate::text::join;
use std::cmp::Ordering;
use vstd::prelude::*;
use vstd::string::*;

verus! {

#[verifier::external_type_specification]
#[verifier::external_body]
pub struct ExUuidError(uuid::Error);

#[derive(Debug)]
pub enum IdParseError {
    InvalidUuid(uuid::Error),
    NilUuid,
}

/// Lowercase hexadecimal digit for `d` in `0..16`.
pub open spec fn hex_digit(d: int) -> char {
    if d < 10 {
        (48 + d) as char
    } else {
        (87 + d) as char
    }
}

/// The 32 lowercase hexadecimal digits of `v`, most significant first.
pub open spec fn uuid_hex(v: u128) -> Seq<char> {
    Seq::new(32, |i: int| hex_digit(((v as int) / (pow2((4 * (31 - i)) as nat) as int)) % 16))
}

/// The hyphenated lowercase text of the UUID `v`: groups of 8, 4, 4, 4 and 12 digits.
pub open spec fn uuid_text(v: u128) -> Seq<char> {
    let h = uuid_hex(v);
    h.subrange(0, 8) + seq!['-'] + h.subrange(8, 12) + seq!['-'] + h.subrange(12, 16) + seq!['-']
        + h.subrange(16, 20) + seq!['-'] + h.subrange(20, 32)
}

/// What `uuid::Uuid::parse_str` yields for `text`, as a 128-bit value.
pub uninterp spec fn uuid_parse_result(text: Seq<char>) -> Option<u128>;

/// Calls `uuid::Uuid::parse_str` and reads the parsed UUID as its 128-bit
/// value. The contract names the outcome and states that the hyphenated
/// lowercase text of any value parses back to that value.
#[verifier::external_body]
fn parse_uuid_value(text: &str) -> (r: Result<u128, uuid::Error>)
    ensures
        r is Ok <==> uuid_parse_result(text@) is Some,
        r is Ok ==> uuid_parse_result(text@) == Some(r->Ok_0),
        forall|v: u128| #[trigger] uuid_text(v) == text@ ==> r is Ok && r->Ok_0 == v,
{
    match uuid::Uuid::parse_str(text) {
        Ok(u) => Ok(u.as_u128()),
        Err(e) => Err(e),
    }
}

/// Calls `uuid::Uuid::from_u128` and formats the UUID with `Display`, which
/// writes the hyphenated lowercase form.
#[verifier::external_body]
fn uuid_value_text(v: u128) -> (r: String)
    ensures
        r@ == uuid_text(v),
{
    uuid::Uuid::from_u128(v).to_string()
}

/// Calls `uuid::Uuid::now_v7`; the contract states only that the version
/// field (bits 76 to 79) holds 7, as every version-7 UUID does. The value
/// otherwise depends on the clock and on chance.
#[verifier::external_body]
fn new_v7_value() -> (r: u128)
    ensures
        (r >> 76u128) & 15u128 == 7u128,
{
    uuid::Uuid::now_v7().as_u128()
}

proof fn lemma_v7_non_nil(v: u128)
    requires
        (v >> 76u128) & 15u128 == 7u128,
    ensures
        v != 0,
{
    assert(v != 0) by (bit_vector)
        requires
            (v >> 76u128) & 15u128 == 7u128,
    ;
}

/// The text of the error that `uuid::Uuid::parse_str` reports for `text`.
pub uninterp spec fn uuid_error_text(text: Seq<char>) -> Seq<char>;

/// Calls `uuid::Uuid::parse_str` and formats the error it reports with
/// `Display`; the contract names that text. Inputs that parse give an empty text.
#[verifier::external_body]
pub(crate) fn uuid_parse_error_text(text: &str) -> (r: String)
    ensures
        r@ == uuid_error_text(text@),
{
    match uuid::Uuid::parse_str(text) {
        Ok(_) => String::new(),
        Err(e) => e.to_string(),
    }
}

/// Formats a `uuid::Error` with `Display`. Its text depends on the input that
/// failed to parse, which the error does not expose; nothing is stated of it.
#[verifier::external_body]
fn uuid_error_display(e: &uuid::Error) -> String {
    e.to_string()
}

impl IdParseError {
    /// Describes the error; for an unparsable UUID the text after the prefix
    /// is the `uuid` crate's own description.
    pub fn message(&self) -> (r: String)
        ensures
            *self is NilUuid ==> r@ == "nil UUID is not permitted as a VBF identifier"@,
            *self is InvalidUuid ==> r@.len() >= "invalid UUID: "@.len() && r@.subrange(
                0,
                "invalid UUID: "@.len() as int,
            ) == "invalid UUID: "@,
    {
        match self {
            IdParseError::InvalidUuid(e) => {
                let m = join(String::from_str("invalid UUID: "), uuid_error_display(e).as_str());
                assert(m@.subrange(0, "invalid UUID: "@.len() as int) =~= "invalid UUID: "@);
                m
            },
            IdParseError::NilUuid => String::from_str(
                "nil UUID is not permitted as a VBF identifier",
            ),
        }
    }
}

/// The outcome of parsing `text` as an identity.
pub open spec fn uid_parse_ok(text: Seq<char>, value: u128) -> bool {
    uuid_parse_result(text) == Some(value) && value != 0
}

/// Why parsing `text` as an identity failed.
pub open spec fn uid_parse_err(text: Seq<char>, e: IdParseError) -> bool {
    match e {
        IdParseError::NilUuid => uuid_parse_result(text) == Some(0u128),
        IdParseError::InvalidUuid(_) => uuid_parse_result(text) is None,
    }
}

/// Permanent identity of one instantiated entity.
#[derive(Clone, Copy, Debug, PartialEq, Eq, Structural, Ord, Hash)]
pub struct EntityUid(u128);

impl PartialOrd for EntityUid {
    fn partial_cmp(&self, other: &Self) -> (r: Option<Ordering>) {
        if self.0 < other.0 {
            Some(Ordering::Less)
        } else if self.0 == other.0 {
            Some(Ordering::Equal)
        } else {
            Some(Ordering::Greater)
        }
    }
}

impl vstd::std_specs::cmp::PartialOrdSpecImpl for EntityUid {
    open spec fn obeys_partial_cmp_spec() -> bool {
        true
    }

    /// Values are ordered as their views are.
    open spec fn partial_cmp_spec(&self, other: &Self) -> Option<Ordering> {
        if self@ < other@ {
            Some(Ordering::Less)
        } else if self@ == other@ {
            Some(Ordering::Equal)
        } else {
            Some(Ordering::Greater)
        }
    }
}

impl View for EntityUid {
    type V = u128;

    closed spec fn view(&self) -> u128 {
        self.0
    }
}

impl EntityUid {
    #[verifier::type_invariant]
    closed spec fn non_nil(self) -> bool {
        self.0 != 0
    }

    /// Generate a fresh UUIDv7-backed identity.
    pub fn new() -> (r: Self)
        ensures
            r@ != 0,
            (r@ >> 76u128) & 15u128 == 7u128,
    {
        let v = new_v7_value();
        proof {
            lemma_v7_non_nil(v);
        }
        EntityUid(v)
    }

    /// Construct from an externally supplied UUID value after validation.
    pub fn from_uuid(uuid: u128) -> (r: Result<Self, IdParseError>)
        ensures
            match r {
                Ok(u) => uuid != 0 && u@ == uuid,
                Err(e) => uuid == 0 && e is NilUuid,
            },
    {
        if uuid == 0 {
            Err(IdParseError::NilUuid)
        } else {
            Ok(EntityUid(uuid))
        }
    }

    pub fn as_uuid(&self) -> (r: u128)
        ensures
            r == self@,
            r != 0,
    {
        proof {
            use_type_invariant(self);
        }
        self.0
    }

    pub fn into_uuid(self) -> (r: u128)
        ensures
            r == self@,
            r != 0,
    {
        proof {
            use_type_invariant(&self);
        }
        self.0
    }

    /// The hyphenated lowercase text of this identity.
    pub fn to_string(&self) -> (r: String)
        ensures
            r@ == uuid_text(self@),
    {
        uuid_value_text(self.0)
    }

    /// Parse an identity from UUID text; the nil UUID is refused.
    pub fn parse_text(text: &str) -> (r: Result<Self, IdParseError>)
        ensures
            match r {
                Ok(u) => uid_parse_ok(text@, u@),
                Err(e) => uid_parse_err(text@, e),
            },
            forall|v: u128| v != 0 && #[trigger] uuid_text(v) == text@ ==> (r matches Ok(u) && u@ == v),
    {
        match parse_uuid_value(text) {
            Ok(v) => Self::from_uuid(v),
            Err(e) => Err(IdParseError::InvalidUuid(e)),
        }
    }
}

impl Default for EntityUid {
    fn default() -> (r: Self)
        ensures
            r@ != 0,
    {
        Self::new()
    }
}

impl std::str::FromStr for EntityUid {
    type Err = IdParseError;

    fn from_str(value: &str) -> (r: Result<Self, Self::Err>)
        ensures
            match r {
                Ok(u) => uid_parse_ok(value@, u@),
                Err(e) => uid_parse_err(value@, e),
            },
            forall|v: u128| v != 0 && #[trigger] uuid_text(v) == value@ ==> (r matches Ok(u) && u@ == v),
    {
        Self::parse_text(value)
    }
}

impl TryFrom<u128> for EntityUid {
    type Error = IdParseError;

    fn try_from(value: u128) -> Result<Self, Self::Error> {
        Self::from_uuid(value)
    }
}

impl vstd::std_specs::convert::TryFromSpecImpl<u128> for EntityUid {
    open spec fn obeys_try_from_spec() -> bool {
        true
    }

    closed spec fn try_from_spec(v: u128) -> Result<Self, IdParseError> {
        if v == 0 {
            Err(IdParseError::NilUuid)
        } else {
            Ok(EntityUid(v))
        }
    }
}

impl OrderedKey for EntityUid {
    open spec fn key_lt(a: u128, b: u128) -> bool {
        a < b
    }

    proof fn lemma_key_order(a: u128, b: u128, c: u128) {
    }

    fn precedes(&self, other: &Self) -> (r: bool) {
        self.0 < other.0
    }

    fn same_key(&self, other: &Self) -> (r: bool) {
        self.0 == other.0
    }

    fn copy_key(&self) -> (r: Self) {
        *self
    }
}

/// Permanent identity of one reusable definition or template.
#[derive(Clone, Copy, Debug, PartialEq, Eq, Structural, Ord, Hash)]
pub struct DefinitionUid(u128);

impl PartialOrd for DefinitionUid {
    fn partial_cmp(&self, other: &Self) -> (r: Option<Ordering>) {
        if self.0 < other.0 {
            Some(Ordering::Less)
        } else if self.0 == other.0 {
            Some(Ordering::Equal)
        } else {
            Some(Ordering::Greater)
        }
    }
}

impl vstd::std_specs::cmp::PartialOrdSpecImpl for DefinitionUid {
    open spec fn obeys_partial_cmp_spec() -> bool {
        true
    }

    /// Values are ordered as their views are.
    open spec fn partial_cmp_spec(&self, other: &Self) -> Option<Ordering> {
        if self@ < other@ {
            Some(Ordering::Less)
        } else if self@ == other@ {
            Some(Ordering::Equal)
        } else {
            Some(Ordering::Greater)
        }
    }
}

impl View for DefinitionUid {
    type V = u128;

    closed spec fn view(&self) -> u128 {
        self.0
    }
}

impl DefinitionUid {
    #[verifier::type_invariant]
    closed spec fn non_nil(self) -> bool {
        self.0 != 0
    }

    /// Generate a fresh UUIDv7-backed identity.
    pub fn new() -> (r: Self)
        ensures
            r@ != 0,
            (r@ >> 76u128) & 15u128 == 7u128,
    {
        let v = new_v7_value();
        proof {
            lemma_v7_non_nil(v);
        }
        DefinitionUid(v)
    }

    /// Construct from an externally supplied UUID value after validation.
    pub fn from_uuid(uuid: u128) -> (r: Result<Self, IdParseError>)
        ensures
            match r {
                Ok(u) => uuid != 0 && u@ == uuid,
                Err(e) => uuid == 0 && e is NilUuid,
            },
    {
        if uuid == 0 {
            Err(IdParseError::NilUuid)
        } else {
            Ok(DefinitionUid(uuid))
        }
    }

    pub fn as_uuid(&self) -> (r: u128)
        ensures
            r == self@,
            r != 0,
    {
        proof {
            use_type_invariant(self);
        }
        self.0
    }

    pub fn into_uuid(self) -> (r: u128)
        ensures
            r == self@,
            r != 0,
    {
        proof {
            use_type_invariant(&self);
        }
        self.0
    }

    /// The hyphenated lowercase text of this identity.
    pub fn to_string(&self) -> (r: String)
        ensures
            r@ == uuid_text(self@),
    {
        uuid_value_text(self.0)
    }

    /// Parse an identity from UUID text; the nil UUID is refused.
    pub fn parse_text(text: &str) -> (r: Result<Self, IdParseError>)
        ensures
            match r {
                Ok(u) => uid_parse_ok(text@, u@),
                Err(e) => uid_parse_err(text@, e),
            },
            forall|v: u128| v != 0 && #[trigger] uuid_text(v) == text@ ==> (r matches Ok(u) && u@ == v),
    {
        match parse_uuid_value(text) {
            Ok(v) => Self::from_uuid(v),
            Err(e) => Err(IdParseError::InvalidUuid(e)),
        }
    }
}

impl Default for DefinitionUid {
    fn default() -> (r: Self)
        ensures
            r@ != 0,
    {
        Self::new()
    }
}

impl std::str::FromStr for DefinitionUid {
    type Err = IdParseError;

    fn from_str(value: &str) -> (r: Result<Self, Self::Err>)
        ensures
            match r {
                Ok(u) => uid_parse_ok(value@, u@),
                Err(e) => uid_parse_err(value@, e),
            },
            forall|v: u128| v != 0 && #[trigger] uuid_text(v) == value@ ==> (r matches Ok(u) && u@ == v),
    {
        Self::parse_text(value)
    }
}

impl TryFrom<u128> for DefinitionUid {
    type Error = IdParseError;

    fn try_from(value: u128) -> Result<Self, Self::Error> {
        Self::from_uuid(value)
    }
}

impl vstd::std_specs::convert::TryFromSpecImpl<u128> for DefinitionUid {
    open spec fn obeys_try_from_spec() -> bool {
        true
    }

    closed spec fn try_from_spec(v: u128) -> Result<Self, IdParseError> {
        if v == 0 {
            Err(IdParseError::NilUuid)
        } else {
            Ok(DefinitionUid(v))
        }
    }
}

impl OrderedKey for DefinitionUid {
    open spec fn key_lt(a: u128, b: u128) -> bool {
        a < b
    }

    proof fn lemma_key_order(a: u128, b: u128, c: u128) {
    }

    fn precedes(&self, other: &Self) -> (r: bool) {
        self.0 < other.0
    }

    fn same_key(&self, other: &Self) -> (r: bool) {
        self.0 == other.0
    }

    fn copy_key(&self) -> (r: Self) {
        *self
    }
}

/// Permanent identity of one relationship record.
#[derive(Clone, Copy, Debug, PartialEq, Eq, Structural, Ord, Hash)]
pub struct RelationshipUid(u128);

impl PartialOrd for RelationshipUid {
    fn partial_cmp(&self, other: &Self) -> (r: Option<Ordering>) {
        if self.0 < other.0 {
            Some(Ordering::Less)
        } else if self.0 == other.0 {
            Some(Ordering::Equal)
        } else {
            Some(Ordering::Greater)
        }
    }
}

impl vstd::std_specs::cmp::PartialOrdSpecImpl for RelationshipUid {
    open spec fn obeys_partial_cmp_spec() -> bool {
        true
    }

    /// Values are ordered as their views are.
    open spec fn partial_cmp_spec(&self, other: &Self) -> Option<Ordering> {
        if self@ < other@ {
            Some(Ordering::Less)
        } else if self@ == other@ {
            Some(Ordering::Equal)
        } else {
            Some(Ordering::Greater)
        }
    }
}

impl View for RelationshipUid {
    type V = u128;

    closed spec fn view(&self) -> u128 {
        self.0
    }
}

impl RelationshipUid {
    #[verifier::type_invariant]
    closed spec fn non_nil(self) -> bool {
        self.0 != 0
    }

    /// Generate a fresh UUIDv7-backed identity.
    pub fn new() -> (r: Self)
        ensures
            r@ != 0,
            (r@ >> 76u128) & 15u128 == 7u128,
    {
        let v = new_v7_value();
        proof {
            lemma_v7_non_nil(v);
        }
        RelationshipUid(v)
    }

    /// Construct from an externally supplied UUID value after validation.
    pub fn from_uuid(uuid: u128) -> (r: Result<Self, IdParseError>)
        ensures
            match r {
                Ok(u) => uuid != 0 && u@ == uuid,
                Err(e) => uuid == 0 && e is NilUuid,
            },
    {
        if uuid == 0 {
            Err(IdParseError::NilUuid)
        } else {
            Ok(RelationshipUid(uuid))
        }
    }

    pub fn as_uuid(&self) -> (r: u128)
        ensures
            r == self@,
            r != 0,
    {
        proof {
            use_type_invariant(self);
        }
        self.0
    }

    pub fn into_uuid(self) -> (r: u128)
        ensures
            r == self@,
            r != 0,
    {
        proof {
            use_type_invariant(&self);
        }
        self.0
    }

    /// The hyphenated lowercase text of this identity.
    pub fn to_string(&self) -> (r: String)
        ensures
            r@ == uuid_text(self@),
    {
        uuid_value_text(self.0)
    }

    /// Parse an identity from UUID text; the nil UUID is refused.
    pub fn parse_text(text: &str) -> (r: Result<Self, IdParseError>)
        ensures
            match r {
                Ok(u) => uid_parse_ok(text@, u@),
                Err(e) => uid_parse_err(text@, e),
            },
            forall|v: u128| v != 0 && #[trigger] uuid_text(v) == text@ ==> (r matches Ok(u) && u@ == v),
    {
        match parse_uuid_value(text) {
            Ok(v) => Self::from_uuid(v),
            Err(e) => Err(IdParseError::InvalidUuid(e)),
        }
    }
}

impl Default for RelationshipUid {
    fn default() -> (r: Self)
        ensures
            r@ != 0,
    {
        Self::new()
    }
}

impl std::str::FromStr for RelationshipUid {
    type Err = IdParseError;

    fn from_str(value: &str) -> (r: Result<Self, Self::Err>)
        ensures
            match r {
                Ok(u) => uid_parse_ok(value@, u@),
                Err(e) => uid_parse_err(value@, e),
            },
            forall|v: u128| v != 0 && #[trigger] uuid_text(v) == value@ ==> (r matches Ok(u) && u@ == v),
    {
        Self::parse_text(value)
    }
}

impl TryFrom<u128> for RelationshipUid {
    type Error = IdParseError;

    fn try_from(value: u128) -> Result<Self, Self::Error> {
        Self::from_uuid(value)
    }
}

impl vstd::std_specs::convert::TryFromSpecImpl<u128> for RelationshipUid {
    open spec fn obeys_try_from_spec() -> bool {
        true
    }

    closed spec fn try_from_spec(v: u128) -> Result<Self, IdParseError> {
        if v == 0 {
            Err(IdParseError::NilUuid)
        } else {
            Ok(RelationshipUid(v))
        }
    }
}

impl OrderedKey for RelationshipUid {
    open spec fn key_lt(a: u128, b: u128) -> bool {
        a < b
    }

    proof fn lemma_key_order(a: u128, b: u128, c: u128) {
    }

    fn precedes(&self, other: &Self) -> (r: bool) {
        self.0 < other.0
    }

    fn same_key(&self, other: &Self) -> (r: bool) {
        self.0 == other.0
    }

    fn copy_key(&self) -> (r: Self) {
        *self
    }
}

/// Permanent identity of one event record.
#[derive(Clone, Copy, Debug, PartialEq, Eq, Structural, Ord, Hash)]
pub struct EventUid(u128);

impl PartialOrd for EventUid {
    fn partial_cmp(&self, other: &Self) -> (r: Option<Ordering>) {
        if self.0 < other.0 {
            Some(Ordering::Less)
        } else if self.0 == other.0 {
            Some(Ordering::Equal)
        } else {
            Some(Ordering::Greater)
        }
    }
}

impl vstd::std_specs::cmp::PartialOrdSpecImpl for EventUid {
    open spec fn obeys_partial_cmp_spec() -> bool {
        true
    }

    /// Values are ordered as their views are.
    open spec fn partial_cmp_spec(&self, other: &Self) -> Option<Ordering> {
        if self@ < other@ {
            Some(Ordering::Less)
        } else if self@ == other@ {
            Some(Ordering::Equal)
        } else {
            Some(Ordering::Greater)
        }
    }
}

impl View for EventUid {
    type V = u128;

    closed spec fn view(&self) -> u128 {
        self.0
    }
}

impl EventUid {
    #[verifier::type_invariant]
    closed spec fn non_nil(self) -> bool {
        self.0 != 0
    }

    /// Generate a fresh UUIDv7-backed identity.
    pub fn new() -> (r: Self)
        ensures
            r@ != 0,
            (r@ >> 76u128) & 15u128 == 7u128,
    {
        let v = new_v7_value();
        proof {
            lemma_v7_non_nil(v);
        }
        EventUid(v)
    }

    /// Construct from an externally supplied UUID value after validation.
    pub fn from_uuid(uuid: u128) -> (r: Result<Self, IdParseError>)
        ensures
            match r {
                Ok(u) => uuid != 0 && u@ == uuid,
                Err(e) => uuid == 0 && e is NilUuid,
            },
    {
        if uuid == 0 {
            Err(IdParseError::NilUuid)
        } else {
            Ok(EventUid(uuid))
        }
    }

    pub fn as_uuid(&self) -> (r: u128)
        ensures
            r == self@,
            r != 0,
    {
        proof {
            use_type_invariant(self);
        }
        self.0
    }

    pub fn into_uuid(self) -> (r: u128)
        ensures
            r == self@,
            r != 0,
    {
        proof {
            use_type_invariant(&self);
        }
        self.0
    }

    /// The hyphenated lowercase text of this identity.
    pub fn to_string(&self) -> (r: String)
        ensures
            r@ == uuid_text(self@),
    {
        uuid_value_text(self.0)
    }

    /// Parse an identity from UUID text; the nil UUID is refused.
    pub fn parse_text(text: &str) -> (r: Result<Self, IdParseError>)
        ensures
            match r {
                Ok(u) => uid_parse_ok(text@, u@),
                Err(e) => uid_parse_err(text@, e),
            },
            forall|v: u128| v != 0 && #[trigger] uuid_text(v) == text@ ==> (r matches Ok(u) && u@ == v),
    {
        match parse_uuid_value(text) {
            Ok(v) => Self::from_uuid(v),
            Err(e) => Err(IdParseError::InvalidUuid(e)),
        }
    }
}

impl Default for EventUid {
    fn default() -> (r: Self)
        ensures
            r@ != 0,
    {
        Self::new()
    }
}

impl std::str::FromStr for EventUid {
    type Err = IdParseError;

    fn from_str(value: &str) -> (r: Result<Self, Self::Err>)
        ensures
            match r {
                Ok(u) => uid_parse_ok(value@, u@),
                Err(e) => uid_parse_err(value@, e),
            },
            forall|v: u128| v != 0 && #[trigger] uuid_text(v) == value@ ==> (r matches Ok(u) && u@ == v),
    {
        Self::parse_text(value)
    }
}

impl TryFrom<u128> for EventUid {
    type Error = IdParseError;

    fn try_from(value: u128) -> Result<Self, Self::Error> {
        Self::from_uuid(value)
    }
}

impl vstd::std_specs::convert::TryFromSpecImpl<u128> for EventUid {
    open spec fn obeys_try_from_spec() -> bool {
        true
    }

    closed spec fn try_from_spec(v: u128) -> Result<Self, IdParseError> {
        if v == 0 {
            Err(IdParseError::NilUuid)
        } else {
            Ok(EventUid(v))
        }
    }
}

impl OrderedKey for EventUid {
    open spec fn key_lt(a: u128, b: u128) -> bool {
        a < b
    }

    proof fn lemma_key_order(a: u128, b: u128, c: u128) {
    }

    fn precedes(&self, other: &Self) -> (r: bool) {
        self.0 < other.0
    }

    fn same_key(&self, other: &Self) -> (r: bool) {
        self.0 == other.0
    }

    fn copy_key(&self) -> (r: Self) {
        *self
    }
}

/// Permanent identity of one cross-event occurrence/correlation group.
#[derive(Clone, Copy, Debug, PartialEq, Eq, Structural, Ord, Hash)]
pub struct CorrelationUid(u128);

impl PartialOrd for CorrelationUid {
    fn partial_cmp(&self, other: &Self) -> (r: Option<Ordering>) {
        if self.0 < other.0 {
            Some(Ordering::Less)
        } else if self.0 == other.0 {
            Some(Ordering::Equal)
        } else {
            Some(Ordering::Greater)
        }
    }
}

impl vstd::std_specs::cmp::PartialOrdSpecImpl for CorrelationUid {
    open spec fn obeys_partial_cmp_spec() -> bool {
        true
    }

    /// Values are ordered as their views are.
    open spec fn partial_cmp_spec(&self, other: &Self) -> Option<Ordering> {
        if self@ < other@ {
            Some(Ordering::Less)
        } else if self@ == other@ {
            Some(Ordering::Equal)
        } else {
            Some(Ordering::Greater)
        }
    }
}

impl View for CorrelationUid {
    type V = u128;

    closed spec fn view(&self) -> u128 {
        self.0
    }
}

impl CorrelationUid {
    #[verifier::type_invariant]
    closed spec fn non_nil(self) -> bool {
        self.0 != 0
    }

    /// Generate a fresh UUIDv7-backed identity.
    pub fn new() -> (r: Self)
        ensures
            r@ != 0,
            (r@ >> 76u128) & 15u128 == 7u128,
    {
        let v = new_v7_value();
        proof {
            lemma_v7_non_nil(v);
        }
        CorrelationUid(v)
    }

    /// Construct from an externally supplied UUID value after validation.
    pub fn from_uuid(uuid: u128) -> (r: Result<Self, IdParseError>)
        ensures
            match r {
                Ok(u) => uuid != 0 && u@ == uuid,
                Err(e) => uuid == 0 && e is NilUuid,
            },
    {
        if uuid == 0 {
            Err(IdParseError::NilUuid)
        } else {
            Ok(CorrelationUid(uuid))
        }
    }

    pub fn as_uuid(&self) -> (r: u128)
        ensures
            r == self@,
            r != 0,
    {
        proof {
            use_type_invariant(self);
        }
        self.0
    }

    pub fn into_uuid(self) -> (r: u128)
        ensures
            r == self@,
            r != 0,
    {
        proof {
            use_type_invariant(&self);
        }
        self.0
    }

    /// The hyphenated lowercase text of this identity.
    pub fn to_string(&self) -> (r: String)
        ensures
            r@ == uuid_text(self@),
    {
        uuid_value_text(self.0)
    }

    /// Parse an identity from UUID text; the nil UUID is refused.
    pub fn parse_text(text: &str) -> (r: Result<Self, IdParseError>)
        ensures
            match r {
                Ok(u) => uid_parse_ok(text@, u@),
                Err(e) => uid_parse_err(text@, e),
            },
            forall|v: u128| v != 0 && #[trigger] uuid_text(v) == text@ ==> (r matches Ok(u) && u@ == v),
    {
        match parse_uuid_value(text) {
            Ok(v) => Self::from_uuid(v),
            Err(e) => Err(IdParseError::InvalidUuid(e)),
        }
    }
}

impl Default for CorrelationUid {
    fn default() -> (r: Self)
        ensures
            r@ != 0,
    {
        Self::new()
    }
}

impl std::str::FromStr for CorrelationUid {
    type Err = IdParseError;

    fn from_str(value: &str) -> (r: Result<Self, Self::Err>)
        ensures
            match r {
                Ok(u) => uid_parse_ok(value@, u@),
                Err(e) => uid_parse_err(value@, e),
            },
            forall|v: u128| v != 0 && #[trigger] uuid_text(v) == value@ ==> (r matches Ok(u) && u@ == v),
    {
        Self::parse_text(value)
    }
}

impl TryFrom<u128> for CorrelationUid {
    type Error = IdParseError;

    fn try_from(value: u128) -> Result<Self, Self::Error> {
        Self::from_uuid(value)
    }
}

impl vstd::std_specs::convert::TryFromSpecImpl<u128> for CorrelationUid {
    open spec fn obeys_try_from_spec() -> bool {
        true
    }

    closed spec fn try_from_spec(v: u128) -> Result<Self, IdParseError> {
        if v == 0 {
            Err(IdParseError::NilUuid)
        } else {
            Ok(CorrelationUid(v))
        }
    }
}

/// Permanent identity of one package.
#[derive(Clone, Copy, Debug, PartialEq, Eq, Structural, Ord, Hash)]
pub struct PackageUid(u128);

impl PartialOrd for PackageUid {
    fn partial_cmp(&self, other: &Self) -> (r: Option<Ordering>) {
        if self.0 < other.0 {
            Some(Ordering::Less)
        } else if self.0 == other.0 {
            Some(Ordering::Equal)
        } else {
            Some(Ordering::Greater)
        }
    }
}

impl vstd::std_specs::cmp::PartialOrdSpecImpl for PackageUid {
    open spec fn obeys_partial_cmp_spec() -> bool {
        true
    }

    /// Values are ordered as their views are.
    open spec fn partial_cmp_spec(&self, other: &Self) -> Option<Ordering> {
        if self@ < other@ {
            Some(Ordering::Less)
        } else if self@ == other@ {
            Some(Ordering::Equal)
        } else {
            Some(Ordering::Greater)
        }
    }
}

impl View for PackageUid {
    type V = u128;

    closed spec fn view(&self) -> u128 {
        self.0
    }
}

impl PackageUid {
    #[verifier::type_invariant]
    closed spec fn non_nil(self) -> bool {
        self.0 != 0
    }

    /// Generate a fresh UUIDv7-backed identity.
    pub fn new() -> (r: Self)
        ensures
            r@ != 0,
            (r@ >> 76u128) & 15u128 == 7u128,
    {
        let v = new_v7_value();
        proof {
            lemma_v7_non_nil(v);
        }
        PackageUid(v)
    }

    /// Construct from an externally supplied UUID value after validation.
    pub fn from_uuid(uuid: u128) -> (r: Result<Self, IdParseError>)
        ensures
            match r {
                Ok(u) => uuid != 0 && u@ == uuid,
                Err(e) => uuid == 0 && e is NilUuid,
            },
    {
        if uuid == 0 {
            Err(IdParseError::NilUuid)
        } else {
            Ok(PackageUid(uuid))
        }
    }

    pub fn as_uuid(&self) -> (r: u128)
        ensures
            r == self@,
            r != 0,
    {
        proof {
            use_type_invariant(self);
        }
        self.0
    }

    pub fn into_uuid(self) -> (r: u128)
        ensures
            r == self@,
            r != 0,
    {
        proof {
            use_type_invariant(&self);
        }
        self.0
    }

    /// The hyphenated lowercase text of this identity.
    pub fn to_string(&self) -> (r: String)
        ensures
            r@ == uuid_text(self@),
    {
        uuid_value_text(self.0)
    }

    /// Parse an identity from UUID text; the nil UUID is refused.
    pub fn parse_text(text: &str) -> (r: Result<Self, IdParseError>)
        ensures
            match r {
                Ok(u) => uid_parse_ok(text@, u@),
                Err(e) => uid_parse_err(text@, e),
            },
            forall|v: u128| v != 0 && #[trigger] uuid_text(v) == text@ ==> (r matches Ok(u) && u@ == v),
    {
        match parse_uuid_value(text) {
            Ok(v) => Self::from_uuid(v),
            Err(e) => Err(IdParseError::InvalidUuid(e)),
        }
    }
}

impl Default for PackageUid {
    fn default() -> (r: Self)
        ensures
            r@ != 0,
    {
        Self::new()
    }
}

impl std::str::FromStr for PackageUid {
    type Err = IdParseError;

    fn from_str(value: &str) -> (r: Result<Self, Self::Err>)
        ensures
            match r {
                Ok(u) => uid_parse_ok(value@, u@),
                Err(e) => uid_parse_err(value@, e),
            },
            forall|v: u128| v != 0 && #[trigger] uuid_text(v) == value@ ==> (r matches Ok(u) && u@ == v),
    {
        Self::parse_text(value)
    }
}

impl TryFrom<u128> for PackageUid {
    type Error = IdParseError;

    fn try_from(value: u128) -> Result<Self, Self::Error> {
        Self::from_uuid(value)
    }
}

impl vstd::std_specs::convert::TryFromSpecImpl<u128> for PackageUid {
    open spec fn obeys_try_from_spec() -> bool {
        true
    }

    closed spec fn try_from_spec(v: u128) -> Result<Self, IdParseError> {
        if v == 0 {
            Err(IdParseError::NilUuid)
        } else {
            Ok(PackageUid(v))
        }
    }
}

/// Permanent identity of one registered source/provenance record.
#[derive(Clone, Copy, Debug, PartialEq, Eq, Structural, Ord, Hash)]
pub struct SourceUid(u128);

impl PartialOrd for SourceUid {
    fn partial_cmp(&self, other: &Self) -> (r: Option<Ordering>) {
        if self.0 < other.0 {
            Some(Ordering::Less)
        } else if self.0 == other.0 {
            Some(Ordering::Equal)
        } else {
            Some(Ordering::Greater)
        }
    }
}

impl vstd::std_specs::cmp::PartialOrdSpecImpl for SourceUid {
    open spec fn obeys_partial_cmp_spec() -> bool {
        true
    }

    /// Values are ordered as their views are.
    open spec fn partial_cmp_spec(&self, other: &Self) -> Option<Ordering> {
        if self@ < other@ {
            Some(Ordering::Less)
        } else if self@ == other@ {
            Some(Ordering::Equal)
        } else {
            Some(Ordering::Greater)
        }
    }
}

impl View for SourceUid {
    type V = u128;

    closed spec fn view(&self) -> u128 {
        self.0
    }
}

impl SourceUid {
    #[verifier::type_invariant]
    closed spec fn non_nil(self) -> bool {
        self.0 != 0
    }

    /// Generate a fresh UUIDv7-backed identity.
    pub fn new() -> (r: Self)
        ensures
            r@ != 0,
            (r@ >> 76u128) & 15u128 == 7u128,
    {
        let v = new_v7_value();
        proof {
            lemma_v7_non_nil(v);
        }
        SourceUid(v)
    }

    /// Construct from an externally supplied UUID value after validation.
    pub fn from_uuid(uuid: u128) -> (r: Result<Self, IdParseError>)
        ensures
            match r {
                Ok(u) => uuid != 0 && u@ == uuid,
                Err(e) => uuid == 0 && e is NilUuid,
            },
    {
        if uuid == 0 {
            Err(IdParseError::NilUuid)
        } else {
            Ok(SourceUid(uuid))
        }
    }

    pub fn as_uuid(&self) -> (r: u128)
        ensures
            r == self@,
            r != 0,
    {
        proof {
            use_type_invariant(self);
        }
        self.0
    }

    pub fn into_uuid(self) -> (r: u128)
        ensures
            r == self@,
            r != 0,
    {
        proof {
            use_type_invariant(&self);
        }
        self.0
    }

    /// The hyphenated lowercase text of this identity.
    pub fn to_string(&self) -> (r: String)
        ensures
            r@ == uuid_text(self@),
    {
        uuid_value_text(self.0)
    }

    /// Parse an identity from UUID text; the nil UUID is refused.
    pub fn parse_text(text: &str) -> (r: Result<Self, IdParseError>)
        ensures
            match r {
                Ok(u) => uid_parse_ok(text@, u@),
                Err(e) => uid_parse_err(text@, e),
            },
            forall|v: u128| v != 0 && #[trigger] uuid_text(v) == text@ ==> (r matches Ok(u) && u@ == v),
    {
        match parse_uuid_value(text) {
            Ok(v) => Self::from_uuid(v),
            Err(e) => Err(IdParseError::InvalidUuid(e)),
        }
    }
}

impl Default for SourceUid {
    fn default() -> (r: Self)
        ensures
            r@ != 0,
    {
        Self::new()
    }
}

impl std::str::FromStr for SourceUid {
    type Err = IdParseError;

    fn from_str(value: &str) -> (r: Result<Self, Self::Err>)
        ensures
            match r {
                Ok(u) => uid_parse_ok(value@, u@),
                Err(e) => uid_parse_err(value@, e),
            },
            forall|v: u128| v != 0 && #[trigger] uuid_text(v) == value@ ==> (r matches Ok(u) && u@ == v),
    {
        Self::parse_text(value)
    }
}

impl TryFrom<u128> for SourceUid {
    type Error = IdParseError;

    fn try_from(value: u128) -> Result<Self, Self::Error> {
        Self::from_uuid(value)
    }
}

impl vstd::std_specs::convert::TryFromSpecImpl<u128> for SourceUid {
    open spec fn obeys_try_from_spec() -> bool {
        true
    }

    closed spec fn try_from_spec(v: u128) -> Result<Self, IdParseError> {
        if v == 0 {
            Err(IdParseError::NilUuid)
        } else {
            Ok(SourceUid(v))
        }
    }
}

/// Permanent identity of one saved state snapshot.
#[derive(Clone, Copy, Debug, PartialEq, Eq, Structural, Ord, Hash)]
pub struct SnapshotUid(u128);

impl PartialOrd for SnapshotUid {
    fn partial_cmp(&self, other: &Self) -> (r: Option<Ordering>) {
        if self.0 < other.0 {
            Some(Ordering::Less)
        } else if self.0 == other.0 {
            Some(Ordering::Equal)
        } else {
            Some(Ordering::Greater)
        }
    }
}

impl vstd::std_specs::cmp::PartialOrdSpecImpl for SnapshotUid {
    open spec fn obeys_partial_cmp_spec() -> bool {
        true
    }

    /// Values are ordered as their views are.
    open spec fn partial_cmp_spec(&self, other: &Self) -> Option<Ordering> {
        if self@ < other@ {
            Some(Ordering::Less)
        } else if self@ == other@ {
            Some(Ordering::Equal)
        } else {
            Some(Ordering::Greater)
        }
    }
}

impl View for SnapshotUid {
    type V = u128;

    closed spec fn view(&self) -> u128 {
        self.0
    }
}

impl SnapshotUid {
    #[verifier::type_invariant]
    closed spec fn non_nil(self) -> bool {
        self.0 != 0
    }

    /// Generate a fresh UUIDv7-backed identity.
    pub fn new() -> (r: Self)
        ensures
            r@ != 0,
            (r@ >> 76u128) & 15u128 == 7u128,
    {
        let v = new_v7_value();
        proof {
            lemma_v7_non_nil(v);
        }
        SnapshotUid(v)
    }

    /// Construct from an externally supplied UUID value after validation.
    pub fn from_uuid(uuid: u128) -> (r: Result<Self, IdParseError>)
        ensures
            match r {
                Ok(u) => uuid != 0 && u@ == uuid,
                Err(e) => uuid == 0 && e is NilUuid,
            },
    {
        if uuid == 0 {
            Err(IdParseError::NilUuid)
        } else {
            Ok(SnapshotUid(uuid))
        }
    }

    pub fn as_uuid(&self) -> (r: u128)
        ensures
            r == self@,
            r != 0,
    {
        proof {
            use_type_invariant(self);
        }
        self.0
    }

    pub fn into_uuid(self) -> (r: u128)
        ensures
            r == self@,
            r != 0,
    {
        proof {
            use_type_invariant(&self);
        }
        self.0
    }

    /// The hyphenated lowercase text of this identity.
    pub fn to_string(&self) -> (r: String)
        ensures
            r@ == uuid_text(self@),
    {
        uuid_value_text(self.0)
    }

    /// Parse an identity from UUID text; the nil UUID is refused.
    pub fn parse_text(text: &str) -> (r: Result<Self, IdParseError>)
        ensures
            match r {
                Ok(u) => uid_parse_ok(text@, u@),
                Err(e) => uid_parse_err(text@, e),
            },
            forall|v: u128| v != 0 && #[trigger] uuid_text(v) == text@ ==> (r matches Ok(u) && u@ == v),
    {
        match parse_uuid_value(text) {
            Ok(v) => Self::from_uuid(v),
            Err(e) => Err(IdParseError::InvalidUuid(e)),
        }
    }
}

impl Default for SnapshotUid {
    fn default() -> (r: Self)
        ensures
            r@ != 0,
    {
        Self::new()
    }
}

impl std::str::FromStr for SnapshotUid {
    type Err = IdParseError;

    fn from_str(value: &str) -> (r: Result<Self, Self::Err>)
        ensures
            match r {
                Ok(u) => uid_parse_ok(value@, u@),
                Err(e) => uid_parse_err(value@, e),
            },
            forall|v: u128| v != 0 && #[trigger] uuid_text(v) == value@ ==> (r matches Ok(u) && u@ == v),
    {
        Self::parse_text(value)
    }
}

impl TryFrom<u128> for SnapshotUid {
    type Error = IdParseError;

    fn try_from(value: u128) -> Result<Self, Self::Error> {
        Self::from_uuid(value)
    }
}

impl vstd::std_specs::convert::TryFromSpecImpl<u128> for SnapshotUid {
    open spec fn obeys_try_from_spec() -> bool {
        true
    }

    closed spec fn try_from_spec(v: u128) -> Result<Self, IdParseError> {
        if v == 0 {
            Err(IdParseError::NilUuid)
        } else {
            Ok(SnapshotUid(v))
        }
    }
}

/// Permanent identity of one event-history branch.
#[derive(Clone, Copy, Debug, PartialEq, Eq, Structural, Ord, Hash)]
pub struct BranchUid(u128);

impl PartialOrd for BranchUid {
    fn partial_cmp(&self, other: &Self) -> (r: Option<Ordering>) {
        if self.0 < other.0 {
            Some(Ordering::Less)
        } else if self.0 == other.0 {
            Some(Ordering::Equal)
        } else {
            Some(Ordering::Greater)
        }
    }
}

impl vstd::std_specs::cmp::PartialOrdSpecImpl for BranchUid {
    open spec fn obeys_partial_cmp_spec() -> bool {
        true
    }

    /// Values are ordered as their views are.
    open spec fn partial_cmp_spec(&self, other: &Self) -> Option<Ordering> {
        if self@ < other@ {
            Some(Ordering::Less)
        } else if self@ == other@ {
            Some(Ordering::Equal)
        } else {
            Some(Ordering::Greater)
        }
    }
}

impl View for BranchUid {
    type V = u128;

    closed spec fn view(&self) -> u128 {
        self.0
    }
}

impl BranchUid {
    #[verifier::type_invariant]
    closed spec fn non_nil(self) -> bool {
        self.0 != 0
    }

    /// Generate a fresh UUIDv7-backed identity.
    pub fn new() -> (r: Self)
        ensures
            r@ != 0,
            (r@ >> 76u128) & 15u128 == 7u128,
    {
        let v = new_v7_value();
        proof {
            lemma_v7_non_nil(v);
        }
        BranchUid(v)
    }

    /// Construct from an externally supplied UUID value after validation.
    pub fn from_uuid(uuid: u128) -> (r: Result<Self, IdParseError>)
        ensures
            match r {
                Ok(u) => uuid != 0 && u@ == uuid,
                Err(e) => uuid == 0 && e is NilUuid,
            },
    {
        if uuid == 0 {
            Err(IdParseError::NilUuid)
        } else {
            Ok(BranchUid(uuid))
        }
    }

    pub fn as_uuid(&self) -> (r: u128)
        ensures
            r == self@,
            r != 0,
    {
        proof {
            use_type_invariant(self);
        }
        self.0
    }

    pub fn into_uuid(self) -> (r: u128)
        ensures
            r == self@,
            r != 0,
    {
        proof {
            use_type_invariant(&self);
        }
        self.0
    }

    /// The hyphenated lowercase text of this identity.
    pub fn to_string(&self) -> (r: String)
        ensures
            r@ == uuid_text(self@),
    {
        uuid_value_text(self.0)
    }

    /// Parse an identity from UUID text; the nil UUID is refused.
    pub fn parse_text(text: &str) -> (r: Result<Self, IdParseError>)
        ensures
            match r {
                Ok(u) => uid_parse_ok(text@, u@),
                Err(e) => uid_parse_err(text@, e),
            },
            forall|v: u128| v != 0 && #[trigger] uuid_text(v) == text@ ==> (r matches Ok(u) && u@ == v),
    {
        match parse_uuid_value(text) {
            Ok(v) => Self::from_uuid(v),
            Err(e) => Err(IdParseError::InvalidUuid(e)),
        }
    }
}

impl Default for BranchUid {
    fn default() -> (r: Self)
        ensures
            r@ != 0,
    {
        Self::new()
    }
}

impl std::str::FromStr for BranchUid {
    type Err = IdParseError;

    fn from_str(value: &str) -> (r: Result<Self, Self::Err>)
        ensures
            match r {
                Ok(u) => uid_parse_ok(value@, u@),
                Err(e) => uid_parse_err(value@, e),
            },
            forall|v: u128| v != 0 && #[trigger] uuid_text(v) == value@ ==> (r matches Ok(u) && u@ == v),
    {
        Self::parse_text(value)
    }
}

impl TryFrom<u128> for BranchUid {
    type Error = IdParseError;

    fn try_from(value: u128) -> Result<Self, Self::Error> {
        Self::from_uuid(value)
    }
}

impl vstd::std_specs::convert::TryFromSpecImpl<u128> for BranchUid {
    open spec fn obeys_try_from_spec() -> bool {
        true
    }

    closed spec fn try_from_spec(v: u128) -> Result<Self, IdParseError> {
        if v == 0 {
            Err(IdParseError::NilUuid)
        } else {
            Ok(BranchUid(v))
        }
    }
}

} // verus!
