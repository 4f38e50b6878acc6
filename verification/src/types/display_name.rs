//! Presentation text for entities and definitions.
use crate::text::{int_text, usize_text, char_debug, char_debug_text, join};
use vstd::prelude::*;
use vstd::string::*;
use vstd::std_specs::cmp::PartialEqSpecImpl;

verus! {

/// Largest permitted display name, in characters.
pub const MAX_DISPLAY_NAME_CHARS: usize = 200;

/// Unicode `White_Space`, the class `char::is_whitespace` tests.
pub open spec fn is_whitespace(c: char) -> bool {
    let x = c as int;
    (9 <= x <= 13) || x == 32 || x == 0x85 || x == 0xA0 || x == 0x1680 || (0x2000 <= x <= 0x200A)
        || x == 0x2028 || x == 0x2029 || x == 0x202F || x == 0x205F || x == 0x3000
}

/// Unicode general category `Cc`, the class `char::is_control` tests.
pub open spec fn is_control(c: char) -> bool {
    let x = c as int;
    (0 <= x <= 0x1F) || (0x7F <= x <= 0x9F)
}

pub fn char_is_whitespace(c: char) -> (r: bool)
    ensures
        r == is_whitespace(c),
{
    let x = c as u32;
    (9 <= x && x <= 13) || x == 32 || x == 0x85 || x == 0xA0 || x == 0x1680 || (0x2000 <= x && x
        <= 0x200A) || x == 0x2028 || x == 0x2029 || x == 0x202F || x == 0x205F || x == 0x3000
}

pub fn char_is_control(c: char) -> (r: bool)
    ensures
        r == is_control(c),
{
    let x = c as u32;
    x <= 0x1F || (0x7F <= x && x <= 0x9F)
}

#[derive(Debug, Clone, Copy, PartialEq, Eq, Structural)]
pub enum DisplayNameError {
    Empty,
    TooLong { actual: usize, maximum: usize },
    LeadingOrTrailingWhitespace,
    ControlCharacter { index: usize, character: char },
}

/// The first control character at a position `>= p`.
pub open spec fn first_control(s: Seq<char>, p: int) -> Option<int>
    decreases s.len() - p,
{
    if p < 0 || p >= s.len() {
        None
    } else if is_control(s[p]) {
        Some(p)
    } else {
        first_control(s, p + 1)
    }
}

/// The outcome of checking a candidate display name: empty or blank names,
/// then names with surrounding whitespace, then over-long names, then names
/// holding a control character are refused, in that order.
pub open spec fn display_name_check(s: Seq<char>) -> Result<(), DisplayNameError> {
    if forall|i: int| 0 <= i < s.len() ==> is_whitespace(#[trigger] s[i]) {
        Err(DisplayNameError::Empty)
    } else if is_whitespace(s[0]) || is_whitespace(s.last()) {
        Err(DisplayNameError::LeadingOrTrailingWhitespace)
    } else if s.len() > MAX_DISPLAY_NAME_CHARS {
        Err(DisplayNameError::TooLong { actual: s.len() as usize, maximum: MAX_DISPLAY_NAME_CHARS })
    } else {
        match first_control(s, 0) {
            Some(i) => Err(DisplayNameError::ControlCharacter { index: i as usize, character: s[i] }),
            None => Ok(()),
        }
    }
}

/// The text that describes a display-name error.
pub open spec fn display_name_error_text(e: DisplayNameError) -> Seq<char> {
    match e {
        DisplayNameError::Empty => "display name cannot be empty"@,
        DisplayNameError::TooLong { actual, maximum } => "display name is "@ + int_text(
            actual as int,
        ) + " characters long; maximum is "@ + int_text(maximum as int),
        DisplayNameError::LeadingOrTrailingWhitespace =>
            "display name cannot begin or end with whitespace"@,
        DisplayNameError::ControlCharacter { index, character } =>
            "display name contains control character "@ + char_debug_text(character)
            + " at position "@ + int_text(index as int),
    }
}

impl DisplayNameError {
    pub fn message(&self) -> (r: String)
        ensures
            r@ == display_name_error_text(*self),
    {
        match *self {
            DisplayNameError::Empty => String::from_str("display name cannot be empty"),
            DisplayNameError::TooLong { actual, maximum } => {
                let m = join(String::from_str("display name is "), usize_text(actual).as_str());
                let m = join(m, " characters long; maximum is ");
                join(m, usize_text(maximum).as_str())
            },
            DisplayNameError::LeadingOrTrailingWhitespace => String::from_str(
                "display name cannot begin or end with whitespace",
            ),
            DisplayNameError::ControlCharacter { index, character } => {
                let m = join(
                    String::from_str("display name contains control character "),
                    char_debug(character).as_str(),
                );
                let m = join(m, " at position ");
                join(m, usize_text(index).as_str())
            },
        }
    }
}

#[derive(Debug, Hash)]
pub struct DisplayName(String);

impl View for DisplayName {
    type V = Seq<char>;

    closed spec fn view(&self) -> Seq<char> {
        self.0@
    }
}

impl Clone for DisplayName {
    fn clone(&self) -> (r: Self)
        ensures
            r == *self,
    {
        proof {
            use_type_invariant(self);
        }
        DisplayName(self.0.clone())
    }
}

impl PartialEq for DisplayName {
    fn eq(&self, other: &Self) -> (r: bool) {
        self.0 == other.0
    }
}

impl PartialEqSpecImpl for DisplayName {
    open spec fn obeys_eq_spec() -> bool {
        true
    }

    open spec fn eq_spec(&self, other: &Self) -> bool {
        self@ == other@
    }
}

impl Eq for DisplayName {
}

impl DisplayName {
    #[verifier::type_invariant]
    closed spec fn checked(self) -> bool {
        display_name_check(self.0@) is Ok
    }

    /// Every display name obeys the display-name rules.
    pub fn lemma_valid(&self)
        ensures
            display_name_check(self@) is Ok,
    {
        proof {
            use_type_invariant(self);
        }
    }

    pub fn new(value: &str) -> (r: Result<DisplayName, DisplayNameError>)
        ensures
            match r {
                Ok(d) => d@ == value@ && display_name_check(value@) is Ok,
                Err(e) => display_name_check(value@) == Err::<(), DisplayNameError>(e),
            },
    {
        let ghost s = value@;
        let n = value.unicode_len();
        // blank: every character is whitespace
        let mut i: usize = 0;
        while i < n && char_is_whitespace(value.get_char(i))
            invariant
                n == s.len(),
                s == value@,
                i <= n,
                forall|j: int| 0 <= j < i ==> is_whitespace(#[trigger] s[j]),
            decreases n - i,
        {
            i = i + 1;
        }
        if i == n {
            return Err(DisplayNameError::Empty);
        }
        assert(!is_whitespace(s[i as int]));
        if char_is_whitespace(value.get_char(0)) || char_is_whitespace(value.get_char(n - 1)) {
            return Err(DisplayNameError::LeadingOrTrailingWhitespace);
        }
        if n > MAX_DISPLAY_NAME_CHARS {
            return Err(DisplayNameError::TooLong { actual: n, maximum: MAX_DISPLAY_NAME_CHARS });
        }
        let mut k: usize = 0;
        while k < n
            invariant
                n == s.len(),
                s == value@,
                k <= n,
                first_control(s, 0) == first_control(s, k as int),
                i < n,
                !is_whitespace(s[i as int]),
                !is_whitespace(s[0]),
                !is_whitespace(s.last()),
                n <= MAX_DISPLAY_NAME_CHARS,
            decreases n - k,
        {
            let c = value.get_char(k);
            if char_is_control(c) {
                assert(first_control(s, k as int) == Some(k as int));
                return Err(DisplayNameError::ControlCharacter { index: k, character: c });
            }
            k = k + 1;
        }
        Ok(DisplayName(value.to_owned()))
    }

    pub fn as_str(&self) -> (s: &str)
        ensures
            s@ == self@,
    {
        self.0.as_str()
    }

    pub fn into_string(self) -> (s: String)
        ensures
            s@ == self@,
    {
        self.0
    }
}

} // verus!
