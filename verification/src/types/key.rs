//! Stable human-readable authored references.
use crate::ordered_map::OrderedKey;
use crate::text::{seq_lt, str_eq, str_lt, lemma_seq_lt_order, int_text, usize_text, char_text, join};
use crate::ordered_map::OrderedMap;
use vstd::prelude::*;
use vstd::string::*;
use vstd::std_specs::cmp::PartialEqSpecImpl;

verus! {

/// Largest permitted key, in UTF-8 bytes.
pub const MAX_KEY_BYTES: usize = 255;

/// Lowercase ASCII letter or ASCII digit: the characters a segment may begin with.
pub open spec fn is_key_start(c: char) -> bool {
    (97 <= (c as int) <= 122) || (48 <= (c as int) <= 57)
}

/// Characters allowed after the first character of a segment.
pub open spec fn is_key_char(c: char) -> bool {
    is_key_start(c) || (c as int) == 95 || (c as int) == 45
}

pub open spec fn is_dot(c: char) -> bool {
    (c as int) == 46
}

/// Number of `.` among the first `p` characters: the index of the segment at `p`.
pub open spec fn dots_before(s: Seq<char>, p: int) -> nat
    decreases p,
{
    if p <= 0 {
        0
    } else if is_dot(s[p - 1]) {
        dots_before(s, p - 1) + 1
    } else {
        dots_before(s, p - 1)
    }
}

/// Position where the segment containing position `p` begins.
pub open spec fn segment_begin(s: Seq<char>, p: int) -> int
    decreases p,
{
    if p <= 0 {
        0
    } else if is_dot(s[p - 1]) {
        p
    } else {
        segment_begin(s, p - 1)
    }
}

#[derive(Debug, Clone, Copy, PartialEq, Eq, Structural)]
pub enum KeyError {
    Empty,
    TooLong { actual: usize, maximum: usize },
    EmptySegment { segment: usize },
    InvalidSegmentStart { segment: usize, character: char },
    InvalidCharacter { segment: usize, character_index: usize, character: char },
}

/// The defect found at position `p` (`0 <= p <= s.len()`) of a non-empty
/// candidate key when its segments are checked left to right: an empty
/// segment is reported where it ends, a bad character where it stands.
pub open spec fn key_error_at(s: Seq<char>, p: int) -> Option<KeyError> {
    let seg = dots_before(s, p);
    if p == s.len() {
        if p == 0 || is_dot(s[p - 1]) {
            Some(KeyError::EmptySegment { segment: seg as usize })
        } else {
            None
        }
    } else if is_dot(s[p]) {
        if p == 0 || is_dot(s[p - 1]) {
            Some(KeyError::EmptySegment { segment: seg as usize })
        } else {
            None
        }
    } else if p == 0 || is_dot(s[p - 1]) {
        if is_key_start(s[p]) {
            None
        } else {
            Some(KeyError::InvalidSegmentStart { segment: seg as usize, character: s[p] })
        }
    } else if is_key_char(s[p]) {
        None
    } else {
        Some(
            KeyError::InvalidCharacter {
                segment: seg as usize,
                character_index: (p - segment_begin(s, p)) as usize,
                character: s[p],
            },
        )
    }
}

/// The first defect at a position `>= p`.
pub open spec fn first_key_error(s: Seq<char>, p: int) -> Option<KeyError>
    decreases s.len() + 1 - p,
{
    if p < 0 || p > s.len() {
        None
    } else {
        match key_error_at(s, p) {
            Some(e) => Some(e),
            None => first_key_error(s, p + 1),
        }
    }
}

/// The outcome of checking a candidate key whose UTF-8 form has `byte_len` bytes.
pub open spec fn key_check(s: Seq<char>, byte_len: nat) -> Result<(), KeyError> {
    if s.len() == 0 {
        Err(KeyError::Empty)
    } else if byte_len > MAX_KEY_BYTES {
        Err(KeyError::TooLong { actual: byte_len as usize, maximum: MAX_KEY_BYTES })
    } else {
        match first_key_error(s, 0) {
            Some(e) => Err(e),
            None => Ok(()),
        }
    }
}

/// The length in bytes of the UTF-8 form of `s`, as `str::len` reports it.
pub open spec fn byte_len(s: Seq<char>) -> nat {
    (vstd::utf8::encode_utf8(s).len() as usize) as nat
}

/// A well-formed key: non-empty dot-separated segments of lowercase ASCII,
/// digits, `_` and `-`, each beginning with a letter or digit, at most
/// 255 bytes long.
pub open spec fn valid_key(s: Seq<char>) -> bool {
    key_check(s, byte_len(s)) is Ok
}

/// The text that describes a key error.
pub open spec fn key_error_text(e: KeyError) -> Seq<char> {
    match e {
        KeyError::Empty => "key cannot be empty"@,
        KeyError::TooLong { actual, maximum } => "key is "@ + int_text(actual as int)
            + " bytes long; maximum is "@ + int_text(maximum as int),
        KeyError::EmptySegment { segment } => "key segment "@ + int_text(segment as int)
            + " is empty"@,
        KeyError::InvalidSegmentStart { segment, character } => "key segment "@ + int_text(
            segment as int,
        ) + " begins with invalid character '"@ + seq![character] + "'"@,
        KeyError::InvalidCharacter { segment, character_index, character } => "key segment "@
            + int_text(segment as int) + " contains invalid character '"@ + seq![character]
            + "' at position "@ + int_text(character_index as int),
    }
}

impl KeyError {
    pub fn message(&self) -> (r: String)
        ensures
            r@ == key_error_text(*self),
    {
        match *self {
            KeyError::Empty => String::from_str("key cannot be empty"),
            KeyError::TooLong { actual, maximum } => {
                let m = join(String::from_str("key is "), usize_text(actual).as_str());
                let m = join(m, " bytes long; maximum is ");
                join(m, usize_text(maximum).as_str())
            },
            KeyError::EmptySegment { segment } => {
                let m = join(String::from_str("key segment "), usize_text(segment).as_str());
                join(m, " is empty")
            },
            KeyError::InvalidSegmentStart { segment, character } => {
                let m = join(String::from_str("key segment "), usize_text(segment).as_str());
                let m = join(m, " begins with invalid character '");
                let m = join(m, char_text(character).as_str());
                join(m, "'")
            },
            KeyError::InvalidCharacter { segment, character_index, character } => {
                let m = join(String::from_str("key segment "), usize_text(segment).as_str());
                let m = join(m, " contains invalid character '");
                let m = join(m, char_text(character).as_str());
                let m = join(m, "' at position ");
                join(m, usize_text(character_index).as_str())
            },
        }
    }
}

/// The segments of `s` between its dots, in order.
pub open spec fn split_dots(s: Seq<char>) -> Seq<Seq<char>>
    decreases s.len(),
{
    if s.len() == 0 {
        seq![Seq::<char>::empty()]
    } else {
        let init = split_dots(s.drop_last());
        if is_dot(s.last()) {
            init.push(Seq::<char>::empty())
        } else {
            init.update(init.len() - 1, init.last().push(s.last()))
        }
    }
}

proof fn lemma_split_dots_nonempty(s: Seq<char>)
    ensures
        split_dots(s).len() >= 1,
    decreases s.len(),
{
    if s.len() > 0 {
        lemma_split_dots_nonempty(s.drop_last());
    }
}

/// The parts joined with a dot between each two.
pub open spec fn join_dots(parts: Seq<Seq<char>>) -> Seq<char>
    decreases parts.len(),
{
    if parts.len() == 0 {
        Seq::empty()
    } else if parts.len() == 1 {
        parts[0]
    } else {
        join_dots(parts.drop_last()) + seq!['.'] + parts.last()
    }
}

proof fn lemma_join_extend_last(parts: Seq<Seq<char>>, c: char)
    requires
        parts.len() >= 1,
    ensures
        join_dots(parts.update(parts.len() - 1, parts.last().push(c))) == join_dots(parts).push(c),
{
    let q = parts.update(parts.len() - 1, parts.last().push(c));
    if parts.len() > 1 {
        assert(q.drop_last() =~= parts.drop_last());
        assert((join_dots(parts.drop_last()) + seq!['.'] + parts.last()).push(c) =~= join_dots(
            parts.drop_last(),
        ) + seq!['.'] + parts.last().push(c));
    }
}

/// Joining the segments of any text with dots gives the text back.
pub proof fn lemma_join_split(s: Seq<char>)
    ensures
        join_dots(split_dots(s)) == s,
    decreases s.len(),
{
    if s.len() == 0 {
        assert(join_dots(split_dots(s)) =~= s);
    } else {
        let init = split_dots(s.drop_last());
        lemma_join_split(s.drop_last());
        lemma_split_dots_nonempty(s.drop_last());
        if is_dot(s.last()) {
            let parts = init.push(Seq::<char>::empty());
            assert(parts.drop_last() =~= init);
            assert(s.last() == '.');
            assert(join_dots(parts) =~= s);
        } else {
            lemma_join_extend_last(init, s.last());
            assert(s.drop_last().push(s.last()) =~= s);
        }
    }
}

/// A text that does not begin with a dot and holds no two dots in a row
/// has only non-empty segments but the last, and its last segment is empty
/// exactly when it is empty or ends with a dot.
proof fn lemma_segments_filled(s: Seq<char>)
    requires
        s.len() > 0 ==> !is_dot(s[0]),
        forall|q: int| 0 < q < s.len() && is_dot(#[trigger] s[q]) ==> !is_dot(s[q - 1]),
    ensures
        forall|i: int| 0 <= i < split_dots(s).len() - 1 ==> (#[trigger] split_dots(s)[i]).len() > 0,
        (split_dots(s).last().len() == 0) == (s.len() == 0 || is_dot(s.last())),
    decreases s.len(),
{
    lemma_split_dots_nonempty(s);
    if s.len() > 0 {
        let t = s.drop_last();
        assert forall|q: int| 0 < q < t.len() && is_dot(#[trigger] t[q]) implies !is_dot(t[q - 1]) by {
            assert(t[q] == s[q] && t[q - 1] == s[q - 1]);
        }
        if t.len() > 0 {
            assert(t[0] == s[0]);
        }
        lemma_segments_filled(t);
        lemma_split_dots_nonempty(t);
        let init = split_dots(t);
        if is_dot(s.last()) {
            assert(t.len() > 0);
            assert(!is_dot(t.last())) by {
                assert(s[s.len() - 1] == s.last());
                assert(t.last() == s[s.len() - 2]);
            }
            assert(split_dots(s) == init.push(Seq::<char>::empty()));
        } else {
            let parts = init.update(init.len() - 1, init.last().push(s.last()));
            assert(split_dots(s) == parts);
            assert forall|i: int| 0 <= i < parts.len() - 1 implies (#[trigger] parts[i]).len() > 0 by {
                assert(parts[i] == init[i]);
            }
        }
    }
}

proof fn lemma_no_key_error(s: Seq<char>, p: int)
    requires
        0 <= p <= s.len(),
        first_key_error(s, p) is None,
    ensures
        forall|q: int| p <= q <= s.len() ==> (#[trigger] key_error_at(s, q)) is None,
    decreases s.len() + 1 - p,
{
    if p < s.len() {
        lemma_no_key_error(s, p + 1);
    }
}

/// A valid key's segments are all non-empty, and joining them with dots
/// gives the key back.
pub proof fn law_key_segments(s: Seq<char>)
    requires
        valid_key(s),
    ensures
        forall|i: int| 0 <= i < split_dots(s).len() ==> (#[trigger] split_dots(s)[i]).len() > 0,
        join_dots(split_dots(s)) == s,
{
    lemma_join_split(s);
    lemma_no_key_error(s, 0);
    assert(key_error_at(s, s.len() as int) is None);
    assert(key_error_at(s, 0) is None);
    assert forall|q: int| 0 < q < s.len() && is_dot(#[trigger] s[q]) implies !is_dot(s[q - 1]) by {
        assert(key_error_at(s, q) is None);
    }
    lemma_segments_filled(s);
    lemma_split_dots_nonempty(s);
    assert(s.last() == s[s.len() - 1]);
}

/// Stable human-readable authored reference, such as `entity.us.m8_b12`.
#[derive(Debug, Hash)]
pub struct Key(String);

impl View for Key {
    type V = Seq<char>;

    closed spec fn view(&self) -> Seq<char> {
        self.0@
    }
}

impl Clone for Key {
    fn clone(&self) -> (r: Self)
        ensures
            r == *self,
    {
        proof {
            use_type_invariant(self);
        }
        Key(self.0.clone())
    }
}

/// The value filed under the key whose text is `text`.
pub fn lookup_text<'a, V>(m: &'a OrderedMap<Key, V>, text: &str) -> (r: Option<&'a V>)
    ensures
        match r {
            Some(v) => m@.contains_key(text@) && *v == m@[text@],
            None => !m@.contains_key(text@),
        },
{
    m.lemma_sorted();
    let n = m.len();
    for i in 0..n
        invariant
            n == m.keys().len(),
            forall|j: int| 0 <= j < i ==> m.keys()[j] != text@,
    {
        if crate::text::str_eq(m.key_at(i).as_str(), text) {
            m.lemma_sorted();
            return Some(m.value_at(i));
        }
    }
    proof {
        if m@.contains_key(text@) {
            let j = m.keys().index_of(text@);
            assert(m.keys()[j] == text@);
        }
    }
    None
}

impl PartialEq for Key {
    fn eq(&self, other: &Self) -> (r: bool) {
        self.0 == other.0
    }
}

impl PartialEqSpecImpl for Key {
    open spec fn obeys_eq_spec() -> bool {
        true
    }

    open spec fn eq_spec(&self, other: &Self) -> bool {
        self@ == other@
    }
}

impl Eq for Key {
}

impl Key {
    #[verifier::type_invariant]
    closed spec fn canonical(self) -> bool {
        valid_key(self.0@)
    }

    /// Every key obeys the key rules.
    pub fn lemma_valid(&self)
        ensures
            valid_key(self@),
    {
        proof {
            use_type_invariant(self);
        }
    }

    /// Create a canonical dot-separated key.
    ///
    /// Each segment begins with lowercase ASCII or a digit. Remaining segment
    /// characters may also include `_` and `-`.
    pub fn new(value: &str) -> (r: Result<Key, KeyError>)
        ensures
            match r {
                Ok(k) => k@ == value@ && key_check(value@, byte_len(value@)) is Ok,
                Err(e) => key_check(value@, byte_len(value@)) == Err::<(), KeyError>(e),
            },
    {
        let n = value.unicode_len();
        if n == 0 {
            return Err(KeyError::Empty);
        }
        let bytes = value.len();
        assert(bytes == byte_len(value@));
        if bytes > MAX_KEY_BYTES {
            return Err(KeyError::TooLong { actual: bytes, maximum: MAX_KEY_BYTES });
        }
        let ghost s = value@;
        let mut segment: usize = 0;
        let mut begin: usize = 0;
        let mut p: usize = 0;
        let mut prev_dot = true;
        while p < n
            invariant
                n == s.len(),
                s == value@,
                p <= n,
                segment == dots_before(s, p as int),
                begin == segment_begin(s, p as int),
                prev_dot == (p == 0 || is_dot(s[p - 1])),
                first_key_error(s, 0) == first_key_error(s, p as int),
                segment <= p,
                begin <= p,
                bytes == value.len(),
                bytes <= MAX_KEY_BYTES,
            decreases n - p,
        {
            let c = value.get_char(p);
            let code = c as u32;
            if code == 46 {
                if prev_dot {
                    assert(key_error_at(s, p as int) == Some(KeyError::EmptySegment { segment }));
                    assert(first_key_error(s, p as int) == key_error_at(s, p as int));
                    return Err(KeyError::EmptySegment { segment });
                }
                segment = segment + 1;
                begin = p + 1;
                prev_dot = true;
            } else if prev_dot {
                if !((97 <= code && code <= 122) || (48 <= code && code <= 57)) {
                    assert(first_key_error(s, p as int) == key_error_at(s, p as int));
                    return Err(KeyError::InvalidSegmentStart { segment, character: c });
                }
                prev_dot = false;
            } else {
                if !((97 <= code && code <= 122) || (48 <= code && code <= 57) || code == 95
                    || code == 45) {
                    assert(first_key_error(s, p as int) == key_error_at(s, p as int));
                    return Err(
                        KeyError::InvalidCharacter { segment, character_index: p - begin, character: c },
                    );
                }
            }
            assert(key_error_at(s, p as int) is None);
            p = p + 1;
        }
        if prev_dot {
            assert(first_key_error(s, p as int) == key_error_at(s, p as int));
            return Err(KeyError::EmptySegment { segment });
        }
        assert(first_key_error(s, n as int) == first_key_error(s, n + 1));
        Ok(Key(value.to_owned()))
    }

    pub fn as_str(&self) -> (s: &str)
        ensures
            s@ == self@,
    {
        self.0.as_str()
    }

    pub fn into_string(self) -> (s: String)
        ensures
            s@ == self@,
    {
        self.0
    }

    /// The dot-separated segments, in order.
    pub fn segments(&self) -> (r: Vec<String>)
        ensures
            r@.map_values(|x: String| x@) == split_dots(self@),
            forall|i: int| 0 <= i < r@.len() ==> (#[trigger] r@[i])@.len() > 0,
            join_dots(r@.map_values(|x: String| x@)) == self@,
    {
        proof {
            use_type_invariant(self);
            law_key_segments(self@);
        }
        let text = self.0.as_str();
        let n = text.unicode_len();
        let mut out: Vec<String> = Vec::new();
        let mut begin: usize = 0;
        let mut p: usize = 0;
        proof {
            assert(text@.subrange(0, 0) =~= Seq::<char>::empty());
            assert(out@.map_values(|x: String| x@).push(text@.subrange(0, 0)) =~= seq![
                Seq::<char>::empty(),
            ]);
        }
        while p < n
            invariant
                n == text@.len(),
                text@ == self@,
                begin <= p <= n,
                out@.map_values(|x: String| x@).push(text@.subrange(begin as int, p as int))
                    == split_dots(text@.subrange(0, p as int)),
            decreases n - p,
        {
            let c = text.get_char(p);
            proof {
                let t = text@.subrange(0, p + 1);
                assert(t.drop_last() =~= text@.subrange(0, p as int));
                assert(t.last() == c);
            }
            if c as u32 == 46 {
                let part = text.substring_char(begin, p);
                out.push(part.to_owned());
                begin = p + 1;
                proof {
                    assert(text@.subrange(begin as int, p + 1) =~= Seq::<char>::empty());
                }
            } else {
                proof {
                    assert(text@.subrange(begin as int, p + 1) =~= text@.subrange(
                        begin as int,
                        p as int,
                    ).push(c));
                }
            }
            p = p + 1;
        }
        let part = text.substring_char(begin, n);
        out.push(part.to_owned());
        proof {
            assert(text@.subrange(0, n as int) =~= text@);
        }
        proof {
            assert(out@.map_values(|x: String| x@) =~= split_dots(self@));
            law_key_segments(self@);
            assert forall|i: int| 0 <= i < out@.len() implies (#[trigger] out@[i])@.len() > 0 by {
                assert(out@.map_values(|x: String| x@)[i] == out@[i]@);
            }
        }
        out
    }
}

/// The characters of a string slice.
pub open spec fn text_of(s: &str) -> Seq<char> {
    s@
}

impl std::borrow::Borrow<str> for Key {
    fn borrow(&self) -> (r: &str)
        ensures
            text_of(r) == self@,
    {
        self.0.as_str()
    }
}

impl OrderedKey for Key {
    open spec fn key_lt(a: Seq<char>, b: Seq<char>) -> bool {
        seq_lt(a, b)
    }

    proof fn lemma_key_order(a: Seq<char>, b: Seq<char>, c: Seq<char>) {
        lemma_seq_lt_order(a, b, c);
    }

    fn precedes(&self, other: &Self) -> (r: bool) {
        str_lt(self.0.as_str(), other.0.as_str())
    }

    fn same_key(&self, other: &Self) -> (r: bool) {
        str_eq(self.0.as_str(), other.0.as_str())
    }

    fn copy_key(&self) -> (r: Self) {
        self.clone()
    }
}

} // verus!
