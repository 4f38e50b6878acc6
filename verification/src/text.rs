//! Character-sequence helpers: the code-point order of strings and the
//! character classes that keys and display names are checked against.
use crate::ordered_map::OrderedKey;
use vstd::prelude::*;
use vstd::string::*;

verus! {

/// `a` and `b` agree on their first `k` characters.
pub open spec fn common_prefix(a: Seq<char>, b: Seq<char>, k: int) -> bool {
    &&& 0 <= k <= a.len()
    &&& k <= b.len()
    &&& forall|i: int| 0 <= i < k ==> a[i] == b[i]
}

/// Strict lexicographic order on character sequences, characters compared by
/// code point. This is the order of Rust's `str` and `String`.
pub open spec fn seq_lt(a: Seq<char>, b: Seq<char>) -> bool {
    exists|k: int|
        #![trigger common_prefix(a, b, k)]
        common_prefix(a, b, k) && ((k == a.len() && k < b.len()) || (k < a.len() && k < b.len()
            && (a[k] as int) < (b[k] as int)))
}

/// `seq_lt` is a strict total order.
pub proof fn lemma_seq_lt_order(a: Seq<char>, b: Seq<char>, c: Seq<char>)
    ensures
        !seq_lt(a, a),
        seq_lt(a, b) && seq_lt(b, c) ==> seq_lt(a, c),
        a == b || seq_lt(a, b) || seq_lt(b, a),
        !(seq_lt(a, b) && seq_lt(b, a)),
{
    lemma_seq_lt_trans(a, b, c);
    lemma_seq_lt_total(a, b);
    lemma_seq_lt_asym(a, b);
    if seq_lt(a, a) {
        let k = choose|k: int| #[trigger] common_prefix(a, a, k) && ((k == a.len() && k < a.len()) || (
            k < a.len() && k < a.len() && (a[k] as int) < (a[k] as int)));
    }
}

proof fn lemma_seq_lt_asym(a: Seq<char>, b: Seq<char>)
    ensures
        !(seq_lt(a, b) && seq_lt(b, a)),
{
    if seq_lt(a, b) && seq_lt(b, a) {
        let k1 = choose|k: int| #[trigger] common_prefix(a, b, k) && ((k == a.len() && k < b.len()) || (
            k < a.len() && k < b.len() && (a[k] as int) < (b[k] as int)));
        let k2 = choose|k: int| #[trigger] common_prefix(b, a, k) && ((k == b.len() && k < a.len()) || (
            k < b.len() && k < a.len() && (b[k] as int) < (a[k] as int)));
        if k1 < k2 {
            assert(a[k1] == b[k1]);
        } else if k2 < k1 {
            assert(a[k2] == b[k2]);
        }
    }
}

proof fn lemma_seq_lt_trans(a: Seq<char>, b: Seq<char>, c: Seq<char>)
    ensures
        seq_lt(a, b) && seq_lt(b, c) ==> seq_lt(a, c),
{
    if seq_lt(a, b) && seq_lt(b, c) {
        let k1 = choose|k: int| #[trigger] common_prefix(a, b, k) && ((k == a.len() && k < b.len()) || (
            k < a.len() && k < b.len() && (a[k] as int) < (b[k] as int)));
        let k2 = choose|k: int| #[trigger] common_prefix(b, c, k) && ((k == b.len() && k < c.len()) || (
            k < b.len() && k < c.len() && (b[k] as int) < (c[k] as int)));
        if k1 < k2 {
            assert(common_prefix(a, c, k1));
            assert(b[k1] == c[k1]);
        } else if k2 < k1 {
            assert(common_prefix(a, c, k2));
            assert(a[k2] == b[k2]);
        } else {
            assert(common_prefix(a, c, k1));
        }
    }
}

proof fn lemma_seq_lt_total(a: Seq<char>, b: Seq<char>)
    ensures
        a == b || seq_lt(a, b) || seq_lt(b, a),
{
    let n = if a.len() < b.len() { a.len() as int } else { b.len() as int };
    if exists|i: int| 0 <= i < n && a[i] != b[i] {
        lemma_first_mismatch(a, b, n);
        let m = first_mismatch(a, b, n);
        assert(common_prefix(a, b, m));
        assert(common_prefix(b, a, m));
        assert((a[m] as int) != (b[m] as int));
        if (a[m] as int) < (b[m] as int) {
            assert(seq_lt(a, b));
        } else {
            assert(seq_lt(b, a));
        }
    } else {
        assert(common_prefix(a, b, n));
        assert(common_prefix(b, a, n));
        if a.len() == b.len() {
            assert(a =~= b);
        } else if a.len() < b.len() {
            assert(seq_lt(a, b));
        } else {
            assert(seq_lt(b, a));
        }
    }
}

spec fn first_mismatch(a: Seq<char>, b: Seq<char>, n: int) -> int
    decreases n,
{
    if n <= 0 {
        0
    } else if exists|i: int| 0 <= i < n - 1 && a[i] != b[i] {
        first_mismatch(a, b, n - 1)
    } else {
        n - 1
    }
}

proof fn lemma_first_mismatch(a: Seq<char>, b: Seq<char>, n: int)
    requires
        exists|i: int| 0 <= i < n && a[i] != b[i],
        n <= a.len(),
        n <= b.len(),
    ensures
        0 <= first_mismatch(a, b, n) < n,
        a[first_mismatch(a, b, n)] != b[first_mismatch(a, b, n)],
        forall|i: int| 0 <= i < first_mismatch(a, b, n) ==> a[i] == b[i],
    decreases n,
{
    if exists|i: int| 0 <= i < n - 1 && a[i] != b[i] {
        lemma_first_mismatch(a, b, n - 1);
    }
}

/// Code-point order of two strings, as `a < b` on `str`.
pub fn str_lt(a: &str, b: &str) -> (r: bool)
    ensures
        r == seq_lt(a@, b@),
{
    let la = a.unicode_len();
    let lb = b.unicode_len();
    let mut i: usize = 0;
    while i < la && i < lb
        invariant
            la == a@.len(),
            lb == b@.len(),
            i <= la,
            i <= lb,
            common_prefix(a@, b@, i as int),
        decreases la - i,
    {
        let ca = a.get_char(i);
        let cb = b.get_char(i);
        if ca != cb {
            proof {
                if (cb as u32) < (ca as u32) {
                    assert(seq_lt(b@, a@)) by {
                        assert(common_prefix(b@, a@, i as int));
                    }
                    lemma_seq_lt_asym(a@, b@);
                } else {
                    assert(common_prefix(a@, b@, i as int));
                }
            }
            return (ca as u32) < (cb as u32);
        }
        i = i + 1;
    }
    proof {
        if la < lb {
            assert(common_prefix(a@, b@, i as int));
        } else {
            assert(common_prefix(b@, a@, i as int));
            if la == lb {
                assert(a@ =~= b@);
                lemma_seq_lt_order(a@, a@, a@);
            } else {
                assert(seq_lt(b@, a@));
            }
            lemma_seq_lt_asym(a@, b@);
        }
    }
    la < lb
}

/// Character-wise equality of two strings.
pub fn str_eq(a: &str, b: &str) -> (r: bool)
    ensures
        r == (a@ == b@),
{
    let la = a.unicode_len();
    let lb = b.unicode_len();
    if la != lb {
        return false;
    }
    let mut i: usize = 0;
    while i < la
        invariant
            la == a@.len(),
            lb == b@.len(),
            la == lb,
            i <= la,
            forall|j: int| 0 <= j < i ==> a@[j] == b@[j],
        decreases la - i,
    {
        if a.get_char(i) != b.get_char(i) {
            return false;
        }
        i = i + 1;
    }
    assert(a@ =~= b@);
    true
}

/// The ASCII digit for `d` in `0..10`.
pub open spec fn digit_char(d: int) -> char {
    (48 + d) as char
}

/// Decimal digits of `n`, most significant first, without leading zeros.
pub open spec fn nat_text(n: nat) -> Seq<char>
    decreases n,
{
    if n < 10 {
        seq![digit_char(n as int)]
    } else {
        nat_text(n / 10).push(digit_char((n % 10) as int))
    }
}

/// Decimal text of an integer, with a leading `-` when negative: what the
/// `Display` of Rust's integer types writes.
pub open spec fn int_text(n: int) -> Seq<char> {
    if n < 0 {
        seq!['-'] + nat_text((-n) as nat)
    } else {
        nat_text(n as nat)
    }
}

/// What `Debug` writes for a string: the text in double quotes, with
/// quotes, backslashes and control characters escaped.
pub uninterp spec fn str_debug_text(s: Seq<char>) -> Seq<char>;

/// What `Debug` writes for a character: the character in single quotes,
/// escaped as `char::escape_debug` does.
pub uninterp spec fn char_debug_text(c: char) -> Seq<char>;

/// The one-digit text of `d`.
fn digit_text(d: u64) -> (r: &'static str)
    requires
        d < 10,
    ensures
        r@ == seq![digit_char(d as int)],
{
    proof {
        reveal_strlit("0");
        reveal_strlit("1");
        reveal_strlit("2");
        reveal_strlit("3");
        reveal_strlit("4");
        reveal_strlit("5");
        reveal_strlit("6");
        reveal_strlit("7");
        reveal_strlit("8");
        reveal_strlit("9");
    }
    match d {
        0 => "0",
        1 => "1",
        2 => "2",
        3 => "3",
        4 => "4",
        5 => "5",
        6 => "6",
        7 => "7",
        8 => "8",
        _ => "9",
    }
}

/// The decimal digits of `n`, as `u64`'s `Display` writes them.
pub(crate) fn u64_text(n: u64) -> (r: String)
    ensures
        r@ == int_text(n as int),
    decreases n,
{
    if n < 10 {
        digit_text(n).to_owned()
    } else {
        let head = u64_text(n / 10);
        let r = join(head, digit_text(n % 10));
        assert(r@ == nat_text(n as nat));
        r
    }
}

/// The decimal text of `n`, as `usize`'s `Display` writes it.
pub(crate) fn usize_text(n: usize) -> (r: String)
    ensures
        r@ == int_text(n as int),
{
    u64_text(n as u64)
}

/// The decimal text of `n`, with a leading `-` when it is negative, as
/// `i64`'s `Display` writes it.
pub(crate) fn i64_text(n: i64) -> (r: String)
    ensures
        r@ == int_text(n as int),
{
    if n < 0 {
        let magnitude: u64 = if n == i64::MIN {
            9223372036854775808u64
        } else {
            (-n) as u64
        };
        let digits = u64_text(magnitude);
        proof {
            reveal_strlit("-");
        }
        let r = join(String::from_str("-"), digits.as_str());
        assert(r@ =~= seq!['-'] + nat_text((-(n as int)) as nat));
        r
    } else {
        u64_text(n as u64)
    }
}

/// Formats a `str` with `Debug`; the contract names the escaped text.
#[verifier::external_body]
pub(crate) fn str_debug(s: &str) -> (r: String)
    ensures
        r@ == str_debug_text(s@),
{
    format!("{:?}", s)
}

/// Formats a `char` with `Debug`; the contract names the escaped text.
#[verifier::external_body]
pub(crate) fn char_debug(c: char) -> (r: String)
    ensures
        r@ == char_debug_text(c),
{
    format!("{:?}", c)
}

/// Formats a `char` with `Display`, which writes the character itself.
#[verifier::external_body]
pub(crate) fn char_text(c: char) -> (r: String)
    ensures
        r@ == seq![c],
{
    format!("{}", c)
}

/// `a` followed by `b`.
pub fn join(a: String, b: &str) -> (r: String)
    ensures
        r@ == a@ + b@,
{
    let mut out = a;
    out.append(b);
    out
}

/// `text` in `Some(..)`, as `Debug` writes an `Option` holding a value whose
/// `Debug` text is `text`.
pub open spec fn some_text(text: Seq<char>) -> Seq<char> {
    "Some("@ + text + ")"@
}

pub fn some_wrapped(text: &str) -> (r: String)
    ensures
        r@ == some_text(text@),
{
    let out = join(String::from_str("Some("), text);
    join(out, ")")
}

impl OrderedKey for String {
    open spec fn key_lt(a: Seq<char>, b: Seq<char>) -> bool {
        seq_lt(a, b)
    }

    proof fn lemma_key_order(a: Seq<char>, b: Seq<char>, c: Seq<char>) {
        lemma_seq_lt_order(a, b, c);
    }

    fn precedes(&self, other: &Self) -> (r: bool) {
        str_lt(self.as_str(), other.as_str())
    }

    fn same_key(&self, other: &Self) -> (r: bool) {
        str_eq(self.as_str(), other.as_str())
    }

    fn copy_key(&self) -> (r: Self) {
        self.clone()
    }
}

} // verus!
