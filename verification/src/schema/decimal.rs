//! Decimal numbers as they travel through JSON: IEEE-754 binary64 values,
//! held by their bit patterns, ordered as `f64` orders them.
use vstd::arithmetic::power2::{pow2, lemma_pow2_pos, lemma_pow2_unfold, lemma_pow2_adds, lemma_pow2_subtracts, lemma_pow2_strictly_increases, lemma2_to64, lemma2_to64_rest};
use vstd::arithmetic::div_mod::{lemma_div_is_ordered, lemma_fundamental_div_mod, lemma_mod_pos_bound};
use vstd::prelude::*;

verus! {

pub open spec fn bits_sign(b: u64) -> int {
    (b as int) / 0x8000_0000_0000_0000
}

pub open spec fn bits_magnitude(b: u64) -> int {
    (b as int) % 0x8000_0000_0000_0000
}

pub open spec fn bits_exponent(b: u64) -> int {
    bits_magnitude(b) / 0x10_0000_0000_0000
}

pub open spec fn bits_fraction(b: u64) -> int {
    (b as int) % 0x10_0000_0000_0000
}

/// The bit pattern encodes a NaN.
pub open spec fn is_nan_bits(b: u64) -> bool {
    bits_exponent(b) == 0x7FF && bits_fraction(b) != 0
}

/// The bit pattern encodes a finite value (neither infinite nor NaN).
pub open spec fn is_finite_bits(b: u64) -> bool {
    bits_exponent(b) != 0x7FF
}

/// Sign-magnitude reading of the pattern; for patterns that are not NaN it
/// is monotone in the encoded value, and both zeros read as 0.
pub open spec fn order_key(b: u64) -> int {
    if bits_sign(b) == 1 {
        -bits_magnitude(b)
    } else {
        bits_magnitude(b)
    }
}

/// `f64` less-than on bit patterns: false whenever either side is NaN.
pub open spec fn bits_lt(a: u64, b: u64) -> bool {
    !is_nan_bits(a) && !is_nan_bits(b) && order_key(a) < order_key(b)
}

/// The magnitude encoded by a magnitude field `m` (the pattern without its
/// sign bit), in units of 2^-1074, the smallest subnormal: a subnormal
/// counts its fraction; a normal number adds the hidden bit to its fraction
/// and shifts by its exponent.
pub open spec fn field_magnitude(m: int) -> int {
    let e = m / 0x10_0000_0000_0000;
    let f = m % 0x10_0000_0000_0000;
    if e == 0 {
        f
    } else {
        (0x10_0000_0000_0000 + f) * pow2((e - 1) as nat)
    }
}

/// The value a finite pattern encodes, in units of 2^-1074.
pub open spec fn scaled_value(b: u64) -> int {
    if bits_sign(b) == 1 {
        -field_magnitude(bits_magnitude(b))
    } else {
        field_magnitude(bits_magnitude(b))
    }
}

proof fn lemma_field_magnitude_bounds(m: int)
    requires
        m >= 0,
    ensures
        field_magnitude(m) >= 0,
        field_magnitude(m) == 0 <==> m == 0,
        field_magnitude(m) < 0x10_0000_0000_0000 * pow2((m / 0x10_0000_0000_0000) as nat),
        m / 0x10_0000_0000_0000 >= 1 ==> field_magnitude(m) >= 0x10_0000_0000_0000 * pow2(
            ((m / 0x10_0000_0000_0000) - 1) as nat,
        ),
{
    let c: int = 0x10_0000_0000_0000;
    lemma_fundamental_div_mod(m, c);
    lemma_mod_pos_bound(m, c);
    let e = m / c;
    let f = m % c;
    assert(e >= 0) by {
        lemma_div_is_ordered(0, m, c);
    }
    if e == 0 {
        lemma2_to64();
    } else {
        let p = pow2((e - 1) as nat);
        lemma_pow2_pos((e - 1) as nat);
        lemma_pow2_unfold(e as nat);
        assert(pow2(e as nat) == 2 * p);
        assert((c + f) * p < c * (2 * p)) by (nonlinear_arith)
            requires
                0 <= f < c,
                p > 0,
        ;
        assert((c + f) * p >= c * p) by (nonlinear_arith)
            requires
                0 <= f,
                p > 0,
        ;
        assert(c * p > 0) by (nonlinear_arith)
            requires
                c > 0,
                p > 0,
        ;
    }
}

proof fn lemma_field_magnitude_increasing(m1: int, m2: int)
    requires
        0 <= m1 < m2,
    ensures
        field_magnitude(m1) < field_magnitude(m2),
{
    let c: int = 0x10_0000_0000_0000;
    lemma_fundamental_div_mod(m1, c);
    lemma_fundamental_div_mod(m2, c);
    lemma_mod_pos_bound(m1, c);
    lemma_mod_pos_bound(m2, c);
    lemma_div_is_ordered(m1, m2, c);
    lemma_div_is_ordered(0, m1, c);
    let e1 = m1 / c;
    let e2 = m2 / c;
    let f1 = m1 % c;
    let f2 = m2 % c;
    lemma_field_magnitude_bounds(m1);
    lemma_field_magnitude_bounds(m2);
    if e1 == e2 {
        assert(f1 < f2);
        if e1 > 0 {
            let p = pow2((e1 - 1) as nat);
            lemma_pow2_pos((e1 - 1) as nat);
            assert((c + f1) * p < (c + f2) * p) by (nonlinear_arith)
                requires
                    f1 < f2,
                    p > 0,
            ;
        }
    } else {
        assert(e1 < e2);
        // field_magnitude(m1) < c * 2^e1 <= c * 2^(e2 - 1) <= field_magnitude(m2)
        if e1 < e2 - 1 {
            lemma_pow2_strictly_increases(e1 as nat, (e2 - 1) as nat);
        }
        let p1 = pow2(e1 as nat);
        let p2 = pow2((e2 - 1) as nat);
        assert(p1 <= p2);
        assert(c * p1 <= c * p2) by (nonlinear_arith)
            requires
                p1 <= p2,
                c > 0,
        ;
    }
}

/// `f64` less-than agrees with the order of the values: for finite
/// patterns, `bits_lt` holds exactly when the first encodes the smaller
/// number. In particular every negative non-zero value is below both
/// zeros, and the two zeros are not below each other.
pub proof fn law_bits_lt_is_value_order(a: u64, b: u64)
    requires
        is_finite_bits(a),
        is_finite_bits(b),
    ensures
        bits_lt(a, b) <==> scaled_value(a) < scaled_value(b),
{
    let ma = bits_magnitude(a);
    let mb = bits_magnitude(b);
    assert(0 <= ma && 0 <= mb);
    assert(bits_sign(a) == 0 || bits_sign(a) == 1);
    assert(bits_sign(b) == 0 || bits_sign(b) == 1);
    lemma_field_magnitude_bounds(ma);
    lemma_field_magnitude_bounds(mb);
    if ma < mb {
        lemma_field_magnitude_increasing(ma, mb);
    } else if mb < ma {
        lemma_field_magnitude_increasing(mb, ma);
    }
}

/// Index of the highest set bit of a positive integer.
pub open spec fn high_bit(u: nat) -> nat
    decreases u,
{
    if u <= 1 {
        0
    } else {
        1 + high_bit(u / 2)
    }
}

/// Bit pattern of the `f64` nearest to the integer `u`, ties to even:
/// 53 significant bits, exponent bias 1023.
pub open spec fn u64_to_f64_bits(u: u64) -> u64 {
    if u == 0 {
        0
    } else {
        let e = high_bit(u as nat);
        if e <= 52 {
            ((e + 1023) * pow2(52) + ((u as int) * pow2((52 - e) as nat) - pow2(52))) as u64
        } else {
            let d = pow2((e - 52) as nat) as int;
            let q = (u as int) / d;
            let r = (u as int) % d;
            let half = d / 2;
            let q2 = if r > half || (r == half && q % 2 == 1) {
                q + 1
            } else {
                q
            };
            if q2 == pow2(53) {
                ((e + 1 + 1023) * pow2(52)) as u64
            } else {
                ((e + 1023) * pow2(52) + (q2 - pow2(52))) as u64
            }
        }
    }
}

/// Bit pattern of the `f64` nearest to the integer `i`.
pub open spec fn i64_to_f64_bits(i: i64) -> u64 {
    if i < 0 {
        (0x8000_0000_0000_0000 + u64_to_f64_bits((-(i as int)) as u64)) as u64
    } else {
        u64_to_f64_bits(i as u64)
    }
}

proof fn lemma_high_bit(u: nat, e: nat)
    requires
        pow2(e) <= u < pow2(e + 1),
    ensures
        high_bit(u) == e,
    decreases e,
{
    lemma_pow2_pos(e);
    if e == 0 {
        lemma2_to64();
    } else {
        lemma_pow2_unfold(e);
        lemma_pow2_unfold(e + 1);
        lemma_high_bit(u / 2, (e - 1) as nat);
    }
}

/// A decimal number: the bit pattern of an `f64`, with the texts that
/// messages quote for it: what `f64`'s `Display` and `Debug` write, and what
/// `serde_json` writes for it in its own messages.
#[derive(Debug, PartialEq)]
pub struct Decimal {
    pub bits: u64,
    pub display: String,
    pub debug: String,
    pub json: String,
}

impl Clone for Decimal {
    fn clone(&self) -> (r: Self)
        ensures
            r == *self,
    {
        Decimal {
            bits: self.bits,
            display: self.display.clone(),
            debug: self.debug.clone(),
            json: self.json.clone(),
        }
    }
}

impl Decimal {
    pub fn new(bits: u64, display: String, debug: String, json: String) -> (r: Self)
        ensures
            r.bits == bits,
            r.display == display,
            r.debug == debug,
            r.json == json,
    {
        Decimal { bits, display, debug, json }
    }

    pub fn is_finite(&self) -> (r: bool)
        ensures
            r == is_finite_bits(self.bits),
    {
        (self.bits % 0x8000_0000_0000_0000) / 0x10_0000_0000_0000 != 0x7FF
    }
}

pub fn is_nan(b: u64) -> (r: bool)
    ensures
        r == is_nan_bits(b),
{
    (b % 0x8000_0000_0000_0000) / 0x10_0000_0000_0000 == 0x7FF && b % 0x10_0000_0000_0000 != 0
}

fn order_key_of(b: u64) -> (r: i128)
    ensures
        r == order_key(b),
{
    let m = (b % 0x8000_0000_0000_0000) as i128;
    if b / 0x8000_0000_0000_0000 == 1 {
        -m
    } else {
        m
    }
}

/// `f64` less-than on bit patterns.
pub fn lt_bits(a: u64, b: u64) -> (r: bool)
    ensures
        r == bits_lt(a, b),
{
    !is_nan(a) && !is_nan(b) && order_key_of(a) < order_key_of(b)
}

/// `u as f64`, as a bit pattern.
pub fn u64_to_bits(u: u64) -> (r: u64)
    ensures
        r == u64_to_f64_bits(u),
        r < 0x8000_0000_0000_0000,
{
    if u == 0 {
        return 0;
    }
    proof {
        lemma2_to64();
        lemma2_to64_rest();
    }
    let mut e: u64 = 0;
    let mut p: u64 = 1;
    while e < 63 && p * 2 <= u
        invariant
            0 <= e <= 63,
            p == pow2(e as nat),
            p <= u,
            e < 63 ==> p <= 0x4000_0000_0000_0000,
        decreases 63 - e,
    {
        proof {
            lemma_pow2_unfold((e + 1) as nat);
            lemma2_to64_rest();
            if e + 1 < 62 {
                lemma_pow2_strictly_increases((e + 1) as nat, 62);
            }
        }
        p = p * 2;
        e = e + 1;
    }
    proof {
        lemma_pow2_unfold((e + 1) as nat);
        lemma2_to64();
        lemma2_to64_rest();
        lemma_high_bit(u as nat, e as nat);
    }
    let p52: u64 = 0x10_0000_0000_0000;
    proof {
        assert(p52 == pow2(52));
    }
    if e <= 52 {
        let mult = p52 / p;
        assert((u as int) < 2 * (p as int));
        proof {
            lemma_pow2_subtracts(e as nat, 52);
            lemma_pow2_adds(e as nat, (52 - e) as nat);
            assert(p * mult == p52);
            assert((u as int) * (mult as int) < 2 * (p as int) * (mult as int)) by (nonlinear_arith)
                requires
                    (u as int) < 2 * (p as int),
                    mult > 0,
            ;
            assert((p as int) * (mult as int) <= (u as int) * (mult as int)) by (nonlinear_arith)
                requires
                    p <= u,
                    mult > 0,
            ;
        }
        assert(2 * (p as int) * (mult as int) == 2 * (p52 as int)) by (nonlinear_arith)
            requires
                p * mult == p52,
        ;
        assert((u as int) * (mult as int) < 2 * 0x10_0000_0000_0000);
        let m = u * mult;
        assert(((e + 1023) as int) * (p52 as int) <= 1075 * 0x10_0000_0000_0000) by (nonlinear_arith)
            requires
                e <= 52,
                p52 == 0x10_0000_0000_0000,
        ;
        (e + 1023) * p52 + (m - p52)
    } else {
        let d = p / p52;
        proof {
            lemma_pow2_subtracts(52, e as nat);
            lemma_pow2_adds(52, (e - 52) as nat);
            lemma_pow2_pos((e - 52) as nat);
            assert(d * p52 == p);
            lemma_pow2_unfold((e - 52) as nat);
            assert(d >= 2);
        }
        let q = u / d;
        let r = u % d;
        let half = d / 2;
        proof {
            assert(q >= p52) by (nonlinear_arith)
                requires
                    q == u / d,
                    d * p52 <= u,
                    d > 0,
            ;
            assert(q < 2 * p52) by (nonlinear_arith)
                requires
                    q == u / d,
                    u < 2 * (d * p52),
                    d > 0,
            ;
            lemma_pow2_unfold(53);
        }
        let q2 = if r > half || (r == half && q % 2 == 1) {
            q + 1
        } else {
            q
        };
        assert(((e + 1 + 1023) as int) * (p52 as int) <= 1087 * 0x10_0000_0000_0000) by (
        nonlinear_arith)
            requires
                e <= 63,
                p52 == 0x10_0000_0000_0000,
        ;
        if q2 == 2 * p52 {
            (e + 1 + 1023) * p52
        } else {
            (e + 1023) * p52 + (q2 - p52)
        }
    }
}

/// `i as f64`, as a bit pattern.
pub fn i64_to_bits(i: i64) -> (r: u64)
    ensures
        r == i64_to_f64_bits(i),
{
    if i < 0 {
        let mag: u64 = if i == i64::MIN {
            0x8000_0000_0000_0000
        } else {
            (-i) as u64
        };
        let b = u64_to_bits(mag);
        0x8000_0000_0000_0000 + b
    } else {
        u64_to_bits(i as u64)
    }
}

} // verus!
