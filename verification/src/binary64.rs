//! Double-precision numbers as bit patterns.
//!
//! A latency or a percentage is an IEEE 754 binary64 number. It is held here
//! by its 64 bits, so that comparing, rounding and printing it is integer
//! arithmetic with an exact meaning.

use crate::text::{
    decimal, digits_value, double_digits, proper_digits, push_decimal, push_digits, to_digits,
};
use vstd::arithmetic::div_mod::*;
use vstd::arithmetic::mul::*;
use vstd::arithmetic::power2::*;
use vstd::prelude::*;
use vstd::relations::*;
use vstd::string::*;

verus! {

/// 2^52: the weight of the implicit leading bit of a mantissa.
pub const IMPLICIT: u64 = 0x10_0000_0000_0000;

/// 2^63: the weight of the sign bit.
pub const SIGN: u64 = 0x8000_0000_0000_0000;

/// The magnitude of infinity; every larger magnitude is not a number.
pub const INFINITE: u64 = 0x7ff0_0000_0000_0000;

/// A binary64 number, by its bit pattern.
#[derive(Clone, Copy, Debug, PartialEq, Eq, Structural)]
pub struct Binary64 {
    pub bits: u64,
}

/// The value of a magnitude in units of 2^-1074, the smallest step of the
/// format. For infinity this is the next value after the largest finite one.
pub open spec fn magnitude_steps(magnitude: nat) -> nat {
    let exponent = magnitude / IMPLICIT as nat;
    let fraction = magnitude % IMPLICIT as nat;
    if exponent == 0 {
        fraction
    } else {
        (IMPLICIT + fraction) as nat * pow2((exponent - 1) as nat)
    }
}

/// `n / d` rounded to the nearest integer, a tie going to the even one.
pub open spec fn half_even(n: nat, d: nat) -> nat {
    let q = n / d;
    let r = n % d;
    if 2 * r < d || (2 * r == d && q % 2 == 0) {
        q
    } else {
        q + 1
    }
}

/// How often `n` must be doubled until `n / d` reaches 2^52.
pub open spec fn doublings(n: nat, d: nat) -> nat
    decreases (if n < d * IMPLICIT { d * IMPLICIT - n } else { 0 }),
    when n > 0
{
    if n >= d * IMPLICIT {
        0
    } else {
        1 + doublings(2 * n, d)
    }
}

/// How often `n` must be halved to fall below 2^53.
pub open spec fn halvings(n: nat) -> nat
    decreases n,
{
    if n < 2 * IMPLICIT {
        0
    } else {
        1 + halvings(n / 2)
    }
}

/// The magnitude nearest to a value in units of 2^-1074, ties to even; infinite
/// where the value is beyond the finite ones.
pub open spec fn nearest_magnitude(n: nat) -> nat {
    let t = halvings(n);
    let m: nat = (t * IMPLICIT + half_even(n, pow2(t))) as nat;
    if m < INFINITE {
        m
    } else {
        INFINITE as nat
    }
}

/// `n / d` to 53 significant bits, ties to even: the quotient is rounded to this
/// over 2 to the power of `doublings(n, d)`.
pub open spec fn significand(n: nat, d: nat) -> nat {
    half_even(n * pow2(doublings(n, d)), d)
}

/// The bits of `part / whole * 100` in binary64: the quotient rounded to 53
/// significant bits, then the product with one hundred rounded to 53 again.
pub open spec fn percent_bits(part: nat, whole: nat) -> nat {
    if part == 0 {
        0
    } else {
        let s = doublings(part, whole);
        let product = significand(part, whole) * 100;
        let t: nat = if product < pow2(59) {
            6
        } else {
            7
        };
        ((1074 + t - s) * IMPLICIT + half_even(product, pow2(t))) as nat
    }
}

impl Binary64 {
    /// The magnitude: all bits but the sign.
    pub open spec fn magnitude(self) -> nat {
        (self.bits % SIGN) as nat
    }

    /// Whether the sign bit is set.
    pub open spec fn negative(self) -> bool {
        self.bits >= SIGN
    }

    /// Not a number.
    pub open spec fn nan(self) -> bool {
        self.magnitude() > INFINITE
    }

    /// Neither infinite nor "not a number".
    pub open spec fn finite(self) -> bool {
        self.magnitude() < INFINITE
    }

    /// The value in units of 2^-1074, meaningful unless `nan`.
    pub open spec fn steps(self) -> int {
        if self.negative() {
            -(magnitude_steps(self.magnitude()) as int)
        } else {
            magnitude_steps(self.magnitude()) as int
        }
    }

    /// The numeric comparison `self >= other`: false where either side is not
    /// a number.
    pub open spec fn at_least(self, other: Binary64) -> bool {
        !self.nan() && !other.nan() && self.steps() >= other.steps()
    }

    /// The lesser of two numbers; the other one where one is not a number, and
    /// `self` where they compare equal.
    pub open spec fn lesser(self, other: Binary64) -> Binary64 {
        if self.nan() || (!other.nan() && self.steps() > other.steps()) {
            other
        } else {
            self
        }
    }

    /// The place in the total order of all bit patterns: negative numbers
    /// below positive ones, and "not a number" at either end.
    pub open spec fn rank(self) -> u64 {
        if self.negative() {
            (SIGN - 1 - self.magnitude()) as u64
        } else {
            (SIGN + self.magnitude()) as u64
        }
    }

    /// `part` of `whole` in percent.
    pub open spec fn percent_of(part: nat, whole: nat) -> Binary64 {
        Binary64 { bits: percent_bits(part, whole) as u64 }
    }

    /// The product with one hundred, rounded; "not a number" stays what it is.
    pub open spec fn times_hundred(self) -> Binary64 {
        if !self.finite() {
            self
        } else {
            let m = nearest_magnitude(magnitude_steps(self.magnitude()) * 100);
            Binary64 {
                bits: (if self.negative() {
                    SIGN + m
                } else {
                    m as int
                }) as u64,
            }
        }
    }

    /// How many bits of the significand stand behind the binary point.
    pub open spec fn binary_point(self) -> nat {
        (1075 - self.magnitude() / IMPLICIT as nat) as nat
    }

    /// The significand of a number that is not subnormal.
    pub open spec fn mantissa(self) -> nat {
        IMPLICIT as nat + self.magnitude() % IMPLICIT as nat
    }

    /// The number, times 3600 and rounded: its significand and the doublings
    /// that lead to it.
    pub open spec fn seconds(self) -> (nat, nat) {
        let n = self.mantissa() * 3600;
        let d = pow2(self.binary_point());
        (significand(n, d), doublings(n, d))
    }

    /// The whole seconds in as many hours.
    pub open spec fn whole_seconds(self) -> nat {
        self.seconds().0 / pow2(self.seconds().1)
    }

    /// The whole part of the seconds divided by 240 and rounded.
    pub open spec fn whole_steps(self) -> nat {
        let n = self.seconds().0;
        let d = 240 * pow2(self.seconds().1);
        significand(n, d) / pow2(doublings(n, d))
    }

    /// The magnitude rounded to an integer, ties to even.
    pub open spec fn rounded(self) -> nat {
        half_even(magnitude_steps(self.magnitude()), pow2(1074))
    }

    /// The number without decimals.
    pub open spec fn rounded_text(self) -> Seq<char> {
        if self.nan() {
            "NaN"@
        } else {
            let body = if self.finite() {
                decimal(self.rounded())
            } else {
                "inf"@
            };
            if self.negative() {
                "-"@ + body
            } else {
                body
            }
        }
    }
}

/// Larger magnitudes are larger numbers.
pub proof fn magnitudes_are_ordered(a: nat, b: nat)
    requires
        a < b,
    ensures
        magnitude_steps(a) < magnitude_steps(b),
{
    let i = IMPLICIT as nat;
    let ea = a / i;
    let eb = b / i;
    let fa = a % i;
    let fb = b % i;
    lemma_fundamental_div_mod(a as int, i as int);
    lemma_fundamental_div_mod(b as int, i as int);
    lemma_div_is_ordered(a as int, b as int, i as int);
    if ea == eb {
        assert(fa < fb);
        if ea > 0 {
            let p = pow2((ea - 1) as nat);
            lemma_pow2_pos((ea - 1) as nat);
            assert((i + fa) * p < (i + fb) * p) by (nonlinear_arith)
                requires
                    fa < fb,
                    p > 0,
            ;
        }
    } else {
        let p = pow2((eb - 1) as nat);
        lemma_pow2_pos((eb - 1) as nat);
        assert((i + fb) * p >= i * p) by (nonlinear_arith)
            requires
                fb >= 0,
                p > 0,
        ;
        if ea == 0 {
            assert(i * p >= i) by (nonlinear_arith)
                requires
                    p >= 1,
            ;
        } else {
            let o = pow2((ea - 1) as nat);
            lemma_pow2_pos((ea - 1) as nat);
            lemma_pow2_unfold(ea);
            if ea < eb - 1 {
                lemma_pow2_strictly_increases(ea, (eb - 1) as nat);
            }
            assert((i + fa) * o < i * p) by (nonlinear_arith)
                requires
                    fa < i,
                    o > 0,
                    p >= 2 * o,
            ;
        }
    }
}

/// Equal magnitudes are the only way to equal numbers.
proof fn steps_reflect_magnitudes(a: nat, b: nat)
    ensures
        magnitude_steps(a) < magnitude_steps(b) <==> a < b,
        magnitude_steps(a) == 0 <==> a == 0,
{
    if a < b {
        magnitudes_are_ordered(a, b);
    } else if b < a {
        magnitudes_are_ordered(b, a);
    }
    assert(magnitude_steps(0) == 0);
    if a > 0 {
        magnitudes_are_ordered(0, a);
    }
}

/// What is at least a positive number has at least its bits.
pub proof fn ordered_bits(a: Binary64, b: Binary64)
    requires
        b.at_least(a),
        0 < a.bits < SIGN,
    ensures
        a.bits <= b.bits < SIGN,
{
    steps_reflect_magnitudes(b.magnitude(), a.magnitude());
    steps_reflect_magnitudes(a.magnitude(), b.magnitude());
}

impl Binary64 {
    pub fn from_bits(bits: u64) -> (r: Binary64)
        ensures
            r.bits == bits,
    {
        Binary64 { bits }
    }

    pub fn to_bits(self) -> (r: u64)
        ensures
            r == self.bits,
    {
        self.bits
    }

    fn get_magnitude(self) -> (r: u64)
        ensures
            r == self.magnitude(),
            r < SIGN,
    {
        self.bits % SIGN
    }

    pub fn is_nan(self) -> (r: bool)
        ensures
            r == self.nan(),
    {
        self.get_magnitude() > INFINITE
    }

    pub fn is_finite(self) -> (r: bool)
        ensures
            r == self.finite(),
    {
        self.get_magnitude() < INFINITE
    }

    /// The numeric comparison `self >= other`.
    pub fn ge(self, other: Binary64) -> (r: bool)
        ensures
            r == self.at_least(other),
    {
        if self.is_nan() || other.is_nan() {
            return false;
        }
        let a: u64 = self.get_magnitude();
        let b: u64 = other.get_magnitude();
        proof {
            steps_reflect_magnitudes(a as nat, b as nat);
            steps_reflect_magnitudes(b as nat, a as nat);
        }
        if self.bits >= SIGN {
            if other.bits >= SIGN {
                a <= b
            } else {
                a == 0 && b == 0
            }
        } else {
            other.bits >= SIGN || a >= b
        }
    }

    /// Whether the number is greater than zero.
    pub fn is_positive(self) -> (r: bool)
        ensures
            r == (!self.nan() && self.steps() > 0),
    {
        proof {
            steps_reflect_magnitudes(self.magnitude(), 0);
        }
        !self.is_nan() && self.bits < SIGN && self.bits > 0
    }

    /// The lesser of two numbers.
    pub fn min(self, other: Binary64) -> (r: Binary64)
        ensures
            r == self.lesser(other),
    {
        if self.is_nan() {
            other
        } else if other.is_nan() || other.ge(self) {
            self
        } else {
            other
        }
    }

    /// The place in the total order, as a sort key.
    pub fn sort_key(self) -> (r: u64)
        ensures
            r == self.rank(),
    {
        if self.bits >= SIGN {
            SIGN - 1 - self.get_magnitude()
        } else {
            SIGN + self.get_magnitude()
        }
    }
}

/// Scaling numerator and denominator alike changes no rounding.
proof fn half_even_scales(n: nat, d: nat, c: nat)
    requires
        d > 0,
        c > 0,
    ensures
        d * c > 0,
        half_even(n * c, d * c) == half_even(n, d),
{
    let q = n / d;
    let r = n % d;
    lemma_fundamental_div_mod(n as int, d as int);
    assert(d * c > 0 && r * c < d * c && n * c == q * (d * c) + r * c) by (nonlinear_arith)
        requires
            d > 0,
            c > 0,
            0 <= r < d,
            n == d * q + r,
    ;
    lemma_fundamental_div_mod_converse(
        (n * c) as int,
        (d * c) as int,
        q as int,
        (r * c) as int,
    );
    assert(2 * (r * c) < d * c <==> 2 * r < d) by (nonlinear_arith)
        requires
            c > 0,
    ;
    assert(2 * (r * c) == d * c <==> 2 * r == d) by (nonlinear_arith)
        requires
            c > 0,
    ;
}

/// No more doublings are needed than bring the quotient to 2^52.
proof fn doublings_suffice(n: nat, d: nat, k: nat)
    requires
        n > 0,
        n * pow2(k) >= d * IMPLICIT,
    ensures
        doublings(n, d) <= k,
    decreases k,
{
    if n < d * IMPLICIT {
        if k == 0 {
            lemma2_to64();
            assert(n * pow2(0) == n) by (nonlinear_arith)
                requires
                    pow2(0) == 1,
            ;
        } else {
            lemma_pow2_unfold(k);
            let p = pow2((k - 1) as nat);
            assert((2 * n) * p == n * (2 * p)) by (nonlinear_arith);
            doublings_suffice(2 * n, d, (k - 1) as nat);
        }
    }
}

/// Fewer doublings than needed leave the quotient below 2^52.
proof fn doublings_are_needed(n: nat, d: nat, k: nat)
    requires
        n > 0,
        n * pow2(k) < d * IMPLICIT,
    ensures
        doublings(n, d) > k,
    decreases k,
{
    lemma2_to64();
    if k == 0 {
        assert(n * pow2(0) == n) by (nonlinear_arith)
            requires
                pow2(0) == 1,
        ;
    } else {
        lemma_pow2_unfold(k);
        let p = pow2((k - 1) as nat);
        lemma_pow2_pos((k - 1) as nat);
        assert((2 * n) * p == n * (2 * p)) by (nonlinear_arith);
        assert(n < d * IMPLICIT) by (nonlinear_arith)
            requires
                n * (2 * p) < d * IMPLICIT,
                p >= 1,
                n >= 0,
        ;
        doublings_are_needed(2 * n, d, (k - 1) as nat);
    }
}

/// Rounding a quotient of at most `q` gives at most `q`.
proof fn half_even_at_most(n: nat, d: nat, q: nat)
    requires
        d > 0,
        n <= q * d,
    ensures
        half_even(n, d) <= q,
{
    let f = n / d;
    let r = n % d;
    lemma_fundamental_div_mod(n as int, d as int);
    assert(f <= q && (f == q ==> r == 0)) by (nonlinear_arith)
        requires
            n == d * f + r,
            0 <= r < d,
            n <= q * d,
            d > 0,
    ;
}

/// The doubled numerator stays below twice what the quotient must reach.
proof fn doublings_do_not_overshoot(n: nat, d: nat)
    requires
        0 < n < d * IMPLICIT,
    ensures
        n * pow2(doublings(n, d)) < 2 * (d * IMPLICIT),
    decreases d * IMPLICIT - n,
{
    let s = doublings(n, d);
    assert(s == 1 + doublings(2 * n, d));
    lemma_pow2_unfold(s);
    let p = pow2((s - 1) as nat);
    assert((2 * n) * p == n * (2 * p)) by (nonlinear_arith);
    assert(n * pow2(s) == (2 * n) * pow2(doublings(2 * n, d)));
    if 2 * n < d * IMPLICIT {
        doublings_do_not_overshoot(2 * n, d);
    } else {
        lemma2_to64();
        assert(doublings(2 * n, d) == 0);
        assert((2 * n) * pow2(0) == 2 * n) by (nonlinear_arith)
            requires
                pow2(0) == 1,
        ;
    }
}

/// A part of a whole is a percentage: a number from zero to one hundred.
pub proof fn percentages_stay_within_a_hundred(part: nat, whole: nat)
    requires
        part <= whole,
        0 < whole < 2 * IMPLICIT,
    ensures
        percent_bits(part, whole) <= 0x4059_0000_0000_0000,
        Binary64::percent_of(part, whole).finite(),
        !Binary64::percent_of(part, whole).negative(),
        (Binary64 { bits: 0x4059_0000_0000_0000 }).at_least(Binary64::percent_of(part, whole)),
        Binary64::percent_of(whole, whole) == (Binary64 { bits: 0x4059_0000_0000_0000 }),
{
    lemma2_to64();
    lemma2_to64_rest();
    percent_bits_bounded(part, whole);
    percent_bits_bounded(whole, whole);
    let p = Binary64::percent_of(part, whole);
    steps_reflect_magnitudes(0x4059_0000_0000_0000, p.magnitude());
}

proof fn percent_bits_bounded(part: nat, whole: nat)
    requires
        part <= whole,
        0 < whole < 2 * IMPLICIT,
    ensures
        percent_bits(part, whole) <= 0x4059_0000_0000_0000,
        part == whole ==> percent_bits(part, whole) == 0x4059_0000_0000_0000,
{
    if part > 0 {
        lemma2_to64();
        lemma2_to64_rest();
        let s = doublings(part, whole);
        // Between 52 and 105 doublings.
        lemma_pow2_adds(53, 52);
        let big = pow2(105);
        assert(part * big >= whole * IMPLICIT) by (nonlinear_arith)
            requires
                big == pow2(53) * pow2(52),
                pow2(53) == 0x20_0000_0000_0000,
                pow2(52) == 0x10_0000_0000_0000,
                part >= 1,
                whole < 0x20_0000_0000_0000,
                IMPLICIT == 0x10_0000_0000_0000,
        ;
        doublings_suffice(part, whole, 105);
        let n = part * pow2(s);
        if part == whole {
            doublings_suffice(part, whole, 52);
            assert(part * pow2(51) < whole * IMPLICIT) by (nonlinear_arith)
                requires
                    part == whole,
                    part > 0,
                    pow2(51) == 0x8_0000_0000_0000,
                    IMPLICIT == 0x10_0000_0000_0000,
            ;
            doublings_are_needed(part, whole, 51);
            assert(s == 52);
            assert(n == 0x10_0000_0000_0000 * whole) by (nonlinear_arith)
                requires
                    n == part * pow2(52),
                    part == whole,
                    pow2(52) == 0x10_0000_0000_0000,
            ;
            half_even_scales(0x10_0000_0000_0000, 1, whole);
            assert(half_even(n, whole) == 0x10_0000_0000_0000);
            assert(half_even(0x640_0000_0000_0000, 64) == 0x19_0000_0000_0000);
        } else {
            assert(part * pow2(52) < whole * IMPLICIT) by (nonlinear_arith)
                requires
                    part < whole,
                    pow2(52) == 0x10_0000_0000_0000,
                    IMPLICIT == 0x10_0000_0000_0000,
            ;
            doublings_are_needed(part, whole, 52);
            assert(whole * IMPLICIT > part) by (nonlinear_arith)
                requires
                    part < whole,
                    IMPLICIT == 0x10_0000_0000_0000,
            ;
            doublings_do_not_overshoot(part, whole);
            assert(n <= 0x20_0000_0000_0000 * whole) by (nonlinear_arith)
                requires
                    n < 2 * (whole * IMPLICIT),
                    IMPLICIT == 0x10_0000_0000_0000,
            ;
            half_even_at_most(n, whole, 0x20_0000_0000_0000);
            let product = half_even(n, whole) * 100;
            if product < pow2(59) {
                half_even_at_most(product, 64, 0x20_0000_0000_0000);
            } else {
                half_even_at_most(product, 128, 0x19_0000_0000_0000);
            }
        }
    }
}

/// `n / d` rounded to the nearest integer, ties to even.
fn round_half_even(n: u128, d: u128) -> (r: u128)
    requires
        0 < d < 0x8000_0000_0000_0000_0000_0000_0000_0000,
    ensures
        r == half_even(n as nat, d as nat),
        r <= n / d + 1,
{
    let q: u128 = n / d;
    let rest: u128 = n % d;
    if 2 * rest < d || (2 * rest == d && q % 2 == 0) {
        q
    } else {
        proof {
            if d == 1 {
                assert(rest == 0);
            }
            assert(q < 0xffff_ffff_ffff_ffff_ffff_ffff_ffff_ffff) by (nonlinear_arith)
                requires
                    q == n / d,
                    d >= 2,
                    n <= 0xffff_ffff_ffff_ffff_ffff_ffff_ffff_ffff,
            ;
        }
        q + 1
    }
}

/// `n / d` to 53 significant bits: the significand and how many doublings it
/// took.
fn round_ratio(n: u128, d: u128) -> (r: (u64, u64))
    requires
        0 < d < 0x400_0000_0000_0000_0000,
        0 < n < d * (2 * IMPLICIT),
    ensures
        r.0 == significand(n as nat, d as nat),
        IMPLICIT <= r.0 <= 2 * IMPLICIT,
        r.1 == doublings(n as nat, d as nat),
{
    assert(d * 0x10_0000_0000_0000 < 0x4000_0000_0000_0000_0000_0000_0000_0000)
        by (nonlinear_arith)
        requires
            d < 0x400_0000_0000_0000_0000,
    ;
    let limit: u128 = d * 0x10_0000_0000_0000;
    let mut m: u128 = n;
    let mut s: u64 = 0;
    proof {
        lemma2_to64();
        assert(n * pow2(0) == n) by (nonlinear_arith)
            requires
                pow2(0) == 1,
        ;
        assert(d * (2 * IMPLICIT) == 2 * limit) by (nonlinear_arith)
            requires
                limit == d * IMPLICIT,
        ;
    }
    while m < limit
        invariant
            0 < n,
            limit == d * IMPLICIT,
            limit < 0x4000_0000_0000_0000_0000_0000_0000_0000,
            m == n * pow2(s as nat),
            0 < m < 2 * limit,
            s <= 126,
            s as nat + doublings(m as nat, d as nat) == doublings(n as nat, d as nat),
        decreases 2 * limit - m,
    {
        proof {
            lemma_pow2_unfold((s + 1) as nat);
            let p = pow2(s as nat);
            assert(n * (2 * p) == 2 * (n * p)) by (nonlinear_arith);
            assert(p <= m) by (nonlinear_arith)
                requires
                    m == n * p,
                    n >= 1,
            ;
            if s >= 126 {
                lemma2_to64();
                lemma2_to64_rest();
                lemma_pow2_adds(63, 63);
                assert(pow2(63) * pow2(63) == 0x4000_0000_0000_0000_0000_0000_0000_0000)
                    by (nonlinear_arith)
                    requires
                        pow2(63) == 0x8000_0000_0000_0000,
                ;
                assert(false);
            }
        }
        m = 2 * m;
        s = s + 1;
    }
    proof {
        assert(m <= 0x20_0000_0000_0000 * d) by (nonlinear_arith)
            requires
                m < 2 * limit,
                limit == d * 0x10_0000_0000_0000,
        ;
        half_even_at_most(m as nat, d as nat, 0x20_0000_0000_0000);
        assert(m / d >= 0x10_0000_0000_0000) by (nonlinear_arith)
            requires
                m >= d * 0x10_0000_0000_0000,
                d > 0,
        ;
    }
    (round_half_even(m, d) as u64, s)
}

/// A value that is doubled `k` times must be halved as often again.
proof fn halvings_undo_doublings(n: nat, k: nat)
    requires
        n >= IMPLICIT,
    ensures
        halvings(n * pow2(k)) == k + halvings(n),
    decreases k,
{
    lemma2_to64();
    if k == 0 {
        assert(n * pow2(0) == n) by (nonlinear_arith)
            requires
                pow2(0) == 1,
        ;
    } else {
        lemma_pow2_unfold(k);
        let p = pow2((k - 1) as nat);
        lemma_pow2_pos((k - 1) as nat);
        assert(n * (2 * p) == 2 * (n * p) && n * p >= n) by (nonlinear_arith)
            requires
                p >= 1,
        ;
        assert(n * pow2(k) / 2 == n * p);
        halvings_undo_doublings(n, (k - 1) as nat);
    }
}

/// How often `n` must be halved to fall below 2^53, and as many doublings of
/// one.
fn count_halvings(n: u128) -> (r: (u64, u128))
    requires
        n < 0x1000_0000_0000_0000,
    ensures
        r.0 == halvings(n as nat),
        r.1 == pow2(r.0 as nat),
        0 < r.1 <= 128,
        r.0 <= 7,
        n / r.1 < 2 * IMPLICIT,
{
    let mut t: u64 = 0;
    let mut d: u128 = 1;
    proof {
        lemma2_to64();
    }
    while n / d >= 0x20_0000_0000_0000
        invariant
            n < 0x1000_0000_0000_0000,
            0 < d <= 128,
            t <= 7,
            d == pow2(t as nat),
            t as nat + halvings((n / d) as nat) == halvings(n as nat),
        decreases 128 - d,
    {
        proof {
            lemma2_to64();
            lemma_pow2_unfold((t + 1) as nat);
            lemma_div_denominator(n as int, d as int, 2);
            if t == 7 {
                assert(n / 128 < 0x20_0000_0000_0000);
            } else {
                lemma_pow2_strictly_increases(t as nat, 7);
            }
        }
        d = 2 * d;
        t = t + 1;
    }
    (t, d)
}

impl Binary64 {
    /// The product with one hundred, rounded as binary64 arithmetic rounds it.
    pub fn hundredfold(self) -> (r: Binary64)
        ensures
            r == self.times_hundred(),
    {
        if !self.is_finite() {
            return self;
        }
        let magnitude: u64 = self.get_magnitude();
        let exponent: u64 = magnitude / IMPLICIT;
        let fraction: u64 = magnitude % IMPLICIT;
        let (mantissa, k): (u64, u64) = if exponent == 0 {
            (fraction, 0)
        } else {
            (IMPLICIT + fraction, exponent - 1)
        };
        let n: u128 = mantissa as u128 * 100;
        let (t, d): (u64, u128) = count_halvings(n);
        let rounded: u128 = round_half_even(n, d);
        let m: u64 = (k + t) * IMPLICIT + rounded as u64;
        proof {
            lemma2_to64();
            let p = pow2(k as nat);
            lemma_pow2_pos(k as nat);
            assert(magnitude_steps(self.magnitude()) == mantissa * p) by (nonlinear_arith)
                requires
                    magnitude_steps(self.magnitude()) == (if exponent == 0 {
                        fraction as int
                    } else {
                        (IMPLICIT + fraction) * pow2((exponent - 1) as nat)
                    }),
                    exponent == 0 ==> mantissa == fraction && p == 1,
                    exponent != 0 ==> mantissa == IMPLICIT + fraction && p == pow2(
                        (exponent - 1) as nat,
                    ),
            ;
            assert((mantissa * p) * 100 == n * p) by (nonlinear_arith)
                requires
                    n == mantissa * 100,
            ;
            if k > 0 {
                halvings_undo_doublings(n as nat, k as nat);
            } else {
                assert(n * p == n) by (nonlinear_arith)
                    requires
                        p == 1,
                ;
            }
            lemma_pow2_adds(t as nat, k as nat);
            half_even_scales(n as nat, d as nat, p);
            assert(nearest_magnitude(magnitude_steps(self.magnitude()) * 100) == (if m
                < INFINITE {
                m
            } else {
                INFINITE
            }));
        }
        let m: u64 = if m < INFINITE {
            m
        } else {
            INFINITE
        };
        if self.bits >= SIGN {
            Binary64 { bits: SIGN + m }
        } else {
            Binary64 { bits: m }
        }
    }

    /// `part` of `whole` in percent: the quotient, times one hundred, each
    /// step rounded as binary64 arithmetic rounds it.
    pub fn percent(part: u64, whole: u64) -> (r: Binary64)
        requires
            0 < whole < 2 * IMPLICIT,
            part < 2 * IMPLICIT,
        ensures
            r == Binary64::percent_of(part as nat, whole as nat),
    {
        if part == 0 {
            return Binary64 { bits: 0 };
        }
        proof {
            lemma2_to64();
            lemma2_to64_rest();
            let big = pow2(106);
            lemma_pow2_adds(53, 53);
            assert(part * big >= whole * IMPLICIT) by (nonlinear_arith)
                requires
                    big == pow2(53) * pow2(53),
                    pow2(53) == 0x20_0000_0000_0000,
                    part >= 1,
                    whole < 0x20_0000_0000_0000,
                    IMPLICIT == 0x10_0000_0000_0000,
            ;
            doublings_suffice(part as nat, whole as nat, 106);
            assert(part < whole * (2 * IMPLICIT)) by (nonlinear_arith)
                requires
                    part < 2 * IMPLICIT,
                    whole >= 1,
            ;
        }
        let (mantissa, s): (u64, u64) = round_ratio(part as u128, whole as u128);
        let product: u128 = mantissa as u128 * 100;
        if product < 0x800_0000_0000_0000 {
            Binary64 { bits: (1080 - s) * IMPLICIT + round_half_even(product, 64) as u64 }
        } else {
            Binary64 { bits: (1081 - s) * IMPLICIT + round_half_even(product, 128) as u64 }
        }
    }

    /// The seconds in as many hours, and a two hundred and fortieth of those:
    /// each product and quotient rounded as binary64 arithmetic rounds it, then
    /// its fraction dropped.
    pub fn hours_in_seconds(self) -> (r: (u64, u64))
        requires
            0x3fd0_0000_0000_0000 <= self.bits <= 0x40a0_e000_0000_0000,
        ensures
            r.0 == self.whole_seconds(),
            r.1 == self.whole_steps(),
    {
        let exponent: u64 = self.bits / IMPLICIT;
        let mantissa: u64 = IMPLICIT + self.bits % IMPLICIT;
        let k: u64 = 1075 - exponent;
        let unit: u128 = power_of_two(k);
        proof {
            lemma2_to64();
            lemma2_to64_rest();
            assert(self.magnitude() == self.bits);
            assert(self.binary_point() == k);
            if 41 < k {
                lemma_pow2_strictly_increases(41, k as nat);
            }
            assert(mantissa * 3600 < unit * (2 * IMPLICIT)) by (nonlinear_arith)
                requires
                    mantissa < 0x20_0000_0000_0000,
                    unit >= 0x200_0000_0000,
                    IMPLICIT == 0x10_0000_0000_0000,
            ;
        }
        let (product, s): (u64, u64) = round_ratio(mantissa as u128 * 3600, unit);
        proof {
            let p = pow2(k as nat);
            assert((mantissa * 3600) * p >= p * IMPLICIT) by (nonlinear_arith)
                requires
                    mantissa >= IMPLICIT,
                    p >= 0,
            ;
            doublings_suffice((mantissa * 3600) as nat, p, k as nat);
        }
        let point: u128 = power_of_two(s);
        proof {
            assert(product < (240 * point) * (2 * IMPLICIT)) by (nonlinear_arith)
                requires
                    product <= 2 * IMPLICIT,
                    point >= 1,
                    IMPLICIT == 0x10_0000_0000_0000,
            ;
            lemma_pow2_adds(s as nat, 8);
            let p = pow2((s + 8) as nat);
            assert(product * p >= (240 * point) * IMPLICIT) by (nonlinear_arith)
                requires
                    p == point * 256,
                    product >= IMPLICIT,
                    point >= 0,
            ;
            doublings_suffice(product as nat, (240 * point) as nat, (s + 8) as nat);
        }
        let (quotient, t): (u64, u64) = round_ratio(product as u128, 240 * point);
        ((product as u128 / point) as u64, (quotient as u128 / power_of_two(t)) as u64)
    }

    /// The number without decimals, rounded to the nearest integer with ties
    /// to even.
    pub fn push_rounded(self, out: &mut String)
        ensures
            final(out)@ == old(out)@ + self.rounded_text(),
    {
        let ghost before = out@;
        if self.is_nan() {
            out.append("NaN");
            return ;
        }
        if self.bits >= SIGN {
            out.append("-");
        }
        let ghost start = out@;
        if !self.is_finite() {
            out.append("inf");
            assert(out@ =~= before + self.rounded_text());
            return ;
        }
        let magnitude: u64 = self.get_magnitude();
        let exponent: u64 = magnitude / IMPLICIT;
        let fraction: u64 = magnitude % IMPLICIT;
        proof {
            lemma_pow2_pos(1074);
            lemma2_to64();
            lemma2_to64_rest();
        }
        if exponent >= 1075 {
            let mut digits: Vec<u8> = to_digits(IMPLICIT + fraction);
            let mut k: u64 = 1075;
            proof {
                assert(pow2(0) == 1);
                assert((IMPLICIT + fraction) * pow2(0) == IMPLICIT + fraction) by (nonlinear_arith)
                    requires
                        pow2(0) == 1,
                ;
            }
            while k < exponent
                invariant
                    1075 <= k <= exponent,
                    exponent < 2047,
                    proper_digits(digits@),
                    digits_value(digits@) == (IMPLICIT + fraction) * pow2((k - 1075) as nat),
                decreases exponent - k,
            {
                double_digits(&mut digits);
                proof {
                    lemma_pow2_unfold((k - 1074) as nat);
                    let p = pow2((k - 1075) as nat);
                    assert((IMPLICIT + fraction) * (2 * p) == 2 * ((IMPLICIT + fraction) * p))
                        by (nonlinear_arith);
                }
                k = k + 1;
            }
            push_digits(out, &digits);
            proof {
                let m: nat = (IMPLICIT + fraction) as nat;
                let p = pow2((exponent - 1075) as nat);
                lemma_pow2_adds((exponent - 1075) as nat, 1074);
                lemma_mul_is_associative(m as int, p as int, pow2(1074) as int);
                assert(magnitude_steps(self.magnitude()) == (m * p) * pow2(1074));
                half_even_scales(m * p, 1, pow2(1074));
                assert(half_even(m * p, 1) == m * p);
                assert(1 * pow2(1074) == pow2(1074));
            }
        } else if exponent >= 1022 {
            let k: u64 = 1075 - exponent;
            let rounded: u128 = round_half_even(
                (IMPLICIT + fraction) as u128,
                power_of_two(k),
            );
            push_decimal(out, rounded as u64);
            proof {
                let m: nat = (IMPLICIT + fraction) as nat;
                let p = pow2((exponent - 1) as nat);
                lemma_pow2_pos((exponent - 1) as nat);
                lemma_pow2_adds(k as nat, (exponent - 1) as nat);
                half_even_scales(m, pow2(k as nat), p);
            }
        } else {
            out.append("0");
            proof {
                reveal_strlit("0");
                small_magnitudes_round_to_zero(magnitude as nat);
                assert(decimal(0) =~= "0"@);
            }
        }
        assert(out@ =~= before + self.rounded_text());
    }
}

/// Numbers below one half round to zero.
proof fn small_magnitudes_round_to_zero(magnitude: nat)
    requires
        magnitude < 1022 * IMPLICIT,
    ensures
        half_even(magnitude_steps(magnitude), pow2(1074)) == 0,
{
    magnitudes_are_ordered(magnitude, (1022 * IMPLICIT) as nat);
    assert((1022 * IMPLICIT) as nat / IMPLICIT as nat == 1022);
    assert((1022 * IMPLICIT) as nat % IMPLICIT as nat == 0);
    lemma2_to64();
    lemma2_to64_rest();
    lemma_pow2_adds(52, 1021);
    lemma_pow2_unfold(1074);
    let n = magnitude_steps(magnitude);
    assert(2 * n < pow2(1074));
    lemma_small_mod(n, pow2(1074));
    lemma_basic_div(n as int, pow2(1074) as int);
}

/// 2^k.
fn power_of_two(k: u64) -> (r: u128)
    requires
        k <= 63,
    ensures
        r == pow2(k as nat),
        0 < r <= 0x8000_0000_0000_0000,
{
    let mut r: u128 = 1;
    let mut i: u64 = 0;
    proof {
        lemma2_to64();
        lemma2_to64_rest();
    }
    while i < k
        invariant
            i <= k <= 63,
            r == pow2(i as nat),
            0 < r <= 0x8000_0000_0000_0000,
        decreases k - i,
    {
        proof {
            lemma_pow2_unfold((i + 1) as nat);
            if i + 1 < 63 {
                lemma_pow2_strictly_increases((i + 1) as nat, 63);
            }
            lemma2_to64();
            lemma2_to64_rest();
        }
        r = 2 * r;
        i = i + 1;
    }
    r
}

/// The total order of bit patterns.
pub open spec fn by_rank() -> spec_fn(Binary64, Binary64) -> bool {
    |a: Binary64, b: Binary64| a.rank() <= b.rank()
}

/// Merges two sorted lists.
fn merge_ranked(a: &Vec<Binary64>, b: &Vec<Binary64>) -> (r: Vec<Binary64>)
    requires
        sorted_by(a@, by_rank()),
        sorted_by(b@, by_rank()),
    ensures
        sorted_by(r@, by_rank()),
        r@.to_multiset() == a@.to_multiset().add(b@.to_multiset()),
{
    broadcast use vstd::seq_lib::group_to_multiset_ensures;

    let mut r: Vec<Binary64> = Vec::new();
    let mut i: usize = 0;
    let mut j: usize = 0;
    assert(r@.to_multiset() =~= a@.take(0).to_multiset().add(b@.take(0).to_multiset()));
    while i < a.len() || j < b.len()
        invariant
            i <= a@.len(),
            j <= b@.len(),
            sorted_by(a@, by_rank()),
            sorted_by(b@, by_rank()),
            sorted_by(r@, by_rank()),
            forall|x: int, y: int|
                0 <= x < r@.len() && i <= y < a@.len() ==> #[trigger] r@[x].rank()
                    <= #[trigger] a@[y].rank(),
            forall|x: int, y: int|
                0 <= x < r@.len() && j <= y < b@.len() ==> #[trigger] r@[x].rank()
                    <= #[trigger] b@[y].rank(),
            r@.to_multiset() == a@.take(i as int).to_multiset().add(
                b@.take(j as int).to_multiset(),
            ),
        decreases a@.len() - i + b@.len() - j,
    {
        let ghost before = r@;
        let from_a: bool = if j >= b.len() {
            true
        } else if i >= a.len() {
            false
        } else {
            a[i].sort_key() <= b[j].sort_key()
        };
        if from_a {
            proof {
                assert(a@.take(i + 1) =~= a@.take(i as int).push(a@[i as int]));
                vstd::seq_lib::to_multiset_build(a@.take(i as int), a@[i as int]);
                vstd::seq_lib::to_multiset_build(r@, a@[i as int]);
                assert forall|y: int| i < y < a@.len() implies a@[i as int].rank()
                    <= #[trigger] a@[y].rank() by {
                    assert(by_rank()(a@[i as int], a@[y]));
                }
                assert forall|y: int| j <= y < b@.len() implies a@[i as int].rank()
                    <= #[trigger] b@[y].rank() by {
                    if y > j {
                        assert(by_rank()(b@[j as int], b@[y]));
                    }
                }
            }
            r.push(a[i]);
            i = i + 1;
        } else {
            proof {
                assert(b@.take(j + 1) =~= b@.take(j as int).push(b@[j as int]));
                vstd::seq_lib::to_multiset_build(b@.take(j as int), b@[j as int]);
                vstd::seq_lib::to_multiset_build(r@, b@[j as int]);
                assert forall|y: int| j < y < b@.len() implies b@[j as int].rank()
                    <= #[trigger] b@[y].rank() by {
                    assert(by_rank()(b@[j as int], b@[y]));
                }
                assert forall|y: int| i <= y < a@.len() implies b@[j as int].rank()
                    <= #[trigger] a@[y].rank() by {
                    if y > i {
                        assert(by_rank()(a@[i as int], a@[y]));
                    }
                }
            }
            r.push(b[j]);
            j = j + 1;
        }
        proof {
            assert(r@.to_multiset() =~= a@.take(i as int).to_multiset().add(
                b@.take(j as int).to_multiset(),
            ));
            assert forall|x: int, y: int| 0 <= x < y < r@.len() implies #[trigger] by_rank()(
                r@[x],
                r@[y],
            ) by {
                if y < before.len() {
                    assert(by_rank()(before[x], before[y]));
                }
            }
        }
    }
    assert(a@.take(i as int) =~= a@);
    assert(b@.take(j as int) =~= b@);
    r
}

/// The numbers in the total order.
pub fn sort_ranked(v: Vec<Binary64>) -> (r: Vec<Binary64>)
    ensures
        r@ == v@.sort_by(by_rank()),
        r@.len() == v@.len(),
{
    let r = merge_sort_ranked(v);
    proof {
        broadcast use vstd::seq_lib::group_to_multiset_ensures;

        assert(antisymmetric(by_rank())) by {
            assert forall|a: Binary64, b: Binary64|
                #[trigger] by_rank()(a, b) && #[trigger] by_rank()(b, a) implies a == b by {
                rank_is_injective(a, b);
            }
        }
        v@.lemma_sort_by_ensures(by_rank());
        vstd::seq_lib::lemma_sorted_unique(r@, v@.sort_by(by_rank()), by_rank());
    }
    r
}

fn merge_sort_ranked(v: Vec<Binary64>) -> (r: Vec<Binary64>)
    ensures
        sorted_by(r@, by_rank()),
        r@.to_multiset() == v@.to_multiset(),
        r@.len() == v@.len(),
    decreases v@.len(),
{
    broadcast use vstd::seq_lib::group_to_multiset_ensures;

    if v.len() < 2 {
        return v;
    }
    let mut left = v;
    let middle: usize = left.len() / 2;
    let right = left.split_off(middle);
    proof {
        vstd::seq_lib::lemma_multiset_commutative(left@, right@);
        assert(left@ + right@ =~= v@);
    }
    let left = merge_sort_ranked(left);
    let right = merge_sort_ranked(right);
    let r = merge_ranked(&left, &right);
    assert(r@.to_multiset().len() == r@.len());
    assert(v@.to_multiset().len() == v@.len());
    r
}

/// Two numbers at one place of the total order are the same bit pattern.
pub proof fn rank_is_injective(a: Binary64, b: Binary64)
    requires
        a.rank() == b.rank(),
    ensures
        a == b,
{
}

} // verus!
