//! What the numbers and texts of the library mean, by their digits and by
//! plain arithmetic.

use crate::binary64::{
    doublings, half_even, halvings, magnitude_steps, magnitudes_are_ordered, nearest_magnitude,
    percentages_stay_within_a_hundred, significand, Binary64,
};
use crate::events::duration_text;
use crate::target::{ago, elapsed, seconds_between};
use crate::text::{decimal, decimal_two, trimmed_end};
use crate::web::window_text;
use vstd::arithmetic::div_mod::*;
use vstd::arithmetic::power2::*;
use vstd::prelude::*;

verus! {

/// The number that a row of digits reads as.
pub open spec fn read_number(s: Seq<char>) -> nat
    decreases s.len(),
{
    if s.len() == 0 {
        0
    } else {
        (10 * read_number(s.drop_last()) + (s.last() as int - 48)) as nat
    }
}

/// Whether a text is all digits.
pub open spec fn all_digits(s: Seq<char>) -> bool {
    forall|i: int| 0 <= i < s.len() ==> 48 <= (#[trigger] s[i]) as int <= 57
}

/// A number is printed in digits that read back as the number, without leading
/// zeros.
pub proof fn numbers_read_back(n: nat)
    ensures
        decimal(n).len() > 0,
        all_digits(decimal(n)),
        read_number(decimal(n)) == n,
        decimal(n).len() > 1 ==> decimal(n)[0] as int != 48,
    decreases n,
{
    reveal_with_fuel(read_number, 2);
    if n >= 10 {
        numbers_read_back(n / 10);
        let front = decimal(n / 10);
        assert(decimal(n).drop_last() =~= front);
        assert(decimal(n)[0] == front[0]);
        if front.len() == 1 {
            assert(front.drop_last() =~= Seq::<char>::empty());
            assert(read_number(front) == front[0] as int - 48);
        }
    } else {
        assert(decimal(n).drop_last() =~= Seq::<char>::empty());
    }
}

/// A number below one hundred is printed in two digits where two are asked for.
pub proof fn two_digits_read_back(n: nat)
    requires
        n < 100,
    ensures
        decimal_two(n).len() == 2,
        all_digits(decimal_two(n)),
        read_number(decimal_two(n)) == n,
{
    reveal_with_fuel(read_number, 3);
    reveal_with_fuel(decimal, 3);
    numbers_read_back(n);
    let s = decimal_two(n);
    assert(s.drop_last().drop_last() =~= Seq::<char>::empty());
}

/// Trimming takes off the trailing characters of a kind, all of them and
/// nothing else.
pub proof fn trimming_takes_off_the_end(s: Seq<u8>, c: u8)
    ensures
        trimmed_end(s, c).len() <= s.len(),
        trimmed_end(s, c) == s.take(trimmed_end(s, c).len() as int),
        forall|i: int| trimmed_end(s, c).len() <= i < s.len() ==> (#[trigger] s[i]) == c,
        trimmed_end(s, c).len() > 0 ==> s[trimmed_end(s, c).len() - 1] != c,
    decreases s.len(),
{
    if s.len() > 0 && s.last() == c {
        let t = s.drop_last();
        trimming_takes_off_the_end(t, c);
        let n = trimmed_end(t, c).len() as int;
        assert(trimmed_end(s, c) == trimmed_end(t, c));
        assert(t.take(n) =~= s.take(n));
        assert forall|i: int| n <= i < s.len() implies (#[trigger] s[i]) == c by {
            if i < t.len() {
                assert(t[i] == c);
            }
        }
    } else {
        assert(trimmed_end(s, c) =~= s.take(s.len() as int));
    }
}

/// The like for texts.
pub proof fn trimming_takes_off_the_end_of_texts(s: Seq<char>, c: char)
    ensures
        trimmed_end(s, c).len() <= s.len(),
        trimmed_end(s, c) == s.take(trimmed_end(s, c).len() as int),
        forall|i: int| trimmed_end(s, c).len() <= i < s.len() ==> (#[trigger] s[i]) == c,
        trimmed_end(s, c).len() > 0 ==> s[trimmed_end(s, c).len() - 1] != c,
    decreases s.len(),
{
    if s.len() > 0 && s.last() == c {
        let t = s.drop_last();
        trimming_takes_off_the_end_of_texts(t, c);
        let n = trimmed_end(t, c).len() as int;
        assert(trimmed_end(s, c) == trimmed_end(t, c));
        assert(t.take(n) =~= s.take(n));
        assert forall|i: int| n <= i < s.len() implies (#[trigger] s[i]) == c by {
            if i < t.len() {
                assert(t[i] == c);
            }
        }
    } else {
        assert(trimmed_end(s, c) =~= s.take(s.len() as int));
    }
}

/// A duration is told in seconds, in minutes and seconds, in hours and minutes
/// or in days and hours, and never in more than it lasted.
pub proof fn durations_read_back(secs: u64)
    ensures
        secs < 60 ==> exists|a: Seq<char>|
            #[trigger] all_digits(a) && duration_text(secs) == a + "s"@ && read_number(a) == secs,
        60 <= secs < 3600 ==> exists|a: Seq<char>, b: Seq<char>|
            #[trigger] all_digits(a) && #[trigger] all_digits(b) && b.len() == 2
                && duration_text(secs) == a + "m "@ + b + "s"@ && read_number(a) * 60 + read_number(
                b,
            ) == secs && read_number(b) < 60,
        3600 <= secs < 86400 ==> exists|a: Seq<char>, b: Seq<char>|
            #[trigger] all_digits(a) && #[trigger] all_digits(b) && b.len() == 2
                && duration_text(secs) == a + "h "@ + b + "m"@ && read_number(b) < 60
                && read_number(a) * 3600 + read_number(b) * 60 <= secs < read_number(a) * 3600
                + read_number(b) * 60 + 60,
        86400 <= secs ==> exists|a: Seq<char>, b: Seq<char>|
            #[trigger] all_digits(a) && #[trigger] all_digits(b) && duration_text(secs) == a + "d "@
                + b + "h"@ && read_number(b) < 24 && read_number(a) * 86400 + read_number(b) * 3600
                <= secs < read_number(a) * 86400 + read_number(b) * 3600 + 3600,
{
    if secs < 60 {
        numbers_read_back(secs as nat);
        assert(all_digits(decimal(secs as nat)));
    } else if secs < 3600 {
        numbers_read_back((secs / 60) as nat);
        two_digits_read_back((secs % 60) as nat);
        assert(all_digits(decimal((secs / 60) as nat)) && all_digits(
            decimal_two((secs % 60) as nat),
        ));
    } else if secs < 86400 {
        numbers_read_back((secs / 3600) as nat);
        two_digits_read_back(((secs % 3600) / 60) as nat);
        assert(all_digits(decimal((secs / 3600) as nat)) && all_digits(
            decimal_two(((secs % 3600) / 60) as nat),
        ));
    } else {
        numbers_read_back((secs / 86400) as nat);
        numbers_read_back(((secs % 86400) / 3600) as nat);
        assert(all_digits(decimal((secs / 86400) as nat)) && all_digits(
            decimal(((secs % 86400) / 3600) as nat),
        ));
    }
}

/// A window is labelled in days just if it is some whole days, in hours
/// otherwise, and the label reads back as the window.
pub proof fn window_labels_read_back(hours: u64)
    ensures
        hours > 0 && hours % 24 == 0 ==> exists|a: Seq<char>|
            #[trigger] all_digits(a) && window_text(hours) == a + " d"@ && read_number(a) * 24
                == hours,
        hours == 0 || hours % 24 != 0 ==> exists|a: Seq<char>|
            #[trigger] all_digits(a) && window_text(hours) == a + " h"@ && read_number(a) == hours,
{
    if hours > 0 && hours % 24 == 0 {
        numbers_read_back((hours / 24) as nat);
        assert(all_digits(decimal((hours / 24) as nat)));
    } else {
        numbers_read_back(hours as nat);
        assert(all_digits(decimal(hours as nat)));
    }
}

/// Spans of time by the two clocks, in plain arithmetic: whole seconds of
/// nanoseconds that have passed, seconds from one time to another, and a time
/// some seconds ago; none of them below zero.
pub proof fn spans_add_up(earlier: u64, later: u64, secs: u64)
    ensures
        earlier <= later ==> earlier + seconds_between(earlier, later) * 1_000_000_000 <= later
            < earlier + (seconds_between(earlier, later) + 1) * 1_000_000_000,
        later < earlier ==> seconds_between(earlier, later) == 0,
        earlier <= later ==> earlier + elapsed(earlier, later) == later,
        later < earlier ==> elapsed(earlier, later) == 0,
        secs <= later ==> ago(later, secs as int) + secs == later,
        later < secs ==> ago(later, secs as int) == 0,
{
}

/// Rounding gives a nearest integer, and the even one of two.
pub proof fn rounding_is_to_the_nearest(n: nat, d: nat)
    requires
        d > 0,
    ensures
        2 * (half_even(n, d) * d) <= 2 * n + d,
        2 * n <= 2 * (half_even(n, d) * d) + d,
        2 * n == 2 * (half_even(n, d) * d) + d ==> half_even(n, d) % 2 == 0,
        2 * (half_even(n, d) * d) == 2 * n + d ==> half_even(n, d) % 2 == 0,
{
    let q = n / d;
    let r = n % d;
    lemma_fundamental_div_mod(n as int, d as int);
    assert((q + 1) * d == d * q + d) by (nonlinear_arith);
    assert(q * d == d * q) by (nonlinear_arith);
}

/// Doubling goes on just until the quotient reaches 2^52.
pub proof fn doublings_are_just_enough(n: nat, d: nat)
    requires
        n > 0,
        d > 0,
    ensures
        n * pow2(doublings(n, d)) >= d * 0x10_0000_0000_0000,
        forall|k: nat| k < doublings(n, d) ==> n * #[trigger] pow2(k) < d * 0x10_0000_0000_0000,
    decreases (if n < d * 0x10_0000_0000_0000 { d * 0x10_0000_0000_0000 - n } else { 0 }),
{
    lemma2_to64();
    if n < d * 0x10_0000_0000_0000 {
        doublings_are_just_enough(2 * n, d);
        let s = doublings(2 * n, d);
        assert(doublings(n, d) == s + 1);
        lemma_pow2_unfold(s + 1);
        assert((2 * n) * pow2(s) == n * (2 * pow2(s))) by (nonlinear_arith);
        assert forall|k: nat| k < s + 1 implies n * #[trigger] pow2(k) < d * 0x10_0000_0000_0000 by {
            if k > 0 {
                lemma_pow2_unfold(k);
                let p = pow2((k - 1) as nat);
                assert((2 * n) * p == n * (2 * p)) by (nonlinear_arith);
                assert((2 * n) * p < d * 0x10_0000_0000_0000);
            } else {
                assert(n * pow2(0) == n) by (nonlinear_arith)
                    requires
                        pow2(0) == 1,
                ;
            }
        }
    } else {
        assert(n * pow2(0) == n) by (nonlinear_arith)
            requires
                pow2(0) == 1,
        ;
    }
}

/// Halving goes on just until the value falls below 2^53.
pub proof fn halvings_are_just_enough(n: nat)
    ensures
        n < 0x20_0000_0000_0000 * pow2(halvings(n)),
        halvings(n) > 0 ==> n >= 0x10_0000_0000_0000 * pow2(halvings(n)),
    decreases n,
{
    lemma2_to64();
    if n < 0x20_0000_0000_0000 {
        assert(0x20_0000_0000_0000 * pow2(0) == 0x20_0000_0000_0000) by (nonlinear_arith)
            requires
                pow2(0) == 1,
        ;
    } else {
        halvings_are_just_enough(n / 2);
        let s = halvings(n / 2);
        lemma_pow2_unfold(s + 1);
        let p = pow2(s);
        assert(0x20_0000_0000_0000 * (2 * p) == 2 * (0x20_0000_0000_0000 * p)) by (nonlinear_arith);
        assert(0x10_0000_0000_0000 * (2 * p) == 2 * (0x10_0000_0000_0000 * p)) by (nonlinear_arith);
        if s == 0 {
            assert(0x20_0000_0000_0000 * p == 0x20_0000_0000_0000) by (nonlinear_arith)
                requires
                    p == 1,
            ;
        }
    }
}

/// The numbers of the format: magnitude zero is zero, and each next magnitude
/// is the next larger value, a step of 2^-1074 away at first and twice as far
/// from each power of two on.
pub proof fn magnitudes_count_steps(m: nat)
    ensures
        magnitude_steps(0) == 0,
        m < 0x20_0000_0000_0000 ==> magnitude_steps(m + 1) == magnitude_steps(m) + 1,
        m >= 0x10_0000_0000_0000 ==> magnitude_steps(m + 1) == magnitude_steps(m) + pow2(
            (m / 0x10_0000_0000_0000 - 1) as nat,
        ),
{
    lemma2_to64();
    let i: nat = 0x10_0000_0000_0000;
    let e = m / i;
    let f = m % i;
    lemma_fundamental_div_mod(m as int, i as int);
    if f + 1 < i {
        lemma_fundamental_div_mod_converse((m + 1) as int, i as int, e as int, (f + 1) as int);
        if e > 0 {
            let p = pow2((e - 1) as nat);
            assert((i + f + 1) * p == (i + f) * p + p) by (nonlinear_arith);
        }
    } else {
        assert(m + 1 == (e + 1) * i) by (nonlinear_arith)
            requires
                m == i * e + f,
                f + 1 == i,
        ;
        lemma_fundamental_div_mod_converse((m + 1) as int, i as int, (e + 1) as int, 0);
        let q = pow2(e);
        if e > 0 {
            let p = pow2((e - 1) as nat);
            lemma_pow2_unfold(e);
            assert(i * (2 * p) == (i + f) * p + p) by (nonlinear_arith)
                requires
                    f + 1 == i,
            ;
        } else {
            assert(i * q == i) by (nonlinear_arith)
                requires
                    q == 1,
            ;
        }
    }
    if e == 1 {
        assert((i + f) * pow2(0) == i + f) by (nonlinear_arith)
            requires
                pow2(0) == 1,
        ;
    }
}

/// The parts of a bit pattern: a sign bit, eleven bits of exponent, fifty-two of
/// fraction. An exponent of all ones is infinite, or not a number if there is a
/// fraction.
pub proof fn bit_patterns_have_three_parts(x: Binary64)
    ensures
        x.negative() == (x.bits / 0x8000_0000_0000_0000 == 1),
        x.finite() == ((x.bits / 0x10_0000_0000_0000) % 2048 != 2047),
        x.nan() == ((x.bits / 0x10_0000_0000_0000) % 2048 == 2047 && x.bits % 0x10_0000_0000_0000
            != 0),
        x.negative() ==> x.bits == 0x8000_0000_0000_0000 + x.magnitude(),
        !x.negative() ==> x.bits == x.magnitude(),
{
    let b = x.bits;
    assert((b % 0x8000_0000_0000_0000) / 0x10_0000_0000_0000 == (b / 0x10_0000_0000_0000) % 2048
        && (b % 0x8000_0000_0000_0000) % 0x10_0000_0000_0000 == b % 0x10_0000_0000_0000)
        by (bit_vector);
}

/// Comparing numbers: by their steps, never with what is not a number. The
/// order is total among numbers and agrees with the total order of bit patterns,
/// in which only the two zeros that compare equal are apart.
pub proof fn numbers_compare(a: Binary64, b: Binary64)
    ensures
        a.at_least(a) == !a.nan(),
        a.nan() || b.nan() ==> !a.at_least(b),
        !a.nan() && !b.nan() ==> a.at_least(b) || b.at_least(a),
        !a.nan() && !b.nan() && a.rank() >= b.rank() ==> a.at_least(b),
        !a.nan() && !b.nan() && a.at_least(b) && a.rank() < b.rank() ==> a.magnitude() == 0
            && b.magnitude() == 0,
        a.lesser(b) == a || a.lesser(b) == b,
        !a.nan() && !b.nan() ==> a.at_least(a.lesser(b)) && b.at_least(a.lesser(b)),
        a.nan() ==> a.lesser(b) == b,
        b.nan() && !a.nan() ==> a.lesser(b) == a,
        b.at_least(a) ==> a.lesser(b) == a,
{
    let x = a.magnitude();
    let y = b.magnitude();
    if x < y {
        magnitudes_are_ordered(x, y);
    } else if y < x {
        magnitudes_are_ordered(y, x);
    }
    if x > 0 {
        magnitudes_are_ordered(0, x);
    }
    if y > 0 {
        magnitudes_are_ordered(0, y);
    }
}

/// The total order of bit patterns: that of the bits among those without a
/// sign, the reverse among those with one, and the latter first.
pub proof fn bit_patterns_are_ranked(a: Binary64, b: Binary64)
    ensures
        a.bits < 0x8000_0000_0000_0000 && b.bits < 0x8000_0000_0000_0000 ==> (a.rank() < b.rank()
            <==> a.bits < b.bits),
        a.bits >= 0x8000_0000_0000_0000 && b.bits >= 0x8000_0000_0000_0000 ==> (a.rank() < b.rank()
            <==> a.bits > b.bits),
        a.bits >= 0x8000_0000_0000_0000 && b.bits < 0x8000_0000_0000_0000 ==> a.rank() < b.rank(),
{
}

/// A number in the upper half of its binade, by its exponent and significand.
proof fn significands_are_scaled(e: nat, h: nat)
    requires
        0x10_0000_0000_0000 <= h <= 0x20_0000_0000_0000,
    ensures
        magnitude_steps(e * 0x10_0000_0000_0000 + h) == h * pow2(e),
{
    let i: nat = 0x10_0000_0000_0000;
    let m = e * i + h;
    lemma_pow2_unfold(e + 1);
    let p = pow2(e);
    if h < 0x20_0000_0000_0000 {
        assert(m == i * (e + 1) + (h - i)) by (nonlinear_arith)
            requires
                m == e * i + h,
        ;
        lemma_fundamental_div_mod_converse(m as int, i as int, (e + 1) as int, (h - i) as int);
    } else {
        assert(m == i * (e + 2)) by (nonlinear_arith)
            requires
                m == e * i + h,
                h == 2 * i,
        ;
        lemma_fundamental_div_mod_converse(m as int, i as int, (e + 2) as int, 0);
        assert(i * (2 * p) == h * p) by (nonlinear_arith)
            requires
                h == 2 * i,
        ;
    }
}

/// A quotient in 53 significant bits is off by half a bit at most.
proof fn significands_are_close(n: nat, d: nat)
    requires
        n > 0,
        d > 0,
    ensures
        ({
            let q = significand(n, d);
            let p = pow2(doublings(n, d));
            &&& p > 0
            &&& n * p >= d * 0x10_0000_0000_0000
            &&& 2 * (q * d) <= 2 * (n * p) + d
            &&& 2 * (n * p) <= 2 * (q * d) + d
            &&& (q * d) * 0x20_0000_0000_0000 <= (n * p) * 0x20_0000_0000_0001
            &&& (q * d) * 0x20_0000_0000_0000 >= (n * p) * 0x1f_ffff_ffff_ffff
        }),
{
    doublings_are_just_enough(n, d);
    lemma_pow2_pos(doublings(n, d));
    rounding_is_to_the_nearest(n * pow2(doublings(n, d)), d);
}

/// The two roundings behind a percentage, and where they lead.
proof fn percentages_have_two_roundings(part: nat, whole: nat)
    requires
        0 < part <= whole,
        0 < whole < 0x20_0000_0000_0000,
    ensures
        ({
            let s = doublings(part, whole);
            let q = significand(part, whole);
            let t: nat = if q * 100 < pow2(59) {
                6
            } else {
                7
            };
            let h = half_even(q * 100, pow2(t));
            &&& s <= 105
            &&& 0x10_0000_0000_0000 <= q <= 0x20_0000_0000_0000
            &&& 0x10_0000_0000_0000 <= h <= 0x20_0000_0000_0000
            &&& Binary64::percent_of(part, whole).steps() == h * pow2((1074 + t - s) as nat)
        }),
{
    lemma2_to64();
    lemma2_to64_rest();
    percentages_stay_within_a_hundred(part, whole);
    let s = doublings(part, whole);
    let n = part * pow2(s);
    let q = significand(part, whole);
    significands_are_close(part, whole);
    // At most 105 doublings, and no more than reach 2^52.
    assert(s <= 105) by {
        if s > 105 {
            doublings_are_just_enough(part, whole);
            lemma_pow2_adds(53, 52);
            assert(part * pow2(105) >= whole * 0x10_0000_0000_0000) by (nonlinear_arith)
                requires
                    pow2(105) == pow2(53) * pow2(52),
                    pow2(53) == 0x20_0000_0000_0000,
                    pow2(52) == 0x10_0000_0000_0000,
                    part >= 1,
                    whole < 0x20_0000_0000_0000,
            ;
        }
    }
    assert(n < 2 * (whole * 0x10_0000_0000_0000)) by {
        doublings_are_just_enough(part, whole);
        if s > 0 {
            lemma_pow2_unfold(s);
            let half = pow2((s - 1) as nat);
            assert(part * half < whole * 0x10_0000_0000_0000);
            assert(part * (2 * half) == 2 * (part * half)) by (nonlinear_arith);
        } else {
            assert(part * pow2(0) == part) by (nonlinear_arith)
                requires
                    pow2(0) == 1,
            ;
        }
    }
    assert(0x10_0000_0000_0000 <= q <= 0x20_0000_0000_0000) by (nonlinear_arith)
        requires
            2 * (q * whole) <= 2 * n + whole,
            2 * n <= 2 * (q * whole) + whole,
            n >= whole * 0x10_0000_0000_0000,
            n < 2 * (whole * 0x10_0000_0000_0000),
            whole > 0,
    ;
    let product = q * 100;
    let t: nat = if product < pow2(59) {
        6
    } else {
        7
    };
    let unit: nat = if product < pow2(59) {
        64
    } else {
        128
    };
    assert(pow2(t) == unit);
    let h = half_even(product, unit);
    rounding_is_to_the_nearest(product, unit);
    assert(0x10_0000_0000_0000 <= h <= 0x20_0000_0000_0000);
    let e = (1074 + t - s) as nat;
    significands_are_scaled(e, h);
    let v = h * pow2(e);
    let percent = Binary64::percent_of(part, whole);
    assert(percent.magnitude() == e * 0x10_0000_0000_0000 + h);
    assert(percent.steps() == v);
}

/// A part of a whole in percent is one hundred times the part, divided by the
/// whole, to within a relative error of 2^-51.
pub proof fn percentages_are_close(part: nat, whole: nat)
    requires
        0 < part <= whole,
        0 < whole < 0x20_0000_0000_0000,
    ensures
        ({
            let percent = Binary64::percent_of(part, whole).steps() * whole;
            let exact = 100 * part * pow2(1074);
            &&& (percent - exact) * 0x8_0000_0000_0000 <= exact
            &&& (exact - percent) * 0x8_0000_0000_0000 <= exact
        }),
        Binary64::percent_of(0, whole).steps() == 0,
{
    lemma2_to64();
    lemma2_to64_rest();
    percentages_have_two_roundings(part, whole);
    significands_are_close(part, whole);
    let s = doublings(part, whole);
    let n = part * pow2(s);
    let q = significand(part, whole);
    let product = q * 100;
    let t: nat = if product < pow2(59) {
        6
    } else {
        7
    };
    let unit: nat = if product < pow2(59) {
        64
    } else {
        128
    };
    assert(pow2(t) == unit);
    let h = half_even(product, unit);
    rounding_is_to_the_nearest(product, unit);
    let e = (1074 + t - s) as nat;
    let v = h * pow2(e);
    lemma_pow2_adds(e, s);
    lemma_pow2_adds(1074, t);
    let u = pow2(1074);
    let p = pow2(s);
    let pe = pow2(e);
    assert(pe * p == u * unit);
    let d = (h * unit) * whole - 100 * n;
    assert(-114 * whole <= d <= 114 * whole) by (nonlinear_arith)
        requires
            d == (h * unit) * whole - 100 * n,
            2 * (h * unit) <= 2 * (100 * q) + unit,
            2 * (100 * q) <= 2 * (h * unit) + unit,
            2 * (q * whole) <= 2 * n + whole,
            2 * n <= 2 * (q * whole) + whole,
            unit <= 128,
            whole > 0,
    ;
    assert(d * 0x8_0000_0000_0000 <= 100 * n && -d * 0x8_0000_0000_0000 <= 100 * n) by (nonlinear_arith)
        requires
            -114 * whole <= d <= 114 * whole,
            n >= whole * 0x10_0000_0000_0000,
            whole > 0,
    ;
    let x = v * whole - 100 * part * u;
    assert(((h * pe) * whole) * p == ((h * unit) * whole) * u) by {
        assert(((h * pe) * whole) * p == (h * whole) * (pe * p)) by (nonlinear_arith);
        assert(((h * unit) * whole) * u == (h * whole) * (u * unit)) by (nonlinear_arith);
    }
    assert((100 * part * u) * p == (100 * n) * u) by (nonlinear_arith)
        requires
            n == part * p,
    ;
    assert(x * p == ((h * pe) * whole) * p - (100 * part * u) * p) by (nonlinear_arith)
        requires
            x == (h * pe) * whole - 100 * part * u,
    ;
    assert(d * u == ((h * unit) * whole) * u - (100 * n) * u) by (nonlinear_arith)
        requires
            d == (h * unit) * whole - 100 * n,
    ;
    assert(x * 0x8_0000_0000_0000 <= 100 * part * u && -x * 0x8_0000_0000_0000 <= 100 * part * u)
        by {
        scaled_down(x, d, p as int, u as int, (100 * n) as int, (100 * part * u) as int);
    }
}

/// What holds of a scaled difference holds of the difference.
proof fn scaled_down(x: int, d: int, p: int, u: int, n: int, m: int)
    requires
        p > 0,
        u >= 0,
        x * p == d * u,
        n * u == m * p,
        d * 0x8_0000_0000_0000 <= n,
        -d * 0x8_0000_0000_0000 <= n,
    ensures
        x * 0x8_0000_0000_0000 <= m,
        -x * 0x8_0000_0000_0000 <= m,
{
    let c: int = 0x8_0000_0000_0000;
    assert((d * c) * u <= n * u) by (nonlinear_arith)
        requires
            d * c <= n,
            u >= 0,
    ;
    assert((-d * c) * u <= n * u) by (nonlinear_arith)
        requires
            -d * c <= n,
            u >= 0,
    ;
    assert((x * c) * p == (d * c) * u) by (nonlinear_arith)
        requires
            x * p == d * u,
    ;
    assert((-x * c) * p == (-d * c) * u) by (nonlinear_arith)
        requires
            x * p == d * u,
    ;
    assert(x * c <= m) by (nonlinear_arith)
        requires
            (x * c) * p <= m * p,
            p > 0,
    ;
    assert(-x * c <= m) by (nonlinear_arith)
        requires
            (-x * c) * p <= m * p,
            p > 0,
    ;
}

/// The product with one hundred keeps the sign and is off by half a bit at most;
/// only beyond the largest numbers it is infinite. What is not finite stays what
/// it is.
pub proof fn hundredfolds_are_close(x: Binary64)
    ensures
        x.finite() ==> ({
            let r = x.times_hundred();
            let exact = 100 * magnitude_steps(x.magnitude());
            let product = magnitude_steps(r.magnitude());
            &&& !r.nan()
            &&& r.negative() == x.negative()
            &&& !r.finite() ==> exact >= pow2(2097)
            &&& r.finite() && exact < 0x20_0000_0000_0000 ==> product == exact
            &&& r.finite() ==> (product - exact) * 0x20_0000_0000_0000 <= exact
            &&& r.finite() ==> (exact - product) * 0x20_0000_0000_0000 <= exact
        }),
        !x.finite() ==> x.times_hundred() == x,
{
    if x.finite() {
        hundredfold_of_finite(x);
    }
}

proof fn hundredfold_of_finite(x: Binary64)
    requires
        x.finite(),
    ensures
        ({
            let r = x.times_hundred();
            let exact = 100 * magnitude_steps(x.magnitude());
            let product = magnitude_steps(r.magnitude());
            &&& !r.nan()
            &&& r.negative() == x.negative()
            &&& !r.finite() ==> exact >= pow2(2097)
            &&& r.finite() && exact < 0x20_0000_0000_0000 ==> product == exact
            &&& r.finite() ==> (product - exact) * 0x20_0000_0000_0000 <= exact
            &&& r.finite() ==> (exact - product) * 0x20_0000_0000_0000 <= exact
        }),
{
    lemma2_to64();
    lemma2_to64_rest();
    let n = magnitude_steps(x.magnitude()) * 100;
    let t = halvings(n);
    let p = pow2(t);
    lemma_pow2_pos(t);
    halvings_are_just_enough(n);
    let h = half_even(n, p);
    rounding_is_to_the_nearest(n, p);
    let m = t * 0x10_0000_0000_0000 + h;
    let r = x.times_hundred();
    assert(r.magnitude() == nearest_magnitude(n));
    if t == 0 {
        assert(p == 1);
        assert(h * p == h) by (nonlinear_arith)
            requires
                p == 1,
        ;
        assert(h == n);
        steps_start_at_one(n);
    } else {
        assert(0x10_0000_0000_0000 <= h <= 0x20_0000_0000_0000) by (nonlinear_arith)
            requires
                2 * (h * p) <= 2 * n + p,
                2 * n <= 2 * (h * p) + p,
                n < 0x20_0000_0000_0000 * p,
                n >= 0x10_0000_0000_0000 * p,
                p > 0,
        ;
        significands_are_scaled(t, h);
        if m >= 0x7ff0_0000_0000_0000 {
            assert(t >= 2045);
            lemma_pow2_adds(2045, (t - 2045) as nat);
            lemma_pow2_adds(52, 2045);
            lemma_pow2_pos((t - 2045) as nat);
            assert(n >= pow2(2097)) by (nonlinear_arith)
                requires
                    n >= 0x10_0000_0000_0000 * p,
                    p == pow2(2045) * pow2((t - 2045) as nat),
                    pow2((t - 2045) as nat) >= 1,
                    pow2(2097) == 0x10_0000_0000_0000 * pow2(2045),
            ;
        }
        let v = h * p;
        assert(2 * (v - n) <= p && 2 * (n - v) <= p);
    }
}

/// Up to 2^53 a magnitude is as many steps.
proof fn steps_start_at_one(m: nat)
    requires
        m < 0x20_0000_0000_0000,
    ensures
        magnitude_steps(m) == m,
{
    lemma2_to64();
    let i: nat = 0x10_0000_0000_0000;
    if m >= i {
        lemma_fundamental_div_mod_converse(m as int, i as int, 1, (m - i) as int);
        assert(m * pow2(0) == m) by (nonlinear_arith)
            requires
                pow2(0) == 1,
        ;
    }
}

/// A number is shown as the nearest integer, the even one of two, in digits that
/// read back as it; with a sign if it has one.
pub proof fn shown_numbers_read_back(x: Binary64)
    ensures
        x.nan() ==> x.rounded_text() == "NaN"@,
        !x.nan() && !x.finite() && !x.negative() ==> x.rounded_text() == "inf"@,
        !x.nan() && !x.finite() && x.negative() ==> x.rounded_text() == "-"@ + "inf"@,
        x.finite() ==> exists|digits: Seq<char>|
            #[trigger] all_digits(digits) && digits.len() > 0 && x.rounded_text() == (
            if x.negative() {
                "-"@ + digits
            } else {
                digits
            }) && {
                let shown = read_number(digits) * pow2(1074);
                let exact = magnitude_steps(x.magnitude());
                &&& 2 * shown <= 2 * exact + pow2(1074)
                &&& 2 * exact <= 2 * shown + pow2(1074)
                &&& 2 * shown == 2 * exact + pow2(1074) || 2 * exact == 2 * shown + pow2(1074)
                    ==> read_number(digits) % 2 == 0
            },
{
    lemma_pow2_pos(1074);
    numbers_read_back(x.rounded());
    rounding_is_to_the_nearest(magnitude_steps(x.magnitude()), pow2(1074));
    assert(all_digits(decimal(x.rounded())));
}

proof fn quotients_round_down(q: nat, p: nat)
    requires
        p > 0,
    ensures
        (q / p) * p <= q < (q / p + 1) * p,
{
    let w = q / p;
    let r = q % p;
    lemma_fundamental_div_mod(q as int, p as int);
    assert(w * p <= q < (w + 1) * p) by (nonlinear_arith)
        requires
            q == p * w + r,
            0 <= r < p,
    ;
}

/// The whole part of a quotient that was rounded to 53 bits.
proof fn whole_parts_are_close(n: nat, d: nat)
    requires
        n > 0,
        d > 0,
    ensures
        ({
            let w = significand(n, d) / pow2(doublings(n, d));
            &&& (w * d) * 0x20_0000_0000_0000 <= n * 0x20_0000_0000_0001
            &&& ((w + 1) * d) * 0x20_0000_0000_0000 > n * 0x1f_ffff_ffff_ffff
        }),
{
    let q = significand(n, d);
    let p = pow2(doublings(n, d));
    significands_are_close(n, d);
    let w = q / p;
    quotients_round_down(q, p);
    assert(((w * d) * 0x20_0000_0000_0000) * p <= (n * 0x20_0000_0000_0001) * p)
        by (nonlinear_arith)
        requires
            w * p <= q,
            (q * d) * 0x20_0000_0000_0000 <= (n * p) * 0x20_0000_0000_0001,
    ;
    assert((w * d) * 0x20_0000_0000_0000 <= n * 0x20_0000_0000_0001) by (nonlinear_arith)
        requires
            ((w * d) * 0x20_0000_0000_0000) * p <= (n * 0x20_0000_0000_0001) * p,
            p > 0,
    ;
    assert((((w + 1) * d) * 0x20_0000_0000_0000) * p > (n * 0x1f_ffff_ffff_ffff) * p)
        by (nonlinear_arith)
        requires
            q < (w + 1) * p,
            d > 0,
            (q * d) * 0x20_0000_0000_0000 >= (n * p) * 0x1f_ffff_ffff_ffff,
    ;
    assert(((w + 1) * d) * 0x20_0000_0000_0000 > n * 0x1f_ffff_ffff_ffff) by (nonlinear_arith)
        requires
            (((w + 1) * d) * 0x20_0000_0000_0000) * p > (n * 0x1f_ffff_ffff_ffff) * p,
            p > 0,
    ;
}

/// Hours in whole seconds: as many as fit into 3600 times the hours, to within a
/// relative error of 2^-53.
pub proof fn hours_are_in_seconds(x: Binary64)
    requires
        0x10_0000_0000_0000 <= x.bits < 0x4330_0000_0000_0000,
    ensures
        ({
            let secs = x.whole_seconds() * pow2(1074);
            let next = (x.whole_seconds() + 1) * pow2(1074);
            let exact = 3600 * x.steps();
            &&& secs * 0x20_0000_0000_0000 <= exact * 0x20_0000_0000_0001
            &&& next * 0x20_0000_0000_0000 > exact * 0x1f_ffff_ffff_ffff
        }),
{
    lemma2_to64();
    let e = x.magnitude() / 0x10_0000_0000_0000;
    let k = (1075 - e) as nat;
    assert(1 <= e <= 1074);
    let d = pow2(k);
    let u = pow2(1074);
    lemma_pow2_pos(k);
    lemma_pow2_pos(1074);
    lemma_pow2_adds((e - 1) as nat, k);
    let n = x.mantissa() * 3600;
    whole_parts_are_close(n, d);
    let w = x.whole_seconds();
    let steps = x.mantissa() * pow2((e - 1) as nat);
    assert(x.steps() == steps);
    assert((3600 * steps) * d == n * u) by (nonlinear_arith)
        requires
            steps == x.mantissa() * pow2((e - 1) as nat),
            pow2((e - 1) as nat) * d == u,
            n == x.mantissa() * 3600,
    ;
    let exact = 3600 * steps;
    assert(((w * u) * 0x20_0000_0000_0000) * d <= (exact * 0x20_0000_0000_0001) * d)
        by (nonlinear_arith)
        requires
            (w * d) * 0x20_0000_0000_0000 <= n * 0x20_0000_0000_0001,
            exact * d == n * u,
            u >= 0,
    ;
    assert((w * u) * 0x20_0000_0000_0000 <= exact * 0x20_0000_0000_0001) by (nonlinear_arith)
        requires
            ((w * u) * 0x20_0000_0000_0000) * d <= (exact * 0x20_0000_0000_0001) * d,
            d > 0,
    ;
    assert((((w + 1) * u) * 0x20_0000_0000_0000) * d > (exact * 0x1f_ffff_ffff_ffff) * d)
        by (nonlinear_arith)
        requires
            ((w + 1) * d) * 0x20_0000_0000_0000 > n * 0x1f_ffff_ffff_ffff,
            exact * d == n * u,
            u > 0,
    ;
    assert(((w + 1) * u) * 0x20_0000_0000_0000 > exact * 0x1f_ffff_ffff_ffff) by (nonlinear_arith)
        requires
            (((w + 1) * u) * 0x20_0000_0000_0000) * d > (exact * 0x1f_ffff_ffff_ffff) * d,
            d > 0,
    ;
}

/// The seconds of a chart in some 240 parts: as many whole seconds as fit into
/// one two-hundred-and-fortieth of the chart's seconds, to within a relative
/// error of 2^-53, the seconds being themselves rounded alike.
pub proof fn charts_are_cut_into_parts(x: Binary64)
    requires
        0x10_0000_0000_0000 <= x.bits < 0x4330_0000_0000_0000,
    ensures
        ({
            let q = x.seconds().0;
            let p = pow2(x.seconds().1);
            &&& ((x.whole_steps() * 240) * p) * 0x20_0000_0000_0000 <= q * 0x20_0000_0000_0001
            &&& (((x.whole_steps() + 1) * 240) * p) * 0x20_0000_0000_0000 > q * 0x1f_ffff_ffff_ffff
            &&& x.whole_seconds() * p <= q < (x.whole_seconds() + 1) * p
        }),
{
    let k = x.binary_point();
    lemma_pow2_pos(k);
    let n = x.mantissa() * 3600;
    significands_are_close(n, pow2(k));
    let q = x.seconds().0;
    let p = pow2(x.seconds().1);
    assert(q > 0) by (nonlinear_arith)
        requires
            2 * (n * p) <= 2 * (q * pow2(k)) + pow2(k),
            n * p >= pow2(k) * 0x10_0000_0000_0000,
            pow2(k) > 0,
    ;
    whole_parts_are_close(q, 240 * p);
    let z = x.whole_steps();
    assert(z * (240 * p) == (z * 240) * p && (z + 1) * (240 * p) == ((z + 1) * 240) * p)
        by (nonlinear_arith);
    quotients_round_down(q, p);
}

/// Whether `q` is an integer nearest to `n / d`, and the even one of two.
pub open spec fn is_nearest(q: nat, n: nat, d: nat) -> bool {
    &&& 2 * (q * d) <= 2 * n + d
    &&& 2 * n <= 2 * (q * d) + d
    &&& 2 * (q * d) == 2 * n + d || 2 * n == 2 * (q * d) + d ==> q % 2 == 0
}

/// A part of a whole in percent is rounded twice, as a division and then a
/// product are: the quotient to 53 significant bits, then one hundred times that
/// to 53 significant bits again.
pub proof fn percentages_are_rounded_twice(part: nat, whole: nat)
    requires
        0 < part <= whole,
        0 < whole < 0x20_0000_0000_0000,
    ensures
        exists|s: nat, q: nat, t: nat, h: nat|
            #[trigger] is_nearest(q, part * pow2(s), whole) && #[trigger] is_nearest(
                h,
                100 * q,
                pow2(t),
            ) && 0x10_0000_0000_0000 <= q <= 0x20_0000_0000_0000 && 0x10_0000_0000_0000 <= h
                <= 0x20_0000_0000_0000 && s <= 1074 + t && Binary64::percent_of(part, whole).steps()
                == h * pow2((1074 + t - s) as nat),
{
    lemma2_to64();
    lemma2_to64_rest();
    let s = doublings(part, whole);
    let q = significand(part, whole);
    let product = q * 100;
    let t: nat = if product < pow2(59) {
        6
    } else {
        7
    };
    let h = half_even(product, pow2(t));
    percentages_have_two_roundings(part, whole);
    rounding_is_to_the_nearest(part * pow2(s), whole);
    rounding_is_to_the_nearest(product, pow2(t));
    assert(is_nearest(q, part * pow2(s), whole));
    assert(is_nearest(h, 100 * q, pow2(t)));
}

/// The product with one hundred is the nearest number of 53 significant bits, or
/// exact where that takes no more.
pub proof fn hundredfolds_are_nearest(x: Binary64)
    requires
        x.finite(),
        x.times_hundred().finite(),
    ensures
        exists|t: nat, h: nat|
            #[trigger] is_nearest(h, 100 * magnitude_steps(x.magnitude()), pow2(t)) && (t > 0
                ==> 0x10_0000_0000_0000 <= h) && h <= 0x20_0000_0000_0000 && magnitude_steps(
                x.times_hundred().magnitude(),
            ) == h * pow2(t),
{
    lemma2_to64();
    lemma2_to64_rest();
    let n = magnitude_steps(x.magnitude()) * 100;
    let t = halvings(n);
    let p = pow2(t);
    lemma_pow2_pos(t);
    halvings_are_just_enough(n);
    let h = half_even(n, p);
    rounding_is_to_the_nearest(n, p);
    hundredfold_of_finite(x);
    assert(x.times_hundred().magnitude() == nearest_magnitude(n));
    if t == 0 {
        assert(p == 1);
        assert(h * p == h) by (nonlinear_arith)
            requires
                p == 1,
        ;
        assert(h == n);
        steps_start_at_one(n);
    } else {
        assert(0x10_0000_0000_0000 <= h <= 0x20_0000_0000_0000) by (nonlinear_arith)
            requires
                2 * (h * p) <= 2 * n + p,
                2 * n <= 2 * (h * p) + p,
                n < 0x20_0000_0000_0000 * p,
                n >= 0x10_0000_0000_0000 * p,
                p > 0,
        ;
        significands_are_scaled(t, h);
    }
    assert(is_nearest(h, 100 * magnitude_steps(x.magnitude()), pow2(t)));
}

} // verus!
