//! Decimal numbers and pieces of text.

use vstd::prelude::*;
use vstd::string::*;

verus! {

/// The character of one decimal digit.
pub open spec fn digit(d: nat) -> char {
    (48 + d) as char
}

/// `n` in decimal, without leading zeros.
pub open spec fn decimal(n: nat) -> Seq<char>
    decreases n,
{
    if n < 10 {
        seq![digit(n)]
    } else {
        decimal(n / 10).push(digit(n % 10))
    }
}

/// `n` in decimal, padded with one leading zero to two digits.
pub open spec fn decimal_two(n: nat) -> Seq<char> {
    if n < 10 {
        seq!['0'] + decimal(n)
    } else {
        decimal(n)
    }
}

/// The text of one digit.
pub fn digit_text(d: u8) -> (s: &'static str)
    requires
        d < 10,
    ensures
        s@ == seq![digit(d as nat)],
{
    proof {
        reveal_strlit("0");
        reveal_strlit("1");
        reveal_strlit("2");
        reveal_strlit("3");
        reveal_strlit("4");
        reveal_strlit("5");
        reveal_strlit("6");
        reveal_strlit("7");
        reveal_strlit("8");
        reveal_strlit("9");
    }
    match d {
        0 => "0",
        1 => "1",
        2 => "2",
        3 => "3",
        4 => "4",
        5 => "5",
        6 => "6",
        7 => "7",
        8 => "8",
        _ => "9",
    }
}

/// Appends `n` in decimal.
pub fn push_decimal(out: &mut String, n: u64)
    ensures
        final(out)@ == old(out)@ + decimal(n as nat),
    decreases n,
{
    if n >= 10 {
        push_decimal(out, n / 10);
    }
    out.append(digit_text((n % 10) as u8));
    assert(out@ =~= old(out)@ + decimal(n as nat));
}

/// Appends `n` in decimal with at least two digits.
pub fn push_decimal_two(out: &mut String, n: u64)
    ensures
        final(out)@ == old(out)@ + decimal_two(n as nat),
{
    if n < 10 {
        out.append("0");
        proof {
            reveal_strlit("0");
        }
    }
    push_decimal(out, n);
    assert(out@ =~= old(out)@ + decimal_two(n as nat));
}

/// The number that a list of decimal digits stands for, the least significant
/// digit first.
pub open spec fn digits_value(digits: Seq<u8>) -> nat
    decreases digits.len(),
{
    if digits.len() == 0 {
        0
    } else {
        digits[0] as nat + 10 * digits_value(digits.drop_first())
    }
}

/// A list of digits of a positive number, without a superfluous zero.
pub open spec fn proper_digits(digits: Seq<u8>) -> bool {
    &&& digits.len() > 0
    &&& digits.last() != 0
    &&& forall|i: int| 0 <= i < digits.len() ==> digits[i] < 10
}

spec fn ten_to(n: nat) -> nat
    decreases n,
{
    if n == 0 {
        1
    } else {
        10 * ten_to((n - 1) as nat)
    }
}

proof fn digits_value_push(digits: Seq<u8>, d: u8)
    ensures
        digits_value(digits.push(d)) == digits_value(digits) + d * ten_to(digits.len()),
    decreases digits.len(),
{
    if digits.len() == 0 {
        assert(digits.push(d).drop_first() =~= Seq::<u8>::empty());
        assert(digits_value(Seq::<u8>::empty()) == 0);
        assert(ten_to(0) == 1);
        assert(d * ten_to(0) == d) by (nonlinear_arith)
            requires
                ten_to(0) == 1,
        ;
    } else {
        assert(digits.push(d).drop_first() =~= digits.drop_first().push(d));
        digits_value_push(digits.drop_first(), d);
        let t = ten_to((digits.len() - 1) as nat);
        assert(10 * (d * t) == d * (10 * t)) by (nonlinear_arith);
    }
}

proof fn proper_digits_are_positive(digits: Seq<u8>)
    requires
        proper_digits(digits),
    ensures
        digits_value(digits) > 0,
    decreases digits.len(),
{
    if digits.len() > 1 {
        assert(digits.drop_first().last() == digits.last());
        proper_digits_are_positive(digits.drop_first());
    }
}

/// The digits of `n`.
pub fn to_digits(n: u64) -> (r: Vec<u8>)
    requires
        n > 0,
    ensures
        proper_digits(r@),
        digits_value(r@) == n,
{
    let mut r: Vec<u8> = Vec::new();
    let mut rest: u64 = n;
    proof {
        assert(ten_to(0) == 1);
        assert(n * ten_to(0) == n) by (nonlinear_arith)
            requires
                ten_to(0) == 1,
        ;
    }
    while rest > 0
        invariant
            n == digits_value(r@) + rest * ten_to(r@.len()),
            forall|i: int| 0 <= i < r@.len() ==> r@[i] < 10,
            rest == 0 ==> r@.len() > 0 && r@.last() != 0,
            rest > 0 || r@.len() > 0,
        decreases rest,
    {
        let d: u8 = (rest % 10) as u8;
        proof {
            digits_value_push(r@, d);
            let t = ten_to(r@.len());
            let q: nat = (rest / 10) as nat;
            assert(rest * t == d * t + q * (10 * t)) by (nonlinear_arith)
                requires
                    rest == 10 * q + d,
            ;
        }
        r.push(d);
        rest = rest / 10;
    }
    r
}

/// Doubles the number.
pub fn double_digits(digits: &mut Vec<u8>)
    requires
        proper_digits(old(digits)@),
    ensures
        proper_digits(final(digits)@),
        digits_value(final(digits)@) == 2 * digits_value(old(digits)@),
{
    let ghost before = digits@;
    let len: usize = digits.len();
    let mut carry: u8 = 0;
    let mut i: usize = 0;
    while i < len
        invariant
            i <= len,
            len == before.len(),
            len == digits@.len(),
            carry <= 1,
            forall|j: int| 0 <= j < len ==> before[j] < 10,
            forall|j: int| 0 <= j < len ==> digits@[j] < 10,
            forall|j: int| i <= j < len ==> digits@[j] == before[j],
            i > 0 && before[i - 1] != 0 ==> carry == 1 || digits@[i - 1] != 0,
            digits_value(digits@.take(i as int)) + carry * ten_to(i as nat) == 2 * digits_value(
                before.take(i as int),
            ),
        decreases len - i,
    {
        let ghost was = digits@;
        let d: u8 = digits[i] * 2 + carry;
        let low: u8 = d % 10;
        let high: u8 = d / 10;
        digits.set(i, low);
        proof {
            assert(digits@.take(i + 1) =~= was.take(i as int).push(low));
            assert(before.take(i + 1) =~= before.take(i as int).push(before[i as int]));
            digits_value_push(was.take(i as int), low);
            digits_value_push(before.take(i as int), before[i as int]);
            let t = ten_to(i as nat);
            assert(ten_to((i + 1) as nat) == 10 * t);
            let b = before[i as int];
            assert(low * t + high * (10 * t) == 2 * (b * t) + carry * t) by (nonlinear_arith)
                requires
                    low + 10 * high == 2 * b + carry,
            ;
        }
        carry = high;
        i = i + 1;
    }
    proof {
        assert(digits@.take(len as int) =~= digits@);
        assert(before.take(len as int) =~= before);
    }
    if carry > 0 {
        proof {
            digits_value_push(digits@, carry);
        }
        digits.push(carry);
    }
}

/// Appends the number in decimal.
pub fn push_digits(out: &mut String, digits: &Vec<u8>)
    requires
        proper_digits(digits@),
    ensures
        final(out)@ == old(out)@ + decimal(digits_value(digits@)),
{
    let ghost before = out@;
    let mut i: usize = digits.len();
    while i > 0
        invariant
            i <= digits@.len(),
            proper_digits(digits@),
            out@ == before + (if i == digits@.len() {
                Seq::<char>::empty()
            } else {
                decimal(digits_value(digits@.skip(i as int)))
            }),
        decreases i,
    {
        i = i - 1;
        let d: u8 = digits[i];
        let ghost was = out@;
        out.append(digit_text(d));
        proof {
            let rest = digits@.skip(i as int);
            assert(rest.drop_first() =~= digits@.skip(i + 1));
            assert(rest[0] == d);
            let high = digits_value(rest.drop_first());
            let n = digits_value(rest);
            assert(n == d + 10 * high);
            if i + 1 == digits@.len() {
                assert(n == d);
            } else {
                assert(digits@.skip(i + 1).last() == digits@.last());
                proper_digits_are_positive(digits@.skip(i + 1));
                assert(n / 10 == high);
                assert(n % 10 == d);
            }
            assert(out@ =~= before + decimal(n));
        }
    }
    assert(digits@.skip(0) =~= digits@);
}

/// Whether two strings hold the same characters.
pub fn same_text(a: &String, b: &String) -> (r: bool)
    ensures
        r == (a@ == b@),
{
    *a == *b
}

/// Whether a string holds exactly this text.
pub fn is_text(s: &String, text: &str) -> (r: bool)
    ensures
        r == (s@ == text@),
{
    *s == text.to_owned()
}

/// Without the given character at its end, however often it stands there.
pub open spec fn trimmed_end<T>(s: Seq<T>, c: T) -> Seq<T>
    decreases s.len(),
{
    if s.len() > 0 && s.last() == c {
        trimmed_end(s.drop_last(), c)
    } else {
        s
    }
}

} // verus!
