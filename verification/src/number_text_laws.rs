//! What is written of a number is read back as the same number.

use vstd::prelude::*;
use crate::number::{
    digit_value, exponent_mark, is_digit, is_signed, lemma_normalized_shape,
    lemma_normalized_coefficient, lemma_normalized_strips, normalized, parse_decimal, pow10,
    rounded, scaled_literal, scan,
    unsigned_part, Decimal, Scan,
};
use crate::number_laws::lemma_pow10_adds;
use crate::text::{decimal_text, digit_char, zeros};

verus! {

/// Reading goes on from `start` over the first `n` characters of `t`.
pub open spec fn resume(start: Scan, t: Seq<char>, n: nat) -> Scan
    decreases n,
{
    if n == 0 || n > t.len() {
        start
    } else {
        let prev = resume(start, t, (n - 1) as nat);
        let c = t[n - 1];
        if !prev.ok {
            prev
        } else if is_digit(c) {
            Scan {
                ok: true,
                seen_point: prev.seen_point,
                value: prev.value * 10 + digit_value(c),
                digits: prev.digits + 1,
                fraction: if prev.seen_point {
                    prev.fraction + 1
                } else {
                    prev.fraction
                },
            }
        } else if c == '.' && !prev.seen_point {
            Scan { seen_point: true, ..prev }
        } else {
            Scan { ok: false, ..prev }
        }
    }
}

/// The state in which reading begins.
pub open spec fn fresh() -> Scan {
    Scan { ok: true, seen_point: false, value: 0, digits: 0, fraction: 0 }
}

/// Reading a text is reading on from the fresh state.
pub proof fn lemma_scan_is_resume(t: Seq<char>, n: nat)
    requires
        n <= t.len(),
    ensures
        scan(t, n) == resume(fresh(), t, n),
    decreases n,
{
    if n > 0 {
        lemma_scan_is_resume(t, (n - 1) as nat);
    }
}

/// Reading on looks at the characters read and at no others.
pub proof fn lemma_resume_prefix(start: Scan, s: Seq<char>, t: Seq<char>, n: nat)
    requires
        n <= s.len(),
    ensures
        resume(start, s + t, n) == resume(start, s, n),
    decreases n,
{
    if n > 0 {
        lemma_resume_prefix(start, s, t, (n - 1) as nat);
        assert((s + t)[n - 1] == s[n - 1]);
    }
}

/// Reading two texts one after the other is reading their concatenation.
pub proof fn lemma_resume_joins(start: Scan, s: Seq<char>, t: Seq<char>, n: nat)
    requires
        n <= t.len(),
    ensures
        resume(start, s + t, s.len() + n) == resume(resume(start, s, s.len()), t, n),
    decreases n,
{
    if n == 0 {
        lemma_resume_prefix(start, s, t, s.len());
    } else {
        lemma_resume_joins(start, s, t, (n - 1) as nat);
        assert((s + t)[s.len() + n - 1] == t[n - 1]);
    }
}

/// The number that a text of digits writes.
pub open spec fn number_of(s: Seq<char>) -> nat
    decreases s.len(),
{
    if s.len() == 0 {
        0
    } else {
        number_of(s.drop_last()) * 10 + digit_value(s.last())
    }
}

/// Whether a text holds digits only.
pub open spec fn all_digits(s: Seq<char>) -> bool {
    forall|i: int| 0 <= i < s.len() ==> is_digit(#[trigger] s[i])
}

/// Reading on over digits appends them to the value.
pub proof fn lemma_resume_digits(start: Scan, t: Seq<char>, n: nat)
    requires
        n <= t.len(),
        all_digits(t),
        start.ok,
    ensures
        ({
            let r = resume(start, t, n);
            &&& r.ok
            &&& r.seen_point == start.seen_point
            &&& r.value == start.value * pow10(n) + number_of(t.take(n as int))
            &&& r.digits == start.digits + n
            &&& r.fraction == if start.seen_point {
                start.fraction + n
            } else {
                start.fraction
            }
        }),
    decreases n,
{
    if n == 0 {
        assert(t.take(0).len() == 0);
        assert(start.value * pow10(0) == start.value) by (nonlinear_arith)
            requires
                pow10(0) == 1,
        ;
    } else {
        lemma_resume_digits(start, t, (n - 1) as nat);
        let head = t.take(n as int);
        assert(head.drop_last() =~= t.take(n - 1));
        assert(head.last() == t[n - 1]);
        let before = number_of(t.take(n - 1));
        let p = pow10((n - 1) as nat);
        assert((start.value * p + before) * 10 == start.value * (10 * p) + before * 10)
            by (nonlinear_arith);
    }
}

/// The digits of a number write that number.
pub proof fn lemma_decimal_text(n: nat)
    ensures
        all_digits(decimal_text(n)),
        decimal_text(n).len() >= 1,
        number_of(decimal_text(n)) == n,
        n > 0 ==> decimal_text(n)[0] != '0',
    decreases n,
{
    lemma_digit_chars();
    if n < 10 {
        let t = decimal_text(n);
        assert(t.len() == 1);
        assert(t.drop_last().len() == 0);
        assert(number_of(t.drop_last()) == 0);
        assert(t.last() == digit_char(n as int));
        assert(digit_value(digit_char(n as int)) == n);
        assert(number_of(t) == number_of(t.drop_last()) * 10 + digit_value(t.last()));
    } else {
        lemma_decimal_text(n / 10);
        let t = decimal_text(n);
        assert(t.drop_last() =~= decimal_text(n / 10));
        assert(t.last() == digit_char((n % 10) as int));
        assert(digit_value(digit_char((n % 10) as int)) == n % 10);
        assert(number_of(t) == number_of(t.drop_last()) * 10 + digit_value(t.last()));
        assert(t[0] == decimal_text(n / 10)[0]);
    }
}

/// The ten digits are digits, and each writes its own value.
pub proof fn lemma_digit_chars()
    ensures
        forall|d: int|
            0 <= d < 10 ==> is_digit(#[trigger] digit_char(d)) && digit_value(digit_char(d)) == d,
{
}

/// Zeros write nothing.
pub proof fn lemma_zeros(k: nat)
    ensures
        all_digits(zeros(k)),
        number_of(zeros(k)) == 0,
    decreases k,
{
    if k > 0 {
        lemma_zeros((k - 1) as nat);
        assert(zeros(k).drop_last() =~= zeros((k - 1) as nat));
    }
}

/// Digits behind digits shift the number before them.
pub proof fn lemma_number_of_joined(a: Seq<char>, b: Seq<char>)
    ensures
        number_of(a + b) == number_of(a) * pow10(b.len()) + number_of(b),
    decreases b.len(),
{
    if b.len() == 0 {
        assert(a + b =~= a);
        assert(number_of(a) * pow10(0) == number_of(a)) by (nonlinear_arith)
            requires
                pow10(0) == 1,
        ;
    } else {
        lemma_number_of_joined(a, b.drop_last());
        assert((a + b).drop_last() =~= a + b.drop_last());
        assert((a + b).last() == b.last());
        let p = pow10((b.len() - 1) as nat);
        let x = number_of(a);
        let y = number_of(b.drop_last());
        assert((x * p + y) * 10 == x * (10 * p) + y * 10) by (nonlinear_arith);
    }
}

/// A text without `e` and `E` bears no mark of an exponent.
pub proof fn lemma_no_mark(s: Seq<char>, n: nat)
    requires
        n <= s.len(),
        forall|i: int| 0 <= i < s.len() ==> (#[trigger] s[i]) != 'e' && s[i] != 'E',
    ensures
        exponent_mark(s, n) is None,
    decreases n,
{
    if n > 0 {
        lemma_no_mark(s, (n - 1) as nat);
    }
}

/// Whether a character is a digit or the decimal point.
pub open spec fn is_plain(c: char) -> bool {
    is_digit(c) || c == '.'
}

/// Whether `body` begins with a digit, holds digits and at most one point,
/// and reads as the number `d`.
pub open spec fn reads_as(body: Seq<char>, d: Decimal) -> bool {
    let r = scan(body, body.len());
    &&& body.len() >= 1
    &&& is_digit(body[0])
    &&& forall|i: int| 0 <= i < body.len() ==> is_plain(#[trigger] body[i])
    &&& r.ok
    &&& r.digits >= 1
    &&& normalized(d.negative, r.value, -(r.fraction as int)) == d
}

/// A whole number, written as its digits and the zeros of its exponent.
proof fn lemma_reads_whole(d: Decimal)
    requires
        d.canonical(),
        d.exponent >= 0,
    ensures
        reads_as(decimal_text(d.coefficient) + zeros(d.exponent as nat), d),
{
    let c = d.coefficient;
    let e = d.exponent as nat;
    let digits = decimal_text(c);
    let z = zeros(e);
    let body = digits + z;
    lemma_decimal_text(c);
    lemma_zeros(e);
    lemma_normalized_shape(d.negative, c, d.exponent);
    lemma_scan_is_resume(body, body.len());
    assert forall|i: int| 0 <= i < body.len() implies is_digit(#[trigger] body[i]) by {
        if i < digits.len() {
            assert(body[i] == digits[i]);
        } else {
            assert(body[i] == z[i - digits.len()]);
        }
    }
    assert(all_digits(body));
    assert(body[0] == digits[0]);
    lemma_resume_digits(fresh(), body, body.len());
    assert(body.take(body.len() as int) =~= body);
    lemma_number_of_joined(digits, z);
    assert(0 * pow10(body.len()) == 0) by (nonlinear_arith);
    let r = scan(body, body.len());
    assert(r.value == c * pow10(e));
    if c > 0 {
        lemma_normalized_strips(d.negative, c, e, 0);
    } else {
        assert(0 * pow10(e) == 0) by (nonlinear_arith);
    }
}

/// A number whose point stands among its digits.
proof fn lemma_reads_split(d: Decimal)
    requires
        d.canonical(),
        d.exponent < 0,
        decimal_text(d.coefficient).len() > -d.exponent,
    ensures
        ({
            let digits = decimal_text(d.coefficient);
            reads_as(
                digits.subrange(0, digits.len() + d.exponent) + seq!['.'] + digits.subrange(
                    digits.len() + d.exponent,
                    digits.len() as int,
                ),
                d,
            )
        }),
{
    let c = d.coefficient;
    let digits = decimal_text(c);
    let k = (-d.exponent) as nat;
    let split = digits.len() - k;
    let a = digits.subrange(0, split);
    let b = digits.subrange(split, digits.len() as int);
    let point = seq!['.'];
    let body = a + point + b;
    lemma_decimal_text(c);
    lemma_normalized_shape(d.negative, c, d.exponent);
    lemma_scan_is_resume(body, body.len());
    assert(a + b =~= digits);
    assert(all_digits(a));
    assert(all_digits(b));
    assert(body[0] == a[0]);
    assert forall|i: int| 0 <= i < body.len() implies is_plain(#[trigger] body[i]) by {
        if i < a.len() {
            assert(body[i] == a[i]);
        } else if i == a.len() {
            assert(body[i] == '.');
        } else {
            assert(body[i] == b[i - a.len() - 1]);
        }
    }
    lemma_resume_digits(fresh(), a, a.len());
    assert(a.take(a.len() as int) =~= a);
    assert(0 * pow10(a.len()) == 0) by (nonlinear_arith);
    let after_a = resume(fresh(), a, a.len());
    lemma_resume_joins(fresh(), a, point, 1);
    let after_point = resume(after_a, point, 1);
    assert(resume(after_a, point, 0) == after_a);
    assert(point[0] == '.');
    assert(after_point == Scan { seen_point: true, ..after_a });
    lemma_resume_joins(fresh(), a + point, b, b.len());
    assert((a + point).len() == a.len() + 1);
    assert(resume(fresh(), a + point, a.len() + 1) == after_point);
    lemma_resume_digits(after_point, b, b.len());
    assert(b.take(b.len() as int) =~= b);
    lemma_number_of_joined(a, b);
    let r = scan(body, body.len());
    assert(body.len() == a.len() + 1 + b.len());
    assert(r == resume(after_point, b, b.len()));
    assert(r.value == c);
    assert(r.fraction == k);
}

/// A number below one, written with a zero before the point and zeros behind it.
proof fn lemma_reads_small(d: Decimal)
    requires
        d.canonical(),
        d.exponent < 0,
        decimal_text(d.coefficient).len() <= -d.exponent,
    ensures
        ({
            let digits = decimal_text(d.coefficient);
            reads_as(seq!['0', '.'] + zeros((-d.exponent - digits.len()) as nat) + digits, d)
        }),
{
    let c = d.coefficient;
    let digits = decimal_text(c);
    let k = (-d.exponent - digits.len()) as nat;
    let lead = seq!['0', '.'];
    let z = zeros(k);
    let body = lead + z + digits;
    lemma_decimal_text(c);
    lemma_zeros(k);
    lemma_normalized_shape(d.negative, c, d.exponent);
    lemma_scan_is_resume(body, body.len());
    assert(body[0] == '0');
    assert forall|i: int| 0 <= i < body.len() implies is_plain(#[trigger] body[i]) by {
        if i < 2 {
            assert(body[i] == lead[i]);
        } else if i < 2 + k {
            assert(body[i] == z[i - 2]);
        } else {
            assert(body[i] == digits[i - 2 - k]);
        }
    }
    lemma_lead(lead);
    let after_lead = resume(fresh(), lead, 2);
    lemma_resume_joins(fresh(), lead, z, k);
    lemma_resume_digits(after_lead, z, k);
    assert(z.take(k as int) =~= z);
    assert(0 * pow10(k) == 0) by (nonlinear_arith);
    let after_zeros = resume(after_lead, z, k);
    assert(after_zeros == Scan { ok: true, seen_point: true, value: 0, digits: 1 + k, fraction: k });
    lemma_resume_joins(fresh(), lead + z, digits, digits.len());
    assert((lead + z).len() == 2 + k);
    assert(resume(fresh(), lead + z, 2 + k) == after_zeros);
    lemma_resume_digits(after_zeros, digits, digits.len());
    assert(digits.take(digits.len() as int) =~= digits);
    assert(0 * pow10(digits.len()) == 0) by (nonlinear_arith);
    let r = scan(body, body.len());
    assert(body.len() == 2 + k + digits.len());
    assert(r == resume(after_zeros, digits, digits.len()));
    assert(r.value == c);
    assert(r.fraction == k + digits.len());
}

/// Reading `0.` leaves the value at zero, with one digit read and the point seen.
proof fn lemma_lead(lead: Seq<char>)
    requires
        lead == seq!['0', '.'],
    ensures
        resume(fresh(), lead, 2) == (Scan {
            ok: true,
            seen_point: true,
            value: 0,
            digits: 1,
            fraction: 0,
        }),
{
    reveal_with_fuel(resume, 3);
    assert(lead[0] == '0' && lead[1] == '.');
    assert(resume(fresh(), lead, 1) == Scan {
        ok: true,
        seen_point: false,
        value: 0,
        digits: 1,
        fraction: 0,
    });
}

/// What is written of a number without its sign begins with a digit, holds
/// digits and at most one point, and reads as the number.
pub proof fn lemma_unsigned_text_reads(d: Decimal)
    requires
        d.canonical(),
    ensures
        reads_as(d.unsigned_text(), d),
{
    if d.exponent >= 0 {
        lemma_reads_whole(d);
    } else if decimal_text(d.coefficient).len() > -d.exponent {
        lemma_reads_split(d);
    } else {
        lemma_reads_small(d);
    }
}

/// What is written of a number in canonical form is read back as that number.
pub proof fn lemma_written_is_read_back(d: Decimal)
    requires
        d.canonical(),
    ensures
        parse_decimal(d.text()) == Some(d),
{
    let body = d.unsigned_text();
    let text = d.text();
    lemma_unsigned_text_reads(d);
    assert forall|i: int| 0 <= i < text.len() implies (#[trigger] text[i]) != 'e' && text[i]
        != 'E' by {
        if d.negative {
            if i > 0 {
                assert(text[i] == body[i - 1]);
                assert(is_plain(body[i - 1]));
            }
        } else {
            assert(is_plain(body[i]));
        }
    }
    lemma_no_mark(text, text.len());
    if d.negative {
        assert(text[0] == '-');
        assert(is_signed(text));
        assert(unsigned_part(text) =~= body);
    } else {
        assert(text == body);
        assert(!is_signed(text));
        assert(unsigned_part(text) == body);
    }
    let r = scan(body, body.len());
    lemma_normalized_coefficient(d.negative, r.value, -(r.fraction as int));
    assert(rounded(d.negative, r.value, 0 - r.fraction) == d);
    assert(scaled_literal(text, Some(0)) == Some(d));
}

} // verus!
