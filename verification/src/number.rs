//! Decimal numbers: a sign, a coefficient of 64 bits and a power of ten. A
//! literal with more digits than that is rounded when it is read; what a
//! number then holds is ordered exactly and written back exactly.

use vstd::prelude::*;
use crate::text::{
    chars_of, chars_same_ignoring_case, decimal_text, push_decimal, push_range, push_zeros,
    same_ignoring_case, text_of, zeros,
};

verus! {

/// Ten to the power `n`.
pub open spec fn pow10(n: nat) -> nat
    decreases n,
{
    if n == 0 {
        1
    } else {
        10 * pow10((n - 1) as nat)
    }
}

/// The mathematical content of a number: `±coefficient × 10^exponent`.
pub struct Decimal {
    pub negative: bool,
    pub coefficient: nat,
    pub exponent: int,
}

pub const MAX_EXPONENT: i32 = 400;

impl Decimal {
    /// The coefficient with its sign.
    pub open spec fn signed(self) -> int {
        if self.negative {
            -(self.coefficient as int)
        } else {
            self.coefficient as int
        }
    }

    /// The value in units of `10^base`, for a `base` not above the exponent.
    pub open spec fn scaled(self, base: int) -> int {
        self.signed() * pow10((self.exponent - base) as nat)
    }

    /// Numeric order: both values are compared in units of the smaller power of ten.
    pub open spec fn lt(self, other: Decimal) -> bool {
        let base = if self.exponent <= other.exponent {
            self.exponent
        } else {
            other.exponent
        };
        self.scaled(base) < other.scaled(base)
    }

    /// The one way in which each value is stored: no trailing zero in the
    /// coefficient, zero as `+0 × 10^0`, and a bounded exponent.
    pub open spec fn canonical(self) -> bool {
        &&& self.coefficient <= u64::MAX
        &&& -MAX_EXPONENT <= self.exponent <= MAX_EXPONENT
        &&& self.coefficient == 0 ==> !self.negative && self.exponent == 0
        &&& self.coefficient != 0 ==> self.coefficient % 10 != 0
    }

    /// The value written out in full, as `-12.5`, `0.001` or `1200`: the digits
    /// of the coefficient, moved by the exponent, never in exponent notation.
    pub open spec fn text(self) -> Seq<char> {
        if self.negative {
            seq!['-'] + self.unsigned_text()
        } else {
            self.unsigned_text()
        }
    }

    /// The value written out without its sign.
    pub open spec fn unsigned_text(self) -> Seq<char> {
        let digits = decimal_text(self.coefficient);
        if self.exponent >= 0 {
            digits + zeros(self.exponent as nat)
        } else if digits.len() > -self.exponent {
            digits.subrange(0, digits.len() + self.exponent) + seq!['.'] + digits.subrange(
                digits.len() + self.exponent,
                digits.len() as int,
            )
        } else {
            seq!['0', '.'] + zeros((-self.exponent - digits.len()) as nat) + digits
        }
    }

    /// The value without its fraction: rounded toward zero.
    pub open spec fn truncated(self) -> int {
        let magnitude = if self.exponent >= 0 {
            (self.coefficient * pow10(self.exponent as nat)) as int
        } else {
            (self.coefficient / pow10((-self.exponent) as nat)) as int
        };
        if self.negative {
            -magnitude
        } else {
            magnitude
        }
    }

    /// The truncated value, held to 64 signed bits: what lies beyond becomes
    /// the nearest bound.
    pub open spec fn clamped(self) -> int {
        if self.truncated() < i64::MIN {
            i64::MIN as int
        } else if self.truncated() > i64::MAX {
            i64::MAX as int
        } else {
            self.truncated()
        }
    }

    /// The count that a number in canonical form is: a whole number that is
    /// not negative and that 64 bits hold. Any other number is no count.
    pub open spec fn count(self) -> Option<nat> {
        if !self.negative && self.exponent >= 0 && self.coefficient * pow10(
            self.exponent as nat,
        ) <= u64::MAX {
            Some(self.coefficient * pow10(self.exponent as nat))
        } else {
            None
        }
    }

    /// Whether this is a count and `n` lies below it.
    pub open spec fn above_count(self, n: nat) -> bool {
        self.count() matches Some(c) && n < c
    }

    /// Whether this is a count and `n` lies above it.
    pub open spec fn under_count(self, n: nat) -> bool {
        self.count() matches Some(c) && c < n
    }

    /// The whole number `n`.
    pub open spec fn of_nat(n: nat) -> Decimal {
        Decimal { negative: false, coefficient: n, exponent: 0 }
    }

    /// The integer `n`.
    pub open spec fn of_int(n: int) -> Decimal {
        Decimal { negative: n < 0, coefficient: if n < 0 { (-n) as nat } else { n as nat }, exponent: 0 }
    }
}

/// Moves trailing zeros of the coefficient into the exponent; zero becomes `+0 × 10^0`.
pub open spec fn normalized(negative: bool, coefficient: nat, exponent: int) -> Decimal
    decreases coefficient,
{
    if coefficient == 0 {
        Decimal { negative: false, coefficient: 0, exponent: 0 }
    } else if coefficient % 10 == 0 {
        normalized(negative, coefficient / 10, exponent + 1)
    } else {
        Decimal { negative, coefficient, exponent }
    }
}

/// The normal form has no trailing zero, writes zero in one way, and keeps
/// the sign and the size of the coefficient in bounds.
pub proof fn lemma_normalized_shape(negative: bool, coefficient: nat, exponent: int)
    ensures
        ({
            let d = normalized(negative, coefficient, exponent);
            &&& d.coefficient <= coefficient
            &&& d.coefficient == 0 ==> !d.negative && d.exponent == 0
            &&& d.coefficient != 0 ==> d.coefficient % 10 != 0 && d.negative == negative
            &&& (coefficient == 0) == (d.coefficient == 0)
        }),
    decreases coefficient,
{
    if coefficient != 0 && coefficient % 10 == 0 {
        lemma_normalized_shape(negative, coefficient / 10, exponent + 1);
    }
}

pub proof fn lemma_pow10_positive(n: nat)
    ensures
        pow10(n) >= 1,
    decreases n,
{
    if n > 0 {
        lemma_pow10_positive((n - 1) as nat);
    }
}

pub proof fn lemma_pow10_monotonic(a: nat, b: nat)
    requires
        a <= b,
    ensures
        pow10(a) <= pow10(b),
    decreases b,
{
    if a < b {
        lemma_pow10_monotonic(a, (b - 1) as nat);
    }
}

proof fn lemma_pow10_19()
    ensures
        pow10(19) == 10_000_000_000_000_000_000,
        pow10(20) == 100_000_000_000_000_000_000,
{
    reveal_with_fuel(pow10, 21);
}

/// `10^d` for a `d` whose power fits.
fn pow10_small(d: u32) -> (p: u64)
    requires
        d <= 19,
    ensures
        p == pow10(d as nat),
{
    let mut p: u64 = 1;
    let mut i: u32 = 0;
    while i < d
        invariant
            i <= d <= 19,
            p == pow10(i as nat),
        decreases d - i,
    {
        proof {
            lemma_pow10_monotonic((i + 1) as nat, 19);
            lemma_pow10_19();
        }
        p = p * 10;
        i = i + 1;
    }
    p
}

/// Whether `c1 × 10^e1 < c2 × 10^e2`.
fn magnitude_lt(c1: u64, e1: i32, c2: u64, e2: i32) -> (b: bool)
    ensures
        b == (Decimal { negative: false, coefficient: c1 as nat, exponent: e1 as int }).lt(
            Decimal { negative: false, coefficient: c2 as nat, exponent: e2 as int },
        ),
{
    if e1 >= e2 {
        let d: i64 = e1 as i64 - e2 as i64;
        let unit = scaled_lt(c1, d, c2);
        proof {
            assert(pow10(0) == 1);
            assert(c2 * pow10(0) == c2) by (nonlinear_arith)
                requires
                    pow10(0) == 1,
            ;
        }
        unit
    } else {
        let d: i64 = e2 as i64 - e1 as i64;
        let unit = scaled_gt(c2, d, c1);
        proof {
            assert(pow10(0) == 1);
            assert(c1 * pow10(0) == c1) by (nonlinear_arith)
                requires
                    pow10(0) == 1,
            ;
        }
        unit
    }
}

/// Whether `c × 10^d < other`.
fn scaled_lt(c: u64, d: i64, other: u64) -> (b: bool)
    requires
        d >= 0,
    ensures
        b == (c * pow10(d as nat) < other),
{
    if c == 0 {
        assert(0 * pow10(d as nat) == 0) by (nonlinear_arith);
        other > 0
    } else if d >= 20 {
        proof {
            lemma_scaled_large(c, d as nat);
        }
        false
    } else {
        let p = pow10_small(d as u32);
        proof {
            lemma_scaled_fits(c, p, d as nat);
        }
        (c as u128) * (p as u128) < other as u128
    }
}

/// Whether `c × 10^d > other`.
fn scaled_gt(c: u64, d: i64, other: u64) -> (b: bool)
    requires
        d >= 0,
    ensures
        b == (other < c * pow10(d as nat)),
{
    if c == 0 {
        assert(0 * pow10(d as nat) == 0) by (nonlinear_arith);
        false
    } else if d >= 20 {
        proof {
            lemma_scaled_large(c, d as nat);
        }
        true
    } else {
        let p = pow10_small(d as u32);
        proof {
            lemma_scaled_fits(c, p, d as nat);
        }
        (other as u128) < (c as u128) * (p as u128)
    }
}

proof fn lemma_scaled_large(c: u64, d: nat)
    requires
        c >= 1,
        d >= 20,
    ensures
        c * pow10(d) > u64::MAX,
{
    lemma_pow10_monotonic(20, d);
    lemma_pow10_19();
    assert(c * pow10(d) >= pow10(d)) by (nonlinear_arith)
        requires
            c >= 1,
            pow10(d) >= 0,
    ;
}

proof fn lemma_small_quotient(c: nat, p: nat)
    requires
        c < p,
    ensures
        c / p == 0,
{
    assert(c / p == 0) by (nonlinear_arith)
        requires
            0 <= c < p,
    ;
}

proof fn lemma_scaled_fits(c: u64, p: u64, d: nat)
    requires
        d <= 19,
        p == pow10(d),
    ensures
        c * p + 9 <= u128::MAX,
{
    lemma_pow10_monotonic(d, 19);
    lemma_pow10_19();
    assert(c * p <= 0xffff_ffff_ffff_ffff * 10_000_000_000_000_000_000) by (nonlinear_arith)
        requires
            c <= 0xffff_ffff_ffff_ffff,
            p <= 10_000_000_000_000_000_000,
    ;
}

/// Whether `±c1 × 10^e1 < ±c2 × 10^e2`.
fn parts_lt(n1: bool, c1: u64, e1: i32, n2: bool, c2: u64, e2: i32) -> (b: bool)
    ensures
        b == (Decimal { negative: n1, coefficient: c1 as nat, exponent: e1 as int }).lt(
            Decimal { negative: n2, coefficient: c2 as nat, exponent: e2 as int },
        ),
{
    let ghost base: int = if e1 <= e2 {
        e1 as int
    } else {
        e2 as int
    };
    let ghost first_power = pow10((e1 - base) as nat);
    let ghost second_power = pow10((e2 - base) as nat);
    proof {
        lemma_pow10_positive((e1 - base) as nat);
        lemma_pow10_positive((e2 - base) as nat);
        assert(c1 * first_power >= 0 && (c1 > 0 ==> c1 * first_power > 0) && (c1 == 0 ==> c1 * first_power == 0))
            by (nonlinear_arith)
            requires
                first_power >= 1,
                c1 >= 0,
        ;
        assert(c2 * second_power >= 0 && (c2 > 0 ==> c2 * second_power > 0) && (c2 == 0 ==> c2 * second_power == 0))
            by (nonlinear_arith)
            requires
                second_power >= 1,
                c2 >= 0,
        ;
        assert((-(c1 as int)) * first_power == -(c1 * first_power)) by (nonlinear_arith);
        assert((-(c2 as int)) * second_power == -(c2 * second_power)) by (nonlinear_arith);
    }
    if n1 && !n2 {
        c1 > 0 || c2 > 0
    } else if !n1 && n2 {
        false
    } else if !n1 {
        magnitude_lt(c1, e1, c2, e2)
    } else {
        magnitude_lt(c2, e2, c1, e1)
    }
}

pub open spec fn is_digit(c: char) -> bool {
    '0' <= c <= '9'
}

pub open spec fn digit_value(c: char) -> nat {
    (c as nat - '0' as nat) as nat
}

/// What reading the digits and the decimal point of a literal has found.
pub struct Scan {
    /// Only digits and at most one point were read.
    pub ok: bool,
    pub seen_point: bool,
    /// The digits read so far, as one whole number.
    pub value: nat,
    /// How many digits were read.
    pub digits: nat,
    /// How many of them stood behind the point.
    pub fraction: nat,
}

/// Reads the first `n` characters of `body`.
pub open spec fn scan(body: Seq<char>, n: nat) -> Scan
    decreases n,
{
    if n == 0 || n > body.len() {
        Scan { ok: true, seen_point: false, value: 0, digits: 0, fraction: 0 }
    } else {
        let prev = scan(body, (n - 1) as nat);
        let c = body[n - 1];
        if !prev.ok {
            prev
        } else if is_digit(c) {
            Scan {
                ok: true,
                seen_point: prev.seen_point,
                value: prev.value * 10 + digit_value(c),
                digits: prev.digits + 1,
                fraction: if prev.seen_point {
                    prev.fraction + 1
                } else {
                    prev.fraction
                },
            }
        } else if c == '.' && !prev.seen_point {
            Scan { seen_point: true, ..prev }
        } else {
            Scan { ok: false, ..prev }
        }
    }
}

/// Whether the literal starts with a sign.
pub open spec fn is_signed(s: Seq<char>) -> bool {
    s.len() > 0 && (s[0] == '-' || s[0] == '+')
}

/// The literal without its sign.
pub open spec fn unsigned_part(s: Seq<char>) -> Seq<char> {
    if is_signed(s) {
        s.subrange(1, s.len() as int)
    } else {
        s
    }
}

/// Position of the first `e` or `E` among the first `n` characters.
pub open spec fn exponent_mark(s: Seq<char>, n: nat) -> Option<int>
    decreases n,
{
    if n == 0 || n > s.len() {
        None
    } else {
        match exponent_mark(s, (n - 1) as nat) {
            Some(i) => Some(i),
            None => if s[n - 1] == 'e' || s[n - 1] == 'E' {
                Some(n - 1)
            } else {
                None
            },
        }
    }
}

/// The digits of `v` cut down to nineteen, the last of them rounded by the
/// first digit that is left out: up from five on. The exponent grows by the
/// number of digits left out. `up` says whether the digit that was left out
/// last calls for rounding up.
pub open spec fn shortened(v: nat, exponent: int, up: bool) -> (nat, int)
    decreases v,
{
    if v < 10_000_000_000_000_000_000 {
        (
            if up {
                v + 1
            } else {
                v
            },
            exponent,
        )
    } else {
        shortened(v / 10, exponent + 1, v % 10 >= 5)
    }
}

/// The number `±v × 10^exponent` as it is stored: as it is where the digits
/// between the first and the last one other than zero fit 64 bits, and else
/// rounded to nineteen digits.
pub open spec fn rounded(negative: bool, v: nat, exponent: int) -> Decimal {
    if significant(v) <= u64::MAX {
        normalized(negative, v, exponent)
    } else {
        let cut = shortened(v, exponent, false);
        normalized(negative, cut.0, cut.1)
    }
}

/// Whether a text is an integer literal: an optional sign, then digits only.
pub open spec fn is_integer_literal(s: Seq<char>) -> bool {
    let body = unsigned_part(s);
    let r = scan(body, body.len());
    r.ok && r.digits > 0 && !r.seen_point
}

/// The number that the digits of a literal write when they are taken times
/// `10^power`: an optional sign, then digits with at most one decimal point
/// among them, at least one digit in all; `None` for any other text. More
/// digits than the number holds are rounded. Where the number leaves the
/// bounds of the exponent, or the power itself is beyond all bounds (`None`),
/// the literal is read as zero.
pub open spec fn scaled_literal(s: Seq<char>, power: Option<int>) -> Option<Decimal> {
    let body = unsigned_part(s);
    let r = scan(body, body.len());
    if !(r.ok && r.digits > 0) {
        None
    } else {
        match power {
            Some(p) => {
                let d = rounded(s[0] == '-', r.value, p - r.fraction);
                if d.canonical() {
                    Some(d)
                } else {
                    Some(Decimal::of_nat(0))
                }
            },
            None => Some(Decimal::of_nat(0)),
        }
    }
}

/// The number that a decimal literal writes: digits with an optional sign
/// and decimal point, and behind them an optional `e` or `E` with an
/// integer literal, the power of ten to take the digits times. `None`
/// exactly for the texts that are no such literal.
pub open spec fn parse_decimal(s: Seq<char>) -> Option<Decimal> {
    match exponent_mark(s, s.len()) {
        None => scaled_literal(s, Some(0)),
        Some(i) => if is_integer_literal(s.subrange(i + 1, s.len() as int)) {
            scaled_literal(s.subrange(0, i), parse_integer(s.subrange(i + 1, s.len() as int)))
        } else {
            None
        },
    }
}

/// Whether a text names what no number holds: `inf`, `infinity` or `nan`,
/// in any case, behind an optional sign.
pub open spec fn names_no_number(s: Seq<char>) -> bool {
    let t = unsigned_part(s);
    ||| same_ignoring_case(t, "inf"@)
    ||| same_ignoring_case(t, "infinity"@)
    ||| same_ignoring_case(t, "nan"@)
}

/// The integer that a literal writes: an optional sign, then digits only.
/// `None` for any other text and for a value outside 64 signed bits.
pub open spec fn parse_integer(s: Seq<char>) -> Option<int> {
    let body = unsigned_part(s);
    let r = scan(body, body.len());
    let value = if s[0] == '-' {
        -(r.value as int)
    } else {
        r.value as int
    };
    if r.ok && r.digits > 0 && !r.seen_point && i64::MIN <= value <= i64::MAX {
        Some(value)
    } else {
        None
    }
}

/// Reading on never mends a literal and never lowers its value.
pub proof fn lemma_scan_monotonic(body: Seq<char>, m: nat, n: nat)
    requires
        m <= n <= body.len(),
    ensures
        scan(body, n).ok ==> scan(body, m).ok && scan(body, m).value <= scan(body, n).value
            && scan(body, m).fraction <= scan(body, n).fraction && (scan(body, m).seen_point
            ==> scan(body, n).seen_point),
    decreases n,
{
    if m < n {
        lemma_scan_monotonic(body, m, (n - 1) as nat);
    }
}

/// The outcome of reading a literal with machine integers.
struct Reading {
    seen_point: bool,
    value: u64,
    digits: usize,
    fraction: usize,
}

fn digit_of_char(c: char) -> (r: Option<u8>)
    ensures
        match r {
            Some(d) => is_digit(c) && d == digit_value(c),
            None => !is_digit(c),
        },
{
    if c == '0' {
        Some(0)
    } else if c == '1' {
        Some(1)
    } else if c == '2' {
        Some(2)
    } else if c == '3' {
        Some(3)
    } else if c == '4' {
        Some(4)
    } else if c == '5' {
        Some(5)
    } else if c == '6' {
        Some(6)
    } else if c == '7' {
        Some(7)
    } else if c == '8' {
        Some(8)
    } else if c == '9' {
        Some(9)
    } else {
        None
    }
}

/// Reads the characters `from .. to`; `None` when they are no digits with
/// at most one point, or when the value leaves 64 bits.
fn read_body(chars: &Vec<char>, from: usize, to: usize) -> (r: Option<Reading>)
    requires
        from <= to <= chars.len(),
    ensures
        ({
            let body = chars@.subrange(from as int, to as int);
            let full = scan(body, body.len());
            match r {
                Some(reading) => full.ok && full.value == reading.value && full.digits
                    == reading.digits && full.fraction == reading.fraction && full.seen_point
                    == reading.seen_point,
                None => !full.ok || full.value > u64::MAX,
            }
        }),
{
    let ghost body = chars@.subrange(from as int, to as int);
    let mut reading = Reading { seen_point: false, value: 0, digits: 0, fraction: 0 };
    let mut i: usize = from;
    while i < to
        invariant
            from <= i <= to <= chars.len(),
            body == chars@.subrange(from as int, to as int),
            scan(body, (i - from) as nat).ok,
            scan(body, (i - from) as nat).value == reading.value,
            scan(body, (i - from) as nat).digits == reading.digits,
            scan(body, (i - from) as nat).fraction == reading.fraction,
            scan(body, (i - from) as nat).seen_point == reading.seen_point,
            reading.digits <= i - from,
            reading.fraction <= i - from,
        decreases to - i,
    {
        let c = chars[i];
        assert(body[i - from] == c);
        proof {
            lemma_scan_monotonic(body, (i - from + 1) as nat, body.len());
        }
        match digit_of_char(c) {
            Some(d) => {
                if reading.value > (u64::MAX - d as u64) / 10 {
                    return None;
                }
                reading.value = reading.value * 10 + d as u64;
                reading.digits = reading.digits + 1;
                if reading.seen_point {
                    reading.fraction = reading.fraction + 1;
                }
            },
            None => {
                if c == '.' && !reading.seen_point {
                    reading.seen_point = true;
                } else {
                    return None;
                }
            },
        }
        i = i + 1;
    }
    Some(reading)
}

/// The digits of `v` without its trailing zeros.
pub open spec fn significant(v: nat) -> nat {
    normalized(false, v, 0).coefficient
}

/// The coefficient of the normal form depends on the coefficient alone.
pub proof fn lemma_normalized_coefficient(negative: bool, coefficient: nat, exponent: int)
    ensures
        normalized(negative, coefficient, exponent).coefficient == significant(coefficient),
    decreases coefficient,
{
    if coefficient != 0 && coefficient % 10 == 0 {
        lemma_normalized_coefficient(negative, coefficient / 10, exponent + 1);
        lemma_normalized_coefficient(false, coefficient / 10, 1);
    }
}

/// Zeros behind the digits go into the exponent.
pub proof fn lemma_normalized_strips(negative: bool, coefficient: nat, zeros: nat, exponent: int)
    requires
        coefficient > 0,
    ensures
        normalized(negative, coefficient * pow10(zeros), exponent) == normalized(
            negative,
            coefficient,
            exponent + zeros,
        ),
    decreases zeros,
{
    if zeros == 0 {
        assert(coefficient * pow10(0) == coefficient) by (nonlinear_arith)
            requires
                pow10(0) == 1,
        ;
    } else {
        let rest = pow10((zeros - 1) as nat);
        lemma_pow10_positive((zeros - 1) as nat);
        assert(coefficient * pow10(zeros) == (coefficient * rest) * 10) by (nonlinear_arith)
            requires
                pow10(zeros) == 10 * rest,
        ;
        assert(coefficient * rest > 0) by (nonlinear_arith)
            requires
                coefficient > 0,
                rest >= 1,
        ;
        lemma_normalized_strips(negative, coefficient, (zeros - 1) as nat, exponent + 1);
    }
}

/// One more digit never shortens the digits between the first and the last
/// one other than zero.
pub proof fn lemma_significant_grows(v: nat, d: nat)
    requires
        d < 10,
    ensures
        significant(v) <= significant(v * 10 + d),
{
    lemma_normalized_shape(false, v, 0);
    lemma_normalized_shape(false, v * 10 + d, 0);
    if d == 0 {
        if v > 0 {
            lemma_normalized_coefficient(false, v, 1);
        }
    }
}

/// Reading on never shortens the digits between the first and the last one
/// other than zero.
pub proof fn lemma_scan_significant(body: Seq<char>, m: nat, n: nat)
    requires
        m <= n <= body.len(),
        scan(body, n).ok,
    ensures
        significant(scan(body, m).value) <= significant(scan(body, n).value),
    decreases n,
{
    if m < n {
        lemma_scan_monotonic(body, (n - 1) as nat, n);
        lemma_scan_significant(body, m, (n - 1) as nat);
        let prev = scan(body, (n - 1) as nat);
        let c = body[n - 1];
        if is_digit(c) {
            lemma_significant_grows(prev.value, digit_value(c));
        }
    }
}

/// What reading a literal has found, with the zeros that may yet prove to be
/// trailing ones kept apart from the digits before them.
struct Digits {
    seen_point: bool,
    /// The digits up to the last one other than zero.
    head: u64,
    /// How many zeros were read behind them.
    zeros: usize,
    digits: usize,
    fraction: usize,
}

/// Appends `zeros` zeros and the digit `d` to `head`; `None` where that leaves 64 bits.
fn extend_head(head: u64, zeros: usize, d: u8) -> (r: Option<u64>)
    requires
        head >= 1,
        1 <= d < 10,
    ensures
        match r {
            Some(v) => v == head * pow10((zeros + 1) as nat) + d,
            None => head * pow10((zeros + 1) as nat) + d > u64::MAX,
        },
{
    if zeros >= 19 {
        proof {
            lemma_scaled_large(head, (zeros + 1) as nat);
        }
        return None;
    }
    let p = pow10_small((zeros + 1) as u32);
    proof {
        lemma_scaled_fits(head, p, (zeros + 1) as nat);
    }
    let wide: u128 = (head as u128) * (p as u128) + d as u128;
    if wide > u64::MAX as u128 {
        None
    } else {
        Some(wide as u64)
    }
}

/// Reads the characters `from .. to`; `None` when they are no digits with
/// at most one point, or when the digits between the first and the last one
/// other than zero leave 64 bits.
fn read_digits(chars: &Vec<char>, from: usize, to: usize) -> (r: Option<Digits>)
    requires
        from <= to <= chars.len(),
    ensures
        ({
            let body = chars@.subrange(from as int, to as int);
            let full = scan(body, body.len());
            match r {
                Some(g) => {
                    &&& full.ok
                    &&& full.value == g.head * pow10(g.zeros as nat)
                    &&& full.digits == g.digits
                    &&& full.fraction == g.fraction
                    &&& full.seen_point == g.seen_point
                },
                None => !full.ok || significant(full.value) > u64::MAX,
            }
        }),
{
    let ghost body = chars@.subrange(from as int, to as int);
    let mut g = Digits { seen_point: false, head: 0, zeros: 0, digits: 0, fraction: 0 };
    let mut i: usize = from;
    proof {
        assert(0 * pow10(0) == 0) by (nonlinear_arith);
    }
    while i < to
        invariant
            from <= i <= to <= chars.len(),
            body == chars@.subrange(from as int, to as int),
            scan(body, (i - from) as nat).ok,
            scan(body, (i - from) as nat).value == g.head * pow10(g.zeros as nat),
            scan(body, (i - from) as nat).digits == g.digits,
            scan(body, (i - from) as nat).fraction == g.fraction,
            scan(body, (i - from) as nat).seen_point == g.seen_point,
            g.head == 0 ==> g.zeros == 0,
            g.digits <= i - from,
            g.fraction <= i - from,
            g.zeros <= i - from,
        decreases to - i,
    {
        let c = chars[i];
        assert(body[i - from] == c);
        let ghost before = scan(body, (i - from) as nat).value;
        proof {
            lemma_scan_monotonic(body, (i - from + 1) as nat, body.len());
        }
        match digit_of_char(c) {
            Some(d) => {
                if d == 0 {
                    if g.head != 0 {
                        proof {
                            assert(g.head * pow10((g.zeros + 1) as nat) == (g.head * pow10(
                                g.zeros as nat,
                            )) * 10) by (nonlinear_arith)
                                requires
                                    pow10((g.zeros + 1) as nat) == 10 * pow10(g.zeros as nat),
                            ;
                        }
                        g.zeros = g.zeros + 1;
                    } else {
                        proof {
                            assert(0 * pow10(0) == 0) by (nonlinear_arith);
                        }
                    }
                } else if g.head == 0 {
                    proof {
                        assert(0 * pow10(0) == 0) by (nonlinear_arith);
                        assert(d * pow10(0) == d) by (nonlinear_arith)
                            requires
                                pow10(0) == 1,
                        ;
                    }
                    g.head = d as u64;
                } else {
                    let ghost grown = g.head * pow10((g.zeros + 1) as nat) + d;
                    proof {
                        assert(g.head * pow10((g.zeros + 1) as nat) == (g.head * pow10(
                            g.zeros as nat,
                        )) * 10) by (nonlinear_arith)
                            requires
                                pow10((g.zeros + 1) as nat) == 10 * pow10(g.zeros as nat),
                        ;
                        assert(grown == before * 10 + d);
                        assert(grown * pow10(0) == grown) by (nonlinear_arith)
                            requires
                                pow10(0) == 1,
                        ;
                    }
                    match extend_head(g.head, g.zeros, d) {
                        Some(v) => {
                            g.head = v;
                            g.zeros = 0;
                        },
                        None => {
                            proof {
                                if scan(body, body.len()).ok {
                                    lemma_scan_significant(
                                        body,
                                        (i - from + 1) as nat,
                                        body.len(),
                                    );
                                    lemma_normalized_shape(false, grown as nat, 0);
                                    assert(grown % 10 == d);
                                    assert(significant(grown as nat) == grown);
                                }
                            }
                            return None;
                        },
                    }
                }
                g.digits = g.digits + 1;
                if g.seen_point {
                    g.fraction = g.fraction + 1;
                }
            },
            None => {
                if c == '.' && !g.seen_point {
                    g.seen_point = true;
                } else {
                    return None;
                }
            },
        }
        i = i + 1;
    }
    Some(g)
}

/// The exponent given is added to the exponent that cutting the digits gives.
pub proof fn lemma_shortened_shift(v: nat, exponent: int, up: bool)
    ensures
        shortened(v, exponent, up) == (shortened(v, 0, up).0, shortened(v, 0, up).1 + exponent),
    decreases v,
{
    if v >= 10_000_000_000_000_000_000 {
        lemma_shortened_shift(v / 10, exponent + 1, v % 10 >= 5);
        lemma_shortened_shift(v / 10, 1, v % 10 >= 5);
    }
}

/// Nineteen digits `head` with `k` more digits `rest` behind them are cut to
/// `head`, rounded up where `rest` is half of `10^k` or more.
pub proof fn lemma_shortened(head: nat, k: nat, rest: nat, exponent: int, up: bool)
    requires
        k >= 1,
        1_000_000_000_000_000_000 <= head < 10_000_000_000_000_000_000,
        rest < pow10(k),
    ensures
        shortened(head * pow10(k) + rest, exponent, up) == (
            if rest >= 5 * pow10((k - 1) as nat) {
                head + 1
            } else {
                head
            },
            exponent + k,
        ),
    decreases k,
{
    let q = pow10((k - 1) as nat);
    lemma_pow10_positive((k - 1) as nat);
    let t = head * q;
    assert(head * pow10(k) == 10 * t) by (nonlinear_arith)
        requires
            pow10(k) == 10 * q,
            t == head * q,
    ;
    assert(t >= head) by (nonlinear_arith)
        requires
            t == head * q,
            q >= 1,
    ;
    let v = 10 * t + rest;
    assert(v == head * pow10(k) + rest);
    assert(v / 10 == t + rest / 10);
    assert(v % 10 == rest % 10);
    assert(shortened(v, exponent, up) == shortened(v / 10, exponent + 1, v % 10 >= 5));
    if k == 1 {
        assert(q == 1);
        assert(t == head) by (nonlinear_arith)
            requires
                t == head * q,
                q == 1,
        ;
        assert(rest / 10 == 0);
        assert(v / 10 == head);
        assert((v % 10 >= 5) == (rest >= 5 * q));
        assert(shortened(head, exponent + 1, v % 10 >= 5) == (
            if v % 10 >= 5 {
                head + 1
            } else {
                head
            },
            exponent + 1,
        ));
    } else {
        let q2 = pow10((k - 2) as nat);
        assert(q == 10 * q2);
        assert(rest / 10 < q);
        assert((rest / 10 >= 5 * q2) == (rest >= 5 * q));
        lemma_shortened(head, (k - 1) as nat, rest / 10, exponent + 1, v % 10 >= 5);
        assert(v / 10 == head * q + rest / 10);
    }
}

/// What reading a literal for rounding has found: the first nineteen digits
/// from the first one other than zero on, rounded, and how many digits were
/// left out behind them.
struct Cut {
    seen_point: bool,
    head: u64,
    dropped: usize,
    digits: usize,
    fraction: usize,
}

/// Reads the characters `from .. to` and keeps nineteen digits; `None` when
/// they are no digits with at most one point.
fn read_rounded(chars: &Vec<char>, from: usize, to: usize) -> (r: Option<Cut>)
    requires
        from <= to <= chars.len(),
    ensures
        ({
            let body = chars@.subrange(from as int, to as int);
            let full = scan(body, body.len());
            match r {
                Some(g) => {
                    &&& full.ok
                    &&& full.digits == g.digits
                    &&& full.fraction == g.fraction
                    &&& full.seen_point == g.seen_point
                    &&& shortened(full.value, 0, false) == (g.head as nat, g.dropped as int)
                },
                None => !full.ok,
            }
        }),
{
    let ghost body = chars@.subrange(from as int, to as int);
    let mut head: u64 = 0;
    let mut dropped: usize = 0;
    let mut up = false;
    let mut seen_point = false;
    let mut digits: usize = 0;
    let mut fraction: usize = 0;
    let ghost mut rest: nat = 0;
    let mut i: usize = from;
    while i < to
        invariant
            from <= i <= to <= chars.len(),
            body == chars@.subrange(from as int, to as int),
            scan(body, (i - from) as nat).ok,
            scan(body, (i - from) as nat).digits == digits,
            scan(body, (i - from) as nat).fraction == fraction,
            scan(body, (i - from) as nat).seen_point == seen_point,
            digits <= i - from,
            fraction <= i - from,
            dropped <= i - from,
            head < 10_000_000_000_000_000_000,
            dropped == 0 ==> scan(body, (i - from) as nat).value == head,
            dropped > 0 ==> {
                &&& head >= 1_000_000_000_000_000_000
                &&& scan(body, (i - from) as nat).value == head * pow10(dropped as nat) + rest
                &&& rest < pow10(dropped as nat)
                &&& up == (rest >= 5 * pow10((dropped - 1) as nat))
            },
        decreases to - i,
    {
        let c = chars[i];
        assert(body[i - from] == c);
        proof {
            lemma_scan_monotonic(body, (i - from + 1) as nat, body.len());
        }
        match digit_of_char(c) {
            Some(d) => {
                if dropped > 0 {
                    proof {
                        let p = pow10(dropped as nat);
                        let q = pow10((dropped - 1) as nat);
                        assert(p == 10 * q);
                        assert(pow10((dropped + 1) as nat) == 10 * p);
                        assert((head * p + rest) * 10 + d == head * (10 * p) + (rest * 10 + d))
                            by (nonlinear_arith);
                        rest = rest * 10 + d as nat;
                    }
                    dropped = dropped + 1;
                } else if head >= 1_000_000_000_000_000_000 {
                    proof {
                        assert(pow10(1) == 10) by {
                            reveal_with_fuel(pow10, 2);
                        }
                        assert(pow10(0) == 1);
                        assert(head * pow10(1) == head * 10) by (nonlinear_arith)
                            requires
                                pow10(1) == 10,
                        ;
                        rest = d as nat;
                    }
                    dropped = 1;
                    up = d >= 5;
                } else {
                    head = head * 10 + d as u64;
                }
                digits = digits + 1;
                if seen_point {
                    fraction = fraction + 1;
                }
            },
            None => {
                if c == '.' && !seen_point {
                    seen_point = true;
                } else {
                    return None;
                }
            },
        }
        i = i + 1;
    }
    proof {
        if dropped > 0 {
            lemma_shortened(head as nat, dropped as nat, rest, 0, false);
        }
    }
    let kept: u64 = if dropped > 0 && up {
        head + 1
    } else {
        head
    };
    Some(Cut { seen_point, head: kept, dropped, digits, fraction })
}

/// Where the digits of the literal `from .. to` begin, and whether a minus stands before them.
fn read_sign(chars: &Vec<char>, from: usize, to: usize) -> (r: (usize, bool))
    requires
        from <= to <= chars.len(),
    ensures
        ({
            let s = chars@.subrange(from as int, to as int);
            &&& from <= r.0 <= to
            &&& chars@.subrange(r.0 as int, to as int) == unsigned_part(s)
            &&& r.1 == (s.len() > 0 && s[0] == '-')
        }),
{
    let ghost s = chars@.subrange(from as int, to as int);
    if from < to && (chars[from] == '-' || chars[from] == '+') {
        assert(s[0] == chars@[from as int]);
        assert(chars@.subrange(from + 1, to as int) =~= s.subrange(1, s.len() as int));
        (from + 1, chars[from] == '-')
    } else {
        if from < to {
            assert(s[0] == chars@[from as int]);
        }
        (from, false)
    }
}

/// Whether the characters `from .. to` are an integer literal.
fn is_integer_text(chars: &Vec<char>, from: usize, to: usize) -> (b: bool)
    requires
        from <= to <= chars.len(),
    ensures
        b == is_integer_literal(chars@.subrange(from as int, to as int)),
{
    let (start, negative) = read_sign(chars, from, to);
    match read_rounded(chars, start, to) {
        Some(g) => g.digits > 0 && !g.seen_point,
        None => false,
    }
}

/// Reads the characters `from .. to` as an integer literal.
fn read_integer(chars: &Vec<char>, from: usize, to: usize) -> (r: Option<i64>)
    requires
        from <= to <= chars.len(),
    ensures
        match r {
            Some(v) => parse_integer(chars@.subrange(from as int, to as int)) == Some(v as int),
            None => parse_integer(chars@.subrange(from as int, to as int)) is None,
        },
{
    let (start, negative) = read_sign(chars, from, to);
    match read_body(chars, start, to) {
        Some(reading) => {
            if reading.digits == 0 || reading.seen_point {
                None
            } else if negative {
                if reading.value > 0x8000_0000_0000_0000 {
                    None
                } else {
                    Some((-(reading.value as i128)) as i64)
                }
            } else if reading.value > 0x7fff_ffff_ffff_ffff {
                None
            } else {
                Some(reading.value as i64)
            }
        },
        None => None,
    }
}

proof fn lemma_mark_found(s: Seq<char>, i: int, n: nat)
    requires
        0 <= i < n <= s.len(),
        s[i] == 'e' || s[i] == 'E',
        exponent_mark(s, i as nat) is None,
    ensures
        exponent_mark(s, n) == Some(i),
    decreases n,
{
    if n > i + 1 {
        lemma_mark_found(s, i, (n - 1) as nat);
    }
}

/// The exponent of the normal form lies at most nineteen above the exponent given.
pub proof fn lemma_normalized_exponent(negative: bool, coefficient: nat, exponent: int)
    requires
        0 < coefficient <= u64::MAX,
    ensures
        exponent <= normalized(negative, coefficient, exponent).exponent <= exponent + 19,
{
    lemma_normalized_factor(negative, coefficient, exponent);
    let d = normalized(negative, coefficient, exponent);
    let k = (d.exponent - exponent) as nat;
    lemma_normalized_shape(negative, coefficient, exponent);
    if k >= 20 {
        lemma_pow10_monotonic(20, k);
        lemma_pow10_19();
        assert(d.coefficient * pow10(k) >= pow10(k)) by (nonlinear_arith)
            requires
                d.coefficient >= 1,
                pow10(k) >= 0,
        ;
    }
}

proof fn lemma_normalized_factor(negative: bool, coefficient: nat, exponent: int)
    requires
        0 < coefficient,
    ensures
        normalized(negative, coefficient, exponent).exponent >= exponent,
        normalized(negative, coefficient, exponent).coefficient * pow10(
            (normalized(negative, coefficient, exponent).exponent - exponent) as nat,
        ) == coefficient,
    decreases coefficient,
{
    if coefficient % 10 == 0 {
        lemma_normalized_factor(negative, coefficient / 10, exponent + 1);
        let d = normalized(negative, coefficient, exponent);
        let k = (d.exponent - exponent - 1) as nat;
        assert(d.coefficient * pow10(k + 1) == coefficient) by (nonlinear_arith)
            requires
                d.coefficient * pow10(k) == coefficient / 10,
                pow10(k + 1) == 10 * pow10(k),
                coefficient % 10 == 0,
        ;
    } else {
        assert(coefficient * pow10(0) == coefficient) by (nonlinear_arith)
            requires
                pow10(0) == 1,
        ;
    }
}

/// A number of a document.
#[derive(Clone, Copy, Debug, PartialEq, Eq)]
pub struct Number {
    negative: bool,
    coefficient: u64,
    exponent: i32,
}

impl View for Number {
    type V = Decimal;

    closed spec fn view(&self) -> Decimal {
        Decimal {
            negative: self.negative,
            coefficient: self.coefficient as nat,
            exponent: self.exponent as int,
        }
    }
}

impl Number {
    #[verifier::type_invariant]
    spec fn well_formed(self) -> bool {
        self@.canonical()
    }

    /// The number `±coefficient × 10^exponent`, or `None` when its canonical
    /// exponent lies outside `-MAX_EXPONENT ..= MAX_EXPONENT`.
    pub fn new(negative: bool, coefficient: u64, exponent: i32) -> (r: Option<Number>)
        ensures
            match r {
                Some(n) => n@ == normalized(negative, coefficient as nat, exponent as int)
                    && n@.canonical(),
                None => !normalized(negative, coefficient as nat, exponent as int).canonical(),
            },
            coefficient != 0 ==> exponent <= normalized(
                negative,
                coefficient as nat,
                exponent as int,
            ).exponent <= exponent + 20,
    {
        if coefficient == 0 {
            return Some(Number { negative: false, coefficient: 0, exponent: 0 });
        }
        let mut c: u64 = coefficient;
        let mut e: i64 = exponent as i64;
        proof {
            assert(pow10(0) * c == coefficient) by (nonlinear_arith)
                requires
                    pow10(0) == 1,
                    c == coefficient,
            ;
        }
        while c % 10 == 0
            invariant
                c != 0,
                exponent <= e <= exponent + 20,
                pow10((e - exponent) as nat) * c == coefficient,
                normalized(negative, c as nat, e as int) == normalized(
                    negative,
                    coefficient as nat,
                    exponent as int,
                ),
            decreases c,
        {
            proof {
                let k = (e - exponent) as nat;
                assert(pow10(k + 1) * (c / 10) == coefficient) by (nonlinear_arith)
                    requires
                        pow10(k + 1) == 10 * pow10(k),
                        pow10(k) * c == coefficient,
                        c % 10 == 0,
                ;
                if k + 1 > 20 {
                    lemma_pow10_monotonic(20, k + 1);
                    lemma_pow10_19();
                    assert(pow10(k + 1) * (c / 10) >= pow10(k + 1)) by (nonlinear_arith)
                        requires
                            c / 10 >= 1,
                            pow10(k + 1) >= 0,
                    ;
                }
            }
            c = c / 10;
            e = e + 1;
        }
        if e < -(MAX_EXPONENT as i64) || e > MAX_EXPONENT as i64 {
            None
        } else {
            Some(Number { negative, coefficient: c, exponent: e as i32 })
        }
    }

    pub fn zero() -> (r: Number)
        ensures
            r@ == Decimal::of_nat(0),
            r@.canonical(),
    {
        Number { negative: false, coefficient: 0, exponent: 0 }
    }

    /// Whether `self < other` as numbers.
    pub fn lt(&self, other: &Number) -> (b: bool)
        ensures
            b == self@.lt(other@),
    {
        parts_lt(
            self.negative,
            self.coefficient,
            self.exponent,
            other.negative,
            other.coefficient,
            other.exponent,
        )
    }

    /// Whether `self > other` as numbers.
    pub fn gt(&self, other: &Number) -> (b: bool)
        ensures
            b == other@.lt(self@),
    {
        other.lt(self)
    }

    /// The count that the number is, if it is one.
    pub fn to_count(&self) -> (r: Option<u64>)
        ensures
            match r {
                Some(c) => self@.count() == Some(c as nat),
                None => self@.count() is None,
            },
    {
        if self.negative || self.exponent < 0 {
            None
        } else if self.coefficient == 0 {
            assert(0 * pow10(self.exponent as nat) == 0) by (nonlinear_arith);
            Some(0)
        } else if self.exponent >= 20 {
            proof {
                lemma_scaled_large(self.coefficient, self.exponent as nat);
            }
            None
        } else {
            let p = pow10_small(self.exponent as u32);
            proof {
                lemma_scaled_fits(self.coefficient, p, self.exponent as nat);
            }
            let wide: u128 = (self.coefficient as u128) * (p as u128);
            if wide > u64::MAX as u128 {
                None
            } else {
                Some(wide as u64)
            }
        }
    }

    /// Whether the number is a count and `n` lies below it.
    pub fn exceeds_count(&self, n: u64) -> (b: bool)
        ensures
            b == self@.above_count(n as nat),
    {
        match self.to_count() {
            Some(c) => n < c,
            None => false,
        }
    }

    /// Whether the number is a count and `n` lies above it.
    pub fn below_count(&self, n: u64) -> (b: bool)
        ensures
            b == self@.under_count(n as nat),
    {
        match self.to_count() {
            Some(c) => c < n,
            None => false,
        }
    }

    /// The number `±coefficient × 10^exponent` where it keeps the bounds of
    /// the exponent, and zero where it does not.
    fn within_bounds(negative: bool, coefficient: u64, exponent: i128) -> (r: Number)
        requires
            coefficient > 0,
        ensures
            r@ == (if normalized(negative, coefficient as nat, exponent as int).canonical() {
                normalized(negative, coefficient as nat, exponent as int)
            } else {
                Decimal::of_nat(0)
            }),
    {
        proof {
            lemma_normalized_exponent(negative, coefficient as nat, exponent as int);
        }
        if exponent < -1000 || exponent > 1000 {
            Number::zero()
        } else {
            match Number::new(negative, coefficient, exponent as i32) {
                Some(n) => n,
                None => Number::zero(),
            }
        }
    }

    /// Reads the digits `from .. to` of a literal and takes them times
    /// `10^power`, or reads them as zero where no power is given.
    fn read_scaled(chars: &Vec<char>, from: usize, to: usize, power: Option<i64>) -> (r: Option<
        Number,
    >)
        requires
            from <= to <= chars.len(),
        ensures
            ({
                let p = match power {
                    Some(x) => Some(x as int),
                    None => None,
                };
                match r {
                    Some(n) => scaled_literal(chars@.subrange(from as int, to as int), p) == Some(
                        n@,
                    ),
                    None => scaled_literal(chars@.subrange(from as int, to as int), p) is None,
                }
            }),
    {
        let (start, negative) = read_sign(chars, from, to);
        let ghost body = chars@.subrange(start as int, to as int);
        let ghost full = scan(body, body.len());
        match read_digits(chars, start, to) {
            Some(g) => {
                if g.digits == 0 {
                    return None;
                }
                let p = match power {
                    Some(p) => p,
                    None => {
                        return Some(Number::zero());
                    },
                };
                let given: i128 = p as i128 - g.fraction as i128;
                let exponent: i128 = given + g.zeros as i128;
                proof {
                    lemma_normalized_shape(negative, full.value, given as int);
                    lemma_normalized_coefficient(negative, full.value, given as int);
                    if g.head != 0 {
                        lemma_normalized_strips(
                            negative,
                            g.head as nat,
                            g.zeros as nat,
                            given as int,
                        );
                        lemma_normalized_shape(negative, g.head as nat, exponent as int);
                    } else {
                        assert(0 * pow10(g.zeros as nat) == 0) by (nonlinear_arith);
                    }
                }
                if g.head == 0 {
                    Some(Number::zero())
                } else {
                    Some(Self::within_bounds(negative, g.head, exponent))
                }
            },
            None => match read_rounded(chars, start, to) {
                Some(g) => {
                    if g.digits == 0 {
                        return None;
                    }
                    let p = match power {
                        Some(p) => p,
                        None => {
                            return Some(Number::zero());
                        },
                    };
                    let given: i128 = p as i128 - g.fraction as i128;
                    let exponent: i128 = given + g.dropped as i128;
                    proof {
                        lemma_shortened_shift(full.value, given as int, false);
                    }
                    if g.head == 0 {
                        Some(Number::zero())
                    } else {
                        Some(Self::within_bounds(negative, g.head, exponent))
                    }
                },
                None => None,
            },
        }
    }

    /// Reads a decimal literal: `None` exactly for a text that is none.
    pub fn parse(text: &str) -> (r: Option<Number>)
        ensures
            match r {
                Some(n) => parse_decimal(text@) == Some(n@),
                None => parse_decimal(text@) is None,
            },
    {
        let chars = chars_of(text);
        let mut mark: usize = 0;
        while mark < chars.len() && chars[mark] != 'e' && chars[mark] != 'E'
            invariant
                mark <= chars.len(),
                exponent_mark(chars@, mark as nat) is None,
            decreases chars.len() - mark,
        {
            mark = mark + 1;
        }
        assert(chars@.subrange(0, chars.len() as int) =~= chars@);
        if mark == chars.len() {
            Self::read_scaled(&chars, 0, mark, Some(0))
        } else {
            proof {
                lemma_mark_found(chars@, mark as int, chars.len() as nat);
            }
            if is_integer_text(&chars, mark + 1, chars.len()) {
                let power = read_integer(&chars, mark + 1, chars.len());
                Self::read_scaled(&chars, 0, mark, power)
            } else {
                None
            }
        }
    }

    /// Whether a text names what no number holds.
    pub fn names_none(text: &str) -> (b: bool)
        ensures
            b == names_no_number(text@),
    {
        let chars = chars_of(text);
        let (start, _) = read_sign(&chars, 0, chars.len());
        assert(chars@.subrange(0, chars.len() as int) =~= chars@);
        let mut rest: Vec<char> = Vec::new();
        let mut i: usize = start;
        while i < chars.len()
            invariant
                start <= i <= chars.len(),
                rest@ == chars@.subrange(start as int, i as int),
            decreases chars.len() - i,
        {
            rest.push(chars[i]);
            assert(rest@ =~= chars@.subrange(start as int, i + 1));
            i = i + 1;
        }
        chars_same_ignoring_case(&rest, &chars_of("inf")) || chars_same_ignoring_case(
            &rest,
            &chars_of("infinity"),
        ) || chars_same_ignoring_case(&rest, &chars_of("nan"))
    }

    /// Reads an integer literal.
    pub fn parse_i64(text: &str) -> (r: Option<i64>)
        ensures
            match r {
                Some(v) => parse_integer(text@) == Some(v as int),
                None => parse_integer(text@) is None,
            },
    {
        let chars = chars_of(text);
        assert(chars@.subrange(0, chars.len() as int) =~= chars@);
        read_integer(&chars, 0, chars.len())
    }

    /// The whole number `n`.
    pub fn from_u64(n: u64) -> (r: Number)
        ensures
            r@ == normalized(false, n as nat, 0),
            r@.canonical(),
    {
        proof {
            lemma_normalized_shape(false, n as nat, 0);
        }
        match Number::new(false, n, 0) {
            Some(r) => r,
            None => Number::zero(),
        }
    }

    /// The integer `n`.
    pub fn from_i64(n: i64) -> (r: Number)
        ensures
            r@ == normalized(n < 0, Decimal::of_int(n as int).coefficient, 0),
            r@.canonical(),
    {
        let magnitude: u64 = if n < 0 {
            (-(n as i128)) as u64
        } else {
            n as u64
        };
        proof {
            lemma_normalized_shape(n < 0, magnitude as nat, 0);
        }
        match Number::new(n < 0, magnitude, 0) {
            Some(r) => r,
            None => Number::zero(),
        }
    }

    /// The number without its fraction, held to 64 signed bits.
    pub fn truncate_i64(&self) -> (v: i64)
        ensures
            v == self@.clamped(),
    {
        let magnitude: u128 = if self.exponent >= 0 {
            if self.coefficient == 0 {
                assert(0 * pow10(self.exponent as nat) == 0) by (nonlinear_arith);
                0
            } else if self.exponent >= 20 {
                proof {
                    lemma_scaled_large(self.coefficient, self.exponent as nat);
                }
                u128::MAX
            } else {
                let p = pow10_small(self.exponent as u32);
                proof {
                    lemma_scaled_fits(self.coefficient, p, self.exponent as nat);
                }
                (self.coefficient as u128) * (p as u128)
            }
        } else {
            let k: i64 = -(self.exponent as i64);
            if k >= 20 {
                proof {
                    lemma_pow10_monotonic(20, k as nat);
                    lemma_pow10_19();
                    lemma_small_quotient(self.coefficient as nat, pow10(k as nat));
                }
                0
            } else {
                let p = pow10_small(k as u32);
                proof {
                    lemma_pow10_positive(k as nat);
                }
                (self.coefficient / p) as u128
            }
        };
        if self.negative {
            if magnitude >= 0x8000_0000_0000_0000 {
                i64::MIN
            } else {
                -(magnitude as i64)
            }
        } else if magnitude > 0x7fff_ffff_ffff_ffff {
            i64::MAX
        } else {
            magnitude as i64
        }
    }

    /// The number written out in full; `parse` reads it back as the same number.
    pub fn to_text(&self) -> (s: String)
        ensures
            s@ == self@.text(),
            parse_decimal(s@) == Some(self@),
    {
        proof {
            use_type_invariant(self);
            crate::number_text_laws::lemma_written_is_read_back(self@);
        }
        let mut digits: Vec<char> = Vec::new();
        push_decimal(&mut digits, self.coefficient);
        let mut out: Vec<char> = Vec::new();
        if self.negative {
            out.push('-');
        }
        if self.exponent >= 0 {
            push_range(&mut out, &digits, 0, digits.len());
            push_zeros(&mut out, self.exponent as u64);
            assert(digits@.subrange(0, digits@.len() as int) =~= digits@);
        } else {
            let shift: u64 = (-(self.exponent as i64)) as u64;
            if digits.len() as u64 > shift {
                let split: usize = digits.len() - shift as usize;
                push_range(&mut out, &digits, 0, split);
                out.push('.');
                push_range(&mut out, &digits, split, digits.len());
            } else {
                out.push('0');
                out.push('.');
                push_zeros(&mut out, shift - digits.len() as u64);
                push_range(&mut out, &digits, 0, digits.len());
                assert(digits@.subrange(0, digits@.len() as int) =~= digits@);
            }
        }
        assert(out@ =~= self@.text());
        text_of(&out)
    }

    /// Whether both are the same number.
    pub fn same(&self, other: &Number) -> (b: bool)
        ensures
            b == (self@ == other@),
    {
        self.negative == other.negative && self.coefficient == other.coefficient && self.exponent
            == other.exponent
    }
}

} // verus!
