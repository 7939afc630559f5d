//! The order of numbers is the order of their values, and equal values are
//! stored alike.

use vstd::prelude::*;
use crate::number::{
    lemma_pow10_positive, lemma_shortened_shift, normalized, pow10, shortened, Decimal,
};

verus! {

/// Powers of ten multiply as their exponents add.
pub proof fn lemma_pow10_adds(a: nat, b: nat)
    ensures
        pow10(a + b) == pow10(a) * pow10(b),
    decreases a,
{
    if a == 0 {
        assert(pow10(0) * pow10(b) == pow10(b)) by (nonlinear_arith)
            requires
                pow10(0) == 1,
        ;
    } else {
        lemma_pow10_adds((a - 1) as nat, b);
        assert(pow10(a + b) == 10 * pow10((a - 1 + b) as nat));
        assert(10 * (pow10((a - 1) as nat) * pow10(b)) == (10 * pow10((a - 1) as nat)) * pow10(b))
            by (nonlinear_arith);
    }
}

/// The value in units of a lower power of ten is the value in units of a
/// higher one, times the power of ten between them.
pub proof fn lemma_rescale(d: Decimal, base: int, lower: int)
    requires
        lower <= base <= d.exponent,
    ensures
        d.scaled(lower) == d.scaled(base) * pow10((base - lower) as nat),
{
    let up = (d.exponent - base) as nat;
    let down = (base - lower) as nat;
    lemma_pow10_adds(up, down);
    assert((d.exponent - lower) as nat == up + down);
    assert(d.signed() * (pow10(up) * pow10(down)) == (d.signed() * pow10(up)) * pow10(down))
        by (nonlinear_arith);
}

/// Two numbers are ordered as their values are in any unit that fits both.
pub proof fn lemma_lt_in_any_unit(a: Decimal, b: Decimal, unit: int)
    requires
        unit <= a.exponent,
        unit <= b.exponent,
    ensures
        a.lt(b) == (a.scaled(unit) < b.scaled(unit)),
{
    let base = if a.exponent <= b.exponent {
        a.exponent
    } else {
        b.exponent
    };
    lemma_rescale(a, base, unit);
    lemma_rescale(b, base, unit);
    let p = pow10((base - unit) as nat);
    lemma_pow10_positive((base - unit) as nat);
    let x = a.scaled(base);
    let y = b.scaled(base);
    assert((x < y) == (x * p < y * p)) by (nonlinear_arith)
        requires
            p >= 1,
    ;
}

/// No number is below itself, and of two numbers at most one is below the other.
pub proof fn lemma_lt_is_strict(a: Decimal, b: Decimal)
    ensures
        !a.lt(a),
        a.lt(b) ==> !b.lt(a),
{
}

/// What is below a number is below all that the number is below.
pub proof fn lemma_lt_is_transitive(a: Decimal, b: Decimal, c: Decimal)
    requires
        a.lt(b),
        b.lt(c),
    ensures
        a.lt(c),
{
    let ab = if a.exponent <= b.exponent {
        a.exponent
    } else {
        b.exponent
    };
    let unit = if ab <= c.exponent {
        ab
    } else {
        c.exponent
    };
    lemma_lt_in_any_unit(a, b, unit);
    lemma_lt_in_any_unit(b, c, unit);
    lemma_lt_in_any_unit(a, c, unit);
}

/// Two numbers in canonical form of which neither is below the other are the same.
pub proof fn lemma_equal_values_are_stored_alike(a: Decimal, b: Decimal)
    requires
        a.canonical(),
        b.canonical(),
        !a.lt(b),
        !b.lt(a),
    ensures
        a == b,
{
    if a.exponent <= b.exponent {
        lemma_same_value_same_form(a, b);
    } else {
        lemma_same_value_same_form(b, a);
    }
}

proof fn lemma_same_value_same_form(a: Decimal, b: Decimal)
    requires
        a.canonical(),
        b.canonical(),
        a.exponent <= b.exponent,
        a.scaled(a.exponent) == b.scaled(a.exponent),
    ensures
        a == b,
{
    let k = (b.exponent - a.exponent) as nat;
    assert(pow10(0) == 1);
    assert(a.signed() * pow10(0) == a.signed()) by (nonlinear_arith)
        requires
            pow10(0) == 1,
    ;
    lemma_pow10_positive(k);
    let p = pow10(k);
    assert(a.signed() == b.signed() * p);
    if b.coefficient == 0 {
        assert(b.signed() * p == 0) by (nonlinear_arith)
            requires
                b.signed() == 0,
        ;
    } else if k > 0 {
        let q = pow10((k - 1) as nat);
        assert(b.signed() * (10 * q) == 10 * (b.signed() * q)) by (nonlinear_arith);
        assert(a.signed() % 10 == 0);
        assert(a.coefficient % 10 == 0);
        assert(b.signed() * p != 0) by (nonlinear_arith)
            requires
                b.signed() != 0,
                p >= 1,
        ;
    } else {
        assert(b.signed() * p == b.signed()) by (nonlinear_arith)
            requires
                p == 1,
        ;
    }
}

/// Moving trailing zeros into the exponent leaves the value as it is: the
/// normal form is neither below nor above the number it was made from.
pub proof fn lemma_normalized_keeps_value(negative: bool, coefficient: nat, exponent: int)
    ensures
        ({
            let given = Decimal { negative, coefficient, exponent };
            let d = normalized(negative, coefficient, exponent);
            !d.lt(given) && !given.lt(d)
        }),
    decreases coefficient,
{
    let given = Decimal { negative, coefficient, exponent };
    let d = normalized(negative, coefficient, exponent);
    assert(pow10(0) == 1);
    if coefficient == 0 {
        let unit = if exponent <= 0 {
            exponent
        } else {
            0
        };
        lemma_lt_in_any_unit(d, given, unit);
        lemma_lt_in_any_unit(given, d, unit);
        assert(0 * pow10((exponent - unit) as nat) == 0) by (nonlinear_arith);
        assert(0 * pow10((0 - unit) as nat) == 0) by (nonlinear_arith);
    } else if coefficient % 10 == 0 {
        let tenth = Decimal { negative, coefficient: (coefficient / 10) as nat, exponent: exponent + 1 };
        lemma_normalized_keeps_value(negative, coefficient / 10, exponent + 1);
        // `tenth` and `given` are the same value.
        lemma_rescale(tenth, exponent + 1, exponent);
        assert(pow10(1) == 10) by {
            reveal_with_fuel(pow10, 2);
        }
        assert(tenth.signed() * pow10(0) == tenth.signed()) by (nonlinear_arith)
            requires
                pow10(0) == 1,
        ;
        assert(given.signed() * pow10(0) == given.signed()) by (nonlinear_arith)
            requires
                pow10(0) == 1,
        ;
        assert(tenth.signed() * 10 == given.signed());
        assert(tenth.scaled(exponent) == given.scaled(exponent));
        // So whatever orders `d` against `tenth` orders it against `given`.
        lemma_normalized_exponent_from(negative, coefficient / 10, exponent + 1);
        let unit = exponent;
        lemma_lt_in_any_unit(d, tenth, unit);
        lemma_lt_in_any_unit(tenth, d, unit);
        lemma_lt_in_any_unit(d, given, unit);
        lemma_lt_in_any_unit(given, d, unit);
    } else {
    }
}

/// The exponent of the normal form is not below the exponent given.
proof fn lemma_normalized_exponent_from(negative: bool, coefficient: nat, exponent: int)
    ensures
        coefficient != 0 ==> normalized(negative, coefficient, exponent).exponent >= exponent,
    decreases coefficient,
{
    if coefficient != 0 && coefficient % 10 == 0 {
        lemma_normalized_exponent_from(negative, coefficient / 10, exponent + 1);
    }
}

/// Where `j` digits `r` were left out behind `v` before, and `up` says
/// whether they come to half a unit or more, what cutting `v` further keeps
/// is nearest to all the digits.
proof fn lemma_cut_is_nearest(v: nat, up: bool, j: nat, r: nat)
    requires
        r < pow10(j),
        up == (j > 0 && 2 * r >= pow10(j)),
    ensures
        ({
            let cut = shortened(v, 0, up);
            &&& cut.1 >= 0
            &&& cut.0 <= 10_000_000_000_000_000_000
            &&& (2 * cut.0 - 1) * pow10((j + cut.1) as nat) <= 2 * (v * pow10(j) + r)
            &&& 2 * (v * pow10(j) + r) < (2 * cut.0 + 1) * pow10((j + cut.1) as nat)
            &&& j == 0 && cut.1 == 0 ==> cut.0 == v
        }),
    decreases v,
{
    let p = pow10(j);
    lemma_pow10_positive(j);
    if v < 10_000_000_000_000_000_000 {
        let c: nat = if up {
            v + 1
        } else {
            v
        };
        assert(shortened(v, 0, up) == (c, 0int));
        assert((2 * c - 1) * p == 2 * (v * p) + (2 * c - 1 - 2 * v) * p) by (nonlinear_arith);
        assert((2 * c + 1) * p == 2 * (v * p) + (2 * c + 1 - 2 * v) * p) by (nonlinear_arith);
        if up {
            assert((2 * c - 1 - 2 * v) * p == p) by (nonlinear_arith)
                requires
                    c == v + 1,
            ;
            assert((2 * c + 1 - 2 * v) * p == 3 * p) by (nonlinear_arith)
                requires
                    c == v + 1,
            ;
        } else {
            assert((2 * c - 1 - 2 * v) * p == -p) by (nonlinear_arith)
                requires
                    c == v,
            ;
            assert((2 * c + 1 - 2 * v) * p == p) by (nonlinear_arith)
                requires
                    c == v,
            ;
        }
    } else {
        let d = v % 10;
        let w = v / 10;
        let r2 = d * p + r;
        assert(pow10(j + 1) == 10 * p);
        assert(d * p <= 9 * p) by (nonlinear_arith)
            requires
                d <= 9,
                p >= 0,
        ;
        if d >= 5 {
            assert(d * p >= 5 * p) by (nonlinear_arith)
                requires
                    d >= 5,
                    p >= 0,
            ;
        } else {
            assert(d * p <= 4 * p) by (nonlinear_arith)
                requires
                    d <= 4,
                    p >= 0,
            ;
        }
        lemma_cut_is_nearest(w, d >= 5, j + 1, r2);
        lemma_shortened_shift(w, 1, d >= 5);
        let inner = shortened(w, 0, d >= 5);
        assert(shortened(v, 0, up) == (inner.0, inner.1 + 1));
        assert(w * pow10(j + 1) + r2 == v * p + r) by (nonlinear_arith)
            requires
                pow10(j + 1) == 10 * p,
                r2 == d * p + r,
                v == 10 * w + d,
        ;
        assert((j + 1 + inner.1) as nat == (j + (inner.1 + 1)) as nat);
    }
}

/// Cutting digits rounds to the nearest: what is kept, at most nineteen
/// digits or ten to the nineteenth, differs from all the digits by at most
/// half a unit of the last digit kept, and half a unit is rounded up.
pub proof fn lemma_shortened_is_nearest(v: nat)
    ensures
        ({
            let cut = shortened(v, 0, false);
            let unit = pow10(cut.1 as nat);
            &&& cut.1 >= 0
            &&& cut.0 <= 10_000_000_000_000_000_000
            &&& cut.1 == 0 ==> cut.0 == v
            &&& (2 * cut.0 - 1) * unit <= 2 * v < (2 * cut.0 + 1) * unit
        }),
{
    lemma_cut_is_nearest(v, false, 0, 0);
    assert(v * pow10(0) == v) by (nonlinear_arith)
        requires
            pow10(0) == 1,
    ;
    let cut = shortened(v, 0, false);
    assert((0 + cut.1) as nat == cut.1 as nat);
}

} // verus!
