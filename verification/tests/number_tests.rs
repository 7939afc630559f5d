use common_library::number::Number;
use common_library::value::Value;

fn dec(s: &str) -> Number {
    Number::parse(s).expect("a decimal literal")
}

#[test]
fn literals_are_read_and_written_back() {
    assert_eq!(dec("0").to_text(), "0");
    assert_eq!(dec("-0").to_text(), "0");
    assert_eq!(dec("42").to_text(), "42");
    assert_eq!(dec("+42").to_text(), "42");
    assert_eq!(dec("-42").to_text(), "-42");
    assert_eq!(dec("1200").to_text(), "1200");
    assert_eq!(dec("12.50").to_text(), "12.5");
    assert_eq!(dec("0.001").to_text(), "0.001");
    assert_eq!(dec("-0.25").to_text(), "-0.25");
    assert_eq!(dec(".5").to_text(), "0.5");
    assert_eq!(dec("5.").to_text(), "5");
    assert_eq!(dec("007").to_text(), "7");
    assert_eq!(dec("18446744073709551615").to_text(), "18446744073709551615");
}

#[test]
fn literals_may_bear_a_power_of_ten() {
    assert_eq!(dec("1e5").to_text(), "100000");
    assert_eq!(dec("1E5"), dec("100000"));
    assert_eq!(dec("1.5e+3"), dec("1500"));
    assert_eq!(dec("-2.5E-3").to_text(), "-0.0025");
    assert_eq!(dec("12e-1"), dec("1.2"));
    assert_eq!(dec("0e999999"), Number::zero());
    assert_eq!(dec("1e400"), Number::new(false, 1, 400).unwrap());
    assert_eq!(dec("10e399"), Number::new(false, 1, 400).unwrap());
    assert_eq!(dec("1.7976931348623157e308").to_text().len(), 309);
    assert_eq!(dec("5e-324"), Number::new(false, 5, -324).unwrap());
}

#[test]
fn zeros_before_and_behind_the_digits_do_not_count() {
    assert_eq!(dec("1000000000000000000000"), Number::new(false, 1, 21).unwrap());
    assert_eq!(dec("0000000000000000000000001"), dec("1"));
    assert_eq!(dec("1.5000000000000000000000000"), dec("1.5"));
    assert_eq!(dec("0.0000000000000000000000015"), Number::new(false, 15, -25).unwrap());
    assert_eq!(dec("184467440737095516150000"), Number::new(false, u64::MAX, 4).unwrap());
    assert_eq!(dec("0.000").to_text(), "0");
}

#[test]
fn digits_beyond_the_nineteenth_are_rounded() {
    assert_eq!(
        dec("18446744073709551616"),
        Number::new(false, 1_844_674_407_370_955_162, 1).unwrap()
    );
    assert_eq!(
        dec("123456789012345678949"),
        Number::new(false, 1_234_567_890_123_456_789, 2).unwrap()
    );
    assert_eq!(
        dec("123456789012345678950"),
        Number::new(false, 12_345_678_901_234_567_895, 1).unwrap()
    );
    assert_eq!(
        dec("987654321098765432150"),
        Number::new(false, 9_876_543_210_987_654_322, 2).unwrap()
    );
    assert_eq!(
        dec("987654321098765432149"),
        Number::new(false, 9_876_543_210_987_654_321, 2).unwrap()
    );
    assert_eq!(
        dec("-123456789012345678951"),
        Number::new(true, 123_456_789_012_345_679, 3).unwrap()
    );
    assert_eq!(dec("99999999999999999999"), Number::new(false, 1, 20).unwrap());
    assert_eq!(dec("10000000000000000000000000000000001"), Number::new(false, 1, 34).unwrap());
    assert_eq!(dec("1.0000000000000000000000000000000001"), dec("1"));
    assert_eq!(
        dec("0.333333333333333333333333333333"),
        Number::new(false, 3_333_333_333_333_333_333, -19).unwrap()
    );
    assert_eq!(
        dec("0.66666666666666666666666e-5"),
        Number::new(false, 6_666_666_666_666_666_667, -24).unwrap()
    );
    assert_eq!(dec("18446744073709551615"), Number::new(false, u64::MAX, 0).unwrap());
    assert_eq!(dec("18446744073709551616").to_text(), "18446744073709551620");
}

#[test]
fn what_leaves_the_bounds_of_the_exponent_is_read_as_zero() {
    for text in [
        "1e401", "1e-421", "-1e401", "1e99999999999999999999", "1e-99999999999999999999",
        "12345678901234567890123e397", "0.00000000000000000000000001e-380",
    ] {
        assert_eq!(Number::parse(text), Some(Number::zero()), "{text:?}");
    }
    assert_eq!(dec("1e400"), Number::new(false, 1, 400).unwrap());
    assert_eq!(dec("1e-400"), Number::new(false, 1, -400).unwrap());
    assert_eq!(dec("10e399"), Number::new(false, 1, 400).unwrap());
    assert_eq!(dec("0e99999999999999999999"), Number::zero());
    assert_eq!(
        dec("12345678901234567890123e390"),
        Number::new(false, 1_234_567_890_123_456_789, 394).unwrap()
    );
}

#[test]
fn what_is_no_literal_is_not_read() {
    for bad in [
        "", "-", "+", ".", "abc", "1.2.3", "--1", " 1", "1 ", "0x10", "NaN", "inf",
        "e5", "1e", "1e+", "1e1.5", "1e5e5", "1e5.", "1.2.3e4", "99999999999999999999x",
    ] {
        assert!(Number::parse(bad).is_none(), "{bad:?} is no literal");
    }
    for bad in ["", "-", "1.0", "1.", "abc", "9223372036854775808", "-9223372036854775809"] {
        assert!(Number::parse_i64(bad).is_none(), "{bad:?} is no integer");
    }
    assert_eq!(Number::parse_i64("+17"), Some(17));
    assert_eq!(Number::parse_i64("-17"), Some(-17));
    assert_eq!(Number::parse_i64("9223372036854775807"), Some(i64::MAX));
}

#[test]
fn equal_values_are_stored_alike() {
    assert_eq!(dec("1.0"), dec("1"));
    assert_eq!(dec("100"), Number::new(false, 1, 2).unwrap());
    assert_eq!(dec("0.0"), Number::zero());
    assert_eq!(Number::from_i64(-5), dec("-5"));
    assert_eq!(Number::from_u64(1000), dec("1000.000"));
    assert!(dec("1.0").same(&dec("1")));
    assert!(!dec("1.01").same(&dec("1")));
    assert!(Number::new(false, 1, 401).is_none());
    assert!(Number::new(false, 10, 400).is_none());
    assert!(Number::new(true, 1, -400).is_some());
    assert_eq!(Number::new(true, 0, 9000), Some(Number::zero()));
}

#[test]
fn numbers_are_ordered_by_value() {
    assert!(dec("1").lt(&dec("2")));
    assert!(!dec("2").lt(&dec("1")));
    assert!(!dec("2").lt(&dec("2")));
    assert!(dec("-1").lt(&dec("0")));
    assert!(dec("-2").lt(&dec("-1")));
    assert!(dec("0.5").lt(&dec("5")));
    assert!(dec("9.99").lt(&dec("10")));
    assert!(dec("100").gt(&dec("99.999")));
    assert!(dec("0.001").lt(&dec("1000")));
    assert!(Number::new(false, 1, 300).unwrap().gt(&Number::from_u64(u64::MAX)));
    assert!(Number::new(false, 1, -300).unwrap().lt(&Number::from_u64(1)));
    assert!(Number::new(true, 1, 300).unwrap().lt(&Number::new(true, 1, -300).unwrap()));
    assert!(dec("3").exceeds_count(2));
    assert!(!dec("3").exceeds_count(3));
    assert!(dec("3e2").below_count(301));
    assert!(!dec("3").below_count(3));
    assert!(!dec("2.5").exceeds_count(2));
    assert!(!dec("2.5").below_count(3));
    assert!(!dec("-1").below_count(0));
    assert_eq!(dec("1200").to_count(), Some(1200));
    assert_eq!(dec("0").to_count(), Some(0));
    assert_eq!(dec("1.5").to_count(), None);
    assert_eq!(dec("-2").to_count(), None);
    assert_eq!(dec("18446744073709551615").to_count(), Some(u64::MAX));
    assert_eq!(dec("1e20").to_count(), None);
}

#[test]
fn truncation_drops_the_fraction_and_stays_in_bounds() {
    assert_eq!(dec("7.9").truncate_i64(), 7);
    assert_eq!(dec("-7.9").truncate_i64(), -7);
    assert_eq!(dec("0.9").truncate_i64(), 0);
    assert_eq!(dec("1200").truncate_i64(), 1200);
    assert_eq!(Number::new(false, 1, 30).unwrap().truncate_i64(), i64::MAX);
    assert_eq!(Number::new(true, 1, 30).unwrap().truncate_i64(), i64::MIN);
    assert_eq!(Number::new(false, 5, -30).unwrap().truncate_i64(), 0);
    assert_eq!(Number::from_u64(u64::MAX).truncate_i64(), i64::MAX);
}

#[test]
fn documents_are_written_as_json() {
    let doc = Value::Object(vec![
        ("name".to_string(), Value::String("a\"b\\c\n\t\r\u{1}".to_string())),
        (
            "list".to_string(),
            Value::Array(vec![
                Value::Null,
                Value::Boolean(false),
                Value::Number(dec("-1.5")),
                Value::Array(vec![]),
                Value::Object(vec![]),
            ]),
        ),
    ]);
    assert_eq!(
        doc.to_json_text(),
        "{\"name\":\"a\\\"b\\\\c\\n\\t\\r\\u0001\",\"list\":[null,false,-1.5,[],{}]}"
    );
    assert_eq!(Value::Boolean(true).to_json_text(), "true");
}

#[test]
fn documents_are_the_same_whatever_the_order_of_members() {
    let a = Value::Object(vec![
        ("x".to_string(), Value::Number(dec("1"))),
        ("y".to_string(), Value::Array(vec![Value::Null])),
    ]);
    let b = Value::Object(vec![
        ("y".to_string(), Value::Array(vec![Value::Null])),
        ("x".to_string(), Value::Number(dec("1.0"))),
    ]);
    let c = Value::Object(vec![
        ("x".to_string(), Value::Number(dec("1"))),
        ("y".to_string(), Value::Array(vec![Value::Boolean(false)])),
    ]);
    assert!(a.same_as(&b));
    assert!(b.same_as(&a));
    assert!(!a.same_as(&c));
    assert!(!a.same_as(&Value::Null));
    assert!(a.same_as(&a.duplicate()));
    assert_eq!(a.clone(), a);
    assert!(!Value::Array(vec![Value::Null]).same_as(&Value::Array(vec![])));
}

#[test]
fn members_are_found_by_name() {
    let doc = Value::Object(vec![
        ("a".to_string(), Value::Null),
        ("b".to_string(), Value::Boolean(true)),
        ("a".to_string(), Value::Boolean(false)),
    ]);
    assert_eq!(doc.get("a"), Some(&Value::Null));
    assert_eq!(doc.get("b"), Some(&Value::Boolean(true)));
    assert_eq!(doc.get("c"), None);
    assert!(doc.contains_key("b"));
    assert!(!Value::Null.contains_key("b"));
    assert!(Value::Null.is_null());
    assert!(!doc.is_null());
}

fn from_double(v: f64) -> Number {
    Number::parse(&format!("{v:e}")).expect("a finite double")
}

fn doubles() -> Vec<f64> {
    let mut list = vec![
        0.0,
        1.0,
        -1.0,
        0.1,
        0.5,
        1.5,
        -2.5,
        3.14159,
        1e-7,
        1e7,
        1e21,
        1.7976931348623157e308,
        5e-324,
        2.2250738585072014e-308,
        123456789.125,
        -0.000123,
        9007199254740992.0,
        4294967296.0,
    ];
    let mut state: u64 = 0x9e37_79b9_7f4a_7c15;
    for _ in 0..300 {
        state = state
            .wrapping_mul(6364136223846793005)
            .wrapping_add(1442695040888963407);
        let v = f64::from_bits(state);
        if v.is_finite() {
            list.push(v);
        }
        let small = ((state >> 11) % 2_000_001) as f64 / 1000.0 - 1000.0;
        list.push(small);
    }
    list
}

#[test]
fn decimals_stand_for_doubles_digit_by_digit() {
    for v in doubles() {
        let n = from_double(v);
        assert_eq!(n.to_text().parse::<f64>().unwrap(), v, "{v:e}");
        if v != 0.0 {
            assert_eq!(n.to_text(), format!("{v}"), "{v:e}");
        }
        assert_eq!(Number::parse(&n.to_text()), Some(n), "{v:e}");
    }
}

#[test]
fn decimals_are_ordered_as_doubles_are() {
    let values = doubles();
    for (i, a) in values.iter().enumerate() {
        let x = from_double(*a);
        for b in values.iter().skip(i % 7).step_by(7) {
            let y = from_double(*b);
            assert_eq!(x.lt(&y), a < b, "{a:e} < {b:e}");
            assert_eq!(x.gt(&y), a > b, "{a:e} > {b:e}");
            assert_eq!(x.same(&y), a == b, "{a:e} == {b:e}");
        }
    }
}

#[test]
fn truncation_is_that_of_doubles() {
    for v in doubles() {
        if v.abs() < 1e15 {
            assert_eq!(from_double(v).truncate_i64(), v as i64, "{v:e}");
        }
    }
    assert_eq!(from_double(1e300).truncate_i64(), 1e300 as i64);
    assert_eq!(from_double(-1e300).truncate_i64(), -1e300 as i64);
}
