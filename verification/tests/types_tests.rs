use common_library::error::Error;
use common_library::number::Number;
use common_library::validation::types::{
    ConstraintSeverity, ConstraintType, TypeConstraint, TypeDefinition, TypeErrorType,
    TypeValidator,
};
use common_library::value::Value;

fn text(s: &str) -> Value {
    Value::String(s.to_string())
}

fn num(n: i64) -> Value {
    Value::Number(Number::from_i64(n))
}

fn dec(s: &str) -> Value {
    Value::Number(Number::parse(s).expect("a decimal literal"))
}

fn object(members: Vec<(&str, Value)>) -> Value {
    Value::Object(
        members
            .into_iter()
            .map(|(k, v)| (k.to_string(), v))
            .collect(),
    )
}

fn constraint(
    name: &str,
    kind: ConstraintType,
    value: Option<Value>,
    severity: ConstraintSeverity,
) -> TypeConstraint {
    TypeConstraint {
        name: name.to_string(),
        constraint_type: kind,
        value,
        severity,
    }
}

fn failed(message: &str) -> Result<Value, Error> {
    Err(Error::Validation(message.to_string()))
}

#[test]
fn texts_that_say_yes_or_no_become_booleans() {
    assert_eq!(
        TypeValidator::new().convert_type(&text("true"), "boolean"),
        Ok(Value::Boolean(true))
    );
    assert_eq!(
        TypeValidator::new().convert_type(&text("yes"), "boolean"),
        Ok(Value::Boolean(true))
    );
    for yes in ["1", "on", "TRUE", "Yes", "oN"] {
        assert_eq!(
            TypeValidator::new().convert_type(&text(yes), "boolean"),
            Ok(Value::Boolean(true))
        );
    }
    for no in ["false", "0", "no", "off", "FALSE", "Off"] {
        assert_eq!(
            TypeValidator::new().convert_type(&text(no), "boolean"),
            Ok(Value::Boolean(false))
        );
    }
    assert_eq!(
        TypeValidator::new().convert_type(&Value::Boolean(false), "boolean"),
        Ok(Value::Boolean(false))
    );
    assert_eq!(
        TypeValidator::new().convert_type(&text("maybe"), "boolean"),
        failed("Cannot convert to boolean")
    );
    assert_eq!(
        TypeValidator::new().convert_type(&num(1), "boolean"),
        failed("Cannot convert to boolean")
    );
}

#[test]
fn text_that_is_no_number_does_not_become_one() {
    assert_eq!(
        TypeValidator::new().convert_type(&text("abc"), "number"),
        failed("Cannot convert to number")
    );
    assert_eq!(
        TypeValidator::new().convert_type(&Value::Null, "number"),
        failed("Cannot convert to number")
    );
    assert_eq!(
        TypeValidator::new().convert_type(&text("42"), "number"),
        Ok(num(42))
    );
    assert_eq!(
        TypeValidator::new().convert_type(&text("-2.50"), "number"),
        Ok(dec("-2.5"))
    );
    assert_eq!(
        TypeValidator::new().convert_type(&dec("7.25"), "number"),
        Ok(dec("7.25"))
    );
}

#[test]
fn long_and_large_numeric_text_becomes_a_number_too() {
    assert_eq!(
        TypeValidator::new().convert_type(&text("18446744073709551616"), "number"),
        Ok(Value::Number(Number::new(false, 1_844_674_407_370_955_162, 1).unwrap()))
    );
    assert_eq!(
        TypeValidator::new().convert_type(&text("3.14159265358979323846264338"), "number"),
        Ok(Value::Number(Number::new(false, 3_141_592_653_589_793_238, -18).unwrap()))
    );
    assert_eq!(
        TypeValidator::new().convert_type(&text("1e401"), "number"),
        Ok(num(0))
    );
    assert_eq!(
        TypeValidator::new().convert_type(&text("1e-500"), "number"),
        Ok(num(0))
    );
    assert_eq!(
        TypeValidator::new().convert_type(&text("1e40x"), "number"),
        failed("Cannot convert to number")
    );
}

#[test]
fn text_that_names_infinity_or_no_number_becomes_zero() {
    for name in ["inf", "-inf", "+Infinity", "INFINITY", "NaN", "nan", "-nan"] {
        assert_eq!(
            TypeValidator::new().convert_type(&text(name), "number"),
            Ok(num(0)),
            "{name:?}"
        );
        assert!(Number::names_none(name));
        assert_eq!(Number::parse(name), None);
    }
    for name in ["", "-", "in", "infinit", "infinityy", "na", "--inf", "inf ", "1", "none"] {
        assert!(!Number::names_none(name), "{name:?}");
    }
    assert_eq!(
        TypeValidator::new().convert_type(&text("infinit"), "number"),
        failed("Cannot convert to number")
    );
    assert_eq!(
        TypeValidator::new().convert_type(&text("inf"), "integer"),
        failed("Cannot convert to integer")
    );
}

#[test]
fn integers_come_from_numbers_and_from_integer_literals() {
    assert_eq!(
        TypeValidator::new().convert_type(&dec("7.9"), "integer"),
        Ok(num(7))
    );
    assert_eq!(
        TypeValidator::new().convert_type(&dec("-7.9"), "integer"),
        Ok(num(-7))
    );
    assert_eq!(
        TypeValidator::new().convert_type(&text("-12"), "integer"),
        Ok(num(-12))
    );
    assert_eq!(
        TypeValidator::new().convert_type(&text("1.5"), "integer"),
        failed("Cannot convert to integer")
    );
    assert_eq!(
        TypeValidator::new().convert_type(&text("9223372036854775808"), "integer"),
        failed("Cannot convert to integer")
    );
    assert_eq!(
        TypeValidator::new().convert_type(&text("-9223372036854775808"), "integer"),
        Ok(num(i64::MIN))
    );
    assert_eq!(
        TypeValidator::new().convert_type(&Value::Boolean(true), "integer"),
        failed("Cannot convert to integer")
    );
}

#[test]
fn any_value_becomes_a_text_an_array_or_null() {
    assert_eq!(
        TypeValidator::new().convert_type(&num(42), "string"),
        Ok(text("42"))
    );
    assert_eq!(
        TypeValidator::new().convert_type(&text("a\"b"), "string"),
        Ok(text("\"a\\\"b\""))
    );
    assert_eq!(
        TypeValidator::new().convert_type(
            &object(vec![("k", Value::Array(vec![Value::Null, Value::Boolean(true)]))]),
            "string"
        ),
        Ok(text("{\"k\":[null,true]}"))
    );
    assert_eq!(
        TypeValidator::new().convert_type(&num(1), "array"),
        Ok(Value::Array(vec![num(1)]))
    );
    assert_eq!(
        TypeValidator::new().convert_type(&Value::Array(vec![num(1), num(2)]), "array"),
        Ok(Value::Array(vec![num(1), num(2)]))
    );
    assert_eq!(
        TypeValidator::new().convert_type(&text("x"), "null"),
        Ok(Value::Null)
    );
}

#[test]
fn only_objects_become_objects_and_unknown_targets_fail() {
    assert_eq!(
        TypeValidator::new().convert_type(&object(vec![("a", num(1))]), "object"),
        Ok(object(vec![("a", num(1))]))
    );
    assert_eq!(
        TypeValidator::new().convert_type(&num(1), "object"),
        failed("Cannot convert to object")
    );
    assert_eq!(
        TypeValidator::new().convert_type(&num(1), "decimal"),
        failed("Unknown target type: decimal")
    );
}

#[test]
fn number_and_integer_stand_for_each_other() {
    assert!(TypeValidator::is_type_compatible("number", "integer"));
    assert!(TypeValidator::is_type_compatible("integer", "number"));
    assert!(TypeValidator::is_type_compatible("string", "string"));
    assert!(!TypeValidator::is_type_compatible("string", "number"));
    assert_eq!(TypeValidator::get_value_type(&Value::Null), "null");

    let validator = TypeValidator::new();
    let outcome = validator.validate_type(&num(1), "integer").unwrap();
    assert!(outcome.is_valid);
    assert_eq!(outcome.actual_type, "number");
    assert_eq!(outcome.expected_type, "integer");
    assert_eq!(outcome.validation_time_ms, 0);
}

#[test]
fn mismatch_is_one_error_at_the_root() {
    let validator = TypeValidator::new();
    let outcome = validator.validate_type(&num(42), "string").unwrap();
    assert!(!outcome.is_valid);
    assert_eq!(outcome.errors.len(), 1);
    assert_eq!(outcome.errors[0].error_type, TypeErrorType::TypeMismatch);
    assert_eq!(outcome.errors[0].path, "root");
    assert_eq!(
        outcome.errors[0].message,
        "Type mismatch: expected 'string', got 'number'"
    );
    assert_eq!(
        outcome.errors[0].suggestion.as_deref(),
        Some("Convert the value to type 'string'")
    );
}

#[test]
fn warnings_do_not_make_a_value_invalid() {
    let mut validator = TypeValidator::new();
    validator.add_constraint(constraint(
        "short",
        ConstraintType::MaxLength,
        Some(num(2)),
        ConstraintSeverity::Warning,
    ));
    let outcome = validator.validate_type(&text("long"), "string").unwrap();
    assert!(outcome.is_valid);
    assert!(outcome.errors.is_empty());
    assert_eq!(outcome.warnings.len(), 1);
    assert_eq!(
        outcome.warnings[0].message,
        "String length 4 exceeds maximum 2"
    );
    assert_eq!(
        outcome.warnings[0].error_type,
        TypeErrorType::ConstraintViolation
    );

    validator.add_constraint(constraint(
        "shorter",
        ConstraintType::MaxLength,
        Some(num(3)),
        ConstraintSeverity::Critical,
    ));
    let outcome = validator.validate_type(&text("long"), "string").unwrap();
    assert!(!outcome.is_valid);
    assert_eq!(outcome.errors.len(), 1);
    assert_eq!(outcome.warnings.len(), 1);
}

#[test]
fn each_kind_of_constraint_fails_with_its_error() {
    let check = |value: &Value, kind: ConstraintType, bound: Option<Value>| {
        TypeValidator::validate_constraint(
            value,
            &constraint("field", kind, bound, ConstraintSeverity::Error),
        )
    };

    let e = check(&Value::Null, ConstraintType::Required, None).unwrap();
    assert_eq!(e.error_type, TypeErrorType::RequiredFieldMissing);
    assert_eq!(e.message, "Required field 'field' is missing");
    assert_eq!(
        e.suggestion.as_deref(),
        Some("Provide a value for this required field")
    );
    assert!(check(&num(0), ConstraintType::Required, None).is_none());

    let e = check(&text("hi"), ConstraintType::MinLength, Some(num(3))).unwrap();
    assert_eq!(e.error_type, TypeErrorType::ConstraintViolation);
    assert_eq!(e.message, "String length 2 is less than minimum 3");
    assert!(check(&text("hey"), ConstraintType::MinLength, Some(num(3))).is_none());
    assert!(check(&num(1), ConstraintType::MinLength, Some(num(3))).is_none());
    assert!(check(&text("hi"), ConstraintType::MinLength, Some(text("3"))).is_none());
    assert!(check(&text("hi"), ConstraintType::MinLength, None).is_none());
    assert!(check(&text("hi"), ConstraintType::MinLength, Some(dec("2.5"))).is_none());
    assert!(check(&text("hi"), ConstraintType::MaxLength, Some(num(-1))).is_none());
    assert!(check(&text("hi"), ConstraintType::MaxLength, Some(num(1))).is_some());

    let e = check(&num(1), ConstraintType::MinValue, Some(num(2))).unwrap();
    assert_eq!(e.error_type, TypeErrorType::RangeViolation);
    assert_eq!(e.message, "Value 1 is less than minimum 2");
    assert_eq!(e.suggestion.as_deref(), Some("Increase the value"));
    assert!(check(&num(2), ConstraintType::MinValue, Some(num(2))).is_none());

    let e = check(&dec("2.5"), ConstraintType::MaxValue, Some(num(2))).unwrap();
    assert_eq!(e.error_type, TypeErrorType::RangeViolation);
    assert_eq!(e.message, "Value 2.5 exceeds maximum 2");
    assert_eq!(e.suggestion.as_deref(), Some("Decrease the value"));

    let e = check(&text("abc"), ConstraintType::Pattern, Some(text("^[0-9]+$"))).unwrap();
    assert_eq!(e.error_type, TypeErrorType::FormatError);
    assert_eq!(e.message, "Value 'abc' does not match pattern '^[0-9]+$'");
    assert_eq!(
        e.suggestion.as_deref(),
        Some("Update the value to match pattern '^[0-9]+$'")
    );
    assert!(check(&text("123"), ConstraintType::Pattern, Some(text("^[0-9]+$"))).is_none());
    assert!(check(&text("abc"), ConstraintType::Pattern, Some(text("["))).is_none());

    let options = Value::Array(vec![text("red"), object(vec![("a", num(1)), ("b", num(2))])]);
    let e = check(&text("blue"), ConstraintType::Enum, Some(options.clone())).unwrap();
    assert_eq!(e.error_type, TypeErrorType::InvalidValue);
    assert_eq!(e.message, "Value '\"blue\"' is not in allowed values");
    assert_eq!(e.suggestion.as_deref(), Some("Use one of the allowed values"));
    assert!(check(&text("red"), ConstraintType::Enum, Some(options.clone())).is_none());
    assert!(check(
        &object(vec![("b", num(2)), ("a", num(1))]),
        ConstraintType::Enum,
        Some(options)
    )
    .is_none());
    assert!(check(&text("red"), ConstraintType::Enum, Some(text("red"))).is_none());

    assert!(check(&Value::Null, ConstraintType::Custom, Some(num(1))).is_none());
}

#[test]
fn registered_definition_adds_its_base_type_and_constraints() {
    let mut validator = TypeValidator::new();
    assert!(validator
        .register_type(TypeDefinition {
            name: "age".to_string(),
            base_type: "integer".to_string(),
            constraints: vec![
                constraint("low", ConstraintType::MinValue, Some(num(0)), ConstraintSeverity::Error),
                constraint(
                    "high",
                    ConstraintType::MaxValue,
                    Some(num(120)),
                    ConstraintSeverity::Warning
                ),
            ],
            description: None,
        })
        .is_ok());
    assert!(validator.has_type("age"));
    assert_eq!(validator.get_registered_types(), vec!["age"]);

    let outcome = validator.validate_type(&num(150), "age").unwrap();
    assert!(!outcome.is_valid);
    assert_eq!(outcome.errors.len(), 1);
    assert_eq!(
        outcome.errors[0].message,
        "Type mismatch: expected 'age', got 'number'"
    );
    assert_eq!(outcome.warnings.len(), 1);
    assert_eq!(outcome.warnings[0].message, "Value 150 exceeds maximum 120");

    let outcome = validator.validate_type(&text("x"), "age").unwrap();
    assert_eq!(outcome.errors.len(), 2);
    assert_eq!(outcome.errors[1].path, "");
    assert_eq!(
        outcome.errors[1].message,
        "Base type mismatch: expected 'integer', got 'string'"
    );
    assert_eq!(
        outcome.errors[1].suggestion.as_deref(),
        Some("Convert the value to base type 'integer'")
    );

    let removed = validator.remove_type("age").expect("the definition");
    assert_eq!(removed.base_type, "integer");
    assert!(!validator.has_type("age"));
    assert!(validator.remove_type("age").is_none());
}

#[test]
fn definitions_need_a_name_and_a_known_base_type() {
    let mut validator = TypeValidator::new();
    let definition = |name: &str, base: &str| TypeDefinition {
        name: name.to_string(),
        base_type: base.to_string(),
        constraints: Vec::new(),
        description: None,
    };
    assert_eq!(
        validator.register_type(definition("", "string")),
        Err(Error::Validation("Type name cannot be empty".to_string()))
    );
    assert_eq!(
        validator.register_type(definition("t", "")),
        Err(Error::Validation("Base type cannot be empty".to_string()))
    );
    assert_eq!(
        validator.register_type(definition("t", "float")),
        Err(Error::Validation("Invalid base type: float".to_string()))
    );
    for base in ["string", "number", "integer", "boolean", "array", "object", "null"] {
        assert!(validator.register_type(definition(base, base)).is_ok());
    }
    assert_eq!(validator.get_registered_types().len(), 7);
    assert!(validator.register_type(definition("null", "string")).is_ok());
    assert_eq!(validator.get_registered_types().len(), 7);
}
