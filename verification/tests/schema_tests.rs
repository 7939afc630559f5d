use common_library::error::Error;
use common_library::number::Number;
use common_library::validation::schema::{SchemaError, SchemaErrorType, SchemaValidator};
use common_library::value::Value;

fn text(s: &str) -> Value {
    Value::String(s.to_string())
}

fn num(n: i64) -> Value {
    Value::Number(Number::from_i64(n))
}

fn dec(s: &str) -> Value {
    Value::Number(Number::parse(s).expect("a decimal literal"))
}

fn object(members: Vec<(&str, Value)>) -> Value {
    Value::Object(
        members
            .into_iter()
            .map(|(k, v)| (k.to_string(), v))
            .collect(),
    )
}

fn array(items: Vec<Value>) -> Value {
    Value::Array(items)
}

fn errors_of(validator: &SchemaValidator, data: &Value, schema: &Value) -> Vec<SchemaError> {
    validator
        .validate_against_schema(data, schema)
        .expect("validation against an inline schema always returns")
        .errors
}

fn person_schema() -> Value {
    object(vec![
        ("type", text("object")),
        (
            "properties",
            object(vec![
                (
                    "id",
                    object(vec![("type", text("string")), ("minLength", num(1))]),
                ),
                (
                    "age",
                    object(vec![("type", text("number")), ("minimum", num(0))]),
                ),
            ]),
        ),
        ("required", array(vec![text("id"), text("age")])),
    ])
}

#[test]
fn two_constraint_violations_and_no_missing_field() {
    let validator = SchemaValidator::new();
    let data = object(vec![("id", text("")), ("age", num(-1))]);
    let outcome = validator
        .validate_against_schema(&data, &person_schema())
        .unwrap();
    assert!(!outcome.is_valid);
    assert!(outcome.warnings.is_empty());
    assert_eq!(outcome.validation_time_ms, 0);
    assert_eq!(outcome.errors.len(), 2);

    assert_eq!(outcome.errors[0].error_type, SchemaErrorType::ConstraintViolation);
    assert_eq!(outcome.errors[0].path, "id");
    assert_eq!(
        outcome.errors[0].message,
        "String length 0 is less than minimum 1"
    );
    assert_eq!(
        outcome.errors[0].suggestion.as_deref(),
        Some("Increase the string length")
    );

    assert_eq!(outcome.errors[1].error_type, SchemaErrorType::ConstraintViolation);
    assert_eq!(outcome.errors[1].path, "age");
    assert_eq!(outcome.errors[1].message, "Value -1 is less than minimum 0");
    assert_eq!(
        outcome.errors[1].suggestion.as_deref(),
        Some("Increase the value")
    );

    assert!(outcome
        .errors
        .iter()
        .all(|e| e.error_type != SchemaErrorType::RequiredFieldMissing));
}

#[test]
fn one_missing_field_and_nothing_else() {
    let validator = SchemaValidator::new();
    let data = object(vec![("id", text("x"))]);
    let errors = errors_of(&validator, &data, &person_schema());
    assert_eq!(errors.len(), 1);
    assert_eq!(errors[0].error_type, SchemaErrorType::RequiredFieldMissing);
    assert_eq!(errors[0].path, ".age");
    assert_eq!(errors[0].message, "Required field 'age' is missing");
    assert_eq!(
        errors[0].suggestion.as_deref(),
        Some("Add the required field 'age'")
    );
}

#[test]
fn clean_document_holds_what_the_schema_requires() {
    let validator = SchemaValidator::new();
    let data = object(vec![("id", text("x")), ("age", num(3))]);
    let outcome = validator
        .validate_against_schema(&data, &person_schema())
        .unwrap();
    assert!(outcome.is_valid);
    assert!(outcome.errors.is_empty());
    assert!(data.contains_key("id"));
    assert!(data.contains_key("age"));
}

#[test]
fn type_mismatch_does_not_stop_the_constraints() {
    let validator = SchemaValidator::new();
    let schema = object(vec![("type", text("number")), ("minLength", num(3))]);
    let errors = errors_of(&validator, &text("ab"), &schema);
    assert_eq!(errors.len(), 2);
    assert_eq!(errors[0].error_type, SchemaErrorType::InvalidType);
    assert_eq!(errors[0].path, "");
    assert_eq!(errors[0].message, "Expected type 'number', got 'string'");
    assert_eq!(
        errors[0].suggestion.as_deref(),
        Some("Convert the value to type 'number'")
    );
    assert_eq!(errors[1].error_type, SchemaErrorType::ConstraintViolation);
    assert_eq!(errors[1].message, "String length 2 is less than minimum 3");
}

#[test]
fn every_kind_bears_its_name() {
    assert_eq!(Value::Null.kind_name(), "null");
    assert_eq!(Value::Boolean(true).kind_name(), "boolean");
    assert_eq!(num(1).kind_name(), "number");
    assert_eq!(text("a").kind_name(), "string");
    assert_eq!(array(vec![]).kind_name(), "array");
    assert_eq!(object(vec![]).kind_name(), "object");
}

#[test]
fn not_is_clean_exactly_when_the_inner_schema_is_not() {
    let validator = SchemaValidator::new();
    let inner = object(vec![("type", text("string"))]);
    let schema = object(vec![("not", object(vec![("type", text("string"))]))]);

    assert!(errors_of(&validator, &text("a"), &inner).is_empty());
    let errors = errors_of(&validator, &text("a"), &schema);
    assert_eq!(errors.len(), 1);
    assert_eq!(errors[0].error_type, SchemaErrorType::CustomValidationFailed);
    assert_eq!(errors[0].path, "");
    assert_eq!(errors[0].message, "Value matches 'not' schema");
    assert_eq!(
        errors[0].suggestion.as_deref(),
        Some("Value should not match the specified schema")
    );

    assert!(!errors_of(&validator, &num(1), &inner).is_empty());
    assert!(errors_of(&validator, &num(1), &schema).is_empty());
}

#[test]
fn one_of_wants_exactly_one_clean_branch() {
    let validator = SchemaValidator::new();
    let string_schema = object(vec![("type", text("string"))]);
    let short_schema = object(vec![("maxLength", num(2))]);
    let schema = object(vec![(
        "oneOf",
        array(vec![
            object(vec![("type", text("string"))]),
            object(vec![("maxLength", num(2))]),
        ]),
    )]);

    // A long text: only the first branch is clean.
    assert!(errors_of(&validator, &text("long"), &string_schema).is_empty());
    assert!(!errors_of(&validator, &text("long"), &short_schema).is_empty());
    assert!(errors_of(&validator, &text("long"), &schema).is_empty());

    // A short text: both branches are clean, so the node is not.
    assert!(errors_of(&validator, &text("ab"), &string_schema).is_empty());
    assert!(errors_of(&validator, &text("ab"), &short_schema).is_empty());
    let both = errors_of(&validator, &text("ab"), &schema);
    assert_eq!(both.len(), 1);
    assert_eq!(both[0].error_type, SchemaErrorType::CustomValidationFailed);
    assert_eq!(both[0].message, "Value matches 2 of the 'oneOf' schemas");

    // A number: the type branch fails, the length branch does not apply: one clean.
    assert!(errors_of(&validator, &num(5), &schema).is_empty());

    // Neither branch clean.
    let neither_schema = object(vec![(
        "oneOf",
        array(vec![
            object(vec![("type", text("string"))]),
            object(vec![("type", text("boolean"))]),
        ]),
    )]);
    let neither = errors_of(&validator, &num(5), &neither_schema);
    assert_eq!(neither.len(), 2);
    assert_eq!(neither[0].message, "Expected type 'string', got 'number'");
    assert_eq!(neither[1].message, "Expected type 'boolean', got 'number'");
}

#[test]
fn one_of_reports_the_branch_errors_alone_where_there_are_any() {
    let validator = SchemaValidator::new();
    // Two branches clean, one failing: what the failing branch found, and no more.
    let schema = object(vec![(
        "oneOf",
        array(vec![
            object(vec![("type", text("string"))]),
            object(vec![("maxLength", num(2))]),
            object(vec![("type", text("number"))]),
        ]),
    )]);
    let errors = errors_of(&validator, &text("ab"), &schema);
    assert_eq!(errors.len(), 1);
    assert_eq!(errors[0].error_type, SchemaErrorType::InvalidType);
    assert_eq!(errors[0].message, "Expected type 'number', got 'string'");

    // No branch at all: the node fails with the one error of its own.
    let empty = object(vec![("oneOf", array(vec![]))]);
    let errors = errors_of(&validator, &text("ab"), &empty);
    assert_eq!(errors.len(), 1);
    assert_eq!(errors[0].error_type, SchemaErrorType::CustomValidationFailed);
    assert_eq!(errors[0].path, "");
    assert_eq!(errors[0].message, "Value matches 0 of the 'oneOf' schemas");
    assert_eq!(
        errors[0].suggestion.as_deref(),
        Some("Value should match exactly one of the specified schemas")
    );
}

#[test]
fn any_of_passes_with_one_clean_branch_and_reports_all_otherwise() {
    let validator = SchemaValidator::new();
    let schema = object(vec![(
        "anyOf",
        array(vec![
            object(vec![("type", text("string"))]),
            object(vec![("type", text("number"))]),
        ]),
    )]);
    assert!(errors_of(&validator, &num(1), &schema).is_empty());
    assert!(errors_of(&validator, &text("a"), &schema).is_empty());
    let errors = errors_of(&validator, &Value::Null, &schema);
    assert_eq!(errors.len(), 2);
    assert_eq!(errors[0].message, "Expected type 'string', got 'null'");
    assert_eq!(errors[1].message, "Expected type 'number', got 'null'");
}

#[test]
fn all_of_reports_every_branch_and_ignores_sibling_keys() {
    let validator = SchemaValidator::new();
    let schema = object(vec![
        ("type", text("boolean")),
        (
            "allOf",
            array(vec![
                object(vec![("type", text("string"))]),
                object(vec![("minLength", num(3))]),
            ]),
        ),
    ]);
    assert!(errors_of(&validator, &text("abc"), &schema).is_empty());
    let errors = errors_of(&validator, &text("a"), &schema);
    assert_eq!(errors.len(), 1);
    assert_eq!(errors[0].message, "String length 1 is less than minimum 3");
    let errors = errors_of(&validator, &num(1), &schema);
    assert_eq!(errors.len(), 1);
    assert_eq!(errors[0].message, "Expected type 'string', got 'number'");
}

#[test]
fn reference_replaces_the_node_and_an_unknown_one_is_passed_over() {
    let mut validator = SchemaValidator::new();
    validator
        .register_schema("name", object(vec![("type", text("string"))]))
        .unwrap();

    let by_reference = object(vec![("$ref", text("name")), ("type", text("number"))]);
    assert!(errors_of(&validator, &text("a"), &by_reference).is_empty());
    let errors = errors_of(&validator, &num(1), &by_reference);
    assert_eq!(errors.len(), 1);
    assert_eq!(errors[0].message, "Expected type 'string', got 'number'");

    let unknown = object(vec![("$ref", text("nowhere")), ("type", text("number"))]);
    assert!(errors_of(&validator, &num(1), &unknown).is_empty());
    assert_eq!(errors_of(&validator, &text("a"), &unknown).len(), 1);
}

#[test]
fn reference_cycle_is_reported_and_recursive_schemas_are_walked() {
    let mut validator = SchemaValidator::new();
    validator
        .register_schema("a", object(vec![("$ref", text("b"))]))
        .unwrap();
    validator
        .register_schema("b", object(vec![("$ref", text("a"))]))
        .unwrap();
    let errors = validator.validate(&num(1), "a").unwrap().errors;
    assert_eq!(errors.len(), 1);
    assert_eq!(errors[0].error_type, SchemaErrorType::CustomValidationFailed);
    assert_eq!(errors[0].path, "");
    assert!(errors[0].message.starts_with("Reference '"));
    assert!(errors[0].message.ends_with("' leads back to itself"));

    // A schema that refers to itself for the members of the document is no cycle.
    let mut validator = SchemaValidator::new();
    validator
        .register_schema(
            "tree",
            object(vec![
                ("type", text("object")),
                (
                    "properties",
                    object(vec![("child", object(vec![("$ref", text("tree"))]))]),
                ),
            ]),
        )
        .unwrap();
    let nested = object(vec![(
        "child",
        object(vec![("child", object(vec![("child", object(vec![]))]))]),
    )]);
    assert!(validator.validate(&nested, "tree").unwrap().is_valid);
    let broken = object(vec![("child", object(vec![("child", num(1))]))]);
    let errors = validator.validate(&broken, "tree").unwrap().errors;
    assert_eq!(errors.len(), 1);
    assert_eq!(errors[0].path, "child.child");
    assert_eq!(errors[0].message, "Expected type 'object', got 'number'");
}

#[test]
fn additional_properties_are_refused_or_checked() {
    let validator = SchemaValidator::new();
    let closed = object(vec![
        ("type", text("object")),
        ("properties", object(vec![("a", object(vec![]))])),
        ("additionalProperties", Value::Boolean(false)),
    ]);
    let data = object(vec![("a", num(1)), ("b", num(2)), ("c", num(3))]);
    let errors = errors_of(&validator, &data, &closed);
    assert_eq!(errors.len(), 2);
    assert_eq!(errors[0].error_type, SchemaErrorType::ObjectConstraintViolation);
    assert_eq!(errors[0].path, ".b");
    assert_eq!(errors[0].message, "Additional property 'b' is not allowed");
    assert_eq!(
        errors[0].suggestion.as_deref(),
        Some("Remove the additional property or update the schema")
    );
    assert_eq!(errors[1].path, ".c");

    let typed = object(vec![
        ("type", text("object")),
        ("properties", object(vec![("a", object(vec![]))])),
        (
            "additionalProperties",
            object(vec![("type", text("string"))]),
        ),
    ]);
    let errors = errors_of(&validator, &data, &typed);
    assert_eq!(errors.len(), 2);
    assert_eq!(errors[0].path, ".b");
    assert_eq!(errors[0].message, "Expected type 'string', got 'number'");

    let open = object(vec![
        ("type", text("object")),
        ("properties", object(vec![("a", object(vec![]))])),
        ("additionalProperties", Value::Boolean(true)),
    ]);
    assert!(errors_of(&validator, &data, &open).is_empty());

    let without_properties = object(vec![
        ("type", text("object")),
        ("additionalProperties", Value::Boolean(false)),
    ]);
    assert!(errors_of(&validator, &data, &without_properties).is_empty());
}

#[test]
fn items_are_checked_under_their_index() {
    let validator = SchemaValidator::new();
    let schema = object(vec![
        ("type", text("object")),
        (
            "properties",
            object(vec![(
                "metrics",
                object(vec![
                    ("type", text("array")),
                    ("items", object(vec![("type", text("number"))])),
                    ("minItems", num(1)),
                    ("maxItems", num(2)),
                ]),
            )]),
        ),
    ]);
    let data = object(vec![(
        "metrics",
        array(vec![num(1), text("x"), Value::Null]),
    )]);
    let errors = errors_of(&validator, &data, &schema);
    assert_eq!(errors.len(), 3);
    assert_eq!(errors[0].path, "metrics[1]");
    assert_eq!(errors[0].message, "Expected type 'number', got 'string'");
    assert_eq!(errors[1].path, "metrics[2]");
    assert_eq!(errors[2].error_type, SchemaErrorType::ArrayConstraintViolation);
    assert_eq!(errors[2].path, "metrics");
    assert_eq!(errors[2].message, "Array length 3 exceeds maximum 2");
    assert_eq!(
        errors[2].suggestion.as_deref(),
        Some("Remove items from the array")
    );

    let empty = object(vec![("metrics", array(vec![]))]);
    let errors = errors_of(&validator, &empty, &schema);
    assert_eq!(errors.len(), 1);
    assert_eq!(errors[0].message, "Array length 0 is less than minimum 1");
    assert_eq!(
        errors[0].suggestion.as_deref(),
        Some("Add more items to the array")
    );
}

#[test]
fn leaf_constraints_of_texts_and_numbers() {
    let validator = SchemaValidator::new();
    let schema = object(vec![
        ("maxLength", num(3)),
        ("pattern", text("^[a-z]+$")),
        ("minimum", dec("1.5")),
        ("maximum", dec("2.5")),
    ]);
    let errors = errors_of(&validator, &text("ABCD"), &schema);
    assert_eq!(errors.len(), 2);
    assert_eq!(errors[0].message, "String length 4 exceeds maximum 3");
    assert_eq!(
        errors[0].suggestion.as_deref(),
        Some("Decrease the string length")
    );
    assert_eq!(errors[1].error_type, SchemaErrorType::PatternMismatch);
    assert_eq!(errors[1].message, "String does not match pattern: ^[a-z]+$");
    assert_eq!(
        errors[1].suggestion.as_deref(),
        Some("Update the string to match the required pattern")
    );

    assert!(errors_of(&validator, &text("abc"), &schema).is_empty());
    assert!(errors_of(&validator, &dec("1.5"), &schema).is_empty());
    assert!(errors_of(&validator, &dec("2.5"), &schema).is_empty());

    let errors = errors_of(&validator, &dec("1.25"), &schema);
    assert_eq!(errors.len(), 1);
    assert_eq!(errors[0].message, "Value 1.25 is less than minimum 1.5");

    let errors = errors_of(&validator, &num(3), &schema);
    assert_eq!(errors.len(), 1);
    assert_eq!(errors[0].message, "Value 3 exceeds maximum 2.5");
    assert_eq!(errors[0].suggestion.as_deref(), Some("Decrease the value"));
}

#[test]
fn lengths_are_counted_in_characters() {
    let validator = SchemaValidator::new();
    let schema = object(vec![("maxLength", num(3))]);
    assert!(errors_of(&validator, &text("äöü"), &schema).is_empty());
}

#[test]
fn pattern_that_is_no_regular_expression_is_passed_over() {
    let validator = SchemaValidator::new();
    let schema = object(vec![("pattern", text("(unclosed"))]);
    assert!(errors_of(&validator, &text("anything"), &schema).is_empty());
}

#[test]
fn unknown_keys_and_empty_required_are_tolerated() {
    let validator = SchemaValidator::new();
    let schema = object(vec![
        ("type", text("object")),
        ("required", array(vec![])),
        ("x-note", text("ignored")),
    ]);
    assert!(errors_of(&validator, &object(vec![]), &schema).is_empty());
    assert!(errors_of(&validator, &num(1), &text("no schema at all")).is_empty());
}

#[test]
fn registration_checks_the_shape_of_the_schema() {
    let mut validator = SchemaValidator::new();
    assert_eq!(
        validator.register_schema("x", num(1)),
        Err(Error::Validation(
            "Schema must be a JSON object".to_string()
        ))
    );
    assert_eq!(
        validator.register_schema("x", object(vec![("minLength", num(1))])),
        Err(Error::Validation(
            "Schema must have 'type', '$ref', or 'allOf' property".to_string()
        ))
    );
    assert!(!validator.has_schema("x"));
    assert!(validator
        .register_schema("x", object(vec![("$ref", text("y"))]))
        .is_ok());
    assert!(validator
        .register_schema("y", object(vec![("allOf", array(vec![]))]))
        .is_ok());
    assert!(validator
        .register_schema("x", object(vec![("type", text("null"))]))
        .is_ok());
    assert_eq!(validator.get_schema_names(), vec!["x", "y"]);
    assert!(validator.validate(&Value::Null, "x").unwrap().is_valid);

    assert_eq!(
        validator.remove_schema("x"),
        Some(object(vec![("type", text("null"))]))
    );
    assert_eq!(validator.remove_schema("x"), None);
    assert_eq!(validator.get_schema_names(), vec!["y"]);
}

#[test]
fn validating_against_an_unregistered_name_fails() {
    let validator = SchemaValidator::new();
    let outcome = validator.validate(&Value::Null, "missing");
    assert_eq!(
        outcome.err(),
        Some(Error::Validation("Schema 'missing' not found".to_string()))
    );
}

#[test]
fn bounds_on_lengths_count_only_as_whole_numbers() {
    let validator = SchemaValidator::new();
    let schema = object(vec![
        ("minLength", dec("1.5")),
        ("maxLength", num(-1)),
        ("minItems", dec("0.5")),
        ("maxItems", num(-3)),
    ]);
    assert!(errors_of(&validator, &text(""), &schema).is_empty());
    assert!(errors_of(&validator, &text("any text"), &schema).is_empty());
    assert!(errors_of(&validator, &array(vec![]), &schema).is_empty());
    assert!(errors_of(&validator, &array(vec![num(1), num(2)]), &schema).is_empty());

    let whole = object(vec![("minLength", dec("2.0")), ("maxItems", dec("1e0"))]);
    assert_eq!(errors_of(&validator, &text("a"), &whole).len(), 1);
    assert_eq!(errors_of(&validator, &array(vec![num(1), num(2)]), &whole).len(), 1);
}
