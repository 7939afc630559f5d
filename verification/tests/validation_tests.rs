use common_library::number::Number;
use common_library::validation::errors::{
    ErrorSeverity, SuggestionAction, ValidationError, ValidationErrorReporter,
    ValidationErrorType, ValidationSuggestion,
};
use common_library::validation::integrity::{
    ConstraintType as IntegrityConstraintType, IntegrityConstraint, ViolationSeverity,
};
use common_library::validation::registry::SchemaMetadata;
use common_library::validation::schema::SchemaErrorType;
use common_library::validation::types::{ConstraintSeverity, ConstraintType, TypeConstraint};
use common_library::validation::{
    DataIntegrityChecker, SchemaRegistry, SchemaValidator, TypeValidator,
};
use common_library::value::Value;

fn text(s: &str) -> Value {
    Value::String(s.to_string())
}

fn num(n: i64) -> Value {
    Value::Number(Number::from_i64(n))
}

fn object(members: Vec<(&str, Value)>) -> Value {
    Value::Object(
        members
            .into_iter()
            .map(|(k, v)| (k.to_string(), v))
            .collect(),
    )
}

fn array(items: Vec<Value>) -> Value {
    Value::Array(items)
}

#[test]
fn test_schema_validation() {
    let mut validator = SchemaValidator::new();

    let schema = object(vec![
        ("type", text("object")),
        (
            "properties",
            object(vec![
                (
                    "name",
                    object(vec![("type", text("string")), ("minLength", num(1))]),
                ),
                (
                    "age",
                    object(vec![("type", text("number")), ("minimum", num(0))]),
                ),
                (
                    "email",
                    object(vec![
                        ("type", text("string")),
                        ("pattern", text("^[\\w\\.-]+@[\\w\\.-]+\\.[a-zA-Z]{2,}$")),
                    ]),
                ),
            ]),
        ),
        ("required", array(vec![text("name"), text("age")])),
    ]);

    validator
        .register_schema("user", schema)
        .expect("Should register schema");
    assert!(validator.has_schema("user"), "Schema should be registered");

    let valid_data = object(vec![
        ("name", text("John Doe")),
        ("age", num(30)),
        ("email", text("john@example.com")),
    ]);

    let result = validator
        .validate(&valid_data, "user")
        .expect("Should validate data");
    assert!(result.is_valid, "Valid data should pass validation");
    assert!(result.errors.is_empty(), "Valid data should have no errors");

    let invalid_data = object(vec![
        ("name", text("")),
        ("age", num(-5)),
        ("email", text("invalid-email")),
    ]);

    let result = validator
        .validate(&invalid_data, "user")
        .expect("Should validate data");
    assert!(!result.is_valid, "Invalid data should fail validation");
    assert!(!result.errors.is_empty(), "Invalid data should have errors");

    let incomplete_data = object(vec![("name", text("John Doe"))]);

    let result = validator
        .validate(&incomplete_data, "user")
        .expect("Should validate data");
    assert!(!result.is_valid, "Incomplete data should fail validation");
    assert!(
        result
            .errors
            .iter()
            .any(|e| e.error_type == SchemaErrorType::RequiredFieldMissing),
        "Should have required field error"
    );
}

#[test]
fn test_data_integrity_checks() {
    let mut checker = DataIntegrityChecker::new();

    let data = object(vec![("name", text("John")), ("age", num(30))]);
    let checksum = "abc123";
    checker.add_checksum("test_data", checksum);

    let result = checker
        .check_integrity(&data, "test_data")
        .expect("Should check integrity");
    assert!(!result.checksum_valid, "Checksum should not match");

    let constraint = IntegrityConstraint {
        name: "age_constraint".to_string(),
        constraint_type: IntegrityConstraintType::Range,
        path: "age".to_string(),
        value: Some(object(vec![("min", num(0)), ("max", num(120))])),
        severity: ViolationSeverity::High,
    };
    checker.add_constraint(constraint);

    let result = checker
        .check_integrity(&data, "test_data")
        .expect("Should check integrity");
    assert!(
        !result.is_valid,
        "A checksum that does not fit makes the data invalid"
    );
    assert!(!result.checksum_valid, "Checksum should not match");
    assert_eq!(result.violations.len(), 1, "The range is kept");

    let invalid_data = object(vec![("name", text("John")), ("age", num(150))]);
    let result = checker
        .check_integrity(&invalid_data, "test_data")
        .expect("Should check integrity");
    assert!(!result.is_valid, "Invalid data should fail integrity check");
    assert!(
        !result.violations.is_empty(),
        "Should have integrity violations"
    );
}

#[test]
fn test_type_validation() {
    let mut validator = TypeValidator::new();

    let string_data = text("hello");
    let result = validator
        .validate_type(&string_data, "string")
        .expect("Should validate type");
    assert!(
        result.is_valid,
        "String data should be valid for string type"
    );
    assert_eq!(result.actual_type, "string");
    assert_eq!(result.expected_type, "string");

    let number_data = num(42);
    let result = validator
        .validate_type(&number_data, "string")
        .expect("Should validate type");
    assert!(
        !result.is_valid,
        "Number data should be invalid for string type"
    );
    assert!(!result.errors.is_empty(), "Should have type mismatch error");

    let string_number = text("42");
    let converted = validator
        .convert_type(&string_number, "number")
        .expect("Should convert type");
    assert!(
        matches!(converted, Value::Number(_)),
        "Should convert to number"
    );

    let constraint = TypeConstraint {
        name: "length_constraint".to_string(),
        constraint_type: ConstraintType::MinLength,
        value: Some(num(3)),
        severity: ConstraintSeverity::Error,
    };
    validator.add_constraint(constraint);

    let short_string = text("hi");
    let result = validator
        .validate_type(&short_string, "string")
        .expect("Should validate type");
    assert!(
        !result.is_valid,
        "Short string should fail length constraint"
    );
}

#[test]
fn test_error_reporting() {
    let mut reporter = ValidationErrorReporter::new();

    let error = ValidationError {
        error_type: ValidationErrorType::SchemaValidation,
        path: "name".to_string(),
        message: "Required field missing".to_string(),
        severity: ErrorSeverity::Error,
        suggestion: None,
        context: Some(text("test")),
        timestamp: 1_700_000_000,
    };

    reporter.add_error(error);
    assert_eq!(reporter.get_errors().len(), 1, "Should have one error");

    let errors_by_type = reporter.get_errors_by_type(&ValidationErrorType::SchemaValidation);
    assert_eq!(errors_by_type.len(), 1, "Should find error by type");

    let errors_by_severity = reporter.get_errors_by_severity(&ErrorSeverity::Error);
    assert_eq!(errors_by_severity.len(), 1, "Should find error by severity");

    let summary = reporter.generate_summary();
    assert_eq!(summary.total_errors, 1, "Should have one total error");
    assert!(summary.has_errors, "Should have errors");

    let suggestions = reporter.generate_suggestions();
    assert!(!suggestions.is_empty(), "Should generate suggestions");
}

#[test]
fn test_schema_registry() {
    let mut registry = SchemaRegistry::new();

    let schema = object(vec![
        ("type", text("object")),
        (
            "properties",
            object(vec![("name", object(vec![("type", text("string"))]))]),
        ),
    ]);

    let metadata = SchemaMetadata {
        name: "user".to_string(),
        version: "1.0".to_string(),
        schema,
        description: Some("User schema".to_string()),
        tags: vec!["user".to_string(), "profile".to_string()],
        created_at: 1_700_000_000,
        updated_at: 1_700_000_000,
        author: Some("test".to_string()),
        dependencies: Vec::new(),
        is_deprecated: false,
    };

    registry
        .register_schema(metadata)
        .expect("Should register schema");

    let retrieved = registry
        .get_schema("user", "1.0")
        .expect("Should get schema");
    assert_eq!(retrieved.name, "user");
    assert_eq!(retrieved.version, "1.0");

    let schemas = registry.list_schemas();
    assert!(
        schemas.contains(&"user".to_string()),
        "Should list user schema"
    );

    let search_results = registry.search_schemas("user");
    assert!(!search_results.is_empty(), "Should find user schema");

    registry
        .deprecate_schema("user", "1.0", 1_700_000_100)
        .expect("Should deprecate schema");
    let deprecated = registry
        .get_schema("user", "1.0")
        .expect("Should get deprecated schema");
    assert!(deprecated.is_deprecated, "Schema should be deprecated");

    let stats = registry.get_statistics();
    assert_eq!(stats.total_schemas, 1, "Should have one schema");
    assert_eq!(
        stats.deprecated_count, 1,
        "Should have one deprecated schema"
    );
}

#[test]
fn test_validation_integration() {
    let mut schema_validator = SchemaValidator::new();
    let mut integrity_checker = DataIntegrityChecker::new();
    let mut type_validator = TypeValidator::new();
    let mut error_reporter = ValidationErrorReporter::new();

    let schema = object(vec![
        ("type", text("object")),
        (
            "properties",
            object(vec![
                (
                    "id",
                    object(vec![("type", text("string")), ("pattern", text("^[0-9]+$"))]),
                ),
                (
                    "name",
                    object(vec![("type", text("string")), ("minLength", num(1))]),
                ),
                (
                    "age",
                    object(vec![
                        ("type", text("number")),
                        ("minimum", num(0)),
                        ("maximum", num(120)),
                    ]),
                ),
            ]),
        ),
        ("required", array(vec![text("id"), text("name"), text("age")])),
    ]);

    schema_validator
        .register_schema("person", schema)
        .expect("Should register schema");

    let constraint = IntegrityConstraint {
        name: "age_range".to_string(),
        constraint_type: IntegrityConstraintType::Range,
        path: "age".to_string(),
        value: Some(object(vec![("min", num(0)), ("max", num(120))])),
        severity: ViolationSeverity::High,
    };
    integrity_checker.add_constraint(constraint);

    let type_constraint = TypeConstraint {
        name: "name_length".to_string(),
        constraint_type: ConstraintType::MinLength,
        value: Some(num(1)),
        severity: ConstraintSeverity::Error,
    };
    type_validator.add_constraint(type_constraint);

    let valid_data = object(vec![
        ("id", text("123")),
        ("name", text("John Doe")),
        ("age", num(30)),
    ]);

    let schema_result = schema_validator
        .validate(&valid_data, "person")
        .expect("Should validate schema");
    assert!(
        schema_result.is_valid,
        "Valid data should pass schema validation"
    );

    let integrity_result = integrity_checker
        .check_integrity(&valid_data, "test")
        .expect("Should check integrity");
    assert!(
        integrity_result.is_valid,
        "Valid data should pass integrity check"
    );

    let type_result = type_validator
        .validate_type(&valid_data, "object")
        .expect("Should validate type");
    assert!(
        type_result.is_valid,
        "Valid data should pass type validation"
    );

    let invalid_data = object(vec![
        ("id", text("abc")),
        ("name", text("")),
        ("age", num(150)),
    ]);

    let schema_result = schema_validator
        .validate(&invalid_data, "person")
        .expect("Should validate schema");
    assert!(
        !schema_result.is_valid,
        "Invalid data should fail schema validation"
    );

    for error in schema_result.errors {
        let validation_error = ValidationError {
            error_type: ValidationErrorType::SchemaValidation,
            path: error.path,
            message: error.message,
            severity: ErrorSeverity::Error,
            suggestion: error.suggestion.map(|s| ValidationSuggestion {
                title: "Fix Schema Error".to_string(),
                description: s,
                action: SuggestionAction::Fix,
                confidence: 80,
            }),
            context: Some(invalid_data.clone()),
            timestamp: 1_700_000_000,
        };
        error_reporter.add_error(validation_error);
    }

    let summary = error_reporter.generate_summary();
    assert!(summary.has_errors, "Should have errors");
    assert!(summary.total_errors > 0, "Should have total errors");
}

#[test]
fn validation_tests_test_edge_cases() {
    let validator = SchemaValidator::new();
    let integrity_checker = DataIntegrityChecker::new();
    let type_validator = TypeValidator::new();

    let empty_data = object(vec![]);
    assert!(
        validator
            .validate_against_schema(&empty_data, &object(vec![("type", text("object"))]))
            .is_ok(),
        "Should handle empty data"
    );

    let null_data = Value::Null;
    assert!(
        validator
            .validate_against_schema(&null_data, &object(vec![("type", text("null"))]))
            .is_ok(),
        "Should handle null data"
    );

    let array_data = array(vec![num(1), num(2), num(3)]);
    assert!(
        validator
            .validate_against_schema(&array_data, &object(vec![("type", text("array"))]))
            .is_ok(),
        "Should handle array data"
    );

    let nested_data = object(vec![(
        "user",
        object(vec![("profile", object(vec![("name", text("John"))]))]),
    )]);
    let nested_schema = object(vec![
        ("type", text("object")),
        (
            "properties",
            object(vec![(
                "user",
                object(vec![
                    ("type", text("object")),
                    (
                        "properties",
                        object(vec![(
                            "profile",
                            object(vec![
                                ("type", text("object")),
                                (
                                    "properties",
                                    object(vec![("name", object(vec![("type", text("string"))]))]),
                                ),
                            ]),
                        )]),
                    ),
                ]),
            )]),
        ),
    ]);
    assert!(
        validator
            .validate_against_schema(&nested_data, &nested_schema)
            .is_ok(),
        "Should handle nested objects"
    );

    assert!(
        type_validator
            .convert_type(&text("true"), "boolean")
            .is_ok(),
        "Should convert string to boolean"
    );
    assert!(
        type_validator.convert_type(&text("42"), "number").is_ok(),
        "Should convert string to number"
    );
    assert!(
        type_validator.convert_type(&text("42"), "integer").is_ok(),
        "Should convert string to integer"
    );

    let result = integrity_checker
        .check_integrity(&object(vec![("test", text("data"))]), "test")
        .expect("Should check integrity");
    assert!(result.is_valid, "Data should be valid with no constraints");
    assert_eq!(
        result.consistency_score, 100,
        "Consistency score should be 100%"
    );
}
