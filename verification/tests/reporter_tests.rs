use common_library::validation::errors::{
    kind_name, ErrorPattern, ErrorSeverity, SuggestionAction, SuggestionEngine,
    SuggestionPattern, ValidationError, ValidationErrorReporter, ValidationErrorType,
};
use common_library::validation::errors::ErrorSeverity::{Critical, Error, Info, Warning};
use common_library::validation::errors::ValidationErrorType::{
    ConstraintViolation, FormatError, RequiredFieldMissing, SchemaValidation, TypeValidation,
};
use common_library::value::Value;

fn error(kind: ValidationErrorType, severity: ErrorSeverity, path: &str, message: &str) -> ValidationError {
    ValidationError {
        error_type: kind,
        path: path.to_string(),
        message: message.to_string(),
        severity,
        suggestion: None,
        context: None,
        timestamp: 7,
    }
}

#[test]
fn errors_are_filtered_and_counted() {
    let mut reporter = ValidationErrorReporter::new();
    reporter.add_error(error(SchemaValidation, Error, "user.name", "a"));
    reporter.add_errors(vec![
        error(TypeValidation, Critical, "user.age", "b"),
        error(SchemaValidation, Warning, "order.id", "c"),
        error(FormatError, Info, "user.mail", "d"),
        error(SchemaValidation, Critical, "order.total", "e"),
    ]);

    let messages = |list: Vec<&ValidationError>| -> Vec<String> {
        list.iter().map(|e| e.message.clone()).collect()
    };
    assert_eq!(reporter.get_errors().len(), 5);
    assert_eq!(
        messages(reporter.get_errors_by_type(&SchemaValidation)),
        vec!["a", "c", "e"]
    );
    assert_eq!(
        messages(reporter.get_errors_by_severity(&Critical)),
        vec!["b", "e"]
    );
    assert_eq!(
        messages(reporter.get_errors_by_path("user")),
        vec!["a", "b", "d"]
    );
    assert!(reporter.get_errors_by_path("nowhere").is_empty());

    let summary = reporter.generate_summary();
    assert_eq!(summary.total_errors, 5);
    assert_eq!(summary.critical_errors, 2);
    assert_eq!(summary.high_errors, 1);
    assert_eq!(summary.warnings, 1);
    assert_eq!(summary.info, 1);
    assert!(summary.has_errors);
    assert!(summary.has_critical_errors);
    assert_eq!(summary.error_types.schema_validation, 3);
    assert_eq!(summary.error_types.type_validation, 1);
    assert_eq!(summary.error_types.format_error, 1);
    assert_eq!(summary.error_types.invalid_value, 0);
    assert_eq!(summary.severity_distribution.critical, 2);
    assert_eq!(summary.severity_distribution.info, 1);
    assert_eq!(reporter.get_error_type_counts(), summary.error_types);
    assert_eq!(
        reporter.get_severity_distribution(),
        summary.severity_distribution
    );

    reporter.clear_errors();
    let summary = reporter.generate_summary();
    assert_eq!(summary.total_errors, 0);
    assert!(!summary.has_errors);
    assert!(!summary.has_critical_errors);
}

#[test]
fn each_kind_calls_for_its_suggestion() {
    let suggest = |kind: ValidationErrorType| {
        SuggestionEngine::generate_generic_suggestion(&error(kind, Error, "p", "m"))
            .expect("every kind has a suggestion")
    };
    let s = suggest(ValidationErrorType::SchemaValidation);
    assert_eq!(s.title, "Fix Schema Validation");
    assert_eq!(s.description, "Update the data to match the required schema");
    assert_eq!(s.action, SuggestionAction::Fix);
    assert_eq!(s.confidence, 70);

    let s = suggest(ValidationErrorType::TypeValidation);
    assert_eq!(s.title, "Fix Type Validation");
    assert_eq!(s.description, "Convert the value to the expected type");
    assert_eq!(s.action, SuggestionAction::Convert);
    assert_eq!(s.confidence, 80);

    let s = suggest(ValidationErrorType::RequiredFieldMissing);
    assert_eq!(s.title, "Add Required Field");
    assert_eq!(s.description, "Add the missing required field");
    assert_eq!(s.action, SuggestionAction::Add);
    assert_eq!(s.confidence, 90);

    let s = suggest(ValidationErrorType::ConstraintViolation);
    assert_eq!(s.title, "Fix Constraint Violation");
    assert_eq!(
        s.description,
        "Update the value to meet the constraint requirements"
    );
    assert_eq!(s.action, SuggestionAction::Fix);
    assert_eq!(s.confidence, 80);

    for kind in [
        ValidationErrorType::IntegrityViolation,
        ValidationErrorType::FormatError,
        ValidationErrorType::InvalidValue,
        ValidationErrorType::CustomValidation,
    ] {
        let s = suggest(kind);
        assert_eq!(s.title, "Fix Validation Error");
        assert_eq!(s.description, "Review and correct the validation error");
        assert_eq!(s.action, SuggestionAction::Validate);
        assert_eq!(s.confidence, 50);
    }
    assert_eq!(kind_name(ValidationErrorType::InvalidValue), "InvalidValue");
}

#[test]
fn registered_patterns_come_before_the_kind() {
    let mut engine = SuggestionEngine::new();
    assert_eq!(engine.confidence_threshold, 50);
    engine.add_pattern(SuggestionPattern {
        pattern: "email".to_string(),
        suggestion_template: "Write a full address".to_string(),
        confidence: 95,
        action: SuggestionAction::Custom("rewrite".to_string()),
    });
    engine.add_pattern(SuggestionPattern {
        pattern: "user".to_string(),
        suggestion_template: "Look at the user".to_string(),
        confidence: 60,
        action: SuggestionAction::Replace,
    });

    let by_message = engine
        .generate_suggestion(&error(
            ValidationErrorType::FormatError,
            Error,
            "user.mail",
            "bad email",
        ))
        .unwrap();
    assert_eq!(by_message.title, "Fix FormatError");
    assert_eq!(by_message.description, "Write a full address");
    assert_eq!(by_message.action, SuggestionAction::Custom("rewrite".to_string()));
    assert_eq!(by_message.confidence, 95);

    let by_path = engine
        .generate_suggestion(&error(
            ValidationErrorType::TypeValidation,
            Error,
            "user.age",
            "bad",
        ))
        .unwrap();
    assert_eq!(by_path.title, "Fix TypeValidation");
    assert_eq!(by_path.description, "Look at the user");

    let generic = engine
        .generate_suggestion(&error(
            ValidationErrorType::TypeValidation,
            Error,
            "order",
            "bad",
        ))
        .unwrap();
    assert_eq!(generic.title, "Fix Type Validation");

    engine.add_pattern(SuggestionPattern {
        pattern: "email".to_string(),
        suggestion_template: "Ask again".to_string(),
        confidence: 10,
        action: SuggestionAction::Remove,
    });
    let replaced = engine
        .generate_suggestion(&error(
            ValidationErrorType::FormatError,
            Error,
            "x",
            "email",
        ))
        .unwrap();
    assert_eq!(replaced.description, "Ask again");
    assert!(SuggestionEngine::matches_pattern(
        &error(ValidationErrorType::FormatError, ErrorSeverity::Info, "a.b", "c"),
        "a."
    ));
}

#[test]
fn suggestions_come_by_title_and_each_title_once() {
    let mut reporter = ValidationErrorReporter::new();
    reporter.add_suggestion_pattern(SuggestionPattern {
        pattern: "special".to_string(),
        suggestion_template: "first".to_string(),
        confidence: 1,
        action: SuggestionAction::Fix,
    });
    for (kind, message) in [
        (TypeValidation, "t"),
        (SchemaValidation, "s"),
        (FormatError, "special one"),
        (RequiredFieldMissing, "r"),
        (TypeValidation, "t again"),
        (FormatError, "special two"),
        (ConstraintViolation, "c"),
        (FormatError, "plain"),
    ] {
        reporter.add_error(error(kind, Error, "p", message));
    }
    let suggestions = reporter.generate_suggestions();
    let titles: Vec<&str> = suggestions.iter().map(|s| s.title.as_str()).collect();
    assert_eq!(
        titles,
        vec![
            "Add Required Field",
            "Fix Constraint Violation",
            "Fix FormatError",
            "Fix Schema Validation",
            "Fix Type Validation",
            "Fix Validation Error",
        ]
    );
    assert_eq!(suggestions[2].description, "first");
    assert!(ValidationErrorReporter::new().generate_suggestions().is_empty());
}

#[test]
fn patterns_are_looked_for_in_the_document_itself() {
    let mut reporter = ValidationErrorReporter::new();
    reporter.add_error_pattern(ErrorPattern {
        pattern: "TODO".to_string(),
        error_type: ValidationErrorType::CustomValidation,
        severity: ErrorSeverity::Warning,
        suggestion_template: "Finish it".to_string(),
    });
    reporter.add_error_pattern(ErrorPattern {
        pattern: "???".to_string(),
        error_type: ValidationErrorType::InvalidValue,
        severity: Error,
        suggestion_template: "Fill it in".to_string(),
    });

    let doc = Value::String("TODO: decide ???".to_string());
    reporter.detect_errors(&doc, "notes", 42);
    let errors = reporter.get_errors();
    assert_eq!(errors.len(), 2);
    assert_eq!(errors[0].error_type, ValidationErrorType::CustomValidation);
    assert_eq!(errors[0].severity, ErrorSeverity::Warning);
    assert_eq!(errors[0].path, "notes");
    assert_eq!(errors[0].message, "Pattern 'TODO' detected in data");
    assert_eq!(errors[0].timestamp, 42);
    assert_eq!(errors[0].context, Some(doc.clone()));
    let suggestion = errors[0].suggestion.as_ref().unwrap();
    assert_eq!(suggestion.title, "Fix Pattern Match");
    assert_eq!(suggestion.description, "Finish it");
    assert_eq!(suggestion.action, SuggestionAction::Fix);
    assert_eq!(suggestion.confidence, 80);
    assert_eq!(errors[1].message, "Pattern '???' detected in data");

    let nested = Value::Array(vec![Value::String("TODO".to_string())]);
    reporter.detect_errors(&nested, "list", 43);
    reporter.detect_errors(&Value::String("fine".to_string()), "ok", 44);
    assert_eq!(reporter.get_errors().len(), 2);

    assert!(ValidationErrorReporter::match_error_pattern(
        &Value::Null,
        &ErrorPattern {
            pattern: "".to_string(),
            error_type: ValidationErrorType::InvalidValue,
            severity: ErrorSeverity::Info,
            suggestion_template: String::new(),
        },
        "p",
        1
    )
    .is_none());
}
