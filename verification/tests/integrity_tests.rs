use common_library::number::Number;
use common_library::validation::integrity::{
    calculate_checksum, calculate_consistency_score, check_constraint, check_data_consistency,
    check_format_outcome, check_range_constraint, get_value_by_path, has_circular_reference,
    is_valid_date, is_valid_email, is_valid_url, is_valid_uuid, validate_format, ConstraintType,
    DataIntegrityChecker, IntegrityConstraint, IntegrityViolation, IntegrityViolationType,
    ViolationSeverity,
};
use common_library::validation::integrity::ViolationSeverity::{Critical, High, Low, Medium};
use common_library::value::Value;

fn text(s: &str) -> Value {
    Value::String(s.to_string())
}

fn num(n: i64) -> Value {
    Value::Number(Number::from_i64(n))
}

fn object(members: Vec<(&str, Value)>) -> Value {
    Value::Object(
        members
            .into_iter()
            .map(|(k, v)| (k.to_string(), v))
            .collect(),
    )
}

fn constraint(kind: ConstraintType, path: &str, value: Option<Value>) -> IntegrityConstraint {
    IntegrityConstraint {
        name: "c".to_string(),
        constraint_type: kind,
        path: path.to_string(),
        value,
        severity: ViolationSeverity::High,
    }
}

fn violation(severity: ViolationSeverity) -> IntegrityViolation {
    IntegrityViolation {
        violation_type: IntegrityViolationType::ConstraintViolation,
        path: "root".to_string(),
        message: "m".to_string(),
        severity,
        suggestion: None,
    }
}

#[test]
fn score_falls_by_severity_and_stops_at_zero() {
    assert_eq!(calculate_consistency_score(&vec![]), 100);
    assert_eq!(calculate_consistency_score(&vec![violation(Low)]), 95);
    assert_eq!(calculate_consistency_score(&vec![violation(Medium)]), 85);
    assert_eq!(calculate_consistency_score(&vec![violation(High)]), 70);
    assert_eq!(calculate_consistency_score(&vec![violation(Critical)]), 50);
    assert_eq!(
        calculate_consistency_score(&vec![violation(Low), violation(Medium), violation(High)]),
        50
    );
    assert_eq!(
        calculate_consistency_score(&vec![violation(Critical), violation(Critical)]),
        0
    );
    assert_eq!(
        calculate_consistency_score(&vec![
            violation(Critical),
            violation(Critical),
            violation(Critical)
        ]),
        0
    );

    let mut list = Vec::new();
    let mut last = calculate_consistency_score(&list);
    for severity in [Low, Medium, High, Critical, Critical, Low] {
        list.push(violation(severity));
        let score = calculate_consistency_score(&list);
        assert!(score <= last);
        last = score;
    }
    assert_eq!(last, 0);
}

#[test]
fn paths_lead_to_members() {
    let doc = object(vec![
        ("user", object(vec![("profile", object(vec![("name", text("John"))]))])),
        ("", num(7)),
    ]);
    assert_eq!(get_value_by_path(&doc, "root"), Some(&doc));
    assert_eq!(get_value_by_path(&doc, ""), Some(&doc));
    assert_eq!(
        get_value_by_path(&doc, "user.profile.name"),
        Some(&text("John"))
    );
    assert_eq!(get_value_by_path(&doc, "user.missing"), None);
    assert_eq!(get_value_by_path(&doc, "user.profile.name.first"), None);
    assert_eq!(get_value_by_path(&doc, "user."), None);
    assert_eq!(get_value_by_path(&doc, ".user"), None);
    assert!(get_value_by_path(&doc, "user.profile").is_some());
    assert_eq!(get_value_by_path(&text("x"), "a"), None);
}

#[test]
fn formats_are_checked_by_name() {
    assert!(is_valid_email("a@b.c"));
    assert!(is_valid_email("@."));
    assert!(!is_valid_email("a.b"));
    assert!(!is_valid_email("a@b"));
    assert!(is_valid_url("http://x"));
    assert!(is_valid_url("https://x"));
    assert!(!is_valid_url("ftp://x"));
    assert!(is_valid_date("1996-12-19T16:39:57-08:00"));
    assert!(is_valid_date("2025-10-23T12:34:56Z"));
    assert!(!is_valid_date("2025-10-23"));
    assert!(!is_valid_date("yesterday"));
    assert!(is_valid_uuid("550e8400-e29b-41d4-a716-446655440000"));
    assert!(is_valid_uuid("550e8400e29b41d4a716446655440000"));
    assert!(!is_valid_uuid("550e8400-e29b-41d4-a716"));

    assert!(validate_format("a@b.c", "email"));
    assert!(!validate_format("nobody", "email"));
    assert!(validate_format("https://x", "url"));
    assert!(!validate_format("x", "url"));
    assert!(validate_format("2025-10-23T12:34:56Z", "date"));
    assert!(!validate_format("today", "date"));
    assert!(validate_format("550e8400-e29b-41d4-a716-446655440000", "uuid"));
    assert!(!validate_format("no", "uuid"));
    assert!(validate_format("anything", "postcode"));
}

#[test]
fn each_kind_of_constraint_is_broken_with_its_violation() {
    let doc = object(vec![
        ("id", Value::Null),
        ("age", num(150)),
        ("mail", text("nobody")),
        ("owner", text("alice")),
    ]);

    let v = check_constraint(&doc, &constraint(ConstraintType::NotNull, "id", None)).unwrap();
    assert_eq!(v.violation_type, IntegrityViolationType::NullConstraintViolation);
    assert_eq!(v.path, "id");
    assert_eq!(v.message, "Field 'id' cannot be null");
    assert_eq!(v.severity, ViolationSeverity::High);
    assert_eq!(
        v.suggestion.as_deref(),
        Some("Provide a non-null value for this field")
    );
    assert!(check_constraint(&doc, &constraint(ConstraintType::NotNull, "age", None)).is_none());
    assert!(check_constraint(&doc, &constraint(ConstraintType::NotNull, "gone", None)).is_none());

    let v = check_constraint(&doc, &constraint(ConstraintType::Unique, "id", None)).unwrap();
    assert_eq!(v.violation_type, IntegrityViolationType::DuplicateKeyViolation);
    assert_eq!(v.message, "Field 'id' must be unique");
    assert_eq!(
        v.suggestion.as_deref(),
        Some("Ensure the value is unique across all records")
    );
    assert!(check_constraint(&doc, &constraint(ConstraintType::Unique, "age", None)).is_none());

    let v = check_constraint(
        &doc,
        &constraint(ConstraintType::ForeignKey, "owner", Some(text("bob"))),
    )
    .unwrap();
    assert_eq!(
        v.violation_type,
        IntegrityViolationType::ReferentialIntegrityViolation
    );
    assert_eq!(v.message, "Foreign key 'owner' references non-existent value");
    assert_eq!(
        v.suggestion.as_deref(),
        Some("Ensure the referenced value exists")
    );
    assert!(check_constraint(
        &doc,
        &constraint(ConstraintType::ForeignKey, "owner", Some(text("alice")))
    )
    .is_none());
    assert!(
        check_constraint(&doc, &constraint(ConstraintType::ForeignKey, "owner", None)).is_none()
    );

    let v = check_constraint(
        &doc,
        &constraint(ConstraintType::Format, "mail", Some(text("email"))),
    )
    .unwrap();
    assert_eq!(v.violation_type, IntegrityViolationType::FormatViolation);
    assert_eq!(v.message, "Value 'nobody' does not match format 'email'");
    assert_eq!(
        v.suggestion.as_deref(),
        Some("Update the value to match format 'email'")
    );
    assert!(check_constraint(
        &doc,
        &constraint(ConstraintType::Format, "age", Some(text("email")))
    )
    .is_none());

    assert!(check_constraint(&doc, &constraint(ConstraintType::Custom, "id", None)).is_none());

    let fits = check_format_outcome(
        &constraint(ConstraintType::Format, "mail", None),
        "x",
        "uuid",
        true,
    );
    assert!(fits.is_none());
    let misfit = check_format_outcome(
        &constraint(ConstraintType::Format, "mail", None),
        "x",
        "uuid",
        false,
    )
    .unwrap();
    assert_eq!(misfit.message, "Value 'x' does not match format 'uuid'");
}

#[test]
fn range_holds_numbers_between_min_and_max() {
    let bounds = object(vec![("min", num(0)), ("max", num(120))]);
    let range = constraint(ConstraintType::Range, "age", Some(bounds));

    let v = check_range_constraint(&object(vec![("age", num(150))]), &range).unwrap();
    assert_eq!(v.violation_type, IntegrityViolationType::RangeViolation);
    assert_eq!(v.path, "age");
    assert_eq!(v.message, "Value 150 exceeds maximum 120");
    assert_eq!(
        v.suggestion.as_deref(),
        Some("Decrease the value to meet the maximum requirement")
    );

    let v = check_range_constraint(&object(vec![("age", num(-1))]), &range).unwrap();
    assert_eq!(v.message, "Value -1 is below minimum 0");
    assert_eq!(
        v.suggestion.as_deref(),
        Some("Increase the value to meet the minimum requirement")
    );

    assert!(check_range_constraint(&object(vec![("age", num(0))]), &range).is_none());
    assert!(check_range_constraint(&object(vec![("age", num(120))]), &range).is_none());
    assert!(check_range_constraint(&object(vec![("age", text("old"))]), &range).is_none());
    assert!(check_range_constraint(&object(vec![]), &range).is_none());

    let open = constraint(ConstraintType::Range, "root", Some(object(vec![("max", num(1))])));
    assert!(check_range_constraint(&num(-100), &open).is_none());
    assert!(check_range_constraint(&num(2), &open).is_some());
}

#[test]
fn names_that_stand_twice_are_reported() {
    let doc = Value::Object(vec![
        ("a".to_string(), num(1)),
        ("b".to_string(), num(2)),
        ("a".to_string(), num(3)),
        ("a".to_string(), num(4)),
    ]);
    let found = check_data_consistency(&doc);
    assert_eq!(found.len(), 2);
    assert_eq!(
        found[0].violation_type,
        IntegrityViolationType::DuplicateKeyViolation
    );
    assert_eq!(found[0].path, "root");
    assert_eq!(found[0].message, "Duplicate key found: a");
    assert_eq!(found[0].severity, ViolationSeverity::Medium);
    assert_eq!(found[0].suggestion.as_deref(), Some("Remove duplicate keys"));
    assert!(check_data_consistency(&object(vec![("a", num(1)), ("b", num(2))])).is_empty());
    assert!(check_data_consistency(&num(1)).is_empty());
    assert!(!has_circular_reference(&doc));
}

#[test]
fn checksum_is_compared_when_one_is_registered() {
    let doc = object(vec![("name", text("John")), ("age", num(30))]);
    let mut checker = DataIntegrityChecker::new();

    let outcome = checker.check_integrity(&doc, "doc").unwrap();
    assert!(outcome.is_valid);
    assert!(outcome.checksum_valid);
    assert_eq!(outcome.consistency_score, 100);
    assert_eq!(outcome.check_time_ms, 0);

    let right = calculate_checksum(&doc);
    assert_eq!(right, calculate_checksum(&doc.clone()));
    assert_ne!(right, calculate_checksum(&object(vec![("name", text("Jon"))])));
    assert!(right.chars().all(|c| c.is_ascii_hexdigit() && !c.is_ascii_uppercase()));
    assert_eq!(calculate_checksum(&Value::Null), "5b9bc4ba528108e4");
    assert_eq!(
        calculate_checksum(&object(vec![("a", num(1))])),
        "9c3e82dd6fcae8b1"
    );

    checker.add_checksum("doc", &right);
    let outcome = checker.check_integrity(&doc, "doc").unwrap();
    assert!(outcome.is_valid);
    assert!(outcome.checksum_valid);

    checker.add_checksum("doc", "abc123");
    assert_eq!(checker.get_checksums().len(), 1);
    let outcome = checker.check_integrity(&doc, "doc").unwrap();
    assert!(!outcome.is_valid);
    assert!(!outcome.checksum_valid);
    assert_eq!(outcome.consistency_score, 50);
    assert_eq!(outcome.violations.len(), 1);
    assert_eq!(
        outcome.violations[0].violation_type,
        IntegrityViolationType::ChecksumMismatch
    );
    assert_eq!(outcome.violations[0].severity, ViolationSeverity::Critical);
    assert_eq!(outcome.violations[0].path, "root");
    assert_eq!(
        outcome.violations[0].message,
        format!("Checksum mismatch: expected abc123, got {right}")
    );

    let outcome = checker.check_integrity(&doc, "other").unwrap();
    assert!(outcome.is_valid);

    checker.add_constraint(constraint(
        ConstraintType::Range,
        "age",
        Some(object(vec![("max", num(18))])),
    ));
    assert_eq!(checker.get_constraints().len(), 1);
    let outcome = checker.check_integrity(&doc, "doc").unwrap();
    assert_eq!(outcome.violations.len(), 2);
    assert_eq!(outcome.consistency_score, 20);
    assert_eq!(
        outcome.violations[1].violation_type,
        IntegrityViolationType::RangeViolation
    );

    checker.clear_checksums();
    let outcome = checker.check_integrity(&doc, "doc").unwrap();
    assert!(outcome.checksum_valid);
    assert_eq!(outcome.violations.len(), 1);
    checker.clear_constraints();
    assert!(checker.check_integrity(&doc, "doc").unwrap().is_valid);
}
