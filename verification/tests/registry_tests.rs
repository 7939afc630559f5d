use common_library::error::Error;
use common_library::number::Number;
use common_library::validation::registry::{
    validate_schema, validate_schema_recursive, SchemaMetadata, SchemaRegistry,
};
use common_library::value::Value;

fn text(s: &str) -> Value {
    Value::String(s.to_string())
}

fn num(n: i64) -> Value {
    Value::Number(Number::from_i64(n))
}

fn object(members: Vec<(&str, Value)>) -> Value {
    Value::Object(
        members
            .into_iter()
            .map(|(k, v)| (k.to_string(), v))
            .collect(),
    )
}

fn entry(name: &str, version: &str, tags: &[&str], dependencies: &[&str]) -> SchemaMetadata {
    SchemaMetadata {
        name: name.to_string(),
        version: version.to_string(),
        schema: object(vec![("type", text("object")), ("title", text(version))]),
        description: None,
        tags: tags.iter().map(|t| t.to_string()).collect(),
        created_at: 100,
        updated_at: 100,
        author: None,
        dependencies: dependencies.iter().map(|d| d.to_string()).collect(),
        is_deprecated: false,
    }
}

fn refused(message: &str) -> Error {
    Error::Validation(message.to_string())
}

#[test]
fn same_name_and_version_is_refused_the_second_time() {
    let mut registry = SchemaRegistry::new();
    assert!(registry.register_schema(entry("user", "1.0", &[], &[])).is_ok());
    assert_eq!(
        registry.register_schema(entry("user", "1.0", &["other"], &[])),
        Err(refused("Schema 'user' version '1.0' already exists"))
    );
    assert_eq!(registry.get_statistics().total_schemas, 1);
}

#[test]
fn latest_is_the_version_registered_last() {
    let mut registry = SchemaRegistry::new();
    registry.register_schema(entry("user", "1.0", &[], &[])).unwrap();
    registry.register_schema(entry("user", "2.0", &[], &[])).unwrap();
    assert_eq!(registry.get_latest_schema("user").unwrap().version, "2.0");

    registry.register_schema(entry("user", "1.5", &[], &[])).unwrap();
    assert_eq!(registry.get_latest_schema("user").unwrap().version, "1.5");

    assert_eq!(
        registry.get_latest_schema("nobody").err(),
        Some(refused("Schema 'nobody' not found"))
    );
}

#[test]
fn registration_checks_shape_then_duplicates_then_dependencies() {
    let mut registry = SchemaRegistry::new();
    let mut shapeless = entry("a", "1", &[], &["missing"]);
    shapeless.schema = num(1);
    assert_eq!(
        registry.register_schema(shapeless),
        Err(refused("Schema must be a JSON object"))
    );
    let mut without_type = entry("a", "1", &[], &[]);
    without_type.schema = object(vec![("title", text("x"))]);
    assert_eq!(
        registry.register_schema(without_type),
        Err(refused("Schema must have 'type', '$ref', or 'allOf' property"))
    );
    assert_eq!(
        registry.register_schema(entry("a", "1", &[], &["base", "other"])),
        Err(refused("Dependency 'base' not found"))
    );
    registry.register_schema(entry("base", "0.1", &[], &[])).unwrap();
    assert_eq!(
        registry.register_schema(entry("a", "1", &[], &["base", "other"])),
        Err(refused("Dependency 'other' not found"))
    );
    assert!(registry.register_schema(entry("a", "1", &[], &["base"])).is_ok());
    assert_eq!(
        registry.register_schema(entry("a", "1", &[], &["missing"])),
        Err(refused("Schema 'a' version '1' already exists"))
    );
    assert!(registry.validate_dependencies(&vec!["a".to_string()]).is_ok());
}

#[test]
fn schemas_are_found_listed_and_counted() {
    let mut registry = SchemaRegistry::new();
    registry
        .register_schema(entry("user", "1.0", &["people", "core"], &[]))
        .unwrap();
    registry
        .register_schema(entry("order", "1.0", &["core"], &["user"]))
        .unwrap();
    registry
        .register_schema(entry("user", "2.0", &["people"], &[]))
        .unwrap();

    assert_eq!(registry.get_schema("user", "1.0").unwrap().version, "1.0");
    assert_eq!(
        registry.get_schema("user", "3.0").err(),
        Some(refused("Schema 'user' version '3.0' not found"))
    );
    assert_eq!(registry.list_schemas(), vec!["user", "order"]);

    let versions = registry.get_schema_versions("user").unwrap();
    assert_eq!(versions.len(), 2);
    assert_eq!(versions[0].version, "1.0");
    assert_eq!(versions[1].version, "2.0");
    assert!(versions[0].is_current && versions[1].is_current);
    assert_eq!(versions[0].created_at, 100);
    assert!(versions[0].changelog.is_none());
    assert_eq!(
        registry.get_schema_versions("nobody").err(),
        Some(refused("Schema 'nobody' not found"))
    );

    let tagged: Vec<(&str, &str)> = registry
        .get_schemas_by_tag("core")
        .iter()
        .map(|m| (m.name.as_str(), m.version.as_str()))
        .collect();
    assert_eq!(tagged, vec![("user", "2.0"), ("order", "1.0")]);
    assert!(registry.get_schemas_by_tag("none").is_empty());

    let found: Vec<(&str, &str)> = registry
        .search_schemas("se")
        .iter()
        .map(|m| (m.name.as_str(), m.version.as_str()))
        .collect();
    assert_eq!(found, vec![("user", "1.0"), ("user", "2.0")]);
    assert_eq!(registry.search_schemas("").len(), 3);

    let stats = registry.get_statistics();
    assert_eq!(stats.total_schemas, 3);
    assert_eq!(stats.total_versions, 3);
    assert_eq!(stats.deprecated_count, 0);
    assert_eq!(stats.tag_count, 2);
    assert_eq!(stats.schema_names, vec!["user", "order"]);
}

#[test]
fn update_and_deprecation_change_one_entry() {
    let mut registry = SchemaRegistry::new();
    registry.register_schema(entry("user", "1.0", &[], &[])).unwrap();

    let new_schema = object(vec![("type", text("array"))]);
    assert!(registry
        .update_schema("user", "1.0", new_schema.clone(), 200)
        .is_ok());
    let stored = registry.get_schema("user", "1.0").unwrap();
    assert_eq!(stored.schema, new_schema);
    assert_eq!(stored.updated_at, 200);
    assert_eq!(stored.created_at, 100);
    assert_eq!(
        registry.get_schema_versions("user").unwrap()[0].schema,
        entry("user", "1.0", &[], &[]).schema
    );

    assert_eq!(
        registry.update_schema("user", "1.0", num(1), 300),
        Err(refused("Schema must be a JSON object"))
    );
    assert_eq!(
        registry.update_schema("user", "9", new_schema, 300),
        Err(refused("Schema 'user' version '9' not found"))
    );

    assert!(registry.deprecate_schema("user", "1.0", 400).is_ok());
    let stored = registry.get_schema("user", "1.0").unwrap();
    assert!(stored.is_deprecated);
    assert_eq!(stored.updated_at, 400);
    assert_eq!(
        registry.deprecate_schema("user", "9", 500),
        Err(refused("Schema 'user' version '9' not found"))
    );
    assert_eq!(registry.get_statistics().deprecated_count, 1);
}

#[test]
fn removal_takes_the_entry_its_history_and_its_tags() {
    let mut registry = SchemaRegistry::new();
    registry.register_schema(entry("user", "1.0", &["people"], &[])).unwrap();
    registry.register_schema(entry("user", "2.0", &[], &[])).unwrap();

    let removed = registry.remove_schema("user", "1.0").unwrap();
    assert_eq!(removed.version, "1.0");
    assert_eq!(registry.get_schema_versions("user").unwrap().len(), 1);
    assert!(registry.get_schemas_by_tag("people").is_empty());
    assert_eq!(registry.get_statistics().tag_count, 0);
    assert_eq!(
        registry.remove_schema("user", "1.0").err(),
        Some(refused("Schema 'user' version '1.0' not found"))
    );

    registry.remove_schema("user", "2.0").unwrap();
    assert!(registry.list_schemas().is_empty());
    assert!(registry.get_latest_schema("user").is_err());

    registry.register_schema(entry("user", "1.0", &[], &[])).unwrap();
    registry.clear_registry();
    assert_eq!(registry.get_statistics().total_schemas, 0);
}

#[test]
fn unknown_keys_are_found_but_do_not_refuse_a_schema() {
    let schema = object(vec![
        ("type", text("object")),
        ("x-top", num(1)),
        (
            "properties",
            object(vec![
                ("a", object(vec![("type", text("string")), ("x-a", num(1))])),
                ("b", num(3)),
            ]),
        ),
        (
            "anyOf",
            Value::Array(vec![object(vec![("x-any", num(1))]), num(2)]),
        ),
        ("not", object(vec![("x-not", num(1)), ("enum", num(1))])),
        ("items", object(vec![("type", object(vec![("x-deep", num(1))]))])),
    ]);
    assert_eq!(
        validate_schema(&schema),
        Ok(vec![
            "x-top".to_string(),
            "x-a".to_string(),
            "x-any".to_string(),
            "x-not".to_string(),
            "x-deep".to_string(),
        ])
    );
    let mut found = vec!["before".to_string()];
    validate_schema_recursive(&num(1), &mut found);
    validate_schema_recursive(&object(vec![("odd", num(1))]), &mut found);
    assert_eq!(found, vec!["before", "odd"]);
    assert_eq!(
        validate_schema(&object(vec![("x", num(1))])),
        Err(refused("Schema must have 'type', '$ref', or 'allOf' property"))
    );
}
