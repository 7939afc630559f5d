use common_library::error::Error;

#[test]
fn test_error_creation() {
    let config_error = Error::config("test config error");
    assert!(matches!(config_error, Error::Config(_)));

    let http_error = Error::http("test http error");
    assert!(matches!(http_error, Error::Http(_)));

    let database_error = Error::database("test database error");
    assert!(matches!(database_error, Error::Database(_)));

    let storage_error = Error::storage("test storage error");
    assert!(matches!(storage_error, Error::Storage(_)));

    let validation_error = Error::validation("test validation error");
    assert!(matches!(validation_error, Error::Validation(_)));

    let processing_error = Error::processing("test processing error");
    assert!(matches!(processing_error, Error::Processing(_)));

    let metrics_error = Error::metrics("test metrics error");
    assert!(matches!(metrics_error, Error::Metrics(_)));

    let generic_error = Error::generic("test generic error");
    assert!(matches!(generic_error, Error::Generic(_)));
}

#[test]
fn test_error_display() {
    let config_error = Error::config("test message");
    assert!(config_error.to_text().contains("Configuration error"));
    assert!(config_error.to_text().contains("test message"));

    let http_error = Error::http("test message");
    assert!(http_error.to_text().contains("HTTP error"));
    assert!(http_error.to_text().contains("test message"));
}

#[test]
fn each_error_is_written_with_the_name_of_its_part() {
    assert_eq!(Error::config("m").to_text(), "Configuration error: m");
    assert_eq!(Error::http("m").to_text(), "HTTP error: m");
    assert_eq!(Error::database("m").to_text(), "Database error: m");
    assert_eq!(Error::storage("m").to_text(), "Storage error: m");
    assert_eq!(Error::validation("m").to_text(), "Validation error: m");
    assert_eq!(Error::processing("m").to_text(), "Processing error: m");
    assert_eq!(Error::metrics("m").to_text(), "Metrics error: m");
    assert_eq!(Error::generic("m").to_text(), "Generic error: m");
}
