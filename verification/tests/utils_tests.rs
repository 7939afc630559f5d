use common_library::utils::crypto;
use common_library::utils::string;
use common_library::utils::validation;

#[test]
fn test_string_utilities() {
    let test_string = "Hello World";
    let truncated = string::truncate(test_string, 5);
    assert_eq!(truncated, "He...", "String should be truncated correctly");

    assert!(string::is_blank("   "), "Blank string should be detected");
    assert!(
        !string::is_blank("hello"),
        "Non-blank string should not be detected"
    );

    let snake_case = string::to_snake_case("HelloWorld");
    assert_eq!(snake_case, "hello_world", "Should convert to snake_case");

    let camel_case = string::to_camel_case("hello_world");
    assert_eq!(camel_case, "helloWorld", "Should convert to camelCase");
}

#[test]
fn test_validation_utilities() {
    assert!(
        validation::is_valid_email("test@example.com"),
        "Valid email should pass validation"
    );
    assert!(
        !validation::is_valid_email("invalid-email"),
        "Invalid email should fail validation"
    );

    assert!(
        validation::is_valid_url("https://example.com"),
        "Valid URL should pass validation"
    );
    assert!(
        !validation::is_valid_url("invalid-url"),
        "Invalid URL should fail validation"
    );

    assert!(
        validation::is_not_empty("hello"),
        "Non-empty string should pass validation"
    );
    assert!(
        !validation::is_not_empty(""),
        "Empty string should fail validation"
    );
}

#[test]
fn test_crypto_utilities() {
    let uuid1 = crypto::generate_uuid();
    let uuid2 = crypto::generate_uuid();
    assert_ne!(uuid1, uuid2, "Generated UUIDs should be unique");

    let random_string = crypto::generate_random_string(10);
    assert_eq!(
        random_string.len(),
        10,
        "Random string should have correct length"
    );

    let test_data = b"hello world";
    let encoded = crypto::encode_base64(test_data);
    let decoded = crypto::decode_base64(&encoded);
    assert!(decoded.is_ok(), "Base64 decoding should work");
    assert_eq!(
        decoded.unwrap(),
        test_data,
        "Decoded data should match original"
    );
}

#[test]
fn identifiers_are_written_in_36_characters() {
    let id = crypto::generate_uuid_string();
    assert_eq!(id.len(), 36);
    assert_eq!(id.matches('-').count(), 4);
    assert_ne!(id, crypto::generate_uuid_string());
}

#[test]
fn random_texts_hold_letters_and_digits() {
    assert_eq!(crypto::generate_random_string(0), "");
    let s = crypto::generate_random_string(200);
    assert_eq!(s.chars().count(), 200);
    assert!(s.chars().all(|c| c.is_ascii_alphanumeric()));
    assert_ne!(s, crypto::generate_random_string(200));
}

#[test]
fn base64_is_written_and_read() {
    assert_eq!(crypto::encode_base64(b""), "");
    assert_eq!(crypto::encode_base64(b"hello world"), "aGVsbG8gd29ybGQ=");
    assert_eq!(crypto::decode_base64("aGVsbG8gd29ybGQ="), Ok(b"hello world".to_vec()));
    let refused = crypto::decode_base64("not base64!").unwrap_err();
    assert!(refused.to_text().starts_with("Generic error: Failed to decode base64: "));
}

#[test]
fn texts_are_shortened_to_the_length_asked_for() {
    assert_eq!(string::truncate("Hello", 5), "Hello");
    assert_eq!(string::truncate("Hello World", 8), "Hello...");
    assert_eq!(string::truncate("test", 2), "...");
    assert_eq!(string::truncate("test", 0), "...");
    assert_eq!(string::truncate("", 0), "");
    assert_eq!(string::truncate("äöüäöü", 5), "äö...");
}

#[test]
fn blank_is_nothing_but_white_space() {
    assert!(string::is_blank(""));
    assert!(string::is_blank(" \t\n\r\u{a0}\u{2003}\u{3000}"));
    assert!(!string::is_blank(" x "));
    assert!(!string::is_blank("\u{200b}"));
    assert!(validation::is_not_empty(" x "));
    assert!(!validation::is_not_empty(" \t"));
}

#[test]
fn case_is_changed_letter_by_letter() {
    assert_eq!(string::to_snake_case(""), "");
    assert_eq!(string::to_snake_case("already_snake"), "already_snake");
    assert_eq!(string::to_snake_case("HTTPServer"), "h_t_t_p_server");
    assert_eq!(string::to_snake_case("ÄpfelÖl"), "äpfel_öl");
    assert_eq!(string::to_camel_case(""), "");
    assert_eq!(string::to_camel_case("_leading"), "Leading");
    assert_eq!(string::to_camel_case("trailing_"), "trailing");
    assert_eq!(string::to_camel_case("a__b"), "aB");
    assert_eq!(string::to_camel_case("über_öl"), "überÖl");
}

#[test]
fn shapes_of_addresses_are_checked() {
    assert!(validation::is_valid_email("a@b.c"));
    assert!(!validation::is_valid_email("@b.c"));
    assert!(!validation::is_valid_email("a.b@"));
    assert!(!validation::is_valid_email("a@b"));
    assert!(!validation::is_valid_email(""));
    assert!(validation::is_valid_url("http://"));
    assert!(!validation::is_valid_url("HTTP://x"));
}
