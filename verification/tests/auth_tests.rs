use common_library::error::Error;
use common_library::http::auth::{AuthConfig, AuthManager, AutoRefreshAuth, TokenRefresher};

#[test]
fn test_auth_config() {
    let bearer_auth = AuthConfig::bearer("test-token");
    assert_eq!(bearer_auth.auth_type(), "Bearer", "Auth type should be Bearer");
    assert!(bearer_auth.is_valid(), "Bearer auth should be valid");

    let basic_auth = AuthConfig::basic("user", "pass");
    assert_eq!(basic_auth.auth_type(), "Basic", "Auth type should be Basic");
    assert!(basic_auth.is_valid(), "Basic auth should be valid");

    let api_key_auth = AuthConfig::api_key("key123", "X-API-Key");
    assert_eq!(api_key_auth.auth_type(), "API Key", "Auth type should be API Key");
    assert!(api_key_auth.is_valid(), "API key auth should be valid");
}

#[test]
fn test_auth_manager() {
    let mut auth_manager = AuthManager::new();

    assert_eq!(auth_manager.auth_count(), 0, "Initial auth count should be 0");
    assert!(auth_manager.current_auth().is_none(), "No current auth initially");

    auth_manager.add_auth(AuthConfig::bearer("token1"));
    auth_manager.add_auth(AuthConfig::bearer("token2"));

    assert_eq!(auth_manager.auth_count(), 2, "Auth count should be 2");
    assert!(auth_manager.current_auth().is_some(), "Should have current auth");

    let rotated = auth_manager.rotate_auth();
    assert!(rotated.is_some(), "Should be able to rotate auth");
}

#[test]
fn auth_headers_are_written_as_the_scheme_asks() {
    let (name, value) = AuthConfig::bearer("abc").header();
    assert_eq!(name, "authorization");
    assert_eq!(value, "Bearer abc");

    let (name, value) = AuthConfig::basic("user", "pass").header();
    assert_eq!(name, "authorization");
    assert_eq!(value, "Basic dXNlcjpwYXNz");

    let (name, value) = AuthConfig::api_key("key123", "X-API-Key").header();
    assert_eq!(name, "X-API-Key");
    assert_eq!(value, "key123");

    let (name, value) = AuthConfig::custom("X-Trace", "on").header();
    assert_eq!(name, "X-Trace");
    assert_eq!(value, "on");
}

#[test]
fn auth_config_with_an_empty_part_is_invalid() {
    assert!(!AuthConfig::bearer("").is_valid());
    assert!(!AuthConfig::basic("user", "").is_valid());
    assert!(!AuthConfig::api_key("", "X-API-Key").is_valid());
    assert!(!AuthConfig::custom("X-Trace", "").is_valid());
    assert_eq!(AuthConfig::custom("X-Trace", "on").auth_type(), "Custom");
}

#[test]
fn auth_manager_rotates_in_a_circle_and_checks_indices() {
    let mut manager = AuthManager::new();
    assert!(manager.rotate_auth().is_none());
    manager.add_auth(AuthConfig::bearer("a"));
    manager.add_auth(AuthConfig::bearer("b"));
    manager.add_auth(AuthConfig::bearer("c"));

    assert!(matches!(manager.current_auth(), Some(AuthConfig::Bearer(t)) if t == "a"));
    assert!(matches!(manager.rotate_auth(), Some(AuthConfig::Bearer(t)) if t == "b"));
    assert!(matches!(manager.rotate_auth(), Some(AuthConfig::Bearer(t)) if t == "c"));
    assert!(matches!(manager.rotate_auth(), Some(AuthConfig::Bearer(t)) if t == "a"));

    assert!(manager.set_current_index(2).is_ok());
    assert!(matches!(manager.current_auth(), Some(AuthConfig::Bearer(t)) if t == "c"));

    let refused = manager.set_current_index(3);
    assert_eq!(
        refused,
        Err(Error::Http("Invalid auth index: 3. Available: 3".to_string()))
    );
    assert!(matches!(manager.current_auth(), Some(AuthConfig::Bearer(t)) if t == "c"));

    manager.clear();
    assert_eq!(manager.auth_count(), 0);
    assert!(manager.current_auth().is_none());
}

#[test]
fn refresh_hands_on_what_the_means_give() {
    let refresher = TokenRefresher::new(|| Ok("fresh".to_string()));
    assert_eq!(refresher.refresh(), Ok("fresh".to_string()));

    let auth = AutoRefreshAuth::new(AuthConfig::bearer("stale")).with_refresher(refresher);
    assert_eq!(auth.auth_config().auth_type(), "Bearer");
    assert_eq!(auth.refresh_token(), Ok(Some("fresh".to_string())));

    let failing = TokenRefresher::new(|| Err(Error::http("no token")));
    let auth = AutoRefreshAuth::new(AuthConfig::bearer("stale")).with_refresher(failing);
    assert_eq!(auth.refresh_token(), Err(Error::Http("no token".to_string())));
}

#[test]
fn refresh_without_means_gives_nothing() {
    let refresher = TokenRefresher::new(|| Ok(String::new()));
    let mut auth = AutoRefreshAuth::new(AuthConfig::bearer("t"));
    assert_eq!(auth.refresh_token(), Ok(None));
    auth = auth.with_refresher(refresher);
    assert_eq!(auth.refresh_token(), Ok(Some(String::new())));
}
