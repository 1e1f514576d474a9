use tickit_sync::api::{authorize, bearer_token, Access, ApiError};
use tickit_sync::config::{Config, TokenConfig};
use tickit_sync::error::SyncError;

fn config() -> Config {
    let mut config = Config::default();
    config.tokens.push(TokenConfig { name: "n".to_string(), token_hash: "letmein".to_string() });
    config
}

#[test]
fn bearer_tokens() {
    assert_eq!(bearer_token("Bearer abc"), Some("abc".to_string()));
    assert_eq!(bearer_token("Bearer "), Some("".to_string()));
    assert_eq!(bearer_token("Bearer  x y"), Some(" x y".to_string()));
    assert_eq!(bearer_token("Bearer é✓"), Some("é✓".to_string()));
    assert_eq!(bearer_token("Bearer"), None);
    assert_eq!(bearer_token("bearer abc"), None);
    assert_eq!(bearer_token("Basic abc"), None);
    assert_eq!(bearer_token(""), None);
    assert_eq!(bearer_token("éééééééé"), None);
}

#[test]
fn health_needs_no_credentials() {
    assert_eq!(authorize(&config(), "/health", None), Access::Granted);
    assert_eq!(authorize(&config(), "/health", Some("nonsense")), Access::Granted);
    assert_eq!(authorize(&Config::default(), "/health", None), Access::Granted);
}

#[test]
fn other_paths_need_a_token() {
    let config = config();
    assert_eq!(authorize(&config, "/api/v1/sync", None), Access::MissingCredentials);
    assert_eq!(authorize(&config, "/api/v1/sync", Some("letmein")), Access::MissingCredentials);
    assert_eq!(authorize(&config, "/api/v1/sync", Some("Bearer nope")), Access::InvalidToken);
    assert_eq!(authorize(&config, "/api/v1/sync", Some("Bearer letmein")), Access::Granted);
    assert_eq!(authorize(&config, "/health/", Some("Bearer nope")), Access::InvalidToken);
    assert_eq!(authorize(&config, "", None), Access::MissingCredentials);
}

#[test]
fn what_the_caller_is_told() {
    assert!(Access::Granted.is_granted());
    assert!(!Access::InvalidToken.is_granted());
    assert!(!Access::MissingCredentials.is_granted());
    assert_eq!(Access::Granted.message(), None);
    assert_eq!(
        Access::MissingCredentials.message(),
        Some("Missing or invalid Authorization header".to_string())
    );
    assert_eq!(Access::InvalidToken.message(), Some("Invalid API token".to_string()));
}

#[test]
fn failures_are_told_under_500() {
    let error = ApiError::from_sync_error(SyncError::MalformedRecord(3));
    assert_eq!(error.status(), 500);
    assert_eq!(error.0, "a record holds a timestamp that is not RFC 3339");
    assert_eq!(SyncError::MalformedWatermark.message(), "the watermark is not RFC 3339");
    assert_eq!(ApiError::from_sync_error(SyncError::MalformedWatermark).0, "the watermark is not RFC 3339");
}
