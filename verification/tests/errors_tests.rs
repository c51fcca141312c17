//! Tests for the provider error taxonomy and retry parsing.

use forgetest::errors::{parse_retry_after_ms, ProviderError};

#[test]
fn parse_retry_after_ms_from_error() {
    assert_eq!(
        parse_retry_after_ms("rate limited, retry after 5000ms"),
        Some(5000)
    );
    assert_eq!(parse_retry_after_ms("something else"), None);
}

#[test]
fn permanent_errors_are_auth_and_unknown_model() {
    assert!(ProviderError::AuthenticationFailed("bad key".to_string()).is_permanent());
    assert!(ProviderError::ModelNotFound("nope".to_string()).is_permanent());
    assert!(!ProviderError::RateLimited { retry_after_ms: 1000 }.is_permanent());
    assert!(!ProviderError::Timeout(30).is_permanent());
    assert!(!ProviderError::NetworkError("down".to_string()).is_permanent());
    assert!(
        !ProviderError::ApiError { status: 500, message: "boom".to_string() }.is_permanent()
    );
}

#[test]
fn retry_after_only_on_rate_limits() {
    assert_eq!(
        ProviderError::RateLimited { retry_after_ms: 250 }.retry_after_ms(),
        Some(250)
    );
    assert_eq!(ProviderError::Timeout(30).retry_after_ms(), None);
}

#[test]
fn retry_parse_rejects_malformed_numbers() {
    assert_eq!(parse_retry_after_ms("rate limited, retry after ms"), None);
    assert_eq!(parse_retry_after_ms("rate limited, retry after 12x3ms"), None);
    assert_eq!(
        parse_retry_after_ms("rate limited, retry after 99999999999999999999999ms"),
        None
    );
    assert_eq!(parse_retry_after_ms("rate limited, retry after 0ms"), Some(0));
}
