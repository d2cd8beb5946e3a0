use base64::engine::general_purpose::STANDARD;
use base64::Engine;

use xtrace::api::ApiError;
use xtrace::auth::{authorize, is_compat_path, AuthConfig};

fn cfg_with_keys() -> AuthConfig {
    AuthConfig {
        api_bearer_token: "tok".to_string(),
        public_key: Some("pk".to_string()),
        secret_key: Some("sk".to_string()),
    }
}

fn cfg_without_keys() -> AuthConfig {
    AuthConfig {
        api_bearer_token: "tok".to_string(),
        public_key: None,
        secret_key: None,
    }
}

#[test]
fn a_request_without_credentials_is_refused_on_protected_paths() {
    assert!(!authorize(&cfg_with_keys(), None, false));
    assert!(!authorize(&cfg_without_keys(), None, false));
    let e = ApiError::Unauthorized;
    let (status, message) = e.to_response_parts();
    assert_eq!(status, 401);
    assert_eq!(message, "Unauthorized");
}

#[test]
fn the_configured_bearer_token_is_accepted() {
    assert!(authorize(&cfg_with_keys(), Some("Bearer tok"), false));
    assert!(authorize(&cfg_with_keys(), Some("  Bearer  tok  "), false));
    assert!(!authorize(&cfg_with_keys(), Some("Bearer other"), false));
    assert!(!authorize(&cfg_with_keys(), Some("tok"), false));
}

#[test]
fn basic_credentials_match_the_key_pair() {
    let good = format!("Basic {}", STANDARD.encode(b"pk:sk"));
    assert!(authorize(&cfg_with_keys(), Some(good.as_str()), false));
    let wrong = format!("Basic {}", STANDARD.encode(b"pk:bad"));
    assert!(!authorize(&cfg_with_keys(), Some(wrong.as_str()), false));
    let colonless = format!("Basic {}", STANDARD.encode(b"pksk"));
    assert!(!authorize(&cfg_with_keys(), Some(colonless.as_str()), false));
    assert!(!authorize(&cfg_with_keys(), Some("Basic !!!"), false));
}

#[test]
fn compatibility_paths_relax_only_without_a_key_pair() {
    // unconfigured keys: compat paths accept anything but a bearer mismatch
    assert!(authorize(&cfg_without_keys(), None, true));
    let basic = format!("Basic {}", STANDARD.encode(b"a:b"));
    assert!(authorize(&cfg_without_keys(), Some(basic.as_str()), true));
    assert!(!authorize(&cfg_without_keys(), Some("Bearer wrong"), true));
    // configured keys: compat paths still require a valid credential
    assert!(!authorize(&cfg_with_keys(), None, true));
    assert!(authorize(&cfg_with_keys(), Some("Bearer tok"), true));
}

#[test]
fn compat_paths_are_exactly_the_two() {
    assert!(is_compat_path("/api/public/projects"));
    assert!(is_compat_path("/api/public/otel/v1/traces"));
    assert!(!is_compat_path("/api/public/traces"));
    assert!(!is_compat_path("/v1/l/batch"));
}
