//! Tests of the utility functions: versions, formatting, truncation,
//! extensions, redaction, and simple validation.

use mcp_server::utils::{parse_version, compare_versions, format_bytes, format_duration,
    truncate_string, extract_file_extension, sanitize_for_logging, validate_non_empty,
    validate_range, validate_email, validate_jsonrpc_id, validate_api_key, extract_bearer_token,
    validate_jwt_token, generate_random_string, generate_request_id};
use mcp_server::json::Json;

#[test]
fn test_parse_version() {
    assert_eq!(parse_version("1.2.3"), Ok((1, 2, 3)));
    assert_eq!(parse_version("0.1.0"), Ok((0, 1, 0)));
    assert!(parse_version("1.2").is_err());
    assert!(parse_version("1.2.3.4").is_err());
    assert!(parse_version("a.b.c").is_err());
}

#[test]
fn test_compare_versions() {
    assert_eq!(compare_versions("1.2.3", "1.2.3"), Ok(std::cmp::Ordering::Equal));
    assert_eq!(compare_versions("1.2.4", "1.2.3"), Ok(std::cmp::Ordering::Greater));
    assert_eq!(compare_versions("1.2.3", "1.2.4"), Ok(std::cmp::Ordering::Less));
    assert_eq!(compare_versions("2.0.0", "1.9.9"), Ok(std::cmp::Ordering::Greater));
}

#[test]
fn test_format_bytes() {
    assert_eq!(format_bytes(0), "0 B");
    assert_eq!(format_bytes(512), "512 B");
    assert_eq!(format_bytes(1024), "1.0 KB");
    assert_eq!(format_bytes(1536), "1.5 KB");
    assert_eq!(format_bytes(1048576), "1.0 MB");
}

#[test]
fn test_format_duration() {
    assert_eq!(format_duration(30), "30s");
    assert_eq!(format_duration(90), "1m 30s");
    assert_eq!(format_duration(3661), "1h 1m 1s");
}

#[test]
fn test_truncate_string() {
    assert_eq!(truncate_string("hello", 10), "hello");
    assert_eq!(truncate_string("hello world", 8), "hello...");
    assert_eq!(truncate_string("hi", 2), "hi");
    assert_eq!(truncate_string("hello", 3), "...");
}

#[test]
fn test_extract_file_extension() {
    assert_eq!(extract_file_extension("file.txt"), Some("txt".to_string()));
    assert_eq!(extract_file_extension("path/to/file.JSON"), Some("json".to_string()));
    assert_eq!(extract_file_extension("file"), None);
    assert_eq!(extract_file_extension("file."), Some("".to_string()));
}

#[test]
fn test_sanitize_for_logging() {
    assert_eq!(sanitize_for_logging("hello world"), "hello world");
    assert_eq!(sanitize_for_logging("my password is secret"), "[REDACTED:password]");
    assert_eq!(sanitize_for_logging("API token: abc123"), "[REDACTED:token]");
}

#[test]
fn test_validate_jsonrpc_id() {
    assert!(validate_jsonrpc_id(&Json::Str("test".to_string())));
    assert!(validate_jsonrpc_id(&Json::Int(123)));
    assert!(!validate_jsonrpc_id(&Json::Null));
    assert!(!validate_jsonrpc_id(&Json::Str("".to_string())));
    assert!(!validate_jsonrpc_id(&Json::Bool(true)));
}

#[test]
fn test_generate_request_id() {
    let id1 = generate_request_id();
    let id2 = generate_request_id();
    assert_ne!(id1, id2);
    assert_eq!(id1.len(), 36);
    assert_eq!(id2.len(), 36);
}

#[test]
fn test_generate_random_string() {
    let s1 = generate_random_string(10);
    let s2 = generate_random_string(10);
    assert_eq!(s1.len(), 10);
    assert_eq!(s2.len(), 10);
    assert_ne!(s1, s2);
    assert!(s1.chars().all(|c| c.is_ascii_alphanumeric()));
}

#[test]
fn test_validate_non_empty() {
    assert!(validate_non_empty("value", "field").is_ok());
    assert!(validate_non_empty("   ", "field").is_err());
    assert!(validate_non_empty("", "field").is_err());
}

#[test]
fn test_validate_range() {
    assert!(validate_range(5, 0, 10, "n").is_ok());
    assert!(validate_range(0, 0, 10, "n").is_ok());
    assert!(validate_range(11, 0, 10, "n").is_err());
    assert!(validate_range(-1, 0, 10, "n").is_err());
}

#[test]
fn test_validate_email() {
    assert!(validate_email("user@example.com").is_ok());
    assert!(validate_email("plain").is_err());
}

#[test]
fn test_auth_helpers() {
    let keys = vec!["alpha".to_string(), "beta".to_string()];
    assert!(validate_api_key("beta", &keys));
    assert!(!validate_api_key("gamma", &keys));
    assert_eq!(extract_bearer_token("Bearer abc"), Some("abc".to_string()));
    assert_eq!(extract_bearer_token("Basic abc"), None);
    assert_eq!(validate_jwt_token("t", "s").ok(), Some(true));
}
