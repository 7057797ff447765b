//! Tests of validation, the JSON codec, and the message round trip.

use mcp_server::json::Json;
use mcp_server::codec::{json_to_string, parse_json_text};
use mcp_server::messages::{AnyJsonRpcMessage, JsonRpcRequest, JsonRpcNotification,
    JsonRpcResponse, JsonRpcError, parse_message, serialize_message};
use mcp_server::validation::{validate_request, validate_uri, validate_mime_type,
    validate_cursor, validate_logging_level, validate_role, validate_method_name,
    validate_base64, validate_tool_schema, validate_progress_token};

fn obj(fields: Vec<(&str, Json)>) -> Json {
    Json::Obj(fields.into_iter().map(|(k, v)| (k.to_string(), v)).collect())
}

#[test]
fn test_validate_request() {
    let valid_request = JsonRpcRequest {
        jsonrpc: "2.0".to_string(),
        id: Json::Str("test-id".to_string()),
        method: "initialize".to_string(),
        params: None,
    };
    assert!(validate_request(&valid_request).is_ok());

    let invalid_version = JsonRpcRequest {
        jsonrpc: "1.0".to_string(),
        id: Json::Str("test-id".to_string()),
        method: "initialize".to_string(),
        params: None,
    };
    assert!(validate_request(&invalid_version).is_err());

    let null_id = JsonRpcRequest {
        jsonrpc: "2.0".to_string(),
        id: Json::Null,
        method: "initialize".to_string(),
        params: None,
    };
    assert!(validate_request(&null_id).is_err());
}

#[test]
fn test_validate_uri() {
    assert!(validate_uri("https://example.com/resource").is_ok());
    assert!(validate_uri("file:///path/to/file").is_ok());
    assert!(validate_uri("").is_err());
    assert!(validate_uri("invalid-uri").is_err());
}

#[test]
fn test_validate_mime_type() {
    assert!(validate_mime_type("text/plain").is_ok());
    assert!(validate_mime_type("application/json").is_ok());
    assert!(validate_mime_type("").is_err());
    assert!(validate_mime_type("invalid").is_err());
    assert!(validate_mime_type("text/").is_err());
    assert!(validate_mime_type("/plain").is_err());
}

#[test]
fn test_validate_method_name() {
    assert!(validate_method_name("initialize").is_ok());
    assert!(validate_method_name("tools/call").is_ok());
    assert!(validate_method_name("bogus/echo").is_err());
    assert!(validate_method_name("").is_err());
}

#[test]
fn test_validate_misc() {
    assert!(validate_cursor("50").is_ok());
    assert!(validate_cursor("").is_err());
    assert!(validate_logging_level("debug").is_ok());
    assert!(validate_logging_level("loud").is_err());
    assert!(validate_role("user").is_ok());
    assert!(validate_role("robot").is_err());
    assert!(validate_base64("aGVsbG8=").is_ok());
    assert!(validate_base64("!!!").is_err());
    assert!(validate_progress_token(&Json::Int(3)).is_ok());
    assert!(validate_progress_token(&Json::Str("".into())).is_err());
    let schema = obj(vec![("type", Json::Str("object".into()))]);
    assert!(validate_tool_schema(&schema).is_ok());
    let bad = obj(vec![("type", Json::Str("array".into()))]);
    assert!(validate_tool_schema(&bad).is_err());
}

#[test]
fn test_json_codec_round_trip() {
    let value = obj(vec![
        ("a", Json::Int(-42)),
        ("b", Json::Str("he\"llo\n".to_string())),
        ("c", Json::Arr(vec![Json::Null, Json::Bool(true), Json::Int(0)])),
        ("d", obj(vec![("nested", Json::Str("x".into()))])),
    ]);
    let text = json_to_string(&value);
    let back = parse_json_text(&text).expect("canonical text parses");
    assert!(mcp_server::json::json_eq(&value, &back));
}

#[test]
fn test_json_parser_inputs() {
    assert!(parse_json_text("{\"k\": 1, \"l\": [true, null]}").is_some());
    assert!(parse_json_text("  42 ").is_some());
    assert!(parse_json_text("\"\\u0041\"").is_some());
    assert!(parse_json_text("{").is_none());
    assert!(parse_json_text("01x").is_none());
    assert!(parse_json_text("").is_none());
}

#[test]
fn test_message_round_trip() {
    let request = AnyJsonRpcMessage::Request(JsonRpcRequest {
        jsonrpc: "2.0".to_string(),
        id: Json::Int(1),
        method: "tools/call".to_string(),
        params: Some(obj(vec![("name", Json::Str("echo".into()))])),
    });
    let text = serialize_message(&request).unwrap();
    match parse_message(&text).unwrap() {
        AnyJsonRpcMessage::Request(r) => {
            assert_eq!(r.jsonrpc, "2.0");
            assert!(mcp_server::json::json_eq(&r.id, &Json::Int(1)));
            assert_eq!(r.method, "tools/call");
            assert!(r.params.is_some());
        },
        _ => panic!("expected a request"),
    }

    let notification = AnyJsonRpcMessage::Notification(JsonRpcNotification {
        jsonrpc: "2.0".to_string(),
        method: "notifications/progress".to_string(),
        params: None,
    });
    let text = serialize_message(&notification).unwrap();
    assert!(matches!(parse_message(&text).unwrap(), AnyJsonRpcMessage::Notification(_)));

    let response = AnyJsonRpcMessage::Response(JsonRpcResponse {
        jsonrpc: "2.0".to_string(),
        id: Json::Int(7),
        result: None,
        error: Some(JsonRpcError { code: -32601, message: "nope".to_string(), data: None }),
    });
    let text = serialize_message(&response).unwrap();
    match parse_message(&text).unwrap() {
        AnyJsonRpcMessage::Response(r) => {
            let e = r.error.expect("error present");
            assert_eq!(e.code, -32601);
            assert_eq!(e.message, "nope");
        },
        _ => panic!("expected a response"),
    }
}

#[test]
fn test_parse_of_serialized_json() {
    let tricky = obj(vec![
        ("text", Json::Str("a \"quoted\" \\ line\nwith\tcontrol\u{1} chars".to_string())),
        ("neg", Json::Int(-9007199254740993)),
        ("big", Json::Int(i64::MAX)),
        ("small", Json::Int(i64::MIN)),
        (
            "nested",
            Json::Arr(vec![
                Json::Null,
                Json::Bool(true),
                Json::Bool(false),
                Json::Arr(Vec::new()),
                Json::Obj(Vec::new()),
                obj(vec![("k", Json::Arr(vec![Json::Int(0)]))]),
            ]),
        ),
    ]);
    let text = json_to_string(&tricky);
    let parsed = parse_json_text(&text).expect("serialized text parses");
    assert_eq!(json_to_string(&parsed), text);
}

#[test]
fn test_parse_of_serialized_message() {
    let request = AnyJsonRpcMessage::Request(JsonRpcRequest {
        jsonrpc: "2.0".to_string(),
        id: Json::Int(7),
        method: "tools/call".to_string(),
        params: Some(obj(vec![("name", Json::Str("echo".to_string()))])),
    });
    let text = serialize_message(&request).unwrap();
    match parse_message(&text).unwrap() {
        AnyJsonRpcMessage::Request(r) => {
            assert_eq!(r.jsonrpc, "2.0");
            assert_eq!(r.method, "tools/call");
            assert_eq!(json_to_string(&r.id), "7");
        }
        other => panic!("expected a request back, got {:?}", other),
    }
}
