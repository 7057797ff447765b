//! Tests of the dispatcher and the HTTP decision layer, following the
//! protocol's concrete exchanges.

use mcp_server::json::Json;
use mcp_server::handler::ProtocolHandler;
use mcp_server::tools::{ToolManager, HandlerKind};
use mcp_server::prompts::PromptManager;
use mcp_server::resources::ResourceManager;
use mcp_server::session::SessionManager;
use mcp_server::http::{handle_streamable_http_post, handle_streamable_http_get,
    handle_delete_request, is_origin_allowed, sse_frame};
use mcp_server::messages::{parse_message, AnyJsonRpcMessage};

fn server() -> ProtocolHandler {
    let mut tools = ToolManager::new();
    tools.register_handler_with_tool(HandlerKind::Echo).unwrap();
    tools.register_handler_with_tool(HandlerKind::Calculator).unwrap();
    ProtocolHandler::new(ResourceManager::new(), tools, PromptManager::new())
}

fn accept() -> Option<&'static str> {
    Some("application/json, text/event-stream")
}

fn post(handler: &mut ProtocolHandler, sessions: &mut SessionManager, body: &str)
    -> mcp_server::http::HttpOutcome {
    let cors = vec!["*".to_string()];
    handle_streamable_http_post(handler, sessions, &cors, None, accept(), None, body, 0)
}

fn response_of(body: &str) -> mcp_server::messages::JsonRpcResponse {
    match parse_message(body).unwrap() {
        AnyJsonRpcMessage::Response(r) => r,
        other => panic!("expected a response, got {:?}", other),
    }
}

fn text_of(content: &Json) -> String {
    match content {
        Json::Arr(items) => match items[0].get("text") {
            Some(Json::Str(s)) => s.clone(),
            _ => panic!("no text"),
        },
        _ => panic!("content not an array"),
    }
}

const HANDSHAKE: &str = "{\"jsonrpc\":\"2.0\",\"id\":1,\"method\":\"initialize\",\"params\":{\"protocolVersion\":\"2025-03-26\",\"capabilities\":{},\"clientInfo\":{\"name\":\"c\",\"version\":\"1\"}}}";

#[test]
fn test_handshake() {
    let mut handler = server();
    let mut sessions = SessionManager::new(3600);
    let outcome = post(&mut handler, &mut sessions, HANDSHAKE);
    assert_eq!(outcome.status, 200);
    let response = response_of(&outcome.body);
    assert!(mcp_server::json::json_eq(&response.id, &Json::Int(1)));
    let result = response.result.expect("success");
    assert!(matches!(result.get("protocolVersion"), Some(Json::Str(s)) if s == "2025-03-26"));
    let server_info = result.get("serverInfo").expect("serverInfo");
    assert!(matches!(server_info.get("name"), Some(Json::Str(s)) if !s.is_empty()));
    let caps = result.get("capabilities").expect("capabilities");
    assert!(caps.get("tools").is_some());
    assert!(caps.get("resources").is_some());
    assert!(caps.get("prompts").is_some());
}

#[test]
fn test_uninitialized_call() {
    let mut handler = server();
    let mut sessions = SessionManager::new(3600);
    let body = "{\"jsonrpc\":\"2.0\",\"id\":2,\"method\":\"tools/list\"}";
    let outcome = post(&mut handler, &mut sessions, body);
    assert_eq!(outcome.status, 200);
    let response = response_of(&outcome.body);
    let error = response.error.expect("error");
    assert_eq!(error.code, -32603);
    assert!(error.message.contains("Server not initialized"));
}

#[test]
fn test_calculator_success() {
    let mut handler = server();
    let mut sessions = SessionManager::new(3600);
    assert_eq!(post(&mut handler, &mut sessions, HANDSHAKE).status, 200);
    let body = "{\"jsonrpc\":\"2.0\",\"id\":3,\"method\":\"tools/call\",\"params\":{\"name\":\"calculator\",\"arguments\":{\"operation\":\"add\",\"a\":5,\"b\":3}}}";
    let outcome = post(&mut handler, &mut sessions, body);
    assert_eq!(outcome.status, 200);
    let response = response_of(&outcome.body);
    let result = response.result.expect("success");
    assert!(matches!(result.get("isError"), Some(Json::Bool(false))));
    let text = text_of(result.get("content").unwrap());
    assert!(text.contains("= 8"));
}

#[test]
fn test_calculator_divide_by_zero() {
    let mut handler = server();
    let mut sessions = SessionManager::new(3600);
    assert_eq!(post(&mut handler, &mut sessions, HANDSHAKE).status, 200);
    let body = "{\"jsonrpc\":\"2.0\",\"id\":4,\"method\":\"tools/call\",\"params\":{\"name\":\"calculator\",\"arguments\":{\"operation\":\"divide\",\"a\":5,\"b\":0}}}";
    let outcome = post(&mut handler, &mut sessions, body);
    assert_eq!(outcome.status, 200);
    let response = response_of(&outcome.body);
    let result = response.result.expect("success");
    assert!(matches!(result.get("isError"), Some(Json::Bool(true))));
    assert_eq!(text_of(result.get("content").unwrap()), "Division by zero");
}

#[test]
fn test_unknown_tool() {
    let mut handler = server();
    let mut sessions = SessionManager::new(3600);
    assert_eq!(post(&mut handler, &mut sessions, HANDSHAKE).status, 200);
    let body = "{\"jsonrpc\":\"2.0\",\"id\":5,\"method\":\"tools/call\",\"params\":{\"name\":\"nope\"}}";
    let outcome = post(&mut handler, &mut sessions, body);
    assert_eq!(outcome.status, 200);
    let response = response_of(&outcome.body);
    let error = response.error.expect("error");
    assert_eq!(error.code, -32603);
    assert!(error.message.contains("Tool not found: nope"));
}

#[test]
fn test_batch_with_only_notifications() {
    let mut handler = server();
    let mut sessions = SessionManager::new(3600);
    let body = "[{\"jsonrpc\":\"2.0\",\"method\":\"notifications/progress\",\"params\":{}}]";
    let outcome = post(&mut handler, &mut sessions, body);
    assert_eq!(outcome.status, 202);
    assert!(outcome.body.is_empty());
}

#[test]
fn test_empty_batch_is_invalid_request() {
    let mut handler = server();
    let mut sessions = SessionManager::new(3600);
    let message = parse_message("[]").unwrap();
    let err = handler.handle_message(message).unwrap_err();
    assert!(matches!(err, mcp_server::error::McpError::InvalidRequest(_)));
}

#[test]
fn test_null_id_is_invalid_request() {
    let mut handler = server();
    let message = parse_message(
        "{\"jsonrpc\":\"2.0\",\"id\":null,\"method\":\"ping\"}",
    ).unwrap();
    let err = handler.handle_message(message).unwrap_err();
    assert!(matches!(err, mcp_server::error::McpError::InvalidRequest(_)));
}

#[test]
fn test_post_without_required_accept() {
    let mut handler = server();
    let mut sessions = SessionManager::new(3600);
    let cors = vec!["*".to_string()];
    let outcome = handle_streamable_http_post(
        &mut handler,
        &mut sessions,
        &cors,
        None,
        Some("application/json"),
        None,
        HANDSHAKE,
        0,
    );
    assert_eq!(outcome.status, 400);
}

#[test]
fn test_get_without_event_stream_accept() {
    let mut sessions = SessionManager::new(3600);
    let cors = vec!["*".to_string()];
    let outcome = handle_streamable_http_get(
        &mut sessions,
        &cors,
        None,
        Some("application/json"),
        None,
        None,
        0,
    );
    assert_eq!(outcome.status, 405);
    let outcome = handle_streamable_http_get(
        &mut sessions,
        &cors,
        None,
        Some("text/event-stream"),
        None,
        None,
        0,
    );
    assert_eq!(outcome.status, 200);
    assert!(outcome.event_stream);
    assert!(outcome.body.starts_with("data: "));
}

#[test]
fn test_unknown_session_minted() {
    let mut handler = server();
    let mut sessions = SessionManager::new(3600);
    let cors = vec!["*".to_string()];
    let outcome = handle_streamable_http_post(
        &mut handler,
        &mut sessions,
        &cors,
        None,
        accept(),
        Some("stale-session"),
        HANDSHAKE,
        0,
    );
    assert_eq!(outcome.status, 200);
    let sid = outcome.session_id.expect("session id");
    assert_ne!(sid, "stale-session");
    assert!(sessions.get_session(&sid).is_some());
    assert!(sessions.get_session("stale-session").is_none());
}

#[test]
fn test_known_session_kept() {
    let mut handler = server();
    let mut sessions = SessionManager::new(3600);
    sessions.add_session(mcp_server::session::Session::new("known".to_string(), 0));
    let cors = vec!["*".to_string()];
    let outcome = handle_streamable_http_post(
        &mut handler,
        &mut sessions,
        &cors,
        None,
        accept(),
        Some("known"),
        HANDSHAKE,
        0,
    );
    assert_eq!(outcome.status, 200);
    assert_eq!(outcome.session_id.as_deref(), Some("known"));
}

#[test]
fn test_origin_rules() {
    assert!(is_origin_allowed("https://a.example.com", &vec!["*".to_string()]));
    assert!(is_origin_allowed("https://a.example.com", &vec![
        "https://a.example.com".to_string(),
    ]));
    assert!(is_origin_allowed("https://a.example.com", &vec!["*.example.com".to_string()]));
    assert!(!is_origin_allowed("https://evil.org", &vec!["*.example.com".to_string()]));
    let mut handler = server();
    let mut sessions = SessionManager::new(3600);
    let cors = vec!["https://good.example".to_string()];
    let outcome = handle_streamable_http_post(
        &mut handler,
        &mut sessions,
        &cors,
        Some("https://evil.org"),
        accept(),
        None,
        HANDSHAKE,
        0,
    );
    assert_eq!(outcome.status, 403);
}

#[test]
fn test_parse_error_is_400() {
    let mut handler = server();
    let mut sessions = SessionManager::new(3600);
    let outcome = post(&mut handler, &mut sessions, "{not json");
    assert_eq!(outcome.status, 400);
    assert!(outcome.body.contains("-32700"));
    assert!(outcome.body.contains("Parse error"));
}

#[test]
fn test_delete_session() {
    let mut sessions = SessionManager::new(3600);
    sessions.add_session(mcp_server::session::Session::new("gone".to_string(), 0));
    let outcome = handle_delete_request(&mut sessions, Some("gone"));
    assert_eq!(outcome.status, 200);
    assert!(sessions.get_session("gone").is_none());
    let outcome = handle_delete_request(&mut sessions, None);
    assert_eq!(outcome.status, 400);
    let outcome = handle_delete_request(&mut sessions, Some("never-existed"));
    assert_eq!(outcome.status, 400);
}

#[test]
fn test_ping_and_unknown_method() {
    let mut handler = server();
    let init = parse_message(HANDSHAKE).unwrap();
    handler.handle_message(init).unwrap();
    let ping = parse_message("{\"jsonrpc\":\"2.0\",\"id\":9,\"method\":\"ping\"}").unwrap();
    match handler.handle_message(ping).unwrap() {
        Some(AnyJsonRpcMessage::Response(r)) => {
            assert!(r.result.is_some());
            assert!(r.error.is_none());
        },
        other => panic!("expected response, got {:?}", other),
    }
    let unknown = parse_message(
        "{\"jsonrpc\":\"2.0\",\"id\":10,\"method\":\"tools/unknown\"}",
    ).unwrap();
    match handler.handle_message(unknown).unwrap() {
        Some(AnyJsonRpcMessage::Response(r)) => {
            let e = r.error.expect("error");
            assert_eq!(e.code, -32601);
        },
        other => panic!("expected response, got {:?}", other),
    }
}

#[test]
fn test_notification_gets_no_response() {
    let mut handler = server();
    let note = parse_message(
        "{\"jsonrpc\":\"2.0\",\"method\":\"notifications/initialized\"}",
    ).unwrap();
    assert!(handler.handle_message(note).unwrap().is_none());
    assert!(handler.is_initialized());
}

#[test]
fn test_initialization_is_monotonic() {
    let mut handler = server();
    let note = parse_message(
        "{\"jsonrpc\":\"2.0\",\"method\":\"notifications/initialized\"}",
    ).unwrap();
    handler.handle_message(note).unwrap();
    assert!(handler.is_initialized());
    let other = parse_message(
        "{\"jsonrpc\":\"2.0\",\"method\":\"notifications/progress\"}",
    ).unwrap();
    handler.handle_message(other).unwrap();
    assert!(handler.is_initialized());
    let ping = parse_message("{\"jsonrpc\":\"2.0\",\"id\":1,\"method\":\"ping\"}").unwrap();
    handler.handle_message(ping).unwrap();
    assert!(handler.is_initialized());
}

#[test]
fn test_sse_frame() {
    assert_eq!(sse_frame("{}"), "data: {}\n\n");
}

#[test]
fn test_batch_with_malformed_element_is_400() {
    let mut handler = server();
    let mut sessions = SessionManager::new(3600);
    let body = "[{\"jsonrpc\":\"2.0\",\"method\":\"notifications/progress\",\"params\":{}},{\"unrelated\":true}]";
    let outcome = post(&mut handler, &mut sessions, body);
    assert_eq!(outcome.status, 400);
    assert!(outcome.body.contains("-32700"));
}
