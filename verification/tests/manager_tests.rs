//! Tests of the feature managers: tools, prompts, resources, sessions,
//! logging, sampling, completion, roots, and the handler registry.

use mcp_server::json::Json;
use mcp_server::tools::{ToolManager, Tool, ToolInputSchema, HandlerKind, EchoToolHandler,
    CalculatorToolHandler, ToolHandlerRegistry, ToolHandlerDiscovery, ToolsConfig,
    ToolHandlerConfig, get_tool_handlers_with_config};
use mcp_server::prompts::{PromptManager, Prompt, PromptArgument, GeneratorKind,
    GreetingPromptGenerator, CodeReviewPromptGenerator};
use mcp_server::resources::{ResourceManager, ResourceProvider};
use mcp_server::types::{Resource, PaginationParams};
use mcp_server::session::{Session, SessionManager, SessionState};
use mcp_server::logging::{LoggingManager, LogMessageBuilder};
use mcp_server::types::LoggingLevel;
use mcp_server::sampling::{SamplingManager, MockSamplingProvider, CreateMessageRequest,
    SamplingMessage};
use mcp_server::types::{Role, Content};
use mcp_server::completion::{CompletionManager, StaticCompletionProvider, CompletionContext,
    CompletionReference, ArgumentInfo};
use mcp_server::roots::RootsManager;
use mcp_server::config::{AuthMethod, Config, HttpConfig};

fn obj(fields: Vec<(&str, Json)>) -> Json {
    Json::Obj(fields.into_iter().map(|(k, v)| (k.to_string(), v)).collect())
}

fn simple_tool(name: &str) -> Tool {
    Tool {
        name: name.to_string(),
        description: Some("A test tool".to_string()),
        input_schema: ToolInputSchema {
            schema_type: "object".to_string(),
            properties: None,
            required: None,
        },
        annotations: None,
    }
}

#[test]
fn test_tool_manager() {
    let mut manager = ToolManager::new();
    assert!(manager.register_tool(simple_tool("test-tool")).is_ok());
    let retrieved = manager.get_tool("test-tool");
    assert!(retrieved.is_some());
    assert_eq!(retrieved.unwrap().name, "test-tool");
    let (tools, _) = manager.list_tools(None).unwrap();
    assert_eq!(tools.len(), 1);
    let removed = manager.unregister_tool("test-tool").unwrap();
    assert!(removed.is_some());
    assert!(manager.get_tool("test-tool").is_none());
}

#[test]
fn test_echo_tool() {
    let handler = EchoToolHandler;
    let args = obj(vec![("message", Json::Str("Hello, MCP!".to_string()))]);
    let result = handler.execute(Some(&args)).unwrap();
    assert!(!result.is_error);
    assert_eq!(result.content.len(), 1);
    let result = handler.execute(None).unwrap();
    assert!(!result.is_error);
    assert_eq!(result.content.len(), 1);
}

#[test]
fn test_calculator_tool() {
    let handler = CalculatorToolHandler;
    let args = obj(vec![
        ("operation", Json::Str("add".into())),
        ("a", Json::Int(5)),
        ("b", Json::Int(3)),
    ]);
    let result = handler.execute(Some(&args)).unwrap();
    assert!(!result.is_error);
    match &result.content[0] {
        Content::Text { text, .. } => assert_eq!(text, "5 add 3 = 8"),
        _ => panic!("expected text"),
    }

    let args = obj(vec![
        ("operation", Json::Str("divide".into())),
        ("a", Json::Int(5)),
        ("b", Json::Int(0)),
    ]);
    let result = handler.execute(Some(&args)).unwrap();
    assert!(result.is_error);
    match &result.content[0] {
        Content::Text { text, .. } => assert_eq!(text, "Division by zero"),
        _ => panic!("expected text"),
    }

    let args = obj(vec![
        ("operation", Json::Str("invalid".into())),
        ("a", Json::Int(5)),
        ("b", Json::Int(3)),
    ]);
    let result = handler.execute(Some(&args)).unwrap();
    assert!(result.is_error);
}

#[test]
fn test_dynamic_tool_registration() {
    let mut manager = ToolManager::new();
    assert!(manager.register_handler_with_tool(HandlerKind::Calculator).is_ok());
    let tool = manager.get_tool("calculator");
    assert!(tool.is_some());
    let tool = tool.unwrap();
    assert_eq!(tool.name, "calculator");
    assert_eq!(tool.description.as_deref(), Some("Perform mathematical calculations"));
    let (tools, _) = manager.list_tools(None).unwrap();
    assert_eq!(tools.len(), 1);
    assert_eq!(tools[0].name, "calculator");
    let args = obj(vec![
        ("operation", Json::Str("add".into())),
        ("a", Json::Int(2)),
        ("b", Json::Int(3)),
    ]);
    let result = manager.call_tool("calculator", Some(&args)).unwrap();
    assert!(!result.is_error);
}

#[test]
fn test_register_unregister_leaves_registry_unchanged() {
    let mut manager = ToolManager::new();
    manager.register_handler_with_tool(HandlerKind::Echo).unwrap();
    assert!(manager.register_tool(simple_tool("scratch")).is_ok());
    assert!(manager.unregister_tool("scratch").unwrap().is_some());
    assert_eq!(manager.get_tool_count(), 1);
    assert!(manager.get_tool("echo").is_some());
    assert!(manager.get_tool("scratch").is_none());
}

#[test]
fn test_tool_handler_registry_basic() {
    let mut registry = ToolHandlerRegistry::new();
    assert!(registry.register_builtin_handlers().is_ok());
    assert!(ToolHandlerDiscovery::is_handler_available(&registry, "echo").unwrap());
    assert!(ToolHandlerDiscovery::is_handler_available(&registry, "calculator").unwrap());
    assert!(!ToolHandlerDiscovery::is_handler_available(&registry, "missing").unwrap());
    let names = ToolHandlerDiscovery::get_available_handler_names(&registry).unwrap();
    assert_eq!(names.len(), 2);
    assert!(registry.register_builtin_handlers().is_err());
    assert!(registry.clear().is_ok());
    assert_eq!(ToolHandlerDiscovery::get_available_handler_names(&registry).unwrap().len(), 0);
}

#[test]
fn test_tool_handler_discovery() {
    let mut registry = ToolHandlerRegistry::new();
    let config = ToolsConfig {
        handlers: vec![
            ToolHandlerConfig {
                name: "echo".to_string(),
                enabled: true,
                priority: 0,
                config: Json::Obj(vec![]),
            },
            ToolHandlerConfig {
                name: "calculator".to_string(),
                enabled: false,
                priority: 0,
                config: Json::Obj(vec![]),
            },
        ],
        auto_discover_builtin: true,
        enable_all_by_default: false,
    };
    let kinds = ToolHandlerDiscovery::discover_handlers(&mut registry, Some(&config)).unwrap();
    assert_eq!(kinds.len(), 1);
    assert_eq!(kinds[0], HandlerKind::Echo);
}

#[test]
fn test_get_tool_handlers_with_config() {
    let mut registry = ToolHandlerRegistry::new();
    let handlers = get_tool_handlers_with_config(&mut registry, None);
    assert_eq!(handlers.len(), 2);
    let mut registry = ToolHandlerRegistry::new();
    let config = ToolsConfig {
        handlers: Vec::new(),
        auto_discover_builtin: false,
        enable_all_by_default: false,
    };
    let handlers = get_tool_handlers_with_config(&mut registry, Some(&config));
    assert!(handlers.is_empty());
}

#[test]
fn test_prompt_manager() {
    let mut manager = PromptManager::new();
    let prompt = Prompt {
        name: "test-prompt".to_string(),
        description: Some("A test prompt".to_string()),
        arguments: Some(vec![PromptArgument {
            name: "name".to_string(),
            description: Some("The name to greet".to_string()),
            required: Some(false),
        }]),
    };
    assert!(manager.register_prompt(prompt).is_ok());
    let retrieved = manager.get_prompt("test-prompt");
    assert!(retrieved.is_some());
    assert_eq!(retrieved.unwrap().name, "test-prompt");
    let (prompts, _) = manager.list_prompts(None).unwrap();
    assert_eq!(prompts.len(), 1);
    let removed = manager.unregister_prompt("test-prompt").unwrap();
    assert!(removed.is_some());
    assert!(manager.get_prompt("test-prompt").is_none());
}

#[test]
fn test_greeting_generator() {
    let generator = GreetingPromptGenerator;
    let args = vec![
        ("name".to_string(), "Alice".to_string()),
        ("time_of_day".to_string(), "morning".to_string()),
    ];
    let result = generator.generate(Some(&args)).unwrap();
    assert_eq!(result.messages.len(), 1);
    assert!(result.description.is_some());
    match &result.messages[0].content {
        Content::Text { text, .. } => {
            assert_eq!(text, "Good morning, Alice! How can I help you today?")
        },
        _ => panic!("expected text"),
    }
    let result = generator.generate(None).unwrap();
    assert_eq!(result.messages.len(), 1);
}

#[test]
fn test_code_review_generator() {
    let generator = CodeReviewPromptGenerator;
    let args = vec![
        ("code".to_string(), "function hello() { console.log('Hello'); }".to_string()),
        ("language".to_string(), "javascript".to_string()),
        ("focus".to_string(), "style".to_string()),
    ];
    let result = generator.generate(Some(&args)).unwrap();
    assert_eq!(result.messages.len(), 2);
    assert!(result.description.is_some());
    let invalid_args = vec![("language".to_string(), "javascript".to_string())];
    assert!(generator.validate_arguments(Some(&invalid_args)).is_err());
}

#[test]
fn test_resource_manager() {
    let mut manager = ResourceManager::new();
    let resource = Resource {
        uri: "test://example".to_string(),
        name: "Test Resource".to_string(),
        description: Some("A test resource".to_string()),
        mime_type: Some("text/plain".to_string()),
        annotations: None,
        size: Some(100),
    };
    assert!(manager.register_resource(resource).is_ok());
    let retrieved = manager.get_resource("test://example");
    assert!(retrieved.is_some());
    assert_eq!(retrieved.unwrap().name, "Test Resource");
    let (resources, _) = manager.list_resources(None).unwrap();
    assert_eq!(resources.len(), 1);
    let removed = manager.unregister_resource("test://example").unwrap();
    assert!(removed.is_some());
    assert!(manager.get_resource("test://example").is_none());
}

#[test]
fn test_subscribe_unsubscribe_round_trip() {
    let mut manager = ResourceManager::new();
    let provider = ResourceProvider {
        name: "memory".to_string(),
        prefixes: vec!["mem://".to_string()],
        resources: Vec::new(),
        contents: Vec::new(),
    };
    manager.register_provider(provider).unwrap();
    let fired = manager.subscribe("mem://thing", "client-a").unwrap();
    assert!(fired);
    let fired_again = manager.subscribe("mem://thing", "client-b").unwrap();
    assert!(!fired_again);
    assert_eq!(manager.get_subscription_count(), 1);
    let released = manager.unsubscribe("mem://thing", "client-a").unwrap();
    assert!(!released);
    let released = manager.unsubscribe("mem://thing", "client-b").unwrap();
    assert!(released);
    assert_eq!(manager.get_subscription_count(), 0);
    assert!(manager.subscribe("nowhere://x", "client-a").is_err());
}

#[test]
fn test_read_resource_via_provider() {
    let mut manager = ResourceManager::new();
    let provider = ResourceProvider {
        name: "memory".to_string(),
        prefixes: vec!["mem://".to_string()],
        resources: Vec::new(),
        contents: vec![(
            "mem://hello".to_string(),
            vec![mcp_server::types::ResourceContents::Text {
                uri: "mem://hello".to_string(),
                mime_type: Some("text/plain".to_string()),
                text: "Hello, world!".to_string(),
            }],
        )],
    };
    manager.register_provider(provider).unwrap();
    let contents = manager.read_resource("mem://hello").unwrap();
    assert_eq!(contents.len(), 1);
    assert!(manager.read_resource("mem://missing").is_err());
    assert!(manager.read_resource("other://x").is_err());
}

#[test]
fn test_session_creation() {
    let session = Session::new("test-session".to_string(), 0);
    assert_eq!(session.id, "test-session");
    assert_eq!(session.state, SessionState::Created);
}

#[test]
fn test_session_manager() {
    let mut manager = SessionManager::new(1);
    manager.add_session(Session::new("test-session".to_string(), 0));
    let retrieved = manager.get_session("test-session");
    assert!(retrieved.is_some());
    assert_eq!(retrieved.unwrap().id, "test-session");
    let removed = manager.remove_session("test-session");
    assert!(removed.is_some());
    assert!(manager.get_session("test-session").is_none());
}

#[test]
fn test_session_expiration() {
    let mut manager = SessionManager::new(1);
    manager.add_session(Session::new("test-session".to_string(), 0));
    let cleaned = manager.cleanup_expired_sessions(5);
    assert_eq!(cleaned, 1);
    assert!(manager.get_session("test-session").is_none());
}

#[test]
fn test_session_stats_and_touch() {
    let mut manager = SessionManager::new(60);
    manager.add_session(Session::new("a".to_string(), 0));
    let mut b = Session::new("b".to_string(), 0);
    b.set_state(SessionState::Active);
    manager.add_session(b);
    assert!(manager.touch_session("a", 30));
    assert!(!manager.touch_session("zzz", 30));
    let stats = manager.get_stats();
    assert_eq!(stats.total, 2);
    assert_eq!(stats.active, 1);
    assert_eq!(stats.expired, 0);
    assert_eq!(stats.created, 1);
}

#[test]
fn test_logging_manager() {
    let mut manager = LoggingManager::new();
    assert_eq!(manager.get_level(), LoggingLevel::Info);
    assert!(manager.set_level(LoggingLevel::Debug).is_ok());
    assert_eq!(manager.get_level(), LoggingLevel::Debug);
}

#[test]
fn test_log_message_priority() {
    let mut manager = LoggingManager::new();
    manager.set_level(LoggingLevel::Warning).unwrap();
    assert!(manager.should_log(LoggingLevel::Error));
    assert!(manager.should_log(LoggingLevel::Warning));
    assert!(!manager.should_log(LoggingLevel::Info));
    assert!(!manager.should_log(LoggingLevel::Debug));
}

#[test]
fn test_log_sink() {
    let mut manager = LoggingManager::new();
    manager.set_level(LoggingLevel::Warning).unwrap();
    manager.log(LoggingLevel::Error, None, Json::Str("bad".into()), 1).unwrap();
    manager.log(LoggingLevel::Debug, None, Json::Str("chatty".into()), 2).unwrap();
    assert_eq!(manager.sink.len(), 1);
    assert_eq!(manager.sink[0].timestamp, 1);
}

#[test]
fn test_log_message_builder() {
    let message = LogMessageBuilder::new(LoggingLevel::Info)
        .logger("test-logger".to_string())
        .message("Test message".to_string())
        .build(0);
    assert_eq!(message.level, LoggingLevel::Info);
    assert_eq!(message.logger, Some("test-logger".to_string()));
    assert!(matches!(&message.data, Json::Str(s) if s == "Test message"));
}

#[test]
fn test_sampling_manager() {
    let mut manager = SamplingManager::new();
    assert!(manager.register_provider(MockSamplingProvider::new("mock".to_string())).is_ok());
    let request = CreateMessageRequest {
        messages: vec![SamplingMessage {
            role: Role::User,
            content: Content::Text { text: "Hello, world!".to_string(), annotations: None },
        }],
        model_preferences: None,
        system_prompt: None,
        include_context: None,
        max_tokens: 100,
        stop_sequences: None,
    };
    let result = manager.create_message(&request).unwrap();
    assert!(matches!(result.message.role, Role::Assistant));
    assert_eq!(result.model, "mock-gpt-4");
}

#[test]
fn test_mock_sampling_provider() {
    let provider = MockSamplingProvider::new("test".to_string());
    let models = provider.get_available_models().unwrap();
    assert_eq!(models.len(), 2);
    assert!(models.iter().any(|m| m.name == "mock-gpt-4"));
    assert!(models.iter().any(|m| m.name == "mock-advanced-1"));
}

#[test]
fn test_completion_manager() {
    let mut manager = CompletionManager::new();
    assert!(manager.register_provider(StaticCompletionProvider::programming_languages()).is_ok());
    let context = CompletionContext {
        reference: CompletionReference::Prompt { name: "code_language".to_string() },
        argument: ArgumentInfo { name: "language".to_string(), value: "ru".to_string() },
    };
    let result = manager.complete(&context).unwrap();
    assert!(!result.values.is_empty());
    assert!(result.values.contains(&"rust".to_string()));
    assert!(result.values.contains(&"ruby".to_string()));
}

#[test]
fn test_static_completion_provider() {
    let provider = StaticCompletionProvider::programming_languages();
    let context = CompletionContext {
        reference: CompletionReference::Prompt { name: "test_language".to_string() },
        argument: ArgumentInfo { name: "language".to_string(), value: "py".to_string() },
    };
    assert!(provider.can_handle(&context.reference));
    let result = provider.complete(&context).unwrap();
    assert_eq!(result.values, vec!["python".to_string()]);
}

#[test]
fn test_roots_manager_bookkeeping() {
    let mut manager = RootsManager::new();
    assert!(manager.add_root("file:///tmp/demo".to_string(), Some("Demo".to_string())).is_ok());
    let root = manager.get_root("file:///tmp/demo").unwrap();
    assert_eq!(root.name, Some("Demo".to_string()));
    assert_eq!(root.path, "/tmp/demo");
    assert_eq!(manager.list_roots().unwrap().len(), 1);
    assert!(manager.add_root("http://x".to_string(), None).is_err());
    let removed = manager.remove_root("file:///tmp/demo").unwrap();
    assert!(removed.is_some());
    assert!(manager.get_root("file:///tmp/demo").is_none());
}

#[test]
fn test_pagination_walk() {
    let mut manager = ToolManager::new();
    for i in 0..120 {
        manager.register_tool(simple_tool(&format!("tool-{:03}", i))).unwrap();
    }
    let mut collected: Vec<String> = Vec::new();
    let mut cursor: Option<String> = None;
    loop {
        let params = PaginationParams { cursor: cursor.clone() };
        let (page, pr) = manager.list_tools(Some(&params)).unwrap();
        for t in &page {
            collected.push(t.name.clone());
        }
        match pr.next_cursor {
            Some(c) => cursor = Some(c),
            None => break,
        }
    }
    assert_eq!(collected.len(), 120);
    let mut sorted = collected.clone();
    sorted.sort();
    sorted.dedup();
    assert_eq!(collected, sorted);
}

#[test]
fn test_config_defaults_and_validation() {
    let config = Config::default();
    assert_eq!(config.server.name, "mcp-server-rust");
    assert!(config.validate().is_ok());
    let http = HttpConfig::default();
    assert_eq!(http.port, 8080);
    assert_eq!(http.endpoint_path, "/mcp");
    assert_eq!(http.cors_origins, vec!["*".to_string()]);

    let mut broken = Config::default();
    broken.transport.http = None;
    assert!(broken.validate().is_err());

    let mut keyless = Config::default();
    keyless.auth.enabled = true;
    keyless.auth.method = AuthMethod::ApiKey;
    assert!(keyless.validate().is_err());
    keyless.auth.api_keys.push("k".to_string());
    assert!(keyless.validate().is_ok());
}

#[test]
fn test_prompt_errors() {
    let mut manager = PromptManager::new();
    let err = manager.get_prompt_with_args("missing", None).unwrap_err();
    assert!(matches!(err, mcp_server::error::McpError::Prompt(_)));
    manager
        .register_prompt(Prompt {
            name: "greeting".to_string(),
            description: Some("say hello".to_string()),
            arguments: None,
        })
        .unwrap();
    manager.register_generator(GeneratorKind::Greeting).unwrap();
    let bad_args = vec![("time_of_day".to_string(), "noonish".to_string())];
    let err = manager.get_prompt_with_args("greeting", Some(&bad_args)).unwrap_err();
    assert!(matches!(err, mcp_server::error::McpError::InvalidParams(_)));
    let result = manager.get_prompt_with_args("greeting", None).unwrap();
    assert_eq!(result.messages.len(), 1);
}

#[test]
fn test_contents_of_bytes_text_and_blob() {
    let text = mcp_server::resources::contents_of_bytes("file:///notes/readme.txt", b"hello".to_vec());
    match text {
        mcp_server::types::ResourceContents::Text { uri, mime_type, text } => {
            assert_eq!(uri, "file:///notes/readme.txt");
            assert_eq!(mime_type.as_deref(), Some("text/plain"));
            assert_eq!(text, "hello");
        }
        other => panic!("expected text contents, got {:?}", other),
    }
    let blob = mcp_server::resources::contents_of_bytes("file:///notes/raw.bin", vec![0xff, 0xfe, 0x01]);
    match blob {
        mcp_server::types::ResourceContents::Blob { uri, mime_type, blob } => {
            assert_eq!(uri, "file:///notes/raw.bin");
            assert_eq!(mime_type.as_deref(), Some("application/octet-stream"));
            assert_eq!(blob, "//4B");
        }
        other => panic!("expected blob contents, got {:?}", other),
    }
    let bare = mcp_server::resources::contents_of_bytes("file:///notes/noext", b"x".to_vec());
    match bare {
        mcp_server::types::ResourceContents::Text { mime_type, .. } => {
            assert_eq!(mime_type.as_deref(), Some("application/octet-stream"));
        }
        other => panic!("expected text contents, got {:?}", other),
    }
}

#[test]
fn test_http_contents_of_bytes() {
    let text = mcp_server::resources::http_contents_of_bytes(
        "https://example.com/doc",
        Some("application/json".to_string()),
        b"{}".to_vec(),
    );
    match text {
        mcp_server::types::ResourceContents::Text { mime_type, text, .. } => {
            assert_eq!(mime_type.as_deref(), Some("application/json"));
            assert_eq!(text, "{}");
        }
        other => panic!("expected text contents, got {:?}", other),
    }
    let blob = mcp_server::resources::http_contents_of_bytes(
        "https://example.com/img",
        Some("image/png".to_string()),
        vec![1, 2, 3],
    );
    match blob {
        mcp_server::types::ResourceContents::Blob { mime_type, blob, .. } => {
            assert_eq!(mime_type.as_deref(), Some("image/png"));
            assert_eq!(blob, "AQID");
        }
        other => panic!("expected blob contents, got {:?}", other),
    }
    let unknown = mcp_server::resources::http_contents_of_bytes("https://example.com/x", None, b"plain".to_vec());
    match unknown {
        mcp_server::types::ResourceContents::Blob { mime_type, .. } => assert!(mime_type.is_none()),
        other => panic!("expected blob contents, got {:?}", other),
    }
}

#[test]
fn test_resources_of_listing() {
    let listed = mcp_server::resources::resources_of_listing(
        "file:///root",
        vec![("a.txt".to_string(), 3), ("data".to_string(), 5)],
    );
    assert_eq!(listed.len(), 2);
    assert_eq!(listed[0].uri, "file:///root/a.txt");
    assert_eq!(listed[0].name, "a.txt");
    assert_eq!(listed[0].description.as_deref(), Some("File: a.txt"));
    assert_eq!(listed[0].mime_type.as_deref(), Some("text/plain"));
    assert_eq!(listed[0].size, Some(3));
    assert_eq!(listed[1].uri, "file:///root/data");
    assert_eq!(listed[1].mime_type.as_deref(), Some("application/octet-stream"));
    assert_eq!(listed[1].size, Some(5));
}

#[test]
fn test_provide_contents_then_read() {
    let mut manager = ResourceManager::new();
    manager
        .register_provider(ResourceProvider {
            name: "filesystem".to_string(),
            prefixes: vec!["file://".to_string()],
            resources: Vec::new(),
            contents: Vec::new(),
        })
        .unwrap();
    assert!(manager.read_resource("file:///tmp/a.txt").is_err());
    let contents = mcp_server::resources::contents_of_bytes("file:///tmp/a.txt", b"first".to_vec());
    manager
        .provide_contents("filesystem", "file:///tmp/a.txt".to_string(), vec![contents])
        .unwrap();
    let read = manager.read_resource("file:///tmp/a.txt").unwrap();
    assert_eq!(read.len(), 1);
    match &read[0] {
        mcp_server::types::ResourceContents::Text { text, .. } => assert_eq!(text, "first"),
        other => panic!("expected text contents, got {:?}", other),
    }
    let newer = mcp_server::resources::contents_of_bytes("file:///tmp/a.txt", b"second".to_vec());
    manager
        .provide_contents("filesystem", "file:///tmp/a.txt".to_string(), vec![newer])
        .unwrap();
    let read = manager.read_resource("file:///tmp/a.txt").unwrap();
    match &read[0] {
        mcp_server::types::ResourceContents::Text { text, .. } => assert_eq!(text, "second"),
        other => panic!("expected text contents, got {:?}", other),
    }
    assert!(manager
        .provide_contents("nobody", "file:///tmp/a.txt".to_string(), Vec::new())
        .is_err());
}

#[test]
fn test_set_provider_resources_listing() {
    let mut manager = ResourceManager::new();
    manager
        .register_provider(ResourceProvider {
            name: "filesystem".to_string(),
            prefixes: vec!["file://".to_string()],
            resources: Vec::new(),
            contents: Vec::new(),
        })
        .unwrap();
    let listed = mcp_server::resources::resources_of_listing("file:///root", vec![("a.txt".to_string(), 3)]);
    manager.set_provider_resources("filesystem", listed).unwrap();
    let (resources, _) = manager.list_resources(None).unwrap();
    assert_eq!(resources.len(), 1);
    assert_eq!(resources[0].uri, "file:///root/a.txt");
    assert!(manager.set_provider_resources("nobody", Vec::new()).is_err());
}

#[test]
fn test_filesystem_resolve_access() {
    let provider = mcp_server::resources::FileSystemProvider::new("/srv/data".to_string());
    assert!(provider.resolve_access("/srv/data/file.txt", "/srv/data").is_ok());
    let denied = provider.resolve_access("/etc/passwd", "/srv/data");
    match denied {
        Err(mcp_server::error::McpError::Resource(m)) => {
            assert_eq!(m, "Access denied: path outside root directory");
        }
        other => panic!("expected a resource error, got {:?}", other),
    }
    let open = mcp_server::resources::FileSystemProvider::with_settings(
        "/srv/data".to_string(),
        true,
    );
    assert!(open.resolve_access("/etc/passwd", "/srv/data").is_ok());
}
