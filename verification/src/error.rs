//! Error taxonomy following the JSON-RPC error codes and the protocol's
//! domain errors, with the exact code and message of every variant specified.

use vstd::prelude::*;
use vstd::string::StringExecFns;

verus! {

/// Transport-level errors.
#[derive(Debug, Clone)]
pub enum TransportError {
    ConnectionFailed(String),
    ConnectionLost(String),
    InvalidMessage(String),
    SessionExpired(String),
    Unauthorized(String),
}

/// The error type of every fallible operation of this library.
#[derive(Debug, Clone)]
pub enum McpError {
    /// JSON-RPC parse error (-32700)
    ParseError(String),
    /// JSON-RPC invalid request (-32600)
    InvalidRequest(String),
    /// JSON-RPC method not found (-32601)
    MethodNotFound(String),
    /// JSON-RPC invalid params (-32602)
    InvalidParams(String),
    /// JSON-RPC internal error (-32603)
    InternalError(String),
    /// Transport-related errors
    Transport(TransportError),
    /// Protocol-related errors
    Protocol(String),
    /// Resource-related errors
    Resource(String),
    /// Tool-related errors
    Tool(String),
    /// Prompt-related errors
    Prompt(String),
    /// Authentication and authorization errors
    Auth(String),
    /// Configuration errors
    Config(String),
    /// Input and output errors
    Io(String),
    /// Serialization errors
    Serialization(String),
}

/// The JSON-RPC error code of each variant: the five protocol codes, and
/// internal error for every domain error.
pub open spec fn spec_json_rpc_code(e: McpError) -> int {
    match e {
        McpError::ParseError(_) => -32700,
        McpError::InvalidRequest(_) => -32600,
        McpError::MethodNotFound(_) => -32601,
        McpError::InvalidParams(_) => -32602,
        _ => -32603,
    }
}

/// The prefix each variant's rendered message carries.
pub open spec fn spec_error_prefix(e: McpError) -> Seq<char> {
    match e {
        McpError::ParseError(_) => "Parse error: "@,
        McpError::InvalidRequest(_) => "Invalid request: "@,
        McpError::MethodNotFound(_) => "Method not found: "@,
        McpError::InvalidParams(_) => "Invalid params: "@,
        McpError::InternalError(_) => "Internal error: "@,
        McpError::Transport(_) => "Transport error: "@,
        McpError::Protocol(_) => "Protocol error: "@,
        McpError::Resource(_) => "Resource error: "@,
        McpError::Tool(_) => "Tool error: "@,
        McpError::Prompt(_) => "Prompt error: "@,
        McpError::Auth(_) => "Auth error: "@,
        McpError::Config(_) => "Config error: "@,
        McpError::Io(_) => "IO error: "@,
        McpError::Serialization(_) => "Serialization error: "@,
    }
}

/// The detail text carried by each variant.
pub open spec fn spec_error_detail(e: McpError) -> Seq<char> {
    match e {
        McpError::ParseError(m) => m@,
        McpError::InvalidRequest(m) => m@,
        McpError::MethodNotFound(m) => m@,
        McpError::InvalidParams(m) => m@,
        McpError::InternalError(m) => m@,
        McpError::Transport(t) => spec_transport_detail(t),
        McpError::Protocol(m) => m@,
        McpError::Resource(m) => m@,
        McpError::Tool(m) => m@,
        McpError::Prompt(m) => m@,
        McpError::Auth(m) => m@,
        McpError::Config(m) => m@,
        McpError::Io(m) => m@,
        McpError::Serialization(m) => m@,
    }
}

/// The rendered text of a transport error.
pub open spec fn spec_transport_detail(t: TransportError) -> Seq<char> {
    match t {
        TransportError::ConnectionFailed(m) => "Connection failed: "@ + m@,
        TransportError::ConnectionLost(m) => "Connection lost: "@ + m@,
        TransportError::InvalidMessage(m) => "Invalid message format: "@ + m@,
        TransportError::SessionExpired(m) => "Session expired: "@ + m@,
        TransportError::Unauthorized(m) => "Unauthorized: "@ + m@,
    }
}

/// The full rendered message of an error.
pub open spec fn spec_error_message(e: McpError) -> Seq<char> {
    spec_error_prefix(e) + spec_error_detail(e)
}

/// The `Result` type of this library's operations.
pub type McpResult<T> = Result<T, McpError>;

impl TransportError {
    /// Render this transport error as text.
    pub fn to_message(&self) -> (r: String)
        ensures
            r@ == spec_transport_detail(*self),
    {
        match self {
            TransportError::ConnectionFailed(m) => {
                let mut s = String::from_str("Connection failed: ");
                s.append(m.as_str());
                s
            },
            TransportError::ConnectionLost(m) => {
                let mut s = String::from_str("Connection lost: ");
                s.append(m.as_str());
                s
            },
            TransportError::InvalidMessage(m) => {
                let mut s = String::from_str("Invalid message format: ");
                s.append(m.as_str());
                s
            },
            TransportError::SessionExpired(m) => {
                let mut s = String::from_str("Session expired: ");
                s.append(m.as_str());
                s
            },
            TransportError::Unauthorized(m) => {
                let mut s = String::from_str("Unauthorized: ");
                s.append(m.as_str());
                s
            },
        }
    }
}

impl McpError {
    /// The JSON-RPC error code for this error.
    pub fn to_json_rpc_code(&self) -> (r: i32)
        ensures
            r as int == spec_json_rpc_code(*self),
    {
        match self {
            McpError::ParseError(_) => -32700,
            McpError::InvalidRequest(_) => -32600,
            McpError::MethodNotFound(_) => -32601,
            McpError::InvalidParams(_) => -32602,
            _ => -32603,
        }
    }

    /// Render this error as text, prefix and detail.
    pub fn to_message(&self) -> (r: String)
        ensures
            r@ == spec_error_message(*self),
    {
        let prefix: &str = match self {
            McpError::ParseError(_) => "Parse error: ",
            McpError::InvalidRequest(_) => "Invalid request: ",
            McpError::MethodNotFound(_) => "Method not found: ",
            McpError::InvalidParams(_) => "Invalid params: ",
            McpError::InternalError(_) => "Internal error: ",
            McpError::Transport(_) => "Transport error: ",
            McpError::Protocol(_) => "Protocol error: ",
            McpError::Resource(_) => "Resource error: ",
            McpError::Tool(_) => "Tool error: ",
            McpError::Prompt(_) => "Prompt error: ",
            McpError::Auth(_) => "Auth error: ",
            McpError::Config(_) => "Config error: ",
            McpError::Io(_) => "IO error: ",
            McpError::Serialization(_) => "Serialization error: ",
        };
        let mut s = String::from_str(prefix);
        match self {
            McpError::Transport(t) => {
                let d = t.to_message();
                s.append(d.as_str());
            },
            McpError::ParseError(m) => s.append(m.as_str()),
            McpError::InvalidRequest(m) => s.append(m.as_str()),
            McpError::MethodNotFound(m) => s.append(m.as_str()),
            McpError::InvalidParams(m) => s.append(m.as_str()),
            McpError::InternalError(m) => s.append(m.as_str()),
            McpError::Protocol(m) => s.append(m.as_str()),
            McpError::Resource(m) => s.append(m.as_str()),
            McpError::Tool(m) => s.append(m.as_str()),
            McpError::Prompt(m) => s.append(m.as_str()),
            McpError::Auth(m) => s.append(m.as_str()),
            McpError::Config(m) => s.append(m.as_str()),
            McpError::Io(m) => s.append(m.as_str()),
            McpError::Serialization(m) => s.append(m.as_str()),
        }
        s
    }

    /// Build a parse error.
    pub fn parse_error(msg: String) -> (r: Self)
        ensures
            r == McpError::ParseError(msg),
    {
        McpError::ParseError(msg)
    }

    /// Build an invalid-request error.
    pub fn invalid_request(msg: String) -> (r: Self)
        ensures
            r == McpError::InvalidRequest(msg),
    {
        McpError::InvalidRequest(msg)
    }

    /// Build a method-not-found error; the message quotes the method name.
    pub fn method_not_found(method: &str) -> (r: Self)
        ensures
            r matches McpError::MethodNotFound(m) && m@ == "Method '"@ + method@ + "' not found"@,
    {
        let mut s = String::from_str("Method '");
        s.append(method);
        s.append("' not found");
        McpError::MethodNotFound(s)
    }

    /// Build an invalid-params error.
    pub fn invalid_params(msg: String) -> (r: Self)
        ensures
            r == McpError::InvalidParams(msg),
    {
        McpError::InvalidParams(msg)
    }

    /// Build an internal error.
    pub fn internal_error(msg: String) -> (r: Self)
        ensures
            r == McpError::InternalError(msg),
    {
        McpError::InternalError(msg)
    }
}

} // verus!
