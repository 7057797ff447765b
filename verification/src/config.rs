//! Server configuration: transport, authentication, logging and feature
//! settings, their defaults, and validation.

use vstd::prelude::*;
use vstd::string::StringExecFns;
use crate::json::Json;
use crate::error::{McpError, McpResult};
use crate::tools::ToolsConfig;

verus! {

broadcast use vstd::string::group_string_axioms;

/// Server identity and limits.
#[derive(Debug)]
pub struct ServerConfig {
    pub name: String,
    pub version: String,
    pub instructions: Option<String>,
    pub max_connections: usize,
    pub request_timeout: u64,
}

/// The transport selection.
#[derive(Debug, Clone, Copy, PartialEq, Eq, Structural)]
pub enum TransportType {
    Http,
}

/// The transport configuration: the type and its HTTP settings.
#[derive(Debug)]
pub struct TransportConfig {
    pub transport_type: TransportType,
    pub http: Option<HttpConfig>,
}

/// The HTTP transport's settings.
#[derive(Debug)]
pub struct HttpConfig {
    pub bind_address: String,
    pub port: u16,
    pub endpoint_path: String,
    pub enable_cors: bool,
    pub cors_origins: Vec<String>,
    pub session_timeout: u64,
    pub enable_tls: bool,
    pub cert_file: Option<String>,
    pub key_file: Option<String>,
}

/// How clients authenticate.
#[derive(Debug, Clone, Copy, PartialEq, Eq, Structural)]
pub enum AuthMethod {
    NoAuth,
    ApiKey,
    Bearer,
    Jwt,
}

/// Authentication settings.
#[derive(Debug)]
pub struct AuthConfig {
    pub enabled: bool,
    pub method: AuthMethod,
    pub api_keys: Vec<String>,
    pub jwt_secret: Option<String>,
    pub token_expiration: u64,
}

/// The log output shape.
#[derive(Debug, Clone, Copy, PartialEq, Eq, Structural)]
pub enum LogFormat {
    Json,
    Pretty,
    Compact,
}

/// Logging settings.
#[derive(Debug)]
pub struct LoggingConfig {
    pub level: String,
    pub format: LogFormat,
    pub file: Option<String>,
    pub enable_request_logging: bool,
}

/// Which features the server advertises.
#[derive(Debug, Clone, Copy, PartialEq, Eq, Structural)]
pub struct FeatureConfig {
    pub resources: bool,
    pub tools: bool,
    pub prompts: bool,
    pub sampling: bool,
    pub logging: bool,
    pub completion: bool,
    pub roots: bool,
}

/// The whole configuration.
#[derive(Debug)]
pub struct Config {
    pub server: ServerConfig,
    pub transport: TransportConfig,
    pub auth: AuthConfig,
    pub logging: LoggingConfig,
    pub features: FeatureConfig,
    pub tools: ToolsConfig,
    pub custom: Vec<(String, Json)>,
}

/// The default connection limit.
pub fn default_max_connections() -> (r: usize)
    ensures
        r == 100,
{
    100
}

/// The default request timeout, in seconds.
pub fn default_request_timeout() -> (r: u64)
    ensures
        r == 30,
{
    30
}

/// The default transport.
pub fn default_transport_type() -> (r: TransportType)
    ensures
        r == TransportType::Http,
{
    TransportType::Http
}

/// The default bind address.
pub fn default_bind_address() -> (r: String)
    ensures
        r@ == "127.0.0.1"@,
{
    String::from_str("127.0.0.1")
}

/// The default port.
pub fn default_port() -> (r: u16)
    ensures
        r == 8080,
{
    8080
}

/// The default endpoint path.
pub fn default_endpoint_path() -> (r: String)
    ensures
        r@ == "/mcp"@,
{
    String::from_str("/mcp")
}

/// Cross-origin requests are allowed by default.
pub fn default_enable_cors() -> (r: bool)
    ensures
        r,
{
    true
}

/// The default session timeout, in seconds.
pub fn default_session_timeout() -> (r: u64)
    ensures
        r == 3600,
{
    3600
}

/// The default token lifetime, in seconds.
pub fn default_token_expiration() -> (r: u64)
    ensures
        r == 3600,
{
    3600
}

/// The default log level name.
pub fn default_log_level() -> (r: String)
    ensures
        r@ == "info"@,
{
    String::from_str("info")
}

/// The default log format.
pub fn default_log_format() -> (r: LogFormat)
    ensures
        r == LogFormat::Pretty,
{
    LogFormat::Pretty
}

/// Request logging is off by default.
pub fn default_enable_request_logging() -> (r: bool)
    ensures
        !r,
{
    false
}

/// Features default to enabled.
pub fn default_true() -> (r: bool)
    ensures
        r,
{
    true
}

impl Default for AuthMethod {
    /// No authentication by default.
    fn default() -> (r: Self)
        ensures
            r == AuthMethod::NoAuth,
    {
        AuthMethod::NoAuth
    }
}

impl Default for HttpConfig {
    /// Loopback on the default port, permissive cross-origin, hour-long
    /// sessions, no TLS.
    fn default() -> (r: Self)
        ensures
            r.bind_address@ == "127.0.0.1"@,
            r.port == 8080,
            r.endpoint_path@ == "/mcp"@,
            r.enable_cors,
            r.cors_origins@.len() == 1 && r.cors_origins@[0]@ == "*"@,
            r.session_timeout == 3600,
            !r.enable_tls,
            r.cert_file is None,
            r.key_file is None,
    {
        let mut cors_origins: Vec<String> = Vec::new();
        cors_origins.push(String::from_str("*"));
        HttpConfig {
            bind_address: default_bind_address(),
            port: default_port(),
            endpoint_path: default_endpoint_path(),
            enable_cors: default_enable_cors(),
            cors_origins,
            session_timeout: default_session_timeout(),
            enable_tls: false,
            cert_file: None,
            key_file: None,
        }
    }
}

impl Default for AuthConfig {
    /// Authentication off, no keys, no secret.
    fn default() -> (r: Self)
        ensures
            !r.enabled,
            r.method == AuthMethod::NoAuth,
            r.api_keys@.len() == 0,
            r.jwt_secret is None,
            r.token_expiration == 3600,
    {
        AuthConfig {
            enabled: false,
            method: AuthMethod::NoAuth,
            api_keys: Vec::new(),
            jwt_secret: None,
            token_expiration: default_token_expiration(),
        }
    }
}

impl Default for LoggingConfig {
    /// Informational pretty logging to standard output.
    fn default() -> (r: Self)
        ensures
            r.level@ == "info"@,
            r.format == LogFormat::Pretty,
            r.file is None,
            !r.enable_request_logging,
    {
        LoggingConfig {
            level: default_log_level(),
            format: default_log_format(),
            file: None,
            enable_request_logging: default_enable_request_logging(),
        }
    }
}

impl Default for FeatureConfig {
    /// Every feature enabled.
    fn default() -> (r: Self)
        ensures
            r.resources && r.tools && r.prompts && r.sampling && r.logging && r.completion
                && r.roots,
    {
        FeatureConfig {
            resources: true,
            tools: true,
            prompts: true,
            sampling: true,
            logging: true,
            completion: true,
            roots: true,
        }
    }
}

impl Default for Config {
    /// The server's name and version with every subsystem at its default.
    fn default() -> (r: Self)
        ensures
            r.server.name@ == "mcp-server-rust"@,
            r.server.version@ == "0.1.0"@,
            r.server.instructions is None,
            r.transport.transport_type == TransportType::Http,
            r.transport.http is Some,
            !r.auth.enabled,
            r.custom@.len() == 0,
    {
        Config {
            server: ServerConfig {
                name: String::from_str("mcp-server-rust"),
                version: String::from_str("0.1.0"),
                instructions: None,
                max_connections: default_max_connections(),
                request_timeout: default_request_timeout(),
            },
            transport: TransportConfig {
                transport_type: default_transport_type(),
                http: Some(HttpConfig::default()),
            },
            auth: AuthConfig::default(),
            logging: LoggingConfig::default(),
            features: FeatureConfig::default(),
            tools: ToolsConfig::default(),
            custom: Vec::new(),
        }
    }
}

/// Whether a configuration is consistent: an HTTP transport carries HTTP
/// settings, and enabled authentication carries its material.
pub open spec fn spec_config_valid(c: Config) -> bool {
    &&& (c.transport.transport_type == TransportType::Http ==> c.transport.http is Some)
    &&& (c.auth.enabled && c.auth.method == AuthMethod::ApiKey ==> c.auth.api_keys@.len() > 0)
    &&& (c.auth.enabled && c.auth.method == AuthMethod::Jwt ==> c.auth.jwt_secret is Some)
}

impl Config {
    /// Validate the configuration. Fails with a configuration error exactly
    /// when the transport lacks its settings or enabled authentication lacks
    /// its material.
    pub fn validate(&self) -> (r: McpResult<()>)
        ensures
            r is Ok <==> spec_config_valid(*self),
            r matches Err(e) ==> e is Config,
    {
        match self.transport.transport_type {
            TransportType::Http => {
                if self.transport.http.is_none() {
                    return Err(
                        McpError::Config(
                            String::from_str(
                                "HTTP transport selected but no HTTP config provided",
                            ),
                        ),
                    );
                }
            },
        }
        if self.auth.enabled {
            match self.auth.method {
                AuthMethod::ApiKey => {
                    if self.auth.api_keys.len() == 0 {
                        return Err(
                            McpError::Config(
                                String::from_str(
                                    "API key authentication enabled but no API keys provided",
                                ),
                            ),
                        );
                    }
                },
                AuthMethod::Jwt => {
                    if self.auth.jwt_secret.is_none() {
                        return Err(
                            McpError::Config(
                                String::from_str(
                                    "JWT authentication enabled but no JWT secret provided",
                                ),
                            ),
                        );
                    }
                },
                _ => (),
            }
        }
        Ok(())
    }
}

} // verus!
