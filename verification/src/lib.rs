//! A Model Context Protocol (MCP) server library: a JSON-RPC 2.0 service
//! over a streamable HTTP transport exposing resources, tools and prompts,
//! negotiated through an explicit initialize handshake.
//!
//! The message codec, validators, feature managers, protocol dispatcher and
//! transport decisions all carry contracts; the shell around them (network,
//! clock, filesystem) stays outside the library.
//!
//! JSON numbers are signed 64-bit integers throughout: a wire number with a
//! fraction or an exponent, or one outside the 64-bit range, is rejected as
//! a parse error.

pub mod codec;
pub mod completion;
pub mod config;
pub mod error;
pub mod handler;
pub mod http;
pub mod json;
pub mod logging;
pub mod messages;
pub mod pagination;
pub mod prompts;
pub mod registry;
pub mod resources;
pub mod roots;
pub mod sampling;
pub mod session;
pub mod strings;
pub mod tools;
pub mod types;
pub mod utils;
pub mod validation;
