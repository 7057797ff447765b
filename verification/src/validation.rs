//! Validation of messages, method names, URIs, MIME types, cursors, roles,
//! logging levels and tool schemas, each with an exact success condition.

use vstd::prelude::*;
use vstd::string::StringExecFns;
use vstd::string::StrSliceExecFns;
use crate::error::{McpError, McpResult};
use crate::json::{Json, JsonVal, jv_get};
use crate::messages::{JsonRpcRequest, JsonRpcNotification, JsonRpcResponse, RequestV,
    NotificationV, ResponseV, spec_jsonrpc_version};
use crate::strings::{str_eq, str_starts_with, str_contains, str_to_chars, is_prefix_of,
    contains_seq};

verus! {

broadcast use vstd::string::group_string_axioms;

/// A request id is valid unless it is null or the empty string.
pub open spec fn spec_valid_id(id: JsonVal) -> bool {
    match id {
        JsonVal::Null => false,
        JsonVal::Str(s) => s.len() > 0,
        _ => true,
    }
}

/// A valid request: correct version, non-empty method, valid id.
pub open spec fn spec_valid_request(r: RequestV) -> bool {
    r.jsonrpc == spec_jsonrpc_version() && r.method.len() > 0 && spec_valid_id(r.id)
}

/// A valid notification: correct version, non-empty method.
pub open spec fn spec_valid_notification(n: NotificationV) -> bool {
    n.jsonrpc == spec_jsonrpc_version() && n.method.len() > 0
}

/// A valid response: correct version, and exactly one of result and error.
pub open spec fn spec_valid_response(r: ResponseV) -> bool {
    r.jsonrpc == spec_jsonrpc_version() && ((r.result is Some) != (r.error is Some))
}

/// Validate a request. Fails with an invalid-request error exactly on a wrong
/// version, an empty method name, or a null or empty-string id.
pub fn validate_request(request: &JsonRpcRequest) -> (r: McpResult<()>)
    ensures
        r is Ok <==> spec_valid_request(request@),
        r matches Err(e) ==> e is InvalidRequest,
{
    if !str_eq(request.jsonrpc.as_str(), "2.0") {
        return Err(
            McpError::invalid_request(
                String::from_str("Invalid JSON-RPC version: expected '2.0'"),
            ),
        );
    }
    if request.method.as_str().unicode_len() == 0 {
        return Err(McpError::invalid_request(String::from_str("Method name cannot be empty")));
    }
    match &request.id {
        Json::Null => Err(
            McpError::invalid_request(String::from_str("Request ID must not be null")),
        ),
        Json::Str(s) => {
            if s.as_str().unicode_len() == 0 {
                Err(
                    McpError::invalid_request(
                        String::from_str("Request ID cannot be empty string"),
                    ),
                )
            } else {
                Ok(())
            }
        },
        _ => Ok(()),
    }
}

/// Validate a notification. Fails with an invalid-request error exactly on a
/// wrong version or an empty method name.
pub fn validate_notification(notification: &JsonRpcNotification) -> (r: McpResult<()>)
    ensures
        r is Ok <==> spec_valid_notification(notification@),
        r matches Err(e) ==> e is InvalidRequest,
{
    if !str_eq(notification.jsonrpc.as_str(), "2.0") {
        return Err(
            McpError::invalid_request(
                String::from_str("Invalid JSON-RPC version: expected '2.0'"),
            ),
        );
    }
    if notification.method.as_str().unicode_len() == 0 {
        return Err(McpError::invalid_request(String::from_str("Method name cannot be empty")));
    }
    Ok(())
}

/// Validate a response. Fails with an invalid-request error exactly on a
/// wrong version or unless exactly one of result and error is present.
pub fn validate_response(response: &JsonRpcResponse) -> (r: McpResult<()>)
    ensures
        r is Ok <==> spec_valid_response(response@),
        r matches Err(e) ==> e is InvalidRequest,
{
    if !str_eq(response.jsonrpc.as_str(), "2.0") {
        return Err(
            McpError::invalid_request(
                String::from_str("Invalid JSON-RPC version: expected '2.0'"),
            ),
        );
    }
    match (&response.result, &response.error) {
        (Some(_), Some(_)) => Err(
            McpError::invalid_request(
                String::from_str("Response cannot have both result and error"),
            ),
        ),
        (None, None) => Err(
            McpError::invalid_request(
                String::from_str("Response must have either result or error"),
            ),
        ),
        _ => Ok(()),
    }
}

/// The method prefixes the protocol accepts.
pub open spec fn spec_valid_method_name(m: Seq<char>) -> bool {
    m.len() > 0 && (is_prefix_of("initialize"@, m) || is_prefix_of("ping"@, m) || is_prefix_of(
        "notifications/"@,
        m,
    ) || is_prefix_of("resources/"@, m) || is_prefix_of("prompts/"@, m) || is_prefix_of(
        "tools/"@,
        m,
    ) || is_prefix_of("sampling/"@, m) || is_prefix_of("logging/"@, m) || is_prefix_of(
        "completion/"@,
        m,
    ) || is_prefix_of("roots/"@, m))
}

/// Validate a method name: it must begin with one of the approved prefixes.
/// An empty name fails with invalid request; an unknown one with method not
/// found.
pub fn validate_method_name(method: &str) -> (r: McpResult<()>)
    ensures
        r is Ok <==> spec_valid_method_name(method@),
        r matches Err(e) ==> (e is InvalidRequest <==> method@.len() == 0) && (e is MethodNotFound
            <==> method@.len() > 0),
{
    if method.unicode_len() == 0 {
        return Err(McpError::invalid_request(String::from_str("Method name cannot be empty")));
    }
    if str_starts_with(method, "initialize") || str_starts_with(method, "ping")
        || str_starts_with(method, "notifications/") || str_starts_with(method, "resources/")
        || str_starts_with(method, "prompts/") || str_starts_with(method, "tools/")
        || str_starts_with(method, "sampling/") || str_starts_with(method, "logging/")
        || str_starts_with(method, "completion/") || str_starts_with(method, "roots/") {
        Ok(())
    } else {
        Err(McpError::method_not_found(method))
    }
}

/// A URI is accepted when it contains `://` or starts with `file:`.
pub open spec fn spec_valid_uri(u: Seq<char>) -> bool {
    u.len() > 0 && (contains_seq(u, "://"@) || is_prefix_of("file:"@, u))
}

/// Validate a URI. Fails with an invalid-params error exactly when the URI
/// is empty or has neither a `://` separator nor a `file:` prefix.
pub fn validate_uri(uri: &str) -> (r: McpResult<()>)
    ensures
        r is Ok <==> spec_valid_uri(uri@),
        r matches Err(e) ==> e is InvalidParams,
{
    if uri.unicode_len() == 0 {
        return Err(McpError::invalid_params(String::from_str("URI cannot be empty")));
    }
    if !str_contains(uri, "://") && !str_starts_with(uri, "file:") {
        let mut m = String::from_str("Invalid URI format: ");
        m.append(uri);
        return Err(McpError::invalid_params(m));
    }
    Ok(())
}

/// A MIME type is `type/subtype`: exactly one slash, neither side empty.
pub open spec fn spec_valid_mime(s: Seq<char>) -> bool {
    exists|k: int|
        0 < k < s.len() - 1 && s[k] == '/' && (forall|j: int|
            0 <= j < s.len() && j != k ==> s[j] != '/')
}

/// Validate a MIME type. Fails with an invalid-params error unless the text
/// is `type/subtype` with exactly one slash and both sides non-empty.
#[verifier::loop_isolation(false)]
pub fn validate_mime_type(mime_type: &str) -> (r: McpResult<()>)
    ensures
        r is Ok <==> spec_valid_mime(mime_type@),
        r matches Err(e) ==> e is InvalidParams,
{
    let v = str_to_chars(mime_type);
    let n = v.len();
    let mut slash: usize = n;
    let mut slash2: usize = n;
    let mut count: usize = 0;
    let mut i: usize = 0;
    while i < n
        invariant
            i <= n,
            count <= i,
            count == 0 ==> slash == n && (forall|j: int| 0 <= j < i ==> v@[j] != '/'),
            count > 0 ==> slash < i && v@[slash as int] == '/',
            count == 1 ==> (forall|j: int| 0 <= j < i && j != slash ==> v@[j] != '/'),
            count > 1 ==> slash2 < i && slash2 != slash && v@[slash2 as int] == '/',
        decreases n - i,
    {
        if v[i] == '/' {
            if count == 0 {
                slash = i;
            } else if count == 1 {
                slash2 = i;
            }
            count = count + 1;
        }
        i = i + 1;
    }
    if count == 1 && slash > 0 && slash < n - 1 {
        proof {
            assert(0 < slash < mime_type@.len() - 1 && mime_type@[slash as int] == '/' && (
            forall|j: int|
                0 <= j < mime_type@.len() && j != slash ==> mime_type@[j] != '/'));
        }
        Ok(())
    } else {
        proof {
            assert forall|k: int|
                0 < k < mime_type@.len() - 1 implies !(mime_type@[k] == '/' && (forall|j: int|
                0 <= j < mime_type@.len() && j != k ==> mime_type@[j] != '/')) by {
                if mime_type@[k] == '/' {
                    if count == 1 {
                        assert(k == slash);
                    } else if count > 1 {
                        let w: int = if k == slash {
                            slash2 as int
                        } else {
                            slash as int
                        };
                        assert(0 <= w < mime_type@.len() && w != k && mime_type@[w] == '/');
                    }
                }
            }
        }
        let mut m = String::from_str("Invalid MIME type format: ");
        m.append(mime_type);
        Err(McpError::invalid_params(m))
    }
}

/// Whether the input decodes as standard base64. Names the outcome of the
/// base64 crate's standard-engine decode, which depends on the input alone.
pub uninterp spec fn base64_decodable(s: Seq<char>) -> bool;

/// Relies on the base64 crate's `Engine::decode` with the standard engine:
/// success depends only on the input text.
#[verifier::external_body]
fn base64_decode_ok(data: &str) -> (r: bool)
    ensures
        r == base64_decodable(data@),
{
    base64::Engine::decode(&base64::engine::general_purpose::STANDARD, data).is_ok()
}

/// Validate base64 text. Fails with an invalid-params error exactly when the
/// input is empty or does not decode as standard base64.
pub fn validate_base64(data: &str) -> (r: McpResult<()>)
    ensures
        r is Ok <==> (data@.len() > 0 && base64_decodable(data@)),
        r matches Err(e) ==> e is InvalidParams,
{
    if data.unicode_len() == 0 {
        return Err(McpError::invalid_params(String::from_str("Base64 data cannot be empty")));
    }
    if !base64_decode_ok(data) {
        return Err(McpError::invalid_params(String::from_str("Invalid base64 data")));
    }
    Ok(())
}

/// A valid tool input schema: an object whose `type` is the string
/// `"object"`, whose `properties` member, if present, is an object, and
/// whose `required` member, if present, is an array.
pub open spec fn spec_valid_tool_schema(v: JsonVal) -> bool {
    &&& v is Obj
    &&& jv_get(v, "type"@) == Some(JsonVal::Str("object"@))
    &&& match jv_get(v, "properties"@) {
        Some(p) => p is Obj,
        None => true,
    }
    &&& match jv_get(v, "required"@) {
        Some(q) => q is Arr,
        None => true,
    }
}

/// Validate a tool input schema. Fails with an invalid-params error exactly
/// when the schema is not an object, lacks `type: "object"`, or carries a
/// malformed `properties` or `required` member.
pub fn validate_tool_schema(schema: &Json) -> (r: McpResult<()>)
    ensures
        r is Ok <==> spec_valid_tool_schema(schema@),
        r matches Err(e) ==> e is InvalidParams,
{
    proof {
        reveal_strlit("object");
    }
    if !schema.is_object() {
        return Err(McpError::invalid_params(String::from_str("Tool schema must be an object")));
    }
    match schema.get("type") {
        Some(t) => match t.as_str() {
            Some(s) => {
                if !str_eq(s.as_str(), "object") {
                    return Err(
                        McpError::invalid_params(
                            String::from_str("Tool schema type must be 'object'"),
                        ),
                    );
                }
            },
            None => {
                return Err(
                    McpError::invalid_params(
                        String::from_str("Tool schema type must be 'object'"),
                    ),
                );
            },
        },
        None => {
            return Err(
                McpError::invalid_params(String::from_str("Tool schema must have 'type' field")),
            );
        },
    }
    match schema.get("properties") {
        Some(p) => {
            if !p.is_object() {
                return Err(
                    McpError::invalid_params(
                        String::from_str("Tool schema properties must be an object"),
                    ),
                );
            }
        },
        None => (),
    }
    match schema.get("required") {
        Some(q) => {
            if !q.is_array() {
                return Err(
                    McpError::invalid_params(
                        String::from_str("Tool schema required must be an array"),
                    ),
                );
            }
        },
        None => (),
    }
    Ok(())
}

/// Whether a character may appear in a cursor: printable ASCII or ASCII
/// whitespace.
pub open spec fn spec_cursor_char_ok(c: char) -> bool {
    (0x21 <= c as u32 && c as u32 <= 0x7e) || c == ' ' || c == '\t' || c == '\n' || c == '\r'
        || c as u32 == 0xc
}

/// A valid cursor: non-empty, printable ASCII and whitespace only.
pub open spec fn spec_valid_cursor(s: Seq<char>) -> bool {
    s.len() > 0 && forall|i: int| 0 <= i < s.len() ==> spec_cursor_char_ok(#[trigger] s[i])
}

/// Validate a pagination cursor. Fails with an invalid-params error exactly
/// when the cursor is empty or holds a character that is neither printable
/// ASCII nor ASCII whitespace.
#[verifier::loop_isolation(false)]
pub fn validate_cursor(cursor: &str) -> (r: McpResult<()>)
    ensures
        r is Ok <==> spec_valid_cursor(cursor@),
        r matches Err(e) ==> e is InvalidParams,
{
    let v = str_to_chars(cursor);
    if v.len() == 0 {
        return Err(McpError::invalid_params(String::from_str("Cursor cannot be empty")));
    }
    let mut i: usize = 0;
    while i < v.len()
        invariant
            i <= v@.len(),
            forall|j: int| 0 <= j < i ==> spec_cursor_char_ok(#[trigger] cursor@[j]),
        decreases v@.len() - i,
    {
        let c = v[i];
        let u = c as u32;
        let ok = (0x21 <= u && u <= 0x7e) || c == ' ' || c == '\t' || c == '\n' || c == '\r' || u
            == 0xc;
        if !ok {
            return Err(
                McpError::invalid_params(String::from_str("Cursor contains invalid characters")),
            );
        }
        i = i + 1;
    }
    Ok(())
}

/// A valid progress token: a non-empty string or a number.
pub open spec fn spec_valid_progress_token(v: JsonVal) -> bool {
    match v {
        JsonVal::Str(s) => s.len() > 0,
        JsonVal::Int(_) => true,
        _ => false,
    }
}

/// Validate a progress token. Fails with an invalid-params error exactly
/// when the token is neither a non-empty string nor a number.
pub fn validate_progress_token(token: &Json) -> (r: McpResult<()>)
    ensures
        r is Ok <==> spec_valid_progress_token(token@),
        r matches Err(e) ==> e is InvalidParams,
{
    match token {
        Json::Str(s) => {
            if s.as_str().unicode_len() == 0 {
                Err(
                    McpError::invalid_params(
                        String::from_str("Progress token string cannot be empty"),
                    ),
                )
            } else {
                Ok(())
            }
        },
        Json::Int(_) => Ok(()),
        _ => Err(
            McpError::invalid_params(String::from_str("Progress token must be string or number")),
        ),
    }
}

/// The eight severity names the logging feature accepts.
pub open spec fn spec_valid_logging_level(s: Seq<char>) -> bool {
    s == "debug"@ || s == "info"@ || s == "notice"@ || s == "warning"@ || s == "error"@ || s
        == "critical"@ || s == "alert"@ || s == "emergency"@
}

/// Validate a logging level name. Fails with an invalid-params error exactly
/// when the name is not one of the eight severities.
pub fn validate_logging_level(level: &str) -> (r: McpResult<()>)
    ensures
        r is Ok <==> spec_valid_logging_level(level@),
        r matches Err(e) ==> e is InvalidParams,
{
    if str_eq(level, "debug") || str_eq(level, "info") || str_eq(level, "notice") || str_eq(
        level,
        "warning",
    ) || str_eq(level, "error") || str_eq(level, "critical") || str_eq(level, "alert") || str_eq(
        level,
        "emergency",
    ) {
        Ok(())
    } else {
        let mut m = String::from_str("Invalid logging level: ");
        m.append(level);
        Err(McpError::invalid_params(m))
    }
}

/// The two conversation roles.
pub open spec fn spec_valid_role(s: Seq<char>) -> bool {
    s == "user"@ || s == "assistant"@
}

/// Validate a role name. Fails with an invalid-params error exactly when the
/// name is neither `user` nor `assistant`.
pub fn validate_role(role: &str) -> (r: McpResult<()>)
    ensures
        r is Ok <==> spec_valid_role(role@),
        r matches Err(e) ==> e is InvalidParams,
{
    if str_eq(role, "user") || str_eq(role, "assistant") {
        Ok(())
    } else {
        let mut m = String::from_str("Invalid role: ");
        m.append(role);
        Err(McpError::invalid_params(m))
    }
}

} // verus!
