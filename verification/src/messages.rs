//! JSON-RPC 2.0 message structures: requests, notifications, responses and
//! batches, their mapping to and from JSON values, and the textual codec
//! entry points `parse_message` and `serialize_message`.

use vstd::prelude::*;
use vstd::string::StringExecFns;
use crate::json::{Json, JsonVal, jv_get, jvals_of, obj_lookup, jfields_of, clone_json,
    lemma_jvals_of_index, lemma_jfields_of_index};
use crate::codec::{ser_val, json_to_string, parse_json_text, write_val};
use crate::error::{McpError, McpResult};
use crate::strings::chars_to_string;

verus! {

broadcast use vstd::string::group_string_axioms;

/// The JSON-RPC version string required on every message.
pub open spec fn spec_jsonrpc_version() -> Seq<char> {
    "2.0"@
}

/// The protocol version this library implements.
pub open spec fn spec_protocol_version() -> Seq<char> {
    "2025-03-26"@
}

/// The JSON-RPC version string, `"2.0"`.
pub fn jsonrpc_version() -> (r: String)
    ensures
        r@ == spec_jsonrpc_version(),
{
    String::from_str("2.0")
}

/// The protocol version string.
pub fn protocol_version() -> (r: String)
    ensures
        r@ == spec_protocol_version(),
{
    String::from_str("2025-03-26")
}

/// Model of a JSON-RPC error object.
pub struct ErrorV {
    pub code: int,
    pub message: Seq<char>,
    pub data: Option<JsonVal>,
}

/// Model of a request.
pub struct RequestV {
    pub jsonrpc: Seq<char>,
    pub id: JsonVal,
    pub method: Seq<char>,
    pub params: Option<JsonVal>,
}

/// Model of a notification.
pub struct NotificationV {
    pub jsonrpc: Seq<char>,
    pub method: Seq<char>,
    pub params: Option<JsonVal>,
}

/// Model of a response.
pub struct ResponseV {
    pub jsonrpc: Seq<char>,
    pub id: JsonVal,
    pub result: Option<JsonVal>,
    pub error: Option<ErrorV>,
}

/// Model of any message.
pub enum MessageV {
    Request(RequestV),
    Notification(NotificationV),
    Response(ResponseV),
    Batch(Seq<JsonVal>),
}

/// JSON-RPC error object.
#[derive(Debug, Clone)]
pub struct JsonRpcError {
    pub code: i32,
    pub message: String,
    pub data: Option<Json>,
}

impl View for JsonRpcError {
    type V = ErrorV;

    open spec fn view(&self) -> ErrorV {
        ErrorV {
            code: self.code as int,
            message: self.message@,
            data: match self.data {
                Some(d) => Some(d@),
                None => None,
            },
        }
    }
}

/// A JSON-RPC request: it carries an id and expects a response.
#[derive(Debug, Clone)]
pub struct JsonRpcRequest {
    pub jsonrpc: String,
    pub id: Json,
    pub method: String,
    pub params: Option<Json>,
}

impl View for JsonRpcRequest {
    type V = RequestV;

    open spec fn view(&self) -> RequestV {
        RequestV {
            jsonrpc: self.jsonrpc@,
            id: self.id@,
            method: self.method@,
            params: match self.params {
                Some(p) => Some(p@),
                None => None,
            },
        }
    }
}

/// A JSON-RPC notification: no id, no response.
#[derive(Debug, Clone)]
pub struct JsonRpcNotification {
    pub jsonrpc: String,
    pub method: String,
    pub params: Option<Json>,
}

impl View for JsonRpcNotification {
    type V = NotificationV;

    open spec fn view(&self) -> NotificationV {
        NotificationV {
            jsonrpc: self.jsonrpc@,
            method: self.method@,
            params: match self.params {
                Some(p) => Some(p@),
                None => None,
            },
        }
    }
}

/// A JSON-RPC response: a result or an error, for a given id.
#[derive(Debug, Clone)]
pub struct JsonRpcResponse {
    pub jsonrpc: String,
    pub id: Json,
    pub result: Option<Json>,
    pub error: Option<JsonRpcError>,
}

impl View for JsonRpcResponse {
    type V = ResponseV;

    open spec fn view(&self) -> ResponseV {
        ResponseV {
            jsonrpc: self.jsonrpc@,
            id: self.id@,
            result: match self.result {
                Some(r) => Some(r@),
                None => None,
            },
            error: match self.error {
                Some(ref e) => Some(e@),
                None => None,
            },
        }
    }
}

/// Any JSON-RPC message: a single request, notification or response, or a
/// batch of raw values.
#[derive(Debug, Clone)]
pub enum AnyJsonRpcMessage {
    Request(JsonRpcRequest),
    Notification(JsonRpcNotification),
    Response(JsonRpcResponse),
    Batch(Vec<Json>),
}

impl View for AnyJsonRpcMessage {
    type V = MessageV;

    open spec fn view(&self) -> MessageV {
        match self {
            AnyJsonRpcMessage::Request(r) => MessageV::Request(r@),
            AnyJsonRpcMessage::Notification(n) => MessageV::Notification(n@),
            AnyJsonRpcMessage::Response(r) => MessageV::Response(r@),
            AnyJsonRpcMessage::Batch(items) => MessageV::Batch(jvals_of(items@)),
        }
    }
}

impl JsonRpcRequest {
    /// Build a request with the current JSON-RPC version.
    pub fn new(id: Json, method: String, params: Option<Json>) -> (r: Self)
        ensures
            r@ == (RequestV {
                jsonrpc: spec_jsonrpc_version(),
                id: id@,
                method: method@,
                params: match params {
                    Some(p) => Some(p@),
                    None => None,
                },
            }),
    {
        JsonRpcRequest { jsonrpc: jsonrpc_version(), id, method, params }
    }
}

impl JsonRpcNotification {
    /// Build a notification with the current JSON-RPC version.
    pub fn new(method: String, params: Option<Json>) -> (r: Self)
        ensures
            r@ == (NotificationV {
                jsonrpc: spec_jsonrpc_version(),
                method: method@,
                params: match params {
                    Some(p) => Some(p@),
                    None => None,
                },
            }),
    {
        JsonRpcNotification { jsonrpc: jsonrpc_version(), method, params }
    }
}

impl JsonRpcResponse {
    /// Build a success response carrying `result`.
    pub fn success(id: Json, result: Json) -> (r: Self)
        ensures
            r@ == (ResponseV {
                jsonrpc: spec_jsonrpc_version(),
                id: id@,
                result: Some(result@),
                error: None,
            }),
    {
        JsonRpcResponse { jsonrpc: jsonrpc_version(), id, result: Some(result), error: None }
    }

    /// Build an error response carrying `error`.
    pub fn error(id: Json, error: JsonRpcError) -> (r: Self)
        ensures
            r@ == (ResponseV {
                jsonrpc: spec_jsonrpc_version(),
                id: id@,
                result: None,
                error: Some(error@),
            }),
    {
        JsonRpcResponse { jsonrpc: jsonrpc_version(), id, result: None, error: Some(error) }
    }
}

impl JsonRpcError {
    /// The JSON-RPC error object for a library error: its code and its
    /// rendered message, with no extra data.
    pub fn from_error(e: &McpError) -> (r: Self)
        ensures
            r@ == (ErrorV {
                code: crate::error::spec_json_rpc_code(*e),
                message: crate::error::spec_error_message(*e),
                data: None,
            }),
    {
        JsonRpcError { code: e.to_json_rpc_code(), message: e.to_message(), data: None }
    }
}

/// JSON encoding of an error object.
pub open spec fn spec_json_of_error(e: ErrorV) -> JsonVal {
    JsonVal::Obj(
        seq![("code"@, JsonVal::Int(e.code)), ("message"@, JsonVal::Str(e.message))] + match e.data {
            Some(d) => seq![("data"@, d)],
            None => Seq::empty(),
        },
    )
}

/// JSON encoding of a request.
pub open spec fn spec_json_of_request(r: RequestV) -> JsonVal {
    JsonVal::Obj(
        seq![
            ("jsonrpc"@, JsonVal::Str(r.jsonrpc)),
            ("id"@, r.id),
            ("method"@, JsonVal::Str(r.method)),
        ] + match r.params {
            Some(p) => seq![("params"@, p)],
            None => Seq::empty(),
        },
    )
}

/// JSON encoding of a notification.
pub open spec fn spec_json_of_notification(n: NotificationV) -> JsonVal {
    JsonVal::Obj(
        seq![("jsonrpc"@, JsonVal::Str(n.jsonrpc)), ("method"@, JsonVal::Str(n.method))]
            + match n.params {
            Some(p) => seq![("params"@, p)],
            None => Seq::empty(),
        },
    )
}

/// JSON encoding of a response.
pub open spec fn spec_json_of_response(r: ResponseV) -> JsonVal {
    JsonVal::Obj(
        seq![("jsonrpc"@, JsonVal::Str(r.jsonrpc)), ("id"@, r.id)] + (match r.result {
            Some(v) => seq![("result"@, v)],
            None => Seq::empty(),
        }) + (match r.error {
            Some(e) => seq![("error"@, spec_json_of_error(e))],
            None => Seq::empty(),
        }),
    )
}

/// JSON encoding of any message.
pub open spec fn spec_json_of_message(m: MessageV) -> JsonVal {
    match m {
        MessageV::Request(r) => spec_json_of_request(r),
        MessageV::Notification(n) => spec_json_of_notification(n),
        MessageV::Response(r) => spec_json_of_response(r),
        MessageV::Batch(items) => JsonVal::Arr(items),
    }
}

/// Classification of a JSON value as an error object.
pub open spec fn spec_error_of_json(v: JsonVal) -> Option<ErrorV> {
    match (jv_get(v, "code"@), jv_get(v, "message"@)) {
        (Some(JsonVal::Int(code)), Some(JsonVal::Str(message))) => if i32::MIN <= code
            <= i32::MAX {
            Some(ErrorV { code, message, data: jv_get(v, "data"@) })
        } else {
            None
        },
        _ => None,
    }
}

/// Classification of a JSON value as a message: an array is a batch; an
/// object with a string `method` is a request when it has an `id` member and
/// a notification otherwise; an object with an `id` member and no method is
/// a response. Anything else is no message.
pub open spec fn spec_message_of_json(v: JsonVal) -> Option<MessageV> {
    match v {
        JsonVal::Arr(items) => Some(MessageV::Batch(items)),
        JsonVal::Obj(fields) => match jv_get(v, "jsonrpc"@) {
            Some(JsonVal::Str(ver)) => match jv_get(v, "method"@) {
                Some(JsonVal::Str(method)) => match jv_get(v, "id"@) {
                    Some(id) => Some(
                        MessageV::Request(
                            RequestV { jsonrpc: ver, id, method, params: jv_get(v, "params"@) },
                        ),
                    ),
                    None => Some(
                        MessageV::Notification(
                            NotificationV { jsonrpc: ver, method, params: jv_get(v, "params"@) },
                        ),
                    ),
                },
                Some(_) => None,
                None => match jv_get(v, "id"@) {
                    Some(id) => match jv_get(v, "error"@) {
                        Some(ev) => match spec_error_of_json(ev) {
                            Some(e) => Some(
                                MessageV::Response(
                                    ResponseV {
                                        jsonrpc: ver,
                                        id,
                                        result: jv_get(v, "result"@),
                                        error: Some(e),
                                    },
                                ),
                            ),
                            None => None,
                        },
                        None => Some(
                            MessageV::Response(
                                ResponseV {
                                    jsonrpc: ver,
                                    id,
                                    result: jv_get(v, "result"@),
                                    error: None,
                                },
                            ),
                        ),
                    },
                    None => None,
                },
            },
            _ => None,
        },
        _ => None,
    }
}

/// Build the JSON value of an error object.
pub fn json_of_error(e: &JsonRpcError) -> (r: Json)
    ensures
        r@ == spec_json_of_error(e@),
{
    let mut fields: Vec<(String, Json)> = Vec::new();
    fields.push((String::from_str("code"), Json::Int(e.code as i64)));
    fields.push((String::from_str("message"), Json::Str(e.message.clone())));
    match &e.data {
        Some(d) => fields.push((String::from_str("data"), clone_json(d))),
        None => (),
    }
    let r = Json::Obj(fields);
    proof {
        lemma_jfields_of_index(r->Obj_0@);
        let want = spec_json_of_error(e@)->Obj_0;
        assert forall|k: int|
            0 <= k < jfields_of(fields@).len() implies jfields_of(fields@)[k] == want[k] by {
            assert(jfields_of(fields@)[k] == (fields[k].0@, fields[k].1.view_rec()));
        }
        assert(r@->Obj_0 =~= want);
    }
    r
}

/// Build the JSON value of a message.
pub fn json_of_message(m: &AnyJsonRpcMessage) -> (r: Json)
    ensures
        r@ == spec_json_of_message(m@),
{
    match m {
        AnyJsonRpcMessage::Request(req) => {
            let mut fields: Vec<(String, Json)> = Vec::new();
            fields.push((String::from_str("jsonrpc"), Json::Str(req.jsonrpc.clone())));
            fields.push((String::from_str("id"), clone_json(&req.id)));
            fields.push((String::from_str("method"), Json::Str(req.method.clone())));
            match &req.params {
                Some(p) => fields.push((String::from_str("params"), clone_json(p))),
                None => (),
            }
            let r = Json::Obj(fields);
            proof {
                lemma_jfields_of_index(r->Obj_0@);
                let want = spec_json_of_request(req@)->Obj_0;
                assert forall|k: int|
                    0 <= k < jfields_of(fields@).len() implies jfields_of(fields@)[k] == want[k] by {
                    assert(jfields_of(fields@)[k] == (fields[k].0@, fields[k].1.view_rec()));
                }
                assert(r@->Obj_0 =~= want);
            }
            r
        },
        AnyJsonRpcMessage::Notification(n) => {
            let mut fields: Vec<(String, Json)> = Vec::new();
            fields.push((String::from_str("jsonrpc"), Json::Str(n.jsonrpc.clone())));
            fields.push((String::from_str("method"), Json::Str(n.method.clone())));
            match &n.params {
                Some(p) => fields.push((String::from_str("params"), clone_json(p))),
                None => (),
            }
            let r = Json::Obj(fields);
            proof {
                lemma_jfields_of_index(r->Obj_0@);
                let want = spec_json_of_notification(n@)->Obj_0;
                assert forall|k: int|
                    0 <= k < jfields_of(fields@).len() implies jfields_of(fields@)[k] == want[k] by {
                    assert(jfields_of(fields@)[k] == (fields[k].0@, fields[k].1.view_rec()));
                }
                assert(r@->Obj_0 =~= want);
            }
            r
        },
        AnyJsonRpcMessage::Response(resp) => {
            let mut fields: Vec<(String, Json)> = Vec::new();
            fields.push((String::from_str("jsonrpc"), Json::Str(resp.jsonrpc.clone())));
            fields.push((String::from_str("id"), clone_json(&resp.id)));
            match &resp.result {
                Some(v) => fields.push((String::from_str("result"), clone_json(v))),
                None => (),
            }
            match &resp.error {
                Some(e) => fields.push((String::from_str("error"), json_of_error(e))),
                None => (),
            }
            let r = Json::Obj(fields);
            proof {
                lemma_jfields_of_index(r->Obj_0@);
                let want = spec_json_of_response(resp@)->Obj_0;
                assert forall|k: int|
                    0 <= k < jfields_of(fields@).len() implies jfields_of(fields@)[k] == want[k] by {
                    assert(jfields_of(fields@)[k] == (fields[k].0@, fields[k].1.view_rec()));
                }
                assert(r@->Obj_0 =~= want);
            }
            r
        },
        AnyJsonRpcMessage::Batch(items) => {
            let mut out: Vec<Json> = Vec::new();
            let mut i: usize = 0;
            proof {
                lemma_jvals_of_index(items@);
            }
            #[verifier::loop_isolation(false)]
            while i < items.len()
                invariant
                    i <= items@.len(),
                    out@.len() == i,
                    forall|k: int|
                        0 <= k < i ==> (#[trigger] out[k].view_rec()) == items[k].view_rec(),
                decreases items@.len() - i,
            {
                let c = clone_json(&items[i]);
                out.push(c);
                i = i + 1;
            }
            let r = Json::Arr(out);
            proof {
                lemma_jvals_of_index(out@);
                assert forall|k: int|
                    0 <= k < out@.len() implies jvals_of(out@)[k] == jvals_of(items@)[k] by {
                    assert(out[k].view_rec() == items[k].view_rec());
                }
                assert(jvals_of(out@) =~= jvals_of(items@));
            }
            r
        },
    }
}

/// Read an error object out of a JSON value.
fn error_of_json(j: &Json) -> (r: Option<JsonRpcError>)
    ensures
        match r {
            Some(e) => spec_error_of_json(j@) == Some(e@),
            None => spec_error_of_json(j@) is None,
        },
{
    let code_j = match j.get("code") {
        Some(c) => c,
        None => {
            return None;
        },
    };
    let code = match code_j.as_i64() {
        Some(c) => c,
        None => {
            return None;
        },
    };
    if code < (i32::MIN as i64) || code > (i32::MAX as i64) {
        return None;
    }
    let msg_j = match j.get("message") {
        Some(m) => m,
        None => {
            return None;
        },
    };
    let message = match msg_j.as_str() {
        Some(s) => s.clone(),
        None => {
            return None;
        },
    };
    let data = match j.get("data") {
        Some(d) => Some(clone_json(d)),
        None => None,
    };
    Some(JsonRpcError { code: code as i32, message, data })
}

/// Classify a JSON value as a message.
pub fn message_of_json(j: Json) -> (r: McpResult<AnyJsonRpcMessage>)
    ensures
        match r {
            Ok(m) => spec_message_of_json(j@) == Some(m@),
            Err(e) => spec_message_of_json(j@) is None && e is ParseError,
        },
{
    match j {
        Json::Arr(items) => {
            return Ok(AnyJsonRpcMessage::Batch(items));
        },
        _ => (),
    }
    if !j.is_object() {
        return Err(
            McpError::parse_error(String::from_str("expected a JSON object or array")),
        );
    }
    let ver = match j.get("jsonrpc") {
        Some(v) => match v.as_str() {
            Some(s) => s.clone(),
            None => {
                return Err(
                    McpError::parse_error(String::from_str("jsonrpc member must be a string")),
                );
            },
        },
        None => {
            return Err(McpError::parse_error(String::from_str("missing jsonrpc member")));
        },
    };
    let method_opt: Option<String> = match j.get("method") {
        Some(m) => match m.as_str() {
            Some(s) => Some(s.clone()),
            None => {
                return Err(
                    McpError::parse_error(String::from_str("method member must be a string")),
                );
            },
        },
        None => None,
    };
    match method_opt {
        Some(method) => {
            let params = match j.get("params") {
                Some(p) => Some(clone_json(p)),
                None => None,
            };
            match j.get("id") {
                Some(id) => {
                    let id = clone_json(id);
                    Ok(
                        AnyJsonRpcMessage::Request(
                            JsonRpcRequest { jsonrpc: ver, id, method, params },
                        ),
                    )
                },
                None => Ok(
                    AnyJsonRpcMessage::Notification(
                        JsonRpcNotification { jsonrpc: ver, method, params },
                    ),
                ),
            }
        },
        None => {
            let id = match j.get("id") {
                Some(id) => clone_json(id),
                None => {
                    return Err(
                        McpError::parse_error(
                            String::from_str("message has neither method nor id"),
                        ),
                    );
                },
            };
            let result = match j.get("result") {
                Some(v) => Some(clone_json(v)),
                None => None,
            };
            let error = match j.get("error") {
                Some(e) => match error_of_json(e) {
                    Some(err) => Some(err),
                    None => {
                        return Err(
                            McpError::parse_error(String::from_str("malformed error member")),
                        );
                    },
                },
                None => None,
            };
            Ok(AnyJsonRpcMessage::Response(JsonRpcResponse { jsonrpc: ver, id, result, error }))
        },
    }
}

/// Parse a JSON-RPC message from text: the text must be JSON and classify
/// as a message. The error is always a parse error.
pub fn parse_message(data: &str) -> (r: McpResult<AnyJsonRpcMessage>)
    ensures
        r matches Err(e) ==> e is ParseError,
        r matches Ok(m) ==> (exists|j: JsonVal| #[trigger] spec_message_of_json(j) == Some(m@)),
        forall|m: MessageV|
            (wf_message(m) && data@ == #[trigger] ser_val(spec_json_of_message(m))) ==> (r
                matches Ok(m2) && m2@ == m),
{
    let parsed = parse_json_text(data);
    match parsed {
        Some(j) => {
            let r = message_of_json(j);
            proof {
                assert forall|m: MessageV|
                    wf_message(m) && data@ == #[trigger] ser_val(spec_json_of_message(m)) implies (
                r matches Ok(m2) && m2@ == m) by {
                    assert(j@ == spec_json_of_message(m));
                    lemma_message_json_round_trip(m);
                }
            }
            r
        },
        None => Err(McpError::parse_error(String::from_str("invalid JSON"))),
    }
}

/// Serialize a JSON-RPC message as compact JSON text.
pub fn serialize_message(message: &AnyJsonRpcMessage) -> (r: McpResult<String>)
    ensures
        r matches Ok(s) && s@ == ser_val(spec_json_of_message(message@)),
{
    let j = json_of_message(message);
    Ok(json_to_string(&j))
}

/// A well-formed message model: every error code fits the wire's 32-bit
/// range and every number in its encoding fits a signed 64-bit integer, as
/// every message this library builds does.
pub open spec fn wf_message(m: MessageV) -> bool {
    &&& (match m {
        MessageV::Response(r) => match r.error {
            Some(e) => i32::MIN <= e.code <= i32::MAX,
            None => true,
        },
        _ => true,
    })
    &&& crate::json::jv_in_range(spec_json_of_message(m))
}

/// Encoding a message as a JSON value and classifying it back yields the
/// same message.
pub proof fn lemma_message_json_round_trip(m: MessageV)
    requires
        wf_message(m),
    ensures
        spec_message_of_json(spec_json_of_message(m)) == Some(m),
{
    reveal_strlit("jsonrpc");
    reveal_strlit("id");
    reveal_strlit("method");
    reveal_strlit("params");
    reveal_strlit("result");
    reveal_strlit("error");
    reveal_strlit("code");
    reveal_strlit("message");
    reveal_strlit("data");
    assert("jsonrpc"@.len() == 7);
    assert("method"@.len() == 6);
    assert("id"@.len() == 2);
    assert("params"@.len() == 6);
    assert("jsonrpc"@ != "id"@);
    assert("method"@[0] == 'm');
    assert("params"@[0] == 'p');
    assert("method"@ != "params"@);
    match m {
        MessageV::Request(r) => {
            let v = spec_json_of_request(r);
            let f = v->Obj_0;
            assert(f[0] == ("jsonrpc"@, JsonVal::Str(r.jsonrpc)));
            assert(f[1] == ("id"@, r.id));
            assert(f[2] == ("method"@, JsonVal::Str(r.method)));
            crate::json::lemma_obj_lookup_index(f, "jsonrpc"@, 0);
            crate::json::lemma_obj_lookup_index(f, "id"@, 1);
            crate::json::lemma_obj_lookup_index(f, "method"@, 2);
            match r.params {
                Some(p) => {
                    assert(f[3] == ("params"@, p));
                    crate::json::lemma_obj_lookup_index(f, "params"@, 3);
                },
                None => {
                    assert(f.len() == 3);
                    crate::json::lemma_obj_lookup_none(f, "params"@);
                },
            }
        },
        MessageV::Notification(n) => {
            let v = spec_json_of_notification(n);
            let f = v->Obj_0;
            assert(f[0] == ("jsonrpc"@, JsonVal::Str(n.jsonrpc)));
            assert(f[1] == ("method"@, JsonVal::Str(n.method)));
            crate::json::lemma_obj_lookup_index(f, "jsonrpc"@, 0);
            assert forall|j: int| 0 <= j < 1 implies (#[trigger] f[j]).0 != "method"@ by {
                assert(f[0].0 == "jsonrpc"@);
            }
            crate::json::lemma_obj_lookup_index(f, "method"@, 1);
            assert forall|j: int| 0 <= j < f.len() implies (#[trigger] f[j]).0 != "id"@ by {
                if j == 0 {
                    assert(f[0].0 == "jsonrpc"@);
                } else if j == 1 {
                    assert(f[1].0 == "method"@);
                } else {
                    assert(f[j].0 == "params"@);
                }
            }
            crate::json::lemma_obj_lookup_none(f, "id"@);
            match n.params {
                Some(p) => {
                    assert(f[2] == ("params"@, p));
                    crate::json::lemma_obj_lookup_index(f, "params"@, 2);
                },
                None => {
                    assert(f.len() == 2);
                    crate::json::lemma_obj_lookup_none(f, "params"@);
                },
            }
        },
        MessageV::Response(r) => {
            let v = spec_json_of_response(r);
            let f = v->Obj_0;
            assert("result"@.len() == 6);
            assert("error"@.len() == 5);
            assert("code"@.len() == 4);
            assert("message"@.len() == 7);
            assert("data"@.len() == 4);
            assert("result"@[0] == 'r');
            assert("method"@ != "result"@);
            assert("jsonrpc"@[0] == 'j' && "message"@[0] == 'm');
            assert("jsonrpc"@ != "message"@);
            assert("code"@[0] == 'c' && "data"@[0] == 'd');
            assert("code"@ != "data"@);
            assert(f[0] == ("jsonrpc"@, JsonVal::Str(r.jsonrpc)));
            assert(f[1] == ("id"@, r.id));
            let ghost keyat = |j: int|
                if j == 0 {
                    "jsonrpc"@
                } else if j == 1 {
                    "id"@
                } else if j == 2 && r.result is Some {
                    "result"@
                } else {
                    "error"@
                };
            assert forall|j: int| 0 <= j < f.len() implies (#[trigger] f[j]).0 == keyat(j) by {
                assert(f[0].0 == "jsonrpc"@);
                assert(f[1].0 == "id"@);
            }
            crate::json::lemma_obj_lookup_index(f, "jsonrpc"@, 0);
            assert forall|j: int| 0 <= j < 1 implies (#[trigger] f[j]).0 != "id"@ by {}
            crate::json::lemma_obj_lookup_index(f, "id"@, 1);
            assert forall|j: int| 0 <= j < f.len() implies (#[trigger] f[j]).0 != "method"@ by {}
            crate::json::lemma_obj_lookup_none(f, "method"@);
            match r.result {
                Some(v2) => {
                    assert(f[2] == ("result"@, v2));
                    assert forall|j: int|
                        0 <= j < 2 implies (#[trigger] f[j]).0 != "result"@ by {}
                    crate::json::lemma_obj_lookup_index(f, "result"@, 2);
                },
                None => {
                    assert forall|j: int|
                        0 <= j < f.len() implies (#[trigger] f[j]).0 != "result"@ by {}
                    crate::json::lemma_obj_lookup_none(f, "result"@);
                },
            }
            match r.error {
                Some(e) => {
                    let ei: int = if r.result is Some {
                        3
                    } else {
                        2
                    };
                    assert(f[ei] == ("error"@, spec_json_of_error(e)));
                    assert forall|j: int|
                        0 <= j < ei implies (#[trigger] f[j]).0 != "error"@ by {}
                    crate::json::lemma_obj_lookup_index(f, "error"@, ei);
                    let ev = spec_json_of_error(e);
                    let ef = ev->Obj_0;
                    assert(ef[0] == ("code"@, JsonVal::Int(e.code)));
                    assert(ef[1] == ("message"@, JsonVal::Str(e.message)));
                    crate::json::lemma_obj_lookup_index(ef, "code"@, 0);
                    assert forall|j: int|
                        0 <= j < 1 implies (#[trigger] ef[j]).0 != "message"@ by {}
                    crate::json::lemma_obj_lookup_index(ef, "message"@, 1);
                    match e.data {
                        Some(d) => {
                            assert(ef[2] == ("data"@, d));
                            assert forall|j: int|
                                0 <= j < 2 implies (#[trigger] ef[j]).0 != "data"@ by {}
                            crate::json::lemma_obj_lookup_index(ef, "data"@, 2);
                        },
                        None => {
                            assert(ef.len() == 2);
                            assert forall|j: int|
                                0 <= j < ef.len() implies (#[trigger] ef[j]).0 != "data"@ by {}
                            crate::json::lemma_obj_lookup_none(ef, "data"@);
                        },
                    }
                    assert(spec_error_of_json(ev) == Some(e));
                },
                None => {
                    assert forall|j: int|
                        0 <= j < f.len() implies (#[trigger] f[j]).0 != "error"@ by {}
                    crate::json::lemma_obj_lookup_none(f, "error"@);
                },
            }
        },
        MessageV::Batch(items) => {
        },
    }
}

} // verus!
