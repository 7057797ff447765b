//! The protocol dispatcher: routes validated JSON-RPC messages to the
//! feature managers, enforces the initialization gate, tracks active
//! requests, and always answers a valid request with exactly one response
//! carrying the same id.

use vstd::prelude::*;
use vstd::string::StringExecFns;
use crate::json::{Json, JsonVal, jv_get, jvals_of, jfields_of, lemma_jvals_of_index,
    lemma_jfields_of_index, clone_json, json_eq};
use crate::messages::{AnyJsonRpcMessage, JsonRpcRequest, JsonRpcNotification, JsonRpcResponse,
    JsonRpcError, MessageV, RequestV, spec_message_of_json, message_of_json,
    spec_json_of_message, spec_protocol_version, spec_jsonrpc_version, protocol_version};
use crate::error::{McpError, McpResult, spec_json_rpc_code, spec_error_message};
use crate::validation::{validate_request, validate_notification, validate_response,
    validate_method_name, spec_valid_request, spec_valid_notification, spec_valid_response,
    spec_valid_method_name};
use crate::types::{PaginationParams, PaginationResult, ContentV, spec_content_json,
    spec_prompt_message_json, spec_implementation_json, opt_member};
use crate::tools::{ToolManager, ToolV, spec_tool_json, spec_tool_views, ToolResultV,
    spec_handler_execute, spec_handler_validate_ok};
use crate::prompts::{PromptManager, PromptV, spec_prompt_json, spec_prompt_views, PromptResultV,
    spec_generator_result, spec_generator_args_ok, args_view};
use crate::resources::{ResourceManager, spec_resource_views, spec_template_views,
    spec_any_claims, spec_first_claiming, subscribe_post, unsubscribe_post, spec_can_handle};
use crate::registry::{assoc_lookup, pairs_view};
use crate::pagination::{spec_page, spec_next_cursor, spec_cursor_start};
use crate::strings::{str_eq, dec_of};
use crate::validation::spec_valid_logging_level;

verus! {

broadcast use vstd::string::group_string_axioms;

/// The size of a JSON value: itself plus everything beneath it.
pub open spec fn jv_size(v: JsonVal) -> nat
    decreases v,
{
    match v {
        JsonVal::Arr(items) => 1 + jvs_size(items),
        JsonVal::Obj(fields) => 1 + jfs_size(fields),
        _ => 1,
    }
}

/// Total size of a sequence of JSON values.
pub open spec fn jvs_size(items: Seq<JsonVal>) -> nat
    decreases items,
{
    if items.len() == 0 {
        0
    } else {
        jv_size(items.first()) + jvs_size(items.drop_first())
    }
}

/// Total size of the values of an object.
pub open spec fn jfs_size(fields: Seq<(Seq<char>, JsonVal)>) -> nat
    decreases fields,
{
    if fields.len() == 0 {
        0
    } else {
        jv_size(fields.first().1) + jfs_size(fields.drop_first())
    }
}

/// The recursion measure of a message: batches weigh their contents.
pub open spec fn msg_size(m: MessageV) -> nat {
    match m {
        MessageV::Batch(items) => 1 + jvs_size(items),
        _ => 0,
    }
}

/// Every element of a sequence weighs no more than the sequence.
proof fn lemma_jvs_size_element(items: Seq<JsonVal>, i: int)
    requires
        0 <= i < items.len(),
    ensures
        jv_size(items[i]) <= jvs_size(items),
    decreases items.len(),
{
    if i == 0 {
    } else {
        lemma_jvs_size_element(items.drop_first(), i - 1);
    }
}

/// Whether a batch element is handled without a batch-level error: it
/// classifies as a message that the dispatcher accepts.
pub open spec fn spec_elem_ok(v: JsonVal) -> bool
    decreases jv_size(v), 1nat,
{
    if v is Arr {
        v->Arr_0.len() > 0 && spec_elems_ok(v->Arr_0)
    } else {
        match spec_message_of_json(v) {
            Some(MessageV::Request(req)) => spec_valid_request(req) && spec_valid_method_name(
                req.method,
            ),
            Some(MessageV::Notification(n)) => spec_valid_notification(n)
                && spec_valid_method_name(n.method),
            Some(MessageV::Response(resp)) => spec_valid_response(resp),
            Some(MessageV::Batch(items)) => false,
            None => false,
        }
    }
}

/// Whether every element of a batch is accepted.
pub open spec fn spec_elems_ok(items: Seq<JsonVal>) -> bool
    decreases jvs_size(items), 2nat,
    via spec_elems_ok_decreases
{
    forall|k: int| 0 <= k < items.len() ==> spec_elem_ok(#[trigger] items[k])
}

#[via_fn]
proof fn spec_elems_ok_decreases(items: Seq<JsonVal>) {
    assert forall|k: int| 0 <= k < items.len() implies jv_size(#[trigger] items[k]) <= jvs_size(
        items,
    ) by {
        lemma_jvs_size_element(items, k);
    }
}

/// Whether the dispatcher accepts a message: a request or notification must
/// be valid with an approved method name, a response must be valid, and a
/// batch must be non-empty with every element accepted.
pub open spec fn spec_msg_ok(m: MessageV) -> bool {
    match m {
        MessageV::Request(req) => spec_valid_request(req) && spec_valid_method_name(req.method),
        MessageV::Notification(n) => spec_valid_notification(n) && spec_valid_method_name(n.method),
        MessageV::Response(resp) => spec_valid_response(resp),
        MessageV::Batch(items) => items.len() > 0 && spec_elems_ok(items),
    }
}

/// An accepted element is one that classifies as an accepted message.
proof fn lemma_elem_ok_msg(v: JsonVal)
    ensures
        spec_elem_ok(v) == (match spec_message_of_json(v) {
            Some(m) => spec_msg_ok(m),
            None => false,
        }),
{
}

/// The requests among a batch's elements, in order.
pub open spec fn spec_batch_requests(items: Seq<JsonVal>) -> Seq<RequestV>
    decreases items.len(),
{
    if items.len() == 0 {
        Seq::empty()
    } else {
        match spec_message_of_json(items.last()) {
            Some(MessageV::Request(req)) => spec_batch_requests(items.drop_last()).push(req),
            _ => spec_batch_requests(items.drop_last()),
        }
    }
}

/// Extending a batch prefix by one element extends its requests exactly
/// when the element classifies as a request.
pub proof fn lemma_batch_requests_snoc(items: Seq<JsonVal>, i: int)
    requires
        0 <= i < items.len(),
    ensures
        spec_batch_requests(items.subrange(0, i + 1)) == (match spec_message_of_json(items[i]) {
            Some(MessageV::Request(req)) => spec_batch_requests(items.subrange(0, i)).push(req),
            _ => spec_batch_requests(items.subrange(0, i)),
        }),
{
    assert(items.subrange(0, i + 1).drop_last() =~= items.subrange(0, i));
    assert(items.subrange(0, i + 1).last() == items[i]);
    assert(items.subrange(0, i + 1).len() == i + 1);
}

/// A response element of a batch answer: the encoding of a response that
/// wraps a routed outcome for `req`, from some handler state.
pub open spec fn resp_answers(v: JsonVal, req: RequestV) -> bool {
    exists|h0: ProtocolHandler, mid: ProtocolHandler, out: Result<JsonVal, McpError>|
        #[trigger] route_post(h0, mid, req, out) && v == spec_json_of_message(
            MessageV::Response(spec_wrap(req.id, out)),
        )
}

/// The messages the dispatcher answers before initialization.
pub open spec fn spec_pre_init_method(m: Seq<char>) -> bool {
    m == "initialize"@ || m == "ping"@
}

/// The protocol dispatcher's state: the three feature managers, the ids of
/// requests being handled, and the initialized flag.
pub struct ProtocolHandler {
    pub resource_manager: ResourceManager,
    pub tool_manager: ToolManager,
    pub prompt_manager: PromptManager,
    pub active_requests: Vec<Json>,
    pub initialized: bool,
}

/// Whether an id occurs among the active requests.
pub open spec fn spec_active(active: Seq<Json>, id: JsonVal) -> bool {
    exists|i: int| 0 <= i < active.len() && (#[trigger] active[i])@ == id
}

impl ProtocolHandler {
    /// Well-formed: all managers well-formed.
    pub open spec fn wf(&self) -> bool {
        &&& self.resource_manager.wf()
        &&& self.tool_manager.wf()
        &&& self.prompt_manager.wf()
    }

    /// A dispatcher over the given managers, uninitialized, idle.
    pub fn new(resource_manager: ResourceManager, tool_manager: ToolManager,
        prompt_manager: PromptManager) -> (r: Self)
        requires
            resource_manager.wf(),
            tool_manager.wf(),
            prompt_manager.wf(),
        ensures
            r.wf(),
            !r.initialized,
            r.active_requests@.len() == 0,
            r.resource_manager == resource_manager,
            r.tool_manager == tool_manager,
            r.prompt_manager == prompt_manager,
    {
        ProtocolHandler {
            resource_manager,
            tool_manager,
            prompt_manager,
            active_requests: Vec::new(),
            initialized: false,
        }
    }

    /// Whether the initialize handshake has completed.
    pub fn is_initialized(&self) -> (r: bool)
        ensures
            r == self.initialized,
    {
        self.initialized
    }

    /// Drop an id from the active requests, wherever it occurs.
    #[verifier::loop_isolation(false)]
    fn remove_active(&mut self, id: &Json)
        ensures
            final(self).resource_manager == old(self).resource_manager,
            final(self).tool_manager == old(self).tool_manager,
            final(self).prompt_manager == old(self).prompt_manager,
            final(self).initialized == old(self).initialized,
            !spec_active(final(self).active_requests@, id@),
    {
        let mut kept: Vec<Json> = Vec::new();
        let n = self.active_requests.len();
        let mut i: usize = 0;
        while i < n
            invariant
                i <= n,
                n == self.active_requests@.len(),
                forall|k: int| 0 <= k < kept@.len() ==> (#[trigger] kept@[k])@ != id@,
            decreases n - i,
        {
            if !json_eq(&self.active_requests[i], id) {
                let c = clone_json(&self.active_requests[i]);
                kept.push(c);
            }
            i = i + 1;
        }
        self.active_requests = kept;
    }

    /// Record and clear cancellation: a `notifications/cancelled` carrying a
    /// `requestId` removes that id from the active requests.
    fn handle_cancelled_notification(&mut self, notification: &JsonRpcNotification)
        ensures
            final(self).resource_manager == old(self).resource_manager,
            final(self).tool_manager == old(self).tool_manager,
            final(self).prompt_manager == old(self).prompt_manager,
            final(self).initialized == old(self).initialized,
            match notification@.params {
                Some(p) => match jv_get(p, "requestId"@) {
                    Some(id) => !spec_active(final(self).active_requests@, id),
                    None => final(self).active_requests == old(self).active_requests,
                },
                None => final(self).active_requests == old(self).active_requests,
            },
    {
        match &notification.params {
            Some(params) => {
                let found = match params.get("requestId") {
                    Some(request_id) => Some(clone_json(request_id)),
                    None => None,
                };
                match found {
                    Some(request_id) => {
                        self.remove_active(&request_id);
                    },
                    None => (),
                }
            },
            None => (),
        }
    }

    /// Mark the server initialized: the `notifications/initialized`
    /// notification is idempotent.
    fn handle_initialized_notification(&mut self)
        ensures
            *final(self) == (ProtocolHandler { initialized: true, ..*old(self) }),
    {
        self.initialized = true;
    }

    /// Handle a notification: validate it, then act on the known
    /// notification methods; unknown notifications are ignored. No response
    /// is ever produced. Fails exactly on an invalid notification or an
    /// unknown method prefix.
    pub fn handle_notification(&mut self, notification: &JsonRpcNotification) -> (r: McpResult<()>)
        requires
            old(self).wf(),
        ensures
            final(self).wf(),
            old(self).initialized ==> final(self).initialized,
            r is Ok <==> (spec_valid_notification(notification@) && spec_valid_method_name(
                notification@.method,
            )),
            r is Ok && notification@.method == "notifications/initialized"@ ==> final(self).initialized,
            r matches Err(e) ==> *final(self) == *old(self) && (e is InvalidRequest
                || e is MethodNotFound),
            final(self).resource_manager == old(self).resource_manager,
            final(self).tool_manager == old(self).tool_manager,
            final(self).prompt_manager == old(self).prompt_manager,
    {
        match validate_notification(notification) {
            Ok(_) => (),
            Err(e) => {
                return Err(e);
            },
        }
        match validate_method_name(notification.method.as_str()) {
            Ok(_) => (),
            Err(e) => {
                return Err(e);
            },
        }
        if str_eq(notification.method.as_str(), "notifications/initialized") {
            self.handle_initialized_notification();
            Ok(())
        } else if str_eq(notification.method.as_str(), "notifications/cancelled") {
            self.handle_cancelled_notification(notification);
            Ok(())
        } else {
            Ok(())
        }
    }

    /// Handle an inbound response: it is validated and acknowledged; the
    /// dispatcher state does not change. Fails exactly on an invalid
    /// response.
    pub fn handle_response(&mut self, response: &JsonRpcResponse) -> (r: McpResult<()>)
        requires
            old(self).wf(),
        ensures
            final(self).wf(),
            *final(self) == *old(self),
            r is Ok <==> spec_valid_response(response@),
            r matches Err(e) ==> e is InvalidRequest,
    {
        match validate_response(response) {
            Ok(_) => Ok(()),
            Err(e) => Err(e),
        }
    }
}

/// The empty JSON object.
pub open spec fn spec_empty_obj() -> JsonVal {
    JsonVal::Obj(Seq::empty())
}

/// The capabilities object advertised in the handshake: logging always, and
/// each feature exactly when its manager is enabled.
pub open spec fn spec_capabilities_json(prompts: bool, resources: bool, tools: bool) -> JsonVal {
    JsonVal::Obj(
        seq![("logging"@, spec_empty_obj())] + (if prompts {
            seq![("prompts"@, JsonVal::Obj(seq![("listChanged"@, JsonVal::Bool(true))]))]
        } else {
            Seq::empty()
        }) + (if resources {
            seq![
                (
                    "resources"@,
                    JsonVal::Obj(
                        seq![
                            ("subscribe"@, JsonVal::Bool(true)),
                            ("listChanged"@, JsonVal::Bool(true)),
                        ],
                    ),
                ),
            ]
        } else {
            Seq::empty()
        }) + (if tools {
            seq![("tools"@, JsonVal::Obj(seq![("listChanged"@, JsonVal::Bool(true))]))]
        } else {
            Seq::empty()
        }),
    )
}

/// The handshake result: protocol version, capabilities, server identity
/// and instructions.
pub open spec fn spec_initialize_result_json(prompts: bool, resources: bool, tools: bool)
    -> JsonVal {
    JsonVal::Obj(
        seq![
            ("protocolVersion"@, JsonVal::Str(spec_protocol_version())),
            ("capabilities"@, spec_capabilities_json(prompts, resources, tools)),
            ("serverInfo"@, spec_implementation_json("mcp-server-rust"@, "0.1.0"@)),
            (
                "instructions"@,
                JsonVal::Str("A Model Context Protocol server implementation in Rust"@),
            ),
        ],
    )
}

/// Valid handshake parameters: a protocol version string, a capabilities
/// object, and a client identity with name and version strings.
pub open spec fn spec_valid_initialize_params(p: Option<JsonVal>) -> bool {
    match p {
        Some(v) => {
            &&& (jv_get(v, "protocolVersion"@) matches Some(JsonVal::Str(_)))
            &&& (jv_get(v, "capabilities"@) matches Some(JsonVal::Obj(_)))
            &&& match jv_get(v, "clientInfo"@) {
                Some(ci) => (jv_get(ci, "name"@) matches Some(JsonVal::Str(_))) && (jv_get(
                    ci,
                    "version"@,
                ) matches Some(JsonVal::Str(_))),
                None => false,
            }
        },
        None => false,
    }
}

/// How the dispatcher reads pagination from request parameters: absent
/// parameters paginate nothing; an object with an optional string cursor
/// paginates; anything else falls back to no pagination.
pub open spec fn spec_pagination_of(p: Option<JsonVal>) -> Option<Option<Seq<char>>> {
    match p {
        None => None,
        Some(v) => {
            if !(v is Obj) {
                None
            } else {
                match jv_get(v, "cursor"@) {
                    None => Some(None),
                    Some(JsonVal::Str(s)) => Some(Some(s)),
                    Some(_) => None,
                }
            }
        },
    }
}

/// A paginated list response: the items under `tag`, and the next cursor
/// when more follow.
pub open spec fn spec_list_json(tag: Seq<char>, items: Seq<JsonVal>, next: Option<Seq<char>>)
    -> JsonVal {
    JsonVal::Obj(
        seq![(tag, JsonVal::Arr(items))] + match next {
            Some(c) => seq![("nextCursor"@, JsonVal::Str(c))],
            None => Seq::empty(),
        },
    )
}

/// The items and next cursor produced by paginating a sequence under the
/// dispatcher's pagination reading.
pub open spec fn spec_paged<T>(all: Seq<T>, pagination: Option<Option<Seq<char>>>) -> (
    Seq<T>,
    Option<Seq<char>>,
) {
    match pagination {
        None => (all, None),
        Some(cursor) => {
            let start = spec_cursor_start(cursor);
            (spec_page(all, start), spec_next_cursor(all, start))
        },
    }
}

/// The response of a tool call: its content items and the error flag.
pub open spec fn spec_tool_result_json(res: ToolResultV) -> JsonVal {
    JsonVal::Obj(
        seq![
            ("content"@, JsonVal::Arr(Seq::new(res.content.len(), |i: int| spec_content_json(res.content[i])))),
            ("isError"@, JsonVal::Bool(res.is_error)),
        ],
    )
}

/// The response of a prompt expansion: its description, null when absent,
/// and its messages.
pub open spec fn spec_prompt_result_json(res: PromptResultV) -> JsonVal {
    JsonVal::Obj(
        seq![
            (
                "description"@,
                match res.description {
                    Some(d) => JsonVal::Str(d),
                    None => JsonVal::Null,
                },
            ),
            (
                "messages"@,
                JsonVal::Arr(
                    Seq::new(res.messages.len(), |i: int| spec_prompt_message_json(res.messages[i])),
                ),
            ),
        ],
    )
}

/// The constant answer of `sampling/createMessage`.
pub open spec fn spec_sampling_json() -> JsonVal {
    JsonVal::Obj(
        seq![
            ("role"@, JsonVal::Str("assistant"@)),
            (
                "content"@,
                JsonVal::Obj(
                    seq![
                        ("type"@, JsonVal::Str("text"@)),
                        (
                            "text"@,
                            JsonVal::Str(
                                "This is a placeholder response from the MCP server."@,
                            ),
                        ),
                    ],
                ),
            ),
        ],
    )
}

/// The constant answer of `completion/complete`.
pub open spec fn spec_completion_json() -> JsonVal {
    JsonVal::Obj(
        seq![
            (
                "completion"@,
                JsonVal::Obj(
                    seq![
                        ("values"@, JsonVal::Arr(Seq::empty())),
                        ("total"@, JsonVal::Int(0)),
                        ("hasMore"@, JsonVal::Bool(false)),
                    ],
                ),
            ),
        ],
    )
}

/// The constant answer of `roots/list`.
pub open spec fn spec_roots_json() -> JsonVal {
    JsonVal::Obj(seq![("roots"@, JsonVal::Arr(Seq::empty()))])
}

/// Build the empty JSON object.
pub fn empty_obj() -> (r: Json)
    ensures
        r@ == spec_empty_obj(),
{
    let fields: Vec<(String, Json)> = Vec::new();
    let r = Json::Obj(fields);
    proof {
        assert(r@->Obj_0 =~= Seq::<(Seq<char>, JsonVal)>::empty());
    }
    r
}

impl ProtocolHandler {
    /// Answer the initialize handshake: validate the parameters, mark the
    /// server initialized, and return the protocol version, capabilities and
    /// server identity. Fails with invalid params exactly on malformed
    /// parameters, leaving the state unchanged.
    #[verifier::rlimit(100)]
    pub fn handle_initialize(&mut self, request: &JsonRpcRequest) -> (r: McpResult<Json>)
        requires
            old(self).wf(),
        ensures
            final(self).wf(),
            final(self).resource_manager == old(self).resource_manager,
            final(self).tool_manager == old(self).tool_manager,
            final(self).prompt_manager == old(self).prompt_manager,
            final(self).active_requests == old(self).active_requests,
            spec_valid_initialize_params(request@.params) ==> (r matches Ok(v) && v@
                == spec_initialize_result_json(
                old(self).prompt_manager.spec_enabled(),
                old(self).resource_manager.spec_enabled(),
                old(self).tool_manager.spec_enabled(),
            ) && final(self).initialized),
            !spec_valid_initialize_params(request@.params) ==> (r matches Err(e) && e
                is InvalidParams && *final(self) == *old(self)),
    {
        let params = match &request.params {
            Some(p) => p,
            None => {
                return Err(
                    McpError::invalid_params(
                        String::from_str("Initialize request requires parameters"),
                    ),
                );
            },
        };
        let ok_version = match params.get("protocolVersion") {
            Some(v) => v.is_string(),
            None => false,
        };
        let ok_caps = match params.get("capabilities") {
            Some(v) => v.is_object(),
            None => false,
        };
        let ok_client = match params.get("clientInfo") {
            Some(ci) => {
                let ok_name = match ci.get("name") {
                    Some(n) => n.is_string(),
                    None => false,
                };
                let ok_ver = match ci.get("version") {
                    Some(n) => n.is_string(),
                    None => false,
                };
                ok_name && ok_ver
            },
            None => false,
        };
        if !(ok_version && ok_caps && ok_client) {
            return Err(
                McpError::invalid_params(String::from_str("Invalid initialize parameters")),
            );
        }
        let prompts_enabled = self.prompt_manager.is_enabled();
        let resources_enabled = self.resource_manager.is_enabled();
        let tools_enabled = self.tool_manager.is_enabled();
        let mut caps: Vec<(String, Json)> = Vec::new();
        caps.push((String::from_str("logging"), empty_obj()));
        if prompts_enabled {
            let mut p: Vec<(String, Json)> = Vec::new();
            p.push((String::from_str("listChanged"), Json::Bool(true)));
            let pj = Json::Obj(p);
            proof {
                lemma_jfields_of_index(pj->Obj_0@);
                assert(pj@->Obj_0 =~= seq![("listChanged"@, JsonVal::Bool(true))]);
            }
            caps.push((String::from_str("prompts"), pj));
        }
        if resources_enabled {
            let mut p: Vec<(String, Json)> = Vec::new();
            p.push((String::from_str("subscribe"), Json::Bool(true)));
            p.push((String::from_str("listChanged"), Json::Bool(true)));
            let pj = Json::Obj(p);
            proof {
                lemma_jfields_of_index(pj->Obj_0@);
                assert(jfields_of(pj->Obj_0@)[0] == (
                    pj->Obj_0@[0].0@,
                    pj->Obj_0@[0].1.view_rec(),
                ));
                assert(jfields_of(pj->Obj_0@)[1] == (
                    pj->Obj_0@[1].0@,
                    pj->Obj_0@[1].1.view_rec(),
                ));
                assert(pj@->Obj_0 =~= seq![
                    ("subscribe"@, JsonVal::Bool(true)),
                    ("listChanged"@, JsonVal::Bool(true)),
                ]);
            }
            caps.push((String::from_str("resources"), pj));
        }
        if tools_enabled {
            let mut p: Vec<(String, Json)> = Vec::new();
            p.push((String::from_str("listChanged"), Json::Bool(true)));
            let pj = Json::Obj(p);
            proof {
                lemma_jfields_of_index(pj->Obj_0@);
                assert(pj@->Obj_0 =~= seq![("listChanged"@, JsonVal::Bool(true))]);
            }
            caps.push((String::from_str("tools"), pj));
        }
        let caps_json = Json::Obj(caps);
        proof {
            lemma_jfields_of_index(caps_json->Obj_0@);
            let want = spec_capabilities_json(prompts_enabled, resources_enabled, tools_enabled);
            let fs = caps_json->Obj_0@;
            assert forall|k: int|
                0 <= k < jfields_of(fs).len() implies jfields_of(fs)[k] == want->Obj_0[k] by {
                assert(jfields_of(fs)[k] == (fs[k].0@, fs[k].1.view_rec()));
            }
            assert(caps_json@->Obj_0 =~= want->Obj_0);
        }
        let mut server_info: Vec<(String, Json)> = Vec::new();
        server_info.push((
            String::from_str("name"),
            Json::Str(String::from_str("mcp-server-rust")),
        ));
        server_info.push((String::from_str("version"), Json::Str(String::from_str("0.1.0"))));
        let server_info_json = Json::Obj(server_info);
        proof {
            lemma_jfields_of_index(server_info_json->Obj_0@);
            let fs = server_info_json->Obj_0@;
            let want = spec_implementation_json("mcp-server-rust"@, "0.1.0"@);
            assert forall|k: int|
                0 <= k < jfields_of(fs).len() implies jfields_of(fs)[k] == want->Obj_0[k] by {
                assert(jfields_of(fs)[k] == (fs[k].0@, fs[k].1.view_rec()));
            }
            assert(server_info_json@->Obj_0 =~= want->Obj_0);
        }
        let mut fields: Vec<(String, Json)> = Vec::new();
        fields.push((String::from_str("protocolVersion"), Json::Str(protocol_version())));
        fields.push((String::from_str("capabilities"), caps_json));
        fields.push((String::from_str("serverInfo"), server_info_json));
        fields.push((
            String::from_str("instructions"),
            Json::Str(
                String::from_str("A Model Context Protocol server implementation in Rust"),
            ),
        ));
        let result = Json::Obj(fields);
        proof {
            lemma_jfields_of_index(result->Obj_0@);
            let want = spec_initialize_result_json(
                prompts_enabled,
                resources_enabled,
                tools_enabled,
            );
            let fs = result->Obj_0@;
            assert forall|k: int|
                0 <= k < jfields_of(fs).len() implies jfields_of(fs)[k] == want->Obj_0[k] by {
                assert(jfields_of(fs)[k] == (fs[k].0@, fs[k].1.view_rec()));
            }
            assert(result@->Obj_0 =~= want->Obj_0);
        }
        self.initialized = true;
        Ok(result)
    }

    /// Answer a ping: the empty object.
    pub fn handle_ping(&self) -> (r: Json)
        ensures
            r@ == spec_empty_obj(),
    {
        empty_obj()
    }

    /// Read the dispatcher's pagination from request parameters.
    fn read_pagination(params: &Option<Json>) -> (r: Option<PaginationParams>)
        ensures
            match (spec_pagination_of(
                match params {
                    Some(p) => Some(p@),
                    None => None,
                },
            ), &r) {
                (None, None) => true,
                (Some(c0), Some(p)) => match (c0, &p.cursor) {
                    (None, None) => true,
                    (Some(s0), Some(s1)) => s1@ == s0,
                    _ => false,
                },
                _ => false,
            },
    {
        match params {
            Some(p) => {
                if !p.is_object() {
                    return None;
                }
                match p.get("cursor") {
                    None => Some(PaginationParams { cursor: None }),
                    Some(c) => match c.as_str() {
                        Some(s) => Some(PaginationParams { cursor: Some(s.clone()) }),
                        None => None,
                    },
                }
            },
            None => None,
        }
    }
}


/// Keys mapped to the character sequences of their values.
pub open spec fn args_chars(s: Seq<(Seq<char>, String)>) -> Seq<(Seq<char>, Seq<char>)> {
    Seq::new(s.len(), |i: int| (s[i].0, s[i].1@))
}

/// The members of an object whose values are strings, in order.
pub open spec fn spec_filter_str_fields(fields: Seq<(Seq<char>, JsonVal)>) -> Seq<
    (Seq<char>, Seq<char>),
>
    decreases fields,
{
    if fields.len() == 0 {
        Seq::empty()
    } else {
        spec_filter_str_fields(fields.drop_last()) + (match fields.last().1 {
            JsonVal::Str(v) => seq![(fields.last().0, v)],
            _ => Seq::empty(),
        })
    }
}

/// The string arguments the dispatcher hands to a prompt generator: the
/// string-valued members of the `arguments` object, when there is one.
pub open spec fn spec_prompt_args_of(params: Option<JsonVal>) -> Option<
    Seq<(Seq<char>, Seq<char>)>,
> {
    match params {
        Some(p) => match jv_get(p, "arguments"@) {
            Some(JsonVal::Obj(fields)) => Some(spec_filter_str_fields(fields)),
            _ => None,
        },
        None => None,
    }
}

/// A string member read out of request parameters, or nothing.
pub open spec fn spec_str_param(params: Option<JsonVal>, key: Seq<char>) -> Option<Seq<char>> {
    match params {
        Some(p) => match jv_get(p, key) {
            Some(JsonVal::Str(s)) => Some(s),
            _ => None,
        },
        None => None,
    }
}

/// The outcome of calling a named tool with given arguments.
pub open spec fn post_tools_call_named(tm: ToolManager, name: Seq<char>, argsv: Option<JsonVal>,
    out: Result<JsonVal, McpError>) -> bool {
    if !tm.spec_enabled() {
        out matches Err(e) && e matches McpError::Tool(msg) && msg@ == "Tool feature is disabled"@
    } else if assoc_lookup(tm.spec_tools(), name) is None {
        out matches Err(e) && e matches McpError::Tool(msg) && msg@ == "Tool not found: "@ + name
    } else if assoc_lookup(tm.spec_handlers(), name) is None {
        out matches Err(e) && e matches McpError::Tool(msg) && msg@
            == "No handler found for tool: "@ + name
    } else {
        let kind = assoc_lookup(tm.spec_handlers(), name)->Some_0;
        if !spec_handler_validate_ok(kind, argsv) {
            out matches Err(e) && e is InvalidParams
        } else {
            match spec_handler_execute(kind, argsv) {
                Ok(res) => out matches Ok(v) && v == spec_tool_result_json(res),
                Err(msg) => out matches Err(e) && e matches McpError::InvalidParams(mm) && mm@
                    == msg,
            }
        }
    }
}

/// The outcome of `tools/call` for given parameters.
pub open spec fn post_tools_call(tm: ToolManager, params: Option<JsonVal>, out: Result<
    JsonVal,
    McpError,
>) -> bool {
    match spec_str_param(params, "name"@) {
        Some(name) => {
            let argsv = jv_get(params->Some_0, "arguments"@);
            post_tools_call_named(tm, name, argsv, out)
        },
        None => out matches Err(e) && e is InvalidParams,
    }
}

/// The outcome of `prompts/get` for a named prompt.
pub open spec fn post_prompts_get_named(pm: PromptManager, name: Seq<char>,
    params: Option<JsonVal>, out: Result<JsonVal, McpError>) -> bool {
    if !pm.spec_enabled() {
        out matches Err(e) && e matches McpError::Prompt(msg) && msg@
            == "Prompt feature is disabled"@
    } else if assoc_lookup(pm.spec_prompts(), name) is None {
        out matches Err(e) && e matches McpError::Prompt(msg) && msg@ == "Prompt not found: "@
            + name
    } else {
        exists|args: Option<Seq<(Seq<char>, String)>>|
            #[trigger] post_prompt_generation(pm, name, args, out) && args_match(
                args,
                spec_prompt_args_of(params),
            )
    }
}

/// Whether extracted arguments correspond to the parameters' string members.
pub open spec fn args_match(args: Option<Seq<(Seq<char>, String)>>, want: Option<
    Seq<(Seq<char>, Seq<char>)>,
>) -> bool {
    match (args, want) {
        (Some(a), Some(c)) => args_chars(a) == c,
        (None, None) => true,
        _ => false,
    }
}

/// The outcome of generating a prompt with extracted arguments.
pub open spec fn post_prompt_generation(pm: PromptManager, name: Seq<char>, args: Option<
    Seq<(Seq<char>, String)>,
>, out: Result<JsonVal, McpError>) -> bool {
    match assoc_lookup(pm.spec_generators(), name) {
        Some(kind) => {
            if !spec_generator_args_ok(kind, args) {
                out matches Err(e) && e is InvalidParams
            } else {
                out matches Ok(v) && v == spec_prompt_result_json(
                    spec_generator_result(kind, args),
                )
            }
        },
        None => {
            let prompt = assoc_lookup(pm.spec_prompts(), name)->Some_0;
            out matches Ok(v) && v == spec_prompt_result_json(
                PromptResultV { messages: Seq::empty(), description: prompt@.description },
            )
        },
    }
}

/// The outcome of `resources/read` for a given URI.
pub open spec fn post_resources_read_uri(rm: ResourceManager, uri: Seq<char>, out: Result<
    JsonVal,
    McpError,
>) -> bool {
    if !rm.spec_enabled() {
        out matches Err(e) && e matches McpError::Resource(msg) && msg@
            == "Resource feature is disabled"@
    } else {
        match spec_first_claiming(rm.spec_providers(), uri) {
            None => out matches Err(e) && e matches McpError::Resource(msg) && msg@
                == "No provider found for resource: "@ + uri,
            Some(i) => post_read_from(rm.spec_providers()[i].1, uri, out),
        }
    }
}

/// The outcome of reading a URI from a provider's contents table.
pub open spec fn post_read_from(prov: crate::resources::ResourceProvider, uri: Seq<char>,
    out: Result<JsonVal, McpError>) -> bool {
    match assoc_lookup(pairs_view(prov.contents@), uri) {
        Some(c) => out matches Ok(v) && v == spec_contents_list_json(c),
        None => out matches Err(e) && e matches McpError::Resource(msg) && msg@
            == "Resource not available: "@ + uri,
    }
}

/// The response of a read: its contents.
pub open spec fn spec_contents_list_json(c: Vec<crate::types::ResourceContents>) -> JsonVal {
    JsonVal::Obj(
        seq![
            (
                "contents"@,
                JsonVal::Arr(
                    Seq::new(c@.len(), |k: int| crate::types::spec_contents_json(c@[k]@)),
                ),
            ),
        ],
    )
}

/// The outcome of `resources/subscribe` for given parameters, and its
/// effect on the resource manager.
pub open spec fn post_resources_subscribe(rm0: ResourceManager, rm1: ResourceManager,
    params: Option<JsonVal>, out: Result<JsonVal, McpError>) -> bool {
    match spec_str_param(params, "uri"@) {
        Some(uri) => {
            if !rm0.spec_enabled() {
                rm1 == rm0 && (out matches Err(e) && e matches McpError::Resource(msg) && msg@
                    == "Resource feature is disabled"@)
            } else if !spec_any_claims(rm0.spec_providers(), uri) {
                rm1 == rm0 && (out matches Err(e) && e matches McpError::Resource(msg) && msg@
                    == "No provider found for resource: "@ + uri)
            } else {
                exists|fired: bool|
                    #[trigger] subscribe_post(rm0, rm1, uri, "default-client"@, fired) && out
                        == Result::<JsonVal, McpError>::Ok(spec_empty_obj())
            }
        },
        None => rm1 == rm0 && (out matches Err(e) && e is InvalidParams),
    }
}

/// The outcome of `resources/unsubscribe` for given parameters, and its
/// effect on the resource manager.
pub open spec fn post_resources_unsubscribe(rm0: ResourceManager, rm1: ResourceManager,
    params: Option<JsonVal>, out: Result<JsonVal, McpError>) -> bool {
    match spec_str_param(params, "uri"@) {
        Some(uri) => exists|fired: bool|
            #[trigger] unsubscribe_post(rm0, rm1, uri, "default-client"@, fired) && out
                == Result::<JsonVal, McpError>::Ok(spec_empty_obj()),
        None => rm1 == rm0 && (out matches Err(e) && e is InvalidParams),
    }
}

/// The outcome of `logging/setLevel` for given parameters.
pub open spec fn post_logging_set_level(params: Option<JsonVal>, out: Result<JsonVal, McpError>)
    -> bool {
    match spec_str_param(params, "level"@) {
        Some(level) => {
            if spec_valid_logging_level(level) {
                out == Result::<JsonVal, McpError>::Ok(spec_empty_obj())
            } else {
                out matches Err(e) && e is InvalidParams
            }
        },
        None => out matches Err(e) && e is InvalidParams,
    }
}

/// The outcome of `tools/list` for given parameters.
pub open spec fn post_tools_list(tm: ToolManager, params: Option<JsonVal>, out: Result<
    JsonVal,
    McpError,
>) -> bool {
    if tm.spec_enabled() {
        let paged = spec_paged(spec_tool_views(tm.spec_tools()), spec_pagination_of(params));
        out matches Ok(v) && v == spec_list_json(
            "tools"@,
            Seq::new(paged.0.len(), |i: int| spec_tool_json(paged.0[i])),
            paged.1,
        )
    } else {
        out matches Err(e) && e matches McpError::Tool(msg) && msg@ == "Tool feature is disabled"@
    }
}

/// The outcome of `prompts/list` for given parameters.
pub open spec fn post_prompts_list(pm: PromptManager, params: Option<JsonVal>, out: Result<
    JsonVal,
    McpError,
>) -> bool {
    if pm.spec_enabled() {
        let paged = spec_paged(spec_prompt_views(pm.spec_prompts()), spec_pagination_of(params));
        out matches Ok(v) && v == spec_list_json(
            "prompts"@,
            Seq::new(paged.0.len(), |i: int| spec_prompt_json(paged.0[i])),
            paged.1,
        )
    } else {
        out matches Err(e) && e matches McpError::Prompt(msg) && msg@
            == "Prompt feature is disabled"@
    }
}

/// The outcome of `resources/templates/list` for given parameters.
pub open spec fn post_templates_list(rm: ResourceManager, params: Option<JsonVal>, out: Result<
    JsonVal,
    McpError,
>) -> bool {
    if rm.spec_enabled() {
        let paged = spec_paged(spec_template_views(rm.spec_templates()), spec_pagination_of(params));
        out matches Ok(v) && v == spec_list_json(
            "resourceTemplates"@,
            Seq::new(paged.0.len(), |i: int| crate::types::spec_template_json(paged.0[i])),
            paged.1,
        )
    } else {
        out matches Err(e) && e matches McpError::Resource(msg) && msg@
            == "Resource feature is disabled"@
    }
}

/// The outcome of `resources/list` for given parameters: a page of some
/// sorted union of the registry and the providers' resources.
pub open spec fn post_resources_list(rm: ResourceManager, params: Option<JsonVal>, out: Result<
    JsonVal,
    McpError,
>) -> bool {
    if rm.spec_enabled() {
        exists|combined: Seq<(Seq<char>, crate::types::Resource)>|
            #[trigger] crate::registry::assoc_wf(combined) && (forall|u: Seq<char>|
                assoc_lookup(rm.spec_resources(), u) is Some ==> (#[trigger] assoc_lookup(
                    combined,
                    u,
                )) is Some) && resources_page_of(combined, params, out)
    } else {
        out matches Err(e) && e matches McpError::Resource(msg) && msg@
            == "Resource feature is disabled"@
    }
}

/// Whether the outcome is the requested page of a combined registry.
pub open spec fn resources_page_of(combined: Seq<(Seq<char>, crate::types::Resource)>,
    params: Option<JsonVal>, out: Result<JsonVal, McpError>) -> bool {
    let paged = spec_paged(spec_resource_views(combined), spec_pagination_of(params));
    out matches Ok(v) && v == spec_list_json(
        "resources"@,
        Seq::new(paged.0.len(), |i: int| crate::types::spec_resource_json(paged.0[i])),
        paged.1,
    )
}

/// What routing a request does: the outcome for every method of the
/// protocol, and how the dispatcher state changes. This is the routing
/// table as one relation.
pub open spec fn route_post(h0: ProtocolHandler, h1: ProtocolHandler, req: RequestV, out: Result<
    JsonVal,
    McpError,
>) -> bool {
    let m = req.method;
    &&& h1.active_requests == h0.active_requests
    &&& (h0.initialized ==> h1.initialized)
    &&& if !h0.initialized && !spec_pre_init_method(m) {
        h1 == h0 && (out matches Err(e) && e matches McpError::Protocol(msg) && msg@
            == "Server not initialized"@)
    } else if m == "ping"@ {
        h1 == h0 && out == Result::<JsonVal, McpError>::Ok(spec_empty_obj())
    } else if m == "initialize"@ {
        &&& h1.resource_manager == h0.resource_manager
        &&& h1.tool_manager == h0.tool_manager
        &&& h1.prompt_manager == h0.prompt_manager
        &&& if spec_valid_initialize_params(req.params) {
            h1.initialized && (out matches Ok(v) && v == spec_initialize_result_json(
                h0.prompt_manager.spec_enabled(),
                h0.resource_manager.spec_enabled(),
                h0.tool_manager.spec_enabled(),
            ))
        } else {
            h1 == h0 && (out matches Err(e) && e is InvalidParams)
        }
    } else if m == "tools/list"@ {
        h1 == h0 && post_tools_list(h0.tool_manager, req.params, out)
    } else if m == "tools/call"@ {
        h1 == h0 && post_tools_call(h0.tool_manager, req.params, out)
    } else if m == "prompts/list"@ {
        h1 == h0 && post_prompts_list(h0.prompt_manager, req.params, out)
    } else if m == "prompts/get"@ {
        h1 == h0 && match spec_str_param(req.params, "name"@) {
            Some(name) => post_prompts_get_named(h0.prompt_manager, name, req.params, out),
            None => (out matches Err(e) && e is InvalidParams),
        }
    } else if m == "resources/list"@ {
        h1 == h0 && post_resources_list(h0.resource_manager, req.params, out)
    } else if m == "resources/templates/list"@ {
        h1 == h0 && post_templates_list(h0.resource_manager, req.params, out)
    } else if m == "resources/read"@ {
        h1 == h0 && match spec_str_param(req.params, "uri"@) {
            Some(uri) => post_resources_read_uri(h0.resource_manager, uri, out),
            None => (out matches Err(e) && e is InvalidParams),
        }
    } else if m == "resources/subscribe"@ {
        &&& h1.tool_manager == h0.tool_manager
        &&& h1.prompt_manager == h0.prompt_manager
        &&& h1.initialized == h0.initialized
        &&& post_resources_subscribe(h0.resource_manager, h1.resource_manager, req.params, out)
    } else if m == "resources/unsubscribe"@ {
        &&& h1.tool_manager == h0.tool_manager
        &&& h1.prompt_manager == h0.prompt_manager
        &&& h1.initialized == h0.initialized
        &&& post_resources_unsubscribe(h0.resource_manager, h1.resource_manager, req.params, out)
    } else if m == "logging/setLevel"@ {
        h1 == h0 && post_logging_set_level(req.params, out)
    } else if m == "sampling/createMessage"@ {
        h1 == h0 && out == Result::<JsonVal, McpError>::Ok(spec_sampling_json())
    } else if m == "completion/complete"@ {
        h1 == h0 && out == Result::<JsonVal, McpError>::Ok(spec_completion_json())
    } else if m == "roots/list"@ {
        h1 == h0 && out == Result::<JsonVal, McpError>::Ok(spec_roots_json())
    } else {
        h1 == h0 && (out matches Err(e) && e matches McpError::MethodNotFound(msg) && msg@
            == "Method '"@ + m + "' not found"@)
    }
}

/// The response that wraps a routing outcome: a success carries the result,
/// a failure carries the error's code and rendered message.
pub open spec fn spec_wrap(id: JsonVal, out: Result<JsonVal, McpError>)
    -> crate::messages::ResponseV {
    match out {
        Ok(v) => crate::messages::ResponseV {
            jsonrpc: spec_jsonrpc_version(),
            id: id,
            result: Some(v),
            error: None,
        },
        Err(e) => crate::messages::ResponseV {
            jsonrpc: spec_jsonrpc_version(),
            id: id,
            result: None,
            error: Some(
                crate::messages::ErrorV {
                    code: spec_json_rpc_code(e),
                    message: spec_error_message(e),
                    data: None,
                },
            ),
        },
    }
}


/// Build a paginated list response.
#[verifier::loop_isolation(false)]
fn list_response(tag: &str, items: Vec<Json>, next: Option<String>) -> (r: Json)
    ensures
        r@ == spec_list_json(
            tag@,
            jvals_of(items@),
            match next {
                Some(n) => Some(n@),
                None => None,
            },
        ),
{
    let ghost gitems = items@;
    let ghost gnext: Option<Seq<char>> = match &next {
        Some(n) => Some(n@),
        None => None,
    };
    let mut fields: Vec<(String, Json)> = Vec::new();
    fields.push((String::from_str(tag), Json::Arr(items)));
    match next {
        Some(n) => fields.push((String::from_str("nextCursor"), Json::Str(n))),
        None => (),
    }
    let r = Json::Obj(fields);
    proof {
        lemma_jfields_of_index(fields@);
        let want = spec_list_json(tag@, jvals_of(gitems), gnext);
        assert forall|k: int|
            0 <= k < jfields_of(fields@).len() implies jfields_of(fields@)[k] == want->Obj_0[k] by {
            assert(jfields_of(fields@)[k] == (fields[k].0@, fields[k].1.view_rec()));
        }
        assert(r@->Obj_0 =~= want->Obj_0);
    }
    r
}

/// Build a tool result response.
#[verifier::loop_isolation(false)]
fn tool_result_json(res: &crate::tools::ToolResult) -> (r: Json)
    ensures
        r@ == spec_tool_result_json(res@),
{
    let mut content: Vec<Json> = Vec::new();
    let mut i: usize = 0;
    while i < res.content.len()
        invariant
            i <= res.content@.len(),
            content@.len() == i,
            forall|k: int|
                0 <= k < i ==> (#[trigger] content@[k].view_rec()) == spec_content_json(
                    res.content@[k]@,
                ),
        decreases res.content@.len() - i,
    {
        content.push(res.content[i].to_json());
        i = i + 1;
    }
    proof {
        lemma_jvals_of_index(content@);
        assert forall|k: int|
            0 <= k < content@.len() implies jvals_of(content@)[k] == spec_content_json(
            res.content@[k]@,
        ) by {
            assert(content@[k].view_rec() == spec_content_json(res.content@[k]@));
        }
        assert(jvals_of(content@) =~= Seq::new(
            res@.content.len(),
            |i: int| spec_content_json(res@.content[i]),
        ));
    }
    let mut fields: Vec<(String, Json)> = Vec::new();
    fields.push((String::from_str("content"), Json::Arr(content)));
    fields.push((String::from_str("isError"), Json::Bool(res.is_error)));
    let r = Json::Obj(fields);
    proof {
        lemma_jfields_of_index(fields@);
        let want = spec_tool_result_json(res@);
        assert forall|k: int|
            0 <= k < jfields_of(fields@).len() implies jfields_of(fields@)[k] == want->Obj_0[k] by {
            assert(jfields_of(fields@)[k] == (fields[k].0@, fields[k].1.view_rec()));
        }
        assert(r@->Obj_0 =~= want->Obj_0);
    }
    r
}

/// Build a prompt result response.
#[verifier::loop_isolation(false)]
fn prompt_result_json(res: &crate::prompts::PromptResult) -> (r: Json)
    ensures
        r@ == spec_prompt_result_json(res@),
{
    let mut messages: Vec<Json> = Vec::new();
    let mut i: usize = 0;
    while i < res.messages.len()
        invariant
            i <= res.messages@.len(),
            messages@.len() == i,
            forall|k: int|
                0 <= k < i ==> (#[trigger] messages@[k].view_rec()) == spec_prompt_message_json(
                    res.messages@[k]@,
                ),
        decreases res.messages@.len() - i,
    {
        messages.push(res.messages[i].to_json());
        i = i + 1;
    }
    proof {
        lemma_jvals_of_index(messages@);
        assert forall|k: int|
            0 <= k < messages@.len() implies jvals_of(messages@)[k] == spec_prompt_message_json(
            res.messages@[k]@,
        ) by {
            assert(messages@[k].view_rec() == spec_prompt_message_json(res.messages@[k]@));
        }
        assert(jvals_of(messages@) =~= Seq::new(
            res@.messages.len(),
            |i: int| spec_prompt_message_json(res@.messages[i]),
        ));
    }
    let description = match &res.description {
        Some(d) => Json::Str(d.clone()),
        None => Json::Null,
    };
    let mut fields: Vec<(String, Json)> = Vec::new();
    fields.push((String::from_str("description"), description));
    fields.push((String::from_str("messages"), Json::Arr(messages)));
    let r = Json::Obj(fields);
    proof {
        lemma_jfields_of_index(fields@);
        let want = spec_prompt_result_json(res@);
        assert forall|k: int|
            0 <= k < jfields_of(fields@).len() implies jfields_of(fields@)[k] == want->Obj_0[k] by {
            assert(jfields_of(fields@)[k] == (fields[k].0@, fields[k].1.view_rec()));
        }
        assert(r@->Obj_0 =~= want->Obj_0);
    }
    r
}

impl ProtocolHandler {
    /// Pull the string arguments for a prompt out of request parameters.
    #[verifier::loop_isolation(false)]
    fn string_args(params: &Option<Json>) -> (r: Option<Vec<(String, String)>>)
        ensures
            args_match(
                match &r {
                    Some(v) => Some(pairs_view(v@)),
                    None => None,
                },
                spec_prompt_args_of(
                    match params {
                        Some(p) => Some(p@),
                        None => None,
                    },
                ),
            ),
    {
        let p = match params {
            Some(p) => p,
            None => {
                return None;
            },
        };
        let args_json = match p.get("arguments") {
            Some(a) => a,
            None => {
                return None;
            },
        };
        match args_json {
            Json::Obj(fields) => {
                proof {
                    lemma_jfields_of_index(fields@);
                }
                let mut out: Vec<(String, String)> = Vec::new();
                let mut i: usize = 0;
                while i < fields.len()
                    invariant
                        i <= fields@.len(),
                        args_chars(pairs_view(out@)) == spec_filter_str_fields(
                            jfields_of(fields@).subrange(0, i as int),
                        ),
                    decreases fields@.len() - i,
                {
                    let ghost pre = args_chars(pairs_view(out@));
                    match &fields[i].1 {
                        Json::Str(v) => {
                            out.push((fields[i].0.clone(), v.clone()));
                        },
                        _ => (),
                    }
                    i = i + 1;
                    proof {
                        lemma_filter_str_snoc(jfields_of(fields@), i as int);
                        assert(args_chars(pairs_view(out@)) =~= spec_filter_str_fields(
                            jfields_of(fields@).subrange(0, i as int),
                        ));
                    }
                }
                proof {
                    assert(jfields_of(fields@).subrange(0, jfields_of(fields@).len() as int)
                        =~= jfields_of(fields@));
                }
                Some(out)
            },
            _ => None,
        }
    }
}

/// Filtering one more member appends its pair when its value is a string.
proof fn lemma_filter_str_snoc(fields: Seq<(Seq<char>, JsonVal)>, i: int)
    requires
        0 < i <= fields.len(),
    ensures
        spec_filter_str_fields(fields.subrange(0, i)) == spec_filter_str_fields(
            fields.subrange(0, i - 1),
        ) + (match fields[i - 1].1 {
            JsonVal::Str(v) => seq![(fields[i - 1].0, v)],
            _ => Seq::empty(),
        }),
{
    assert(fields.subrange(0, i).drop_last() =~= fields.subrange(0, i - 1));
    assert(fields.subrange(0, i).last() == fields[i - 1]);
}


/// Build an empty JSON array.
fn empty_arr() -> (r: Json)
    ensures
        r@ == JsonVal::Arr(Seq::empty()),
{
    let items: Vec<Json> = Vec::new();
    let r = Json::Arr(items);
    proof {
        assert(r@->Arr_0 =~= Seq::<JsonVal>::empty());
    }
    r
}

impl ProtocolHandler {
    /// Serve `tools/list`.
    #[verifier::loop_isolation(false)]
    fn do_tools_list(&self, request: &JsonRpcRequest) -> (out: McpResult<Json>)
        requires
            self.wf(),
        ensures
            post_tools_list(
                self.tool_manager,
                request@.params,
                match out {
                    Ok(v) => Ok(v@),
                    Err(e) => Err(e),
                },
            ),
    {
        let pagination = Self::read_pagination(&request.params);
        let listed = self.tool_manager.list_tools(pagination.as_ref());
        match listed {
            Ok((page, pr)) => {
                let mut items: Vec<Json> = Vec::new();
                let mut i: usize = 0;
                while i < page.len()
                    invariant
                        i <= page@.len(),
                        items@.len() == i,
                        forall|k: int|
                            0 <= k < i ==> (#[trigger] items@[k].view_rec()) == spec_tool_json(
                                page@[k]@,
                            ),
                    decreases page@.len() - i,
                {
                    items.push(page[i].to_json());
                    i = i + 1;
                }
                proof {
                    lemma_jvals_of_index(items@);
                    let paged = spec_paged(
                        spec_tool_views(self.tool_manager.spec_tools()),
                        spec_pagination_of(request@.params),
                    );
                    assert forall|k: int|
                        0 <= k < items@.len() implies jvals_of(items@)[k] == spec_tool_json(
                        paged.0[k],
                    ) by {
                        assert(items@[k].view_rec() == spec_tool_json(page@[k]@));
                        assert(Seq::new(page@.len(), |i: int| page@[i]@)[k] == page@[k]@);
                    }
                    assert(jvals_of(items@) =~= Seq::new(
                        paged.0.len(),
                        |i: int| spec_tool_json(paged.0[i]),
                    ));
                }
                Ok(list_response("tools", items, pr.next_cursor))
            },
            Err(e) => Err(e),
        }
    }

    /// Serve `tools/call`.
    fn do_tools_call(&self, request: &JsonRpcRequest) -> (out: McpResult<Json>)
        requires
            self.wf(),
        ensures
            request@.method == "tools/call"@ ==> post_tools_call(
                self.tool_manager,
                request@.params,
                match out {
                    Ok(v) => Ok(v@),
                    Err(e) => Err(e),
                },
            ),
    {
        let params = match &request.params {
            Some(p) => p,
            None => {
                return Err(
                    McpError::invalid_params(
                        String::from_str("tools/call request requires parameters"),
                    ),
                );
            },
        };
        let name: String = match params.get("name") {
            Some(n) => match n.as_str() {
                Some(s) => s.clone(),
                None => {
                    return Err(
                        McpError::invalid_params(
                            String::from_str("Missing or invalid 'name' parameter"),
                        ),
                    );
                },
            },
            None => {
                return Err(
                    McpError::invalid_params(
                        String::from_str("Missing or invalid 'name' parameter"),
                    ),
                );
            },
        };
        let arguments = params.get("arguments");
        let called = self.tool_manager.call_tool(name.as_str(), arguments);
        match called {
            Ok(res) => Ok(tool_result_json(&res)),
            Err(e) => Err(e),
        }
    }

    /// Serve `prompts/list`.
    #[verifier::loop_isolation(false)]
    fn do_prompts_list(&self, request: &JsonRpcRequest) -> (out: McpResult<Json>)
        requires
            self.wf(),
        ensures
            post_prompts_list(
                self.prompt_manager,
                request@.params,
                match out {
                    Ok(v) => Ok(v@),
                    Err(e) => Err(e),
                },
            ),
    {
        let pagination = Self::read_pagination(&request.params);
        let listed = self.prompt_manager.list_prompts(pagination.as_ref());
        match listed {
            Ok((page, pr)) => {
                let mut items: Vec<Json> = Vec::new();
                let mut i: usize = 0;
                while i < page.len()
                    invariant
                        i <= page@.len(),
                        items@.len() == i,
                        forall|k: int|
                            0 <= k < i ==> (#[trigger] items@[k].view_rec()) == spec_prompt_json(
                                page@[k]@,
                            ),
                    decreases page@.len() - i,
                {
                    items.push(page[i].to_json());
                    i = i + 1;
                }
                proof {
                    lemma_jvals_of_index(items@);
                    let paged = spec_paged(
                        spec_prompt_views(self.prompt_manager.spec_prompts()),
                        spec_pagination_of(request@.params),
                    );
                    assert forall|k: int|
                        0 <= k < items@.len() implies jvals_of(items@)[k] == spec_prompt_json(
                        paged.0[k],
                    ) by {
                        assert(items@[k].view_rec() == spec_prompt_json(page@[k]@));
                        assert(Seq::new(page@.len(), |i: int| page@[i]@)[k] == page@[k]@);
                    }
                    assert(jvals_of(items@) =~= Seq::new(
                        paged.0.len(),
                        |i: int| spec_prompt_json(paged.0[i]),
                    ));
                }
                Ok(list_response("prompts", items, pr.next_cursor))
            },
            Err(e) => Err(e),
        }
    }

    /// Serve `prompts/get` for an extracted name.
    fn do_prompts_get(&self, name: &str, request: &JsonRpcRequest) -> (out: McpResult<Json>)
        requires
            self.wf(),
        ensures
            post_prompts_get_named(
                self.prompt_manager,
                name@,
                request@.params,
                match out {
                    Ok(v) => Ok(v@),
                    Err(e) => Err(e),
                },
            ),
    {
        let arguments = Self::string_args(&request.params);
        let ghost gargs: Option<Seq<(Seq<char>, String)>> = match &arguments {
            Some(v) => Some(pairs_view(v@)),
            None => None,
        };
        let got = self.prompt_manager.get_prompt_with_args(name, arguments.as_ref());
        match got {
            Ok(res) => {
                let r = prompt_result_json(&res);
                proof {
                    if self.prompt_manager.spec_enabled() && assoc_lookup(
                        self.prompt_manager.spec_prompts(),
                        name@,
                    ) is Some {
                        if assoc_lookup(self.prompt_manager.spec_generators(), name@) is None {
                            assert(res@.messages =~= Seq::<crate::types::PromptMessageV>::empty());
                            assert(Seq::new(
                                res@.messages.len(),
                                |i: int| spec_prompt_message_json(res@.messages[i]),
                            ) =~= Seq::new(
                                Seq::<crate::types::PromptMessageV>::empty().len(),
                                |i: int| spec_prompt_message_json(
                                    Seq::<crate::types::PromptMessageV>::empty()[i],
                                ),
                            ));
                        }
                        assert(post_prompt_generation(self.prompt_manager, name@, gargs, Ok(r@)));
                    }
                }
                Ok(r)
            },
            Err(e) => {
                proof {
                    if self.prompt_manager.spec_enabled() && assoc_lookup(
                        self.prompt_manager.spec_prompts(),
                        name@,
                    ) is Some {
                        assert(post_prompt_generation(self.prompt_manager, name@, gargs, Err(e)));
                    }
                }
                Err(e)
            },
        }
    }

    /// Serve `resources/list`.
    #[verifier::loop_isolation(false)]
    #[verifier::rlimit(100)]
    fn do_resources_list(&self, request: &JsonRpcRequest) -> (out: McpResult<Json>)
        requires
            self.wf(),
        ensures
            post_resources_list(
                self.resource_manager,
                request@.params,
                match out {
                    Ok(v) => Ok(v@),
                    Err(e) => Err(e),
                },
            ),
    {
        let pagination = Self::read_pagination(&request.params);
        let listed = self.resource_manager.list_resources(pagination.as_ref());
        match listed {
            Ok((page, pr)) => {
                let mut items: Vec<Json> = Vec::new();
                let mut i: usize = 0;
                while i < page.len()
                    invariant
                        i <= page@.len(),
                        items@.len() == i,
                        forall|k: int|
                            0 <= k < i ==> (#[trigger] items@[k].view_rec())
                                == crate::types::spec_resource_json(page@[k]@),
                    decreases page@.len() - i,
                {
                    items.push(page[i].to_json());
                    i = i + 1;
                }
                let ghost combined = choose|combined: Seq<(Seq<char>, crate::types::Resource)>|
                    {
                        &&& crate::registry::assoc_wf(combined)
                        &&& forall|u: Seq<char>|
                            assoc_lookup(self.resource_manager.spec_resources(), u) is Some ==> (
                            #[trigger] assoc_lookup(combined, u) is Some && assoc_lookup(
                                combined,
                                u,
                            )->Some_0@ == assoc_lookup(
                                self.resource_manager.spec_resources(),
                                u,
                            )->Some_0@)
                        &&& {
                            let all = spec_resource_views(combined);
                            match pagination {
                                None => Seq::new(page@.len(), |i: int| page@[i]@) == all
                                    && pr.next_cursor is None,
                                Some(p) => {
                                    let start = spec_cursor_start(
                                        match p.cursor {
                                            Some(ref c) => Some(c@),
                                            None => None,
                                        },
                                    );
                                    &&& Seq::new(page@.len(), |i: int| page@[i]@) == spec_page(
                                        all,
                                        start,
                                    )
                                    &&& match (&pr.next_cursor, spec_next_cursor(all, start)) {
                                        (Some(c), Some(s)) => c@ == s,
                                        (None, None) => true,
                                        _ => false,
                                    }
                                },
                            }
                        }
                    };
                proof {
                    lemma_jvals_of_index(items@);
                    let paged = spec_paged(
                        spec_resource_views(combined),
                        spec_pagination_of(request@.params),
                    );
                    assert forall|k: int|
                        0 <= k < items@.len() implies jvals_of(items@)[k]
                        == crate::types::spec_resource_json(paged.0[k]) by {
                        assert(items@[k].view_rec() == crate::types::spec_resource_json(
                            page@[k]@,
                        ));
                        assert(Seq::new(page@.len(), |i: int| page@[i]@)[k] == page@[k]@);
                    }
                    assert(jvals_of(items@) =~= Seq::new(
                        paged.0.len(),
                        |i: int| crate::types::spec_resource_json(paged.0[i]),
                    ));
                }
                let r = list_response("resources", items, pr.next_cursor);
                proof {
                    assert(resources_page_of(combined, request@.params, Ok(r@)));
                }
                Ok(r)
            },
            Err(e) => Err(e),
        }
    }

    /// Serve `resources/templates/list`.
    #[verifier::loop_isolation(false)]
    fn do_templates_list(&self, request: &JsonRpcRequest) -> (out: McpResult<Json>)
        requires
            self.wf(),
        ensures
            post_templates_list(
                self.resource_manager,
                request@.params,
                match out {
                    Ok(v) => Ok(v@),
                    Err(e) => Err(e),
                },
            ),
    {
        let pagination = Self::read_pagination(&request.params);
        let listed = self.resource_manager.list_templates(pagination.as_ref());
        match listed {
            Ok((page, pr)) => {
                let mut items: Vec<Json> = Vec::new();
                let mut i: usize = 0;
                while i < page.len()
                    invariant
                        i <= page@.len(),
                        items@.len() == i,
                        forall|k: int|
                            0 <= k < i ==> (#[trigger] items@[k].view_rec())
                                == crate::types::spec_template_json(page@[k]@),
                    decreases page@.len() - i,
                {
                    items.push(page[i].to_json());
                    i = i + 1;
                }
                proof {
                    lemma_jvals_of_index(items@);
                    let paged = spec_paged(
                        spec_template_views(self.resource_manager.spec_templates()),
                        spec_pagination_of(request@.params),
                    );
                    assert forall|k: int|
                        0 <= k < items@.len() implies jvals_of(items@)[k]
                        == crate::types::spec_template_json(paged.0[k]) by {
                        assert(items@[k].view_rec() == crate::types::spec_template_json(
                            page@[k]@,
                        ));
                        assert(Seq::new(page@.len(), |i: int| page@[i]@)[k] == page@[k]@);
                    }
                    assert(jvals_of(items@) =~= Seq::new(
                        paged.0.len(),
                        |i: int| crate::types::spec_template_json(paged.0[i]),
                    ));
                }
                Ok(list_response("resourceTemplates", items, pr.next_cursor))
            },
            Err(e) => Err(e),
        }
    }

    /// Serve `resources/read` for an extracted URI.
    #[verifier::loop_isolation(false)]
    fn do_resources_read(&self, uri: &str) -> (out: McpResult<Json>)
        requires
            self.wf(),
        ensures
            post_resources_read_uri(
                self.resource_manager,
                uri@,
                match out {
                    Ok(v) => Ok(v@),
                    Err(e) => Err(e),
                },
            ),
    {
        let read = self.resource_manager.read_resource(uri);
        match read {
            Ok(contents) => {
                let mut items: Vec<Json> = Vec::new();
                let mut i: usize = 0;
                while i < contents.len()
                    invariant
                        i <= contents@.len(),
                        items@.len() == i,
                        forall|k: int|
                            0 <= k < i ==> (#[trigger] items@[k].view_rec())
                                == crate::types::spec_contents_json(contents@[k]@),
                    decreases contents@.len() - i,
                {
                    items.push(contents[i].to_json());
                    i = i + 1;
                }
                let ghost gi = spec_first_claiming(
                    self.resource_manager.spec_providers(),
                    uri@,
                )->Some_0;
                let ghost prov = self.resource_manager.spec_providers()[gi].1;
                let ghost stored = assoc_lookup(pairs_view(prov.contents@), uri@)->Some_0;
                proof {
                    lemma_jvals_of_index(items@);
                    assert forall|k: int|
                        0 <= k < items@.len() implies jvals_of(items@)[k]
                        == crate::types::spec_contents_json(stored@[k]@) by {
                        assert(items@[k].view_rec() == crate::types::spec_contents_json(
                            contents@[k]@,
                        ));
                        assert(contents@[k]@ == stored@[k]@);
                    }
                    assert(jvals_of(items@) =~= Seq::new(
                        stored@.len(),
                        |k: int| crate::types::spec_contents_json(stored@[k]@),
                    ));
                }
                let mut fields: Vec<(String, Json)> = Vec::new();
                fields.push((String::from_str("contents"), Json::Arr(items)));
                let r = Json::Obj(fields);
                proof {
                    lemma_jfields_of_index(fields@);
                    let want = spec_contents_list_json(stored);
                    assert forall|k: int|
                        0 <= k < jfields_of(fields@).len() implies jfields_of(fields@)[k]
                        == want->Obj_0[k] by {
                        assert(jfields_of(fields@)[k] == (fields[k].0@, fields[k].1.view_rec()));
                    }
                    assert(r@->Obj_0 =~= want->Obj_0);
                }
                Ok(r)
            },
            Err(e) => Err(e),
        }
    }

    /// Serve `sampling/createMessage`.
    fn do_sampling(&self) -> (r: Json)
        ensures
            r@ == spec_sampling_json(),
    {
        let mut content: Vec<(String, Json)> = Vec::new();
        content.push((String::from_str("type"), Json::Str(String::from_str("text"))));
        content.push((
            String::from_str("text"),
            Json::Str(String::from_str("This is a placeholder response from the MCP server.")),
        ));
        let content_json = Json::Obj(content);
        proof {
            lemma_jfields_of_index(content_json->Obj_0@);
            assert(jfields_of(content_json->Obj_0@)[0] == (
                content_json->Obj_0@[0].0@,
                content_json->Obj_0@[0].1.view_rec(),
            ));
            assert(jfields_of(content_json->Obj_0@)[1] == (
                content_json->Obj_0@[1].0@,
                content_json->Obj_0@[1].1.view_rec(),
            ));
            assert(content_json@->Obj_0 =~= seq![
                ("type"@, JsonVal::Str("text"@)),
                ("text"@, JsonVal::Str("This is a placeholder response from the MCP server."@)),
            ]);
        }
        let mut fields: Vec<(String, Json)> = Vec::new();
        fields.push((String::from_str("role"), Json::Str(String::from_str("assistant"))));
        fields.push((String::from_str("content"), content_json));
        let r = Json::Obj(fields);
        proof {
            lemma_jfields_of_index(fields@);
            let want = spec_sampling_json();
            assert forall|k: int|
                0 <= k < jfields_of(fields@).len() implies jfields_of(fields@)[k]
                == want->Obj_0[k] by {
                assert(jfields_of(fields@)[k] == (fields[k].0@, fields[k].1.view_rec()));
            }
            assert(r@->Obj_0 =~= want->Obj_0);
        }
        r
    }

    /// Serve `completion/complete`.
    fn do_completion(&self) -> (r: Json)
        ensures
            r@ == spec_completion_json(),
    {
        let mut inner: Vec<(String, Json)> = Vec::new();
        inner.push((String::from_str("values"), empty_arr()));
        inner.push((String::from_str("total"), Json::Int(0)));
        inner.push((String::from_str("hasMore"), Json::Bool(false)));
        let inner_json = Json::Obj(inner);
        proof {
            lemma_jfields_of_index(inner_json->Obj_0@);
            assert(jfields_of(inner_json->Obj_0@)[0] == (
                inner_json->Obj_0@[0].0@,
                inner_json->Obj_0@[0].1.view_rec(),
            ));
            assert(jfields_of(inner_json->Obj_0@)[1] == (
                inner_json->Obj_0@[1].0@,
                inner_json->Obj_0@[1].1.view_rec(),
            ));
            assert(jfields_of(inner_json->Obj_0@)[2] == (
                inner_json->Obj_0@[2].0@,
                inner_json->Obj_0@[2].1.view_rec(),
            ));
            assert(inner_json@->Obj_0 =~= seq![
                ("values"@, JsonVal::Arr(Seq::empty())),
                ("total"@, JsonVal::Int(0)),
                ("hasMore"@, JsonVal::Bool(false)),
            ]);
        }
        let mut fields: Vec<(String, Json)> = Vec::new();
        fields.push((String::from_str("completion"), inner_json));
        let r = Json::Obj(fields);
        proof {
            lemma_jfields_of_index(fields@);
            let want = spec_completion_json();
            assert forall|k: int|
                0 <= k < jfields_of(fields@).len() implies jfields_of(fields@)[k]
                == want->Obj_0[k] by {
                assert(jfields_of(fields@)[k] == (fields[k].0@, fields[k].1.view_rec()));
            }
            assert(r@->Obj_0 =~= want->Obj_0);
        }
        r
    }

    /// Serve `roots/list`.
    fn do_roots(&self) -> (r: Json)
        ensures
            r@ == spec_roots_json(),
    {
        let mut fields: Vec<(String, Json)> = Vec::new();
        fields.push((String::from_str("roots"), empty_arr()));
        let r = Json::Obj(fields);
        proof {
            lemma_jfields_of_index(fields@);
            let want = spec_roots_json();
            assert forall|k: int|
                0 <= k < jfields_of(fields@).len() implies jfields_of(fields@)[k]
                == want->Obj_0[k] by {
                assert(jfields_of(fields@)[k] == (fields[k].0@, fields[k].1.view_rec()));
            }
            assert(r@->Obj_0 =~= want->Obj_0);
        }
        r
    }

    /// Pull a required string parameter out of the request.
    fn str_param(request: &JsonRpcRequest, key: &str, missing_params: &str, missing_key: &str)
        -> (r: McpResult<String>)
        ensures
            match spec_str_param(request@.params, key@) {
                Some(s) => r matches Ok(v) && v@ == s,
                None => r matches Err(e) && e is InvalidParams,
            },
    {
        let params = match &request.params {
            Some(p) => p,
            None => {
                return Err(McpError::invalid_params(String::from_str(missing_params)));
            },
        };
        match params.get(key) {
            Some(v) => match v.as_str() {
                Some(s) => Ok(s.clone()),
                None => Err(McpError::invalid_params(String::from_str(missing_key))),
            },
            None => Err(McpError::invalid_params(String::from_str(missing_key))),
        }
    }

    /// Route a validated request to its method's behavior. The whole
    /// routing table is specified by `route_post`.
    #[verifier::rlimit(100)]
    pub fn route(&mut self, request: &JsonRpcRequest) -> (out: McpResult<Json>)
        requires
            old(self).wf(),
        ensures
            final(self).wf(),
            route_post(
                *old(self),
                *final(self),
                request@,
                match out {
                    Ok(v) => Ok(v@),
                    Err(e) => Err(e),
                },
            ),
    {
        let m = request.method.as_str();
        let pre_init = str_eq(m, "initialize") || str_eq(m, "ping");
        if !self.initialized && !pre_init {
            return Err(McpError::Protocol(String::from_str("Server not initialized")));
        }
        if str_eq(m, "ping") {
            return Ok(self.handle_ping());
        }
        if str_eq(m, "initialize") {
            return self.handle_initialize(request);
        }
        if str_eq(m, "tools/list") {
            return self.do_tools_list(request);
        }
        if str_eq(m, "tools/call") {
            return self.do_tools_call(request);
        }
        if str_eq(m, "prompts/list") {
            return self.do_prompts_list(request);
        }
        if str_eq(m, "prompts/get") {
            let name = match Self::str_param(
                request,
                "name",
                "prompts/get request requires parameters",
                "Missing or invalid 'name' parameter",
            ) {
                Ok(n) => n,
                Err(e) => {
                    return Err(e);
                },
            };
            return self.do_prompts_get(name.as_str(), request);
        }
        if str_eq(m, "resources/list") {
            return self.do_resources_list(request);
        }
        if str_eq(m, "resources/templates/list") {
            return self.do_templates_list(request);
        }
        if str_eq(m, "resources/read") {
            let uri = match Self::str_param(
                request,
                "uri",
                "resources/read request requires parameters",
                "Missing or invalid 'uri' parameter",
            ) {
                Ok(u) => u,
                Err(e) => {
                    return Err(e);
                },
            };
            return self.do_resources_read(uri.as_str());
        }
        if str_eq(m, "resources/subscribe") {
            let uri = match Self::str_param(
                request,
                "uri",
                "resources/subscribe request requires parameters",
                "Missing or invalid 'uri' parameter",
            ) {
                Ok(u) => u,
                Err(e) => {
                    return Err(e);
                },
            };
            let subscribed = self.resource_manager.subscribe(uri.as_str(), "default-client");
            match subscribed {
                Ok(_) => {
                    return Ok(empty_obj());
                },
                Err(e) => {
                    return Err(e);
                },
            }
        }
        if str_eq(m, "resources/unsubscribe") {
            let uri = match Self::str_param(
                request,
                "uri",
                "resources/unsubscribe request requires parameters",
                "Missing or invalid 'uri' parameter",
            ) {
                Ok(u) => u,
                Err(e) => {
                    return Err(e);
                },
            };
            let _ = self.resource_manager.unsubscribe(uri.as_str(), "default-client");
            return Ok(empty_obj());
        }
        if str_eq(m, "logging/setLevel") {
            let level = match Self::str_param(
                request,
                "level",
                "logging/setLevel request requires parameters",
                "Missing or invalid 'level' parameter",
            ) {
                Ok(l) => l,
                Err(e) => {
                    return Err(e);
                },
            };
            match crate::validation::validate_logging_level(level.as_str()) {
                Ok(_) => {
                    return Ok(empty_obj());
                },
                Err(e) => {
                    return Err(e);
                },
            }
        }
        if str_eq(m, "sampling/createMessage") {
            return Ok(self.do_sampling());
        }
        if str_eq(m, "completion/complete") {
            return Ok(self.do_completion());
        }
        if str_eq(m, "roots/list") {
            return Ok(self.do_roots());
        }
        Err(McpError::method_not_found(m))
    }
}


impl ProtocolHandler {
    /// Handle a request: validate it, track it, route it, and answer with
    /// exactly one response carrying the request's id. Fails exactly on an
    /// invalid request or an unknown method prefix; every routed request is
    /// answered, errors as error responses.
    #[verifier::rlimit(100)]
    pub fn handle_request(&mut self, request: &JsonRpcRequest) -> (r: McpResult<JsonRpcResponse>)
        requires
            old(self).wf(),
        ensures
            final(self).wf(),
            old(self).initialized ==> final(self).initialized,
            r is Ok <==> (spec_valid_request(request@) && spec_valid_method_name(
                request@.method,
            )),
            r matches Err(e) ==> *final(self) == *old(self) && ((e is InvalidRequest
                && !spec_valid_request(request@)) || (e is MethodNotFound && spec_valid_request(
                request@,
            ))),
            r matches Ok(resp) ==> (exists|out: Result<JsonVal, McpError>, mid: ProtocolHandler|
                {
                    &&& #[trigger] route_post(*old(self), mid, request@, out)
                    &&& resp@ == spec_wrap(request@.id, out)
                    &&& final(self).resource_manager == mid.resource_manager
                    &&& final(self).tool_manager == mid.tool_manager
                    &&& final(self).prompt_manager == mid.prompt_manager
                    &&& final(self).initialized == mid.initialized
                }),
            r is Ok ==> !spec_active(final(self).active_requests@, request@.id),
    {
        match validate_request(request) {
            Ok(_) => (),
            Err(e) => {
                return Err(e);
            },
        }
        match validate_method_name(request.method.as_str()) {
            Ok(_) => (),
            Err(e) => {
                return Err(e);
            },
        }
        let id = clone_json(&request.id);
        self.active_requests.push(clone_json(&request.id));
        let ghost pre = *self;
        let out = self.route(request);
        let ghost mid = *self;
        self.remove_active(&id);
        let ghost gout: Result<JsonVal, McpError> = match out {
            Ok(ref v) => Ok(v@),
            Err(ref e) => Err(*e),
        };
        let resp = match out {
            Ok(v) => JsonRpcResponse::success(clone_json(&request.id), v),
            Err(e) => JsonRpcResponse::error(clone_json(&request.id), JsonRpcError::from_error(&e)),
        };
        proof {
            assert(route_post(pre, mid, request@, gout));
            assert(pre.resource_manager == old(self).resource_manager);
            assert(pre.tool_manager == old(self).tool_manager);
            assert(pre.prompt_manager == old(self).prompt_manager);
            assert(pre.initialized == old(self).initialized);
            let mid2 = ProtocolHandler { active_requests: old(self).active_requests, ..mid };
            lemma_route_post_active(pre, mid, *old(self), request@, gout);
            assert(route_post(*old(self), mid2, request@, gout));
            assert(resp@ == spec_wrap(request@.id, gout));
        }
        Ok(resp)
    }

    /// Handle a batch: each element is classified and dispatched in order,
    /// and the requests' responses are collected, in the requests' order,
    /// into a batch answer. An empty batch is an invalid request; an element
    /// that fails to classify, or that the dispatcher rejects, fails the
    /// whole batch.
    #[verifier::loop_isolation(false)]
    #[verifier::rlimit(100)]
    pub fn handle_batch(&mut self, batch: Vec<Json>) -> (r: McpResult<Option<AnyJsonRpcMessage>>)
        requires
            old(self).wf(),
        ensures
            final(self).wf(),
            old(self).initialized ==> final(self).initialized,
            batch@.len() == 0 ==> (r matches Err(e) && e is InvalidRequest),
            r is Ok <==> (batch@.len() > 0 && spec_elems_ok(jvals_of(batch@))),
            r matches Ok(rr) ==> ((rr is None) <==> spec_batch_requests(jvals_of(batch@)).len()
                == 0),
            r matches Ok(Some(m)) ==> m@ is Batch && 1 <= m@->Batch_0.len() <= batch@.len(),
            r matches Ok(Some(m)) ==> (m@ matches MessageV::Batch(resps) && resps.len()
                == spec_batch_requests(jvals_of(batch@)).len() && (forall|k: int|
                0 <= k < resps.len() ==> resp_answers(
                    #[trigger] resps[k],
                    spec_batch_requests(jvals_of(batch@))[k],
                ))),
        decreases jvs_size(jvals_of(batch@)), 1nat,
    {
        if batch.len() == 0 {
            return Err(McpError::invalid_request(String::from_str("Batch cannot be empty")));
        }
        proof {
            lemma_jvals_of_index(batch@);
            assert(jvals_of(batch@).subrange(0, 0) =~= Seq::<JsonVal>::empty());
        }
        let mut responses: Vec<Json> = Vec::new();
        let mut i: usize = 0;
        while i < batch.len()
            invariant
                i <= batch@.len(),
                self.wf(),
                old(self).initialized ==> self.initialized,
                responses@.len() <= i,
                forall|k: int| 0 <= k < i ==> spec_elem_ok(#[trigger] jvals_of(batch@)[k]),
                responses@.len() == spec_batch_requests(
                    jvals_of(batch@).subrange(0, i as int),
                ).len(),
                forall|k: int|
                    0 <= k < responses@.len() ==> resp_answers(
                        (#[trigger] responses@[k])@,
                        spec_batch_requests(jvals_of(batch@).subrange(0, i as int))[k],
                    ),
            decreases jvs_size(jvals_of(batch@)), 0nat, batch@.len() - i,
        {
            let ghost elems = jvals_of(batch@);
            let element = clone_json(&batch[i]);
            let msg = match message_of_json(element) {
                Ok(m) => m,
                Err(e) => {
                    proof {
                        lemma_jvals_of_index(batch@);
                        assert(elems[i as int] == batch@[i as int]@);
                        lemma_elem_ok_msg(elems[i as int]);
                        assert(!spec_elem_ok(elems[i as int]));
                    }
                    return Err(e);
                },
            };
            proof {
                lemma_jvals_of_index(batch@);
                lemma_jvs_size_element(jvals_of(batch@), i as int);
                assert(jvals_of(batch@)[i as int] == batch@[i as int]@);
                if batch@[i as int]@ is Arr {
                    assert(msg_size(msg@) == jv_size(batch@[i as int]@));
                } else {
                    assert(msg_size(msg@) == 0);
                }
                assert(jv_size(batch@[i as int]@) >= 1);
            }
            let ghost pre_msg = *self;
            let handled = self.handle_message(msg);
            proof {
                lemma_elem_ok_msg(elems[i as int]);
                lemma_batch_requests_snoc(elems, i as int);
            }
            match handled {
                Ok(Some(response_msg)) => {
                    match response_msg {
                        AnyJsonRpcMessage::Response(resp) => {
                            let rj = crate::messages::json_of_message(
                                &AnyJsonRpcMessage::Response(resp),
                            );
                            proof {
                                assert(spec_message_of_json(elems[i as int]) == Some(msg@));
                                match msg@ {
                                    MessageV::Request(req) => {
                                        let (out, mid) = choose|
                                            out: Result<JsonVal, McpError>,
                                            mid: ProtocolHandler,
                                        |
                                            #[trigger] route_post(pre_msg, mid, req, out)
                                                && resp@ == spec_wrap(req.id, out);
                                        assert(route_post(pre_msg, mid, req, out));
                                        assert(resp_answers(rj@, req));
                                    },
                                    _ => {
                                        assert(false);
                                    },
                                }
                            }
                            responses.push(rj);
                        },
                        _ => {
                            proof {
                                match msg@ {
                                    MessageV::Request(req) => {
                                        assert(response_msg@ is Response);
                                        assert(false);
                                    },
                                    MessageV::Notification(nn) => {
                                        assert(false);
                                    },
                                    MessageV::Response(rr2) => {
                                        assert(false);
                                    },
                                    MessageV::Batch(bb) => {},
                                }
                            }
                        },
                    }
                },
                Ok(None) => {
                    proof {
                        match msg@ {
                            MessageV::Request(req) => {
                                assert(false);
                            },
                            _ => {},
                        }
                    }
                },
                Err(e) => {
                    proof {
                        assert(!spec_msg_ok(msg@));
                        assert(!spec_elem_ok(elems[i as int]));
                    }
                    return Err(e);
                },
            }
            i = i + 1;
        }
        proof {
            assert(jvals_of(batch@).subrange(0, i as int) =~= jvals_of(batch@));
        }
        if responses.len() == 0 {
            Ok(None)
        } else {
            let n = responses.len();
            proof {
                lemma_jvals_of_index(responses@);
                assert forall|k: int|
                    0 <= k < jvals_of(responses@).len() implies resp_answers(
                    #[trigger] jvals_of(responses@)[k],
                    spec_batch_requests(jvals_of(batch@))[k],
                ) by {
                    assert(jvals_of(responses@)[k] == (responses@[k])@);
                }
            }
            let r = AnyJsonRpcMessage::Batch(responses);
            Ok(Some(r))
        }
    }

    /// Handle any message. A valid request is answered with exactly one
    /// response carrying its id; a notification or an inbound response is
    /// absorbed without an answer; a batch collects its elements' responses.
    /// The initialized flag never goes back from true to false.
    #[verifier::rlimit(100)]
    pub fn handle_message(&mut self, message: AnyJsonRpcMessage) -> (r: McpResult<
        Option<AnyJsonRpcMessage>,
    >)
        requires
            old(self).wf(),
        ensures
            final(self).wf(),
            old(self).initialized ==> final(self).initialized,
            message@ matches MessageV::Request(req) ==> ((r matches Ok(Some(m)) && m@ matches
                MessageV::Response(resp) && resp.id == req.id && resp.jsonrpc
                == spec_jsonrpc_version() && ((resp.result is Some) != (resp.error is Some))
                && (exists|out: Result<JsonVal, McpError>, mid: ProtocolHandler|
                #[trigger] route_post(*old(self), mid, req, out) && resp == spec_wrap(
                    req.id,
                    out,
                ))) <==> (spec_valid_request(req) && spec_valid_method_name(req.method))),
            message@ matches MessageV::Request(req) ==> (!(spec_valid_request(req)
                && spec_valid_method_name(req.method)) ==> (r matches Err(e) && ((
            e is InvalidRequest && !spec_valid_request(req)) || (e is MethodNotFound
                && spec_valid_request(req))))),
            message@ is Notification ==> (r matches Ok(rr) ==> rr is None),
            message@ matches MessageV::Notification(n) ==> (r matches Ok(rr) && rr is None <==> (
            spec_valid_notification(n) && spec_valid_method_name(n.method))),
            message@ is Response ==> (r matches Ok(rr) ==> rr is None),
            message@ matches MessageV::Response(resp) ==> ((r matches Ok(rr) && rr is None) <==> 
            spec_valid_response(resp)),
            message@ matches MessageV::Batch(items) && items.len() == 0 ==> (r matches Err(e) && 
            e is InvalidRequest),
            r is Ok <==> spec_msg_ok(message@),
            message@ matches MessageV::Batch(items2) ==> (r matches Ok(rr) ==> ((rr is None) <==> 
            spec_batch_requests(items2).len() == 0)),
            message@ matches MessageV::Batch(items2) ==> (r matches Ok(Some(m)) ==> (m@ matches
                MessageV::Batch(resps) && resps.len() == spec_batch_requests(items2).len() && (
            forall|k: int|
                0 <= k < resps.len() ==> resp_answers(
                    #[trigger] resps[k],
                    spec_batch_requests(items2)[k],
                )))),
        decreases msg_size(message@), 0nat,
    {
        match message {
            AnyJsonRpcMessage::Request(request) => {
                let handled = self.handle_request(&request);
                match handled {
                    Ok(resp) => Ok(Some(AnyJsonRpcMessage::Response(resp))),
                    Err(e) => Err(e),
                }
            },
            AnyJsonRpcMessage::Notification(notification) => {
                let handled = self.handle_notification(&notification);
                match handled {
                    Ok(_) => Ok(None),
                    Err(e) => Err(e),
                }
            },
            AnyJsonRpcMessage::Response(response) => {
                let handled = self.handle_response(&response);
                match handled {
                    Ok(_) => Ok(None),
                    Err(e) => Err(e),
                }
            },
            AnyJsonRpcMessage::Batch(items) => {
                proof {
                    assert(msg_size(message@) == 1 + jvs_size(jvals_of(items@)));
                }
                self.handle_batch(items)
            },
        }
    }
}

/// Routing does not read the active requests: its relation holds for any
/// starting set of them.
proof fn lemma_route_post_active(pre: ProtocolHandler, mid: ProtocolHandler, h0: ProtocolHandler,
    req: RequestV, out: Result<JsonVal, McpError>)
    requires
        route_post(pre, mid, req, out),
        h0.resource_manager == pre.resource_manager,
        h0.tool_manager == pre.tool_manager,
        h0.prompt_manager == pre.prompt_manager,
        h0.initialized == pre.initialized,
    ensures
        route_post(
            h0,
            ProtocolHandler { active_requests: h0.active_requests, ..mid },
            req,
            out,
        ),
{
    let mid2 = ProtocolHandler { active_requests: h0.active_requests, ..mid };
    if pre == mid {
        assert(mid2 == h0);
    }
}

} // verus!
