//! The streamable HTTP transport's decision layer: origin and accept
//! checks, session resolution, body parsing, and the mapping of each POST,
//! GET and DELETE to a status code and body. The network itself is outside;
//! these functions take the request's parts and return what to send.

use vstd::prelude::*;
use vstd::string::StringExecFns;
use vstd::string::StrSliceExecFns;
use crate::json::{Json, JsonVal, jv_get, jfields_of, lemma_jfields_of_index, clone_json};
use crate::messages::{AnyJsonRpcMessage, JsonRpcRequest, parse_message, serialize_message,
    json_of_message, spec_json_of_message, spec_message_of_json, MessageV, RequestV, wf_message,
    spec_jsonrpc_version};
use crate::codec::{ser_val, json_to_string};
use crate::error::{McpError, McpResult};
use crate::handler::{ProtocolHandler, route_post, spec_wrap, spec_batch_requests};
use crate::session::{Session, SessionManager, spec_expired};
use crate::strings::{str_eq, str_contains, str_starts_with, str_ends_with, contains_seq,
    is_prefix_of, str_to_chars, chars_to_string};
use crate::registry::{assoc_lookup, pairs_view};

verus! {

broadcast use vstd::string::group_string_axioms;

/// Whether an origin is allowed: a literal `*` allows all; otherwise the
/// origin must equal an entry exactly or match an entry's `*.suffix`
/// wildcard.
pub open spec fn spec_origin_allowed(origin: Seq<char>, allowed: Seq<String>) -> bool {
    ||| exists|i: int| 0 <= i < allowed.len() && (#[trigger] allowed[i])@ == "*"@
    ||| exists|i: int|
        0 <= i < allowed.len() && ((#[trigger] allowed[i])@ == origin || (is_prefix_of(
            "*."@,
            allowed[i]@,
        ) && allowed[i]@.len() - 1 <= origin.len() && origin.skip(
            origin.len() - (allowed[i]@.len() - 1),
        ) == allowed[i]@.skip(1)))
}

/// Decide whether an origin is allowed by the configured list.
#[verifier::loop_isolation(false)]
pub fn is_origin_allowed(origin: &str, allowed_origins: &Vec<String>) -> (r: bool)
    ensures
        r == spec_origin_allowed(origin@, allowed_origins@),
{
    let mut i: usize = 0;
    while i < allowed_origins.len()
        invariant
            i <= allowed_origins@.len(),
            forall|j: int|
                0 <= j < i ==> !((#[trigger] allowed_origins@[j])@ == "*"@ || allowed_origins@[j]@
                    == origin@ || (is_prefix_of("*."@, allowed_origins@[j]@)
                    && allowed_origins@[j]@.len() - 1 <= origin@.len() && origin@.skip(
                    origin@.len() - (allowed_origins@[j]@.len() - 1),
                ) == allowed_origins@[j]@.skip(1))),
        decreases allowed_origins@.len() - i,
    {
        let entry = &allowed_origins[i];
        if str_eq(entry.as_str(), "*") {
            return true;
        }
        if str_eq(entry.as_str(), origin) {
            return true;
        }
        if str_starts_with(entry.as_str(), "*.") {
            proof {
                reveal_strlit("*.");
                assert("*."@.len() == 2);
            }
            let ev = str_to_chars(entry.as_str());
            let mut suffix_chars: Vec<char> = Vec::new();
            let mut k: usize = 1;
            proof {
                assert(suffix_chars@ =~= entry@.subrange(1, 1));
            }
            while k < ev.len()
                invariant
                    1 <= k <= ev@.len(),
                    ev@ == entry@,
                    suffix_chars@ == entry@.subrange(1, k as int),
                decreases ev@.len() - k,
            {
                suffix_chars.push(ev[k]);
                k = k + 1;
                proof {
                    assert(suffix_chars@ =~= entry@.subrange(1, k as int));
                }
            }
            let suffix = chars_to_string(&suffix_chars);
            proof {
                assert(suffix@ =~= entry@.skip(1));
            }
            if str_ends_with(origin, suffix.as_str()) {
                proof {
                    assert(origin@.skip(origin@.len() - (entry@.len() - 1)) =~= origin@.subrange(
                        origin@.len() - suffix@.len(),
                        origin@.len() as int,
                    ));
                }
                return true;
            }
        }
        i = i + 1;
    }
    false
}

/// What an HTTP exchange answers: a status code, a body, the session id to
/// echo, and whether the body opens an event stream.
#[derive(Debug)]
pub struct HttpOutcome {
    pub status: u16,
    pub body: String,
    pub session_id: Option<String>,
    pub event_stream: bool,
}

/// Whether the session store kept every binding but possibly gained one
/// fresh session id, which the outcome carries.
pub open spec fn session_resolved(s0: SessionManager, s1: SessionManager, header: Option<Seq<char>>,
    sid: Seq<char>) -> bool {
    &&& s1.timeout == s0.timeout
    &&& match header {
        Some(h) => if assoc_lookup(s0.spec_sessions(), h) is Some {
            sid == h && s1 == s0
        } else {
            session_minted(s0, s1, sid)
        },
        None => session_minted(s0, s1, sid),
    }
}

/// A new session exists under `sid` and every other binding is untouched.
pub open spec fn session_minted(s0: SessionManager, s1: SessionManager, sid: Seq<char>) -> bool {
    &&& assoc_lookup(s1.spec_sessions(), sid) is Some
    &&& forall|k: Seq<char>|
        k != sid ==> #[trigger] assoc_lookup(s1.spec_sessions(), k) == assoc_lookup(
            s0.spec_sessions(),
            k,
        )
}

/// Relies on the uuid crate's `Uuid::new_v4` and its hyphenated rendering:
/// a fresh random identifier, 36 characters long. Nothing more is promised
/// of a random value.
#[verifier::external_body]
fn new_session_id() -> (r: String)
    ensures
        r@.len() == 36,
{
    uuid::Uuid::new_v4().to_string()
}

/// Resolve the session for a request: an id presented in the header and
/// known to the store is kept; otherwise a new session is minted and stored
/// under a fresh id.
pub fn get_or_create_session(sessions: &mut SessionManager, session_header: Option<&str>,
    now: u64) -> (r: String)
    requires
        old(sessions).wf(),
    ensures
        final(sessions).wf(),
        session_resolved(
            *old(sessions),
            *final(sessions),
            match session_header {
                Some(h) => Some(h@),
                None => None,
            },
            r@,
        ),
{
    match session_header {
        Some(h) => {
            let known = match sessions.get_session(h) {
                Some(_) => true,
                None => false,
            };
            if known {
                return String::from_str(h);
            }
        },
        None => (),
    }
    let sid = new_session_id();
    let session = Session::new(sid.clone(), now);
    sessions.add_session(session);
    sid
}

/// Frame a message for a server-sent event stream.
pub fn sse_frame(data: &str) -> (r: String)
    ensures
        r@ == "data: "@ + data@ + "\n\n"@,
{
    let mut s = String::from_str("data: ");
    s.append(data);
    s.append("\n\n");
    s
}

/// The first frame a fresh event stream carries: the initialized
/// notification, framed for server-sent events.
pub open spec fn spec_initial_sse_frame() -> Seq<char> {
    "data: "@ + "{\"jsonrpc\":\"2.0\",\"method\":\"notifications/initialized\",\"params\":{}}"@
        + "\n\n"@
}

/// The parse-error body a malformed POST is answered with.
pub open spec fn spec_parse_error_body() -> JsonVal {
    JsonVal::Obj(
        seq![
            ("jsonrpc"@, JsonVal::Str("2.0"@)),
            (
                "error"@,
                JsonVal::Obj(
                    seq![
                        ("code"@, JsonVal::Int(-32700)),
                        ("message"@, JsonVal::Str("Parse error"@)),
                    ],
                ),
            ),
            ("id"@, JsonVal::Null),
        ],
    )
}

fn parse_error_body() -> (r: Json)
    ensures
        r@ == spec_parse_error_body(),
{
    let mut err: Vec<(String, Json)> = Vec::new();
    err.push((String::from_str("code"), Json::Int(-32700)));
    err.push((String::from_str("message"), Json::Str(String::from_str("Parse error"))));
    let err_json = Json::Obj(err);
    proof {
        lemma_jfields_of_index(err_json->Obj_0@);
        assert(jfields_of(err_json->Obj_0@)[0] == (
            err_json->Obj_0@[0].0@,
            err_json->Obj_0@[0].1.view_rec(),
        ));
        assert(jfields_of(err_json->Obj_0@)[1] == (
            err_json->Obj_0@[1].0@,
            err_json->Obj_0@[1].1.view_rec(),
        ));
        assert(err_json@->Obj_0 =~= seq![
            ("code"@, JsonVal::Int(-32700)),
            ("message"@, JsonVal::Str("Parse error"@)),
        ]);
    }
    let mut fields: Vec<(String, Json)> = Vec::new();
    fields.push((String::from_str("jsonrpc"), Json::Str(String::from_str("2.0"))));
    fields.push((String::from_str("error"), err_json));
    fields.push((String::from_str("id"), Json::Null));
    let r = Json::Obj(fields);
    proof {
        lemma_jfields_of_index(fields@);
        let want = spec_parse_error_body();
        assert forall|k: int|
            0 <= k < jfields_of(fields@).len() implies jfields_of(fields@)[k] == want->Obj_0[k] by {
            assert(jfields_of(fields@)[k] == (fields[k].0@, fields[k].1.view_rec()));
        }
        assert(r@->Obj_0 =~= want->Obj_0);
    }
    r
}

/// The view of an optional header.
pub open spec fn opt_str_view(o: Option<&str>) -> Option<Seq<char>> {
    match o {
        Some(x) => Some(x@),
        None => None,
    }
}

/// Whether a POST passes its gates: an allowed origin and an accept header
/// naming both media types.
pub open spec fn post_gates_ok(
    cors_origins: Seq<String>,
    origin: Option<Seq<char>>,
    accept: Option<Seq<char>>,
) -> bool {
    &&& (match origin {
        Some(o) => spec_origin_allowed(o, cors_origins),
        None => true,
    })
    &&& (match accept {
        Some(a) => contains_seq(a, "application/json"@) && contains_seq(a, "text/event-stream"@),
        None => false,
    })
}

/// A routed answer's text: the serialization of the wrapped outcome of
/// routing `req` from handler state `h0`.
pub open spec fn post_routed_body(h0: ProtocolHandler, req: RequestV, body: Seq<char>) -> bool {
    exists|out: Result<JsonVal, McpError>, mid: ProtocolHandler|
        #[trigger] route_post(h0, mid, req, out) && body == ser_val(
            crate::messages::spec_json_of_response(spec_wrap(req.id, out)),
        )
}

/// Whether every element of a batch classifies as some message.
pub open spec fn all_classify(items: Seq<JsonVal>) -> bool {
    forall|k: int| 0 <= k < items.len() ==> spec_message_of_json(#[trigger] items[k]) is Some
}

/// Whether a request is dispatched: valid, with an approved method name.
pub open spec fn req_accepted(req: RequestV) -> bool {
    crate::validation::spec_valid_request(req) && crate::validation::spec_valid_method_name(
        req.method,
    )
}

/// What a POST answers for a batch body: a parse error when an element does
/// not classify; accepted and empty when no element is a request; a routed
/// answer for a lone request; not implemented for several.
pub open spec fn post_batch_outcome(
    h0: ProtocolHandler,
    items: Seq<JsonVal>,
    r: HttpOutcome,
) -> bool {
    let reqs = spec_batch_requests(items);
    &&& (!all_classify(items) ==> (r.status == 400 && r.body@ == ser_val(spec_parse_error_body())))
    &&& ((all_classify(items) && reqs.len() == 0) ==> (r.status == 202 && r.body@.len() == 0))
    &&& ((all_classify(items) && reqs.len() >= 1 && items.len() > 1) ==> r.status == 501)
    &&& ((all_classify(items) && reqs.len() >= 1 && items.len() == 1) ==> ((req_accepted(reqs[0])
        ==> (r.status == 200 && post_routed_body(h0, reqs[0], r.body@))) && (!req_accepted(
        reqs[0],
    ) ==> r.status == 500)))
}

/// What a POST answers for the message its body serializes, the gates
/// having passed: a request is routed to a 200 whose body is the wrapped
/// outcome, or refused with a 500; a notification or a response is accepted
/// without an answer; a batch is answered by element.
pub open spec fn post_body_outcome(h0: ProtocolHandler, m: MessageV, r: HttpOutcome) -> bool {
    match m {
        MessageV::Request(req) => (req_accepted(req) ==> (r.status == 200 && post_routed_body(
            h0,
            req,
            r.body@,
        ))) && (!req_accepted(req) ==> r.status == 500),
        MessageV::Notification(n) => r.status == 202 && r.body@.len() == 0,
        MessageV::Response(resp) => r.status == 202 && r.body@.len() == 0,
        MessageV::Batch(items) => post_batch_outcome(h0, items, r),
    }
}

/// Answer a POST: enforce origin and accept, resolve the session, parse the
/// body, return 202 for request-free payloads, dispatch a single request to
/// a 200 response, and refuse multi-request batches as unimplemented.
#[verifier::loop_isolation(false)]
#[verifier::rlimit(100)]
pub fn handle_streamable_http_post(handler: &mut ProtocolHandler, sessions: &mut SessionManager,
    cors_origins: &Vec<String>, origin: Option<&str>, accept: Option<&str>,
    session_header: Option<&str>, body: &str, now: u64) -> (r: HttpOutcome)
    requires
        old(handler).wf(),
        old(sessions).wf(),
    ensures
        final(handler).wf(),
        final(sessions).wf(),
        old(handler).initialized ==> final(handler).initialized,
        !r.event_stream,
        (origin matches Some(o) && !spec_origin_allowed(o@, cors_origins@)) ==> r.status == 403
            && *final(handler) == *old(handler) && *final(sessions) == *old(sessions),
        (match origin {
            Some(o) => spec_origin_allowed(o@, cors_origins@),
            None => true,
        }) ==> ({
            let accept_ok = match accept {
                Some(a) => contains_seq(a@, "application/json"@) && contains_seq(
                    a@,
                    "text/event-stream"@,
                ),
                None => false,
            };
            if !accept_ok {
                r.status == 400 && *final(handler) == *old(handler) && *final(sessions) == *old(
                    sessions,
                )
            } else {
                r.status == 200 || r.status == 202 || r.status == 400 || r.status == 500
                    || r.status == 501
            }
        }),
        r.status == 200 || r.status == 202 || r.status == 400 || r.status == 403 || r.status == 500
            || r.status == 501,
        r.status == 200 ==> (exists|req: crate::messages::RequestV, out: Result<
            JsonVal,
            McpError,
        >, mid: ProtocolHandler|
            #[trigger] route_post(*old(handler), mid, req, out) && r.body@ == ser_val(
                crate::messages::spec_json_of_response(spec_wrap(req.id, out)),
            )),
        post_gates_ok(cors_origins@, opt_str_view(origin), opt_str_view(accept)) ==> (forall|
            m: MessageV,
        |
            (wf_message(m) && body@ == #[trigger] ser_val(spec_json_of_message(m)))
                ==> post_body_outcome(*old(handler), m, r)),
{
    match origin {
        Some(o) => {
            if !is_origin_allowed(o, cors_origins) {
                return HttpOutcome {
                    status: 403,
                    body: String::from_str("Origin not allowed"),
                    session_id: None,
                    event_stream: false,
                };
            }
        },
        None => (),
    }
    let accept_ok = match accept {
        Some(a) => str_contains(a, "application/json") && str_contains(a, "text/event-stream"),
        None => false,
    };
    if !accept_ok {
        return HttpOutcome {
            status: 400,
            body: String::from_str(
                "Accept header must include both application/json and text/event-stream",
            ),
            session_id: None,
            event_stream: false,
        };
    }
    let session_id = get_or_create_session(sessions, session_header, now);
    let parsed = parse_message(body);
    let message = match parsed {
        Ok(m) => m,
        Err(_) => {
            proof {
                assert forall|m: MessageV|
                    wf_message(m) && body@ == #[trigger] ser_val(spec_json_of_message(m)) implies
                    false by {}
            }
            let body_json = parse_error_body();
            return HttpOutcome {
                status: 400,
                body: json_to_string(&body_json),
                session_id: Some(session_id),
                event_stream: false,
            };
        },
    };
    proof {
        assert forall|m: MessageV|
            wf_message(m) && body@ == #[trigger] ser_val(spec_json_of_message(m)) implies m
            == message@ by {}
    }
    match message {
        AnyJsonRpcMessage::Request(request) => handle_single_request(
            handler,
            &request,
            session_id,
        ),
        AnyJsonRpcMessage::Notification(_) => HttpOutcome {
            status: 202,
            body: String::new(),
            session_id: Some(session_id),
            event_stream: false,
        },
        AnyJsonRpcMessage::Response(_) => HttpOutcome {
            status: 202,
            body: String::new(),
            session_id: Some(session_id),
            event_stream: false,
        },
        AnyJsonRpcMessage::Batch(items) => {
            let ghost elems = crate::json::jvals_of(items@);
            proof {
                crate::json::lemma_jvals_of_index(items@);
                assert(elems.subrange(0, 0) =~= Seq::<JsonVal>::empty());
            }
            let mut request_count: usize = 0;
            let mut single_request: Option<JsonRpcRequest> = None;
            let mut i: usize = 0;
            let n = items.len();
            while i < n
                invariant
                    i <= n,
                    n == items@.len(),
                    elems == crate::json::jvals_of(items@),
                    elems.len() == n,
                    request_count <= i,
                    single_request is Some ==> request_count >= 1,
                    request_count >= 1 ==> single_request is Some,
                    request_count == spec_batch_requests(elems.subrange(0, i as int)).len(),
                    forall|k: int|
                        0 <= k < i ==> spec_message_of_json(#[trigger] elems[k]) is Some,
                    request_count >= 1 ==> (single_request matches Some(sr) && sr@
                        == spec_batch_requests(elems.subrange(0, i as int))[0]),
                decreases n - i,
            {
                let ghost i0 = i as int;
                let element = clone_json(&items[i]);
                proof {
                    assert(element@ == elems[i0]);
                    crate::handler::lemma_batch_requests_snoc(elems, i0);
                }
                match crate::messages::message_of_json(element) {
                    Ok(AnyJsonRpcMessage::Request(req)) => {
                        proof {
                            assert(spec_batch_requests(elems.subrange(0, i0 + 1))
                                == spec_batch_requests(elems.subrange(0, i0)).push(req@));
                        }
                        if request_count == 0 {
                            single_request = Some(req);
                        } else {
                            proof {
                                assert(spec_batch_requests(elems.subrange(0, i0 + 1))[0]
                                    == spec_batch_requests(elems.subrange(0, i0))[0]);
                            }
                        }
                        request_count = request_count + 1;
                    },
                    Ok(other) => {
                        proof {
                            match other {
                                AnyJsonRpcMessage::Request(r2) => {
                                    assert(false);
                                },
                                AnyJsonRpcMessage::Notification(n2) => {
                                    assert(!(other@ is Request));
                                },
                                AnyJsonRpcMessage::Response(r2) => {
                                    assert(!(other@ is Request));
                                },
                                AnyJsonRpcMessage::Batch(b2) => {
                                    assert(!(other@ is Request));
                                },
                            }
                            assert(spec_batch_requests(elems.subrange(0, i0 + 1))
                                == spec_batch_requests(elems.subrange(0, i0)));
                        }
                    },
                    Err(_) => {
                        proof {
                            assert(spec_message_of_json(elems[i0]) is None);
                            assert(!all_classify(elems));
                        }
                        let body_json = parse_error_body();
                        return HttpOutcome {
                            status: 400,
                            body: json_to_string(&body_json),
                            session_id: Some(session_id),
                            event_stream: false,
                        };
                    },
                }
                i = i + 1;
            }
            proof {
                assert(elems.subrange(0, i as int) =~= elems);
                assert(all_classify(elems));
            }
            if request_count == 0 {
                return HttpOutcome {
                    status: 202,
                    body: String::new(),
                    session_id: Some(session_id),
                    event_stream: false,
                };
            }
            if n == 1 {
                match single_request {
                    Some(request) => {
                        return handle_single_request(handler, &request, session_id);
                    },
                    None => (),
                }
            }
            HttpOutcome {
                status: 501,
                body: String::from_str("Batch requests not yet implemented"),
                session_id: Some(session_id),
                event_stream: false,
            }
        },
    }
}

/// Dispatch one request and wrap the response as a 200, or a dispatch
/// failure as a 500.
fn handle_single_request(handler: &mut ProtocolHandler, request: &JsonRpcRequest,
    session_id: String) -> (r: HttpOutcome)
    requires
        old(handler).wf(),
    ensures
        final(handler).wf(),
        old(handler).initialized ==> final(handler).initialized,
        !r.event_stream,
        r.status == 200 || r.status == 500,
        r.status == 200 ==> (exists|req: crate::messages::RequestV, out: Result<
            JsonVal,
            McpError,
        >, mid: ProtocolHandler|
            #[trigger] route_post(*old(handler), mid, req, out) && r.body@ == ser_val(
                crate::messages::spec_json_of_response(spec_wrap(req.id, out)),
            )),
        req_accepted(request@) ==> (r.status == 200 && post_routed_body(
            *old(handler),
            request@,
            r.body@,
        )),
        !req_accepted(request@) ==> r.status == 500,
{
    let handled = handler.handle_request(request);
    match handled {
        Ok(response) => {
            let msg = AnyJsonRpcMessage::Response(response);
            let serialized = match serialize_message(&msg) {
                Ok(s) => s,
                Err(_) => String::new(),
            };
            HttpOutcome {
                status: 200,
                body: serialized,
                session_id: Some(session_id),
                event_stream: false,
            }
        },
        Err(e) => {
            let mut msg = String::from_str("Internal error: ");
            let rendered = e.to_message();
            msg.append(rendered.as_str());
            HttpOutcome { status: 500, body: msg, session_id: Some(session_id), event_stream: false }
        },
    }
}

/// Answer a GET: enforce origin, require an accept for event streams or
/// answer 405, resolve the session, and open the stream with its first
/// frame.
pub fn handle_streamable_http_get(sessions: &mut SessionManager, cors_origins: &Vec<String>,
    origin: Option<&str>, accept: Option<&str>, session_header: Option<&str>,
    last_event_id: Option<&str>, now: u64) -> (r: HttpOutcome)
    requires
        old(sessions).wf(),
    ensures
        final(sessions).wf(),
        (origin matches Some(o) && !spec_origin_allowed(o@, cors_origins@)) ==> r.status == 403
            && *final(sessions) == *old(sessions),
        (match origin {
            Some(o) => spec_origin_allowed(o@, cors_origins@),
            None => true,
        }) ==> ({
            let accept_ok = match accept {
                Some(a) => contains_seq(a@, "text/event-stream"@),
                None => false,
            };
            if !accept_ok {
                r.status == 405 && *final(sessions) == *old(sessions)
            } else {
                r.status == 200 && r.event_stream && r.body@ == spec_initial_sse_frame() && (
                r.session_id matches Some(sid) && session_resolved(
                    *old(sessions),
                    *final(sessions),
                    match session_header {
                        Some(h) => Some(h@),
                        None => None,
                    },
                    sid@,
                ))
            }
        }),
{
    match origin {
        Some(o) => {
            if !is_origin_allowed(o, cors_origins) {
                return HttpOutcome {
                    status: 403,
                    body: String::new(),
                    session_id: None,
                    event_stream: false,
                };
            }
        },
        None => (),
    }
    let accept_ok = match accept {
        Some(a) => str_contains(a, "text/event-stream"),
        None => false,
    };
    if !accept_ok {
        return HttpOutcome {
            status: 405,
            body: String::new(),
            session_id: None,
            event_stream: false,
        };
    }
    let session_id = get_or_create_session(sessions, session_header, now);
    let _ = last_event_id;
    let frame = sse_frame(
        "{\"jsonrpc\":\"2.0\",\"method\":\"notifications/initialized\",\"params\":{}}",
    );
    HttpOutcome { status: 200, body: frame, session_id: Some(session_id), event_stream: true }
}

/// Answer a DELETE: a session id that is present and bound is removed and
/// the exchange succeeds; an absent or unknown id is a bad request.
pub fn handle_delete_request(sessions: &mut SessionManager, session_header: Option<&str>) -> (r:
    HttpOutcome)
    requires
        old(sessions).wf(),
    ensures
        final(sessions).wf(),
        match session_header {
            Some(h) => {
                &&& (r.status == 200 <==> assoc_lookup(old(sessions).spec_sessions(), h@)
                    is Some)
                &&& (r.status == 200 || r.status == 400)
                &&& assoc_lookup(final(sessions).spec_sessions(), h@) is None
                &&& (forall|k: Seq<char>|
                    k != h@ ==> #[trigger] assoc_lookup(final(sessions).spec_sessions(), k)
                        == assoc_lookup(old(sessions).spec_sessions(), k))
            },
            None => r.status == 400 && *final(sessions) == *old(sessions),
        },
{
    match session_header {
        Some(h) => {
            let removed = sessions.remove_session(h);
            match removed {
                Some(_) => HttpOutcome {
                    status: 200,
                    body: String::new(),
                    session_id: None,
                    event_stream: false,
                },
                None => HttpOutcome {
                    status: 400,
                    body: String::from_str("No session found for the given ID"),
                    session_id: None,
                    event_stream: false,
                },
            }
        },
        None => HttpOutcome {
            status: 400,
            body: String::from_str("No session ID provided"),
            session_id: None,
            event_stream: false,
        },
    }
}

} // verus!
