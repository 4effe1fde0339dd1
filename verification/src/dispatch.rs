//! The request dispatcher: one step of the session loop. Each input line is
//! parsed, routed by method, and answered with at most one output line; the
//! loop around it (reading lines, the backend round trip, writing lines)
//! stays outside, handing plain values in and out.
//!
//! A request without an id is a notification and gets no response; every
//! request with an integer id gets exactly one response line with that id.

use vstd::prelude::*;
use vstd::string::StringExecFns;
use crate::json::{
    Json,
    JVal,
    Member,
    jv,
    parse_document,
    sp_doc,
    sp_lookup,
    jv_members,
    find_member,
    clone_json,
    clone_chars,
    chars_of,
    chars_eq_str,
    ser,
    append_chars,
};
use crate::envelope::{
    sp_is_int_lexeme,
    is_int_lexeme,
    sp_unwrap,
    unwrap_result,
    sp_init_result,
    sp_success_response,
    sp_error_response,
    success_response_text,
    error_response_text,
    init_result_value,
};
use crate::normalize::{NormalizeError, sp_normalize, normalize_body};

verus! {

/// The model of a well-shaped inbound request.
pub struct ReqV {
    pub method: Seq<char>,
    pub id: Option<Seq<char>>,
    pub params: Option<JVal>,
}

/// A well-shaped inbound JSON-RPC request: a `jsonrpc` version string, a
/// method, an optional integer id (kept as its lexeme), optional params.
pub struct InboundRequest {
    pub method: Vec<char>,
    pub id: Option<Vec<char>>,
    pub params: Option<Json>,
}

impl InboundRequest {
    /// The model of this request.
    pub open spec fn model(&self) -> ReqV {
        ReqV {
            method: self.method@,
            id: match self.id {
                Some(l) => Some(l@),
                None => None,
            },
            params: match self.params {
                Some(p) => Some(jv(p)),
                None => None,
            },
        }
    }
}

/// The shape a parsed input line must have: an object with a string
/// `jsonrpc` member and a string `method`; `id` absent or null marks a
/// notification, and otherwise must be an integer; `params` may be absent
/// or null (both stand for absent) or any value. Any other shape is
/// malformed and yields nothing.
pub open spec fn sp_extract(v: JVal) -> Option<ReqV> {
    match v {
        JVal::Obj(ms) => match (sp_lookup(ms, "jsonrpc"@), sp_lookup(ms, "method"@)) {
            (Some(JVal::Str(_)), Some(JVal::Str(m))) => {
                let idr: Option<Option<Seq<char>>> = match sp_lookup(ms, "id"@) {
                    None => Some(None),
                    Some(JVal::Null) => Some(None),
                    Some(JVal::Num(lx)) => if sp_is_int_lexeme(lx) {
                        Some(Some(lx))
                    } else {
                        None
                    },
                    Some(_) => None,
                };
                match idr {
                    None => None,
                    Some(id) => {
                        let ps: Option<JVal> = match sp_lookup(ms, "params"@) {
                            None => None,
                            Some(JVal::Null) => None,
                            Some(p) => Some(p),
                        };
                        Some(ReqV { method: m, id: id, params: ps })
                    },
                }
            },
            _ => None,
        },
        _ => None,
    }
}

/// Reads the well-shaped request out of a parsed input line, if it has one.
pub fn extract_request(v: &Json) -> (r: Option<InboundRequest>)
    ensures
        match r {
            Some(req) => sp_extract(jv(*v)) == Some(req.model()),
            None => sp_extract(jv(*v)) is None,
        },
{
    match v {
        Json::Obj(ms) => {
            let ok_jsonrpc: bool = match find_member(ms, "jsonrpc") {
                Some(j) => match j {
                    Json::Str(_) => true,
                    _ => false,
                },
                None => false,
            };
            if !ok_jsonrpc {
                return None;
            }
            let m: Vec<char> = match find_member(ms, "method") {
                Some(j) => match j {
                    Json::Str(s) => clone_chars(s),
                    _ => {
                        return None;
                    },
                },
                None => {
                    return None;
                },
            };
            let id: Option<Vec<char>> = match find_member(ms, "id") {
                None => None,
                Some(j) => match j {
                    Json::Null => None,
                    Json::Num(lx) => {
                        if is_int_lexeme(lx) {
                            Some(clone_chars(lx))
                        } else {
                            return None;
                        }
                    },
                    _ => {
                        return None;
                    },
                },
            };
            let ps: Option<Json> = match find_member(ms, "params") {
                None => None,
                Some(j) => match j {
                    Json::Null => None,
                    other => Some(clone_json(other)),
                },
            };
            Some(InboundRequest { method: m, id: id, params: ps })
        },
        _ => None,
    }
}

/// A tool request bound for the backend, agnostic of the transport.
pub struct ToolRequest {
    pub method: Vec<char>,
    pub params: Json,
}

/// The model of one dispatch step.
pub enum StepV {
    /// Write this line.
    Reply(Seq<char>),
    /// Ask the backend: method, params, and the caller's id to answer under.
    Forward(Seq<char>, JVal, Seq<char>),
    /// Produce nothing.
    Silent,
}

/// One decided dispatch step.
pub enum Step {
    /// Write this line.
    Reply(Vec<char>),
    /// Ask the backend with the request, then answer the caller's id.
    Forward(ToolRequest, Vec<char>),
    /// Produce nothing.
    Silent,
}

/// Routing a well-shaped request: the `initialize` answer is local and
/// fixed; `notifications/initialized` and every request without an id are
/// consumed silently; the two tool methods go to the backend, `tools/list`
/// always with empty-object params, `tools/call` with the caller's params
/// (empty object if absent); any other method is answered locally with the
/// -32601 error.
pub open spec fn sp_dispatch(req: ReqV) -> StepV {
    if req.method == "notifications/initialized"@ {
        StepV::Silent
    } else {
        match req.id {
            None => StepV::Silent,
            Some(idlex) => {
                if req.method == "initialize"@ {
                    StepV::Reply(ser(sp_success_response(idlex, sp_init_result())))
                } else if req.method == "tools/list"@ {
                    StepV::Forward(
                        "tools/list"@,
                        JVal::Obj(Seq::<(Seq<char>, JVal)>::empty()),
                        idlex,
                    )
                } else if req.method == "tools/call"@ {
                    StepV::Forward(
                        "tools/call"@,
                        match req.params {
                            Some(p) => p,
                            None => JVal::Obj(Seq::<(Seq<char>, JVal)>::empty()),
                        },
                        idlex,
                    )
                } else {
                    StepV::Reply(
                        ser(
                            sp_error_response(
                                idlex,
                                "-32601"@,
                                "Method not found: "@ + req.method,
                            ),
                        ),
                    )
                }
            },
        }
    }
}

/// The step one input line decides: nothing for a line that does not parse
/// or is not a well-shaped request, else as the routing says.
pub open spec fn sp_step(line: Seq<char>) -> StepV {
    match sp_doc(line) {
        None => StepV::Silent,
        Some(v) => match sp_extract(v) {
            None => StepV::Silent,
            Some(req) => sp_dispatch(req),
        },
    }
}

/// Decides one step of the session loop from one input line.
pub fn handle_line(line: &Vec<char>) -> (r: Step)
    ensures
        match r {
            Step::Reply(s) => sp_step(line@) == StepV::Reply(s@),
            Step::Forward(tr, id) => sp_step(line@) == StepV::Forward(
                tr.method@,
                jv(tr.params),
                id@,
            ),
            Step::Silent => sp_step(line@) == StepV::Silent,
        },
{
    let parsed: Json = match parse_document(line) {
        Some(v) => v,
        None => {
            return Step::Silent;
        },
    };
    let req: InboundRequest = match extract_request(&parsed) {
        Some(rq) => rq,
        None => {
            return Step::Silent;
        },
    };
    let InboundRequest { method, id, params } = req;
    if chars_eq_str(&method, "notifications/initialized") {
        return Step::Silent;
    }
    let idlex: Vec<char> = match id {
        Some(l) => l,
        None => {
            return Step::Silent;
        },
    };
    if chars_eq_str(&method, "initialize") {
        Step::Reply(success_response_text(&idlex, init_result_value()))
    } else if chars_eq_str(&method, "tools/list") {
        let empty: Vec<Member> = Vec::new();
        Step::Forward(ToolRequest { method: chars_of("tools/list"), params: Json::Obj(empty) }, idlex)
    } else if chars_eq_str(&method, "tools/call") {
        let p: Json = match params {
            Some(p) => p,
            None => {
                let empty: Vec<Member> = Vec::new();
                Json::Obj(empty)
            },
        };
        Step::Forward(ToolRequest { method: chars_of("tools/call"), params: p }, idlex)
    } else {
        let mut msg = chars_of("Method not found: ");
        append_chars(&mut msg, &method);
        Step::Reply(error_response_text(&idlex, "-32601", &msg))
    }
}

// ---------------------------------------------------------------------------
// Finishing a forwarded call.
// ---------------------------------------------------------------------------

/// The wording for each way a backend body can fail to normalize.
pub open spec fn sp_norm_err_text(e: NormalizeError) -> Seq<char> {
    match e {
        NormalizeError::EmptyBody => "Empty response body from MCP server"@,
        NormalizeError::NoSseData => "No data found in SSE response"@,
        NormalizeError::JsonParse => "Failed to parse backend JSON"@,
    }
}

fn norm_err_text(e: NormalizeError) -> (r: &'static str)
    ensures
        r@ == sp_norm_err_text(e),
{
    match e {
        NormalizeError::EmptyBody => "Empty response body from MCP server",
        NormalizeError::NoSseData => "No data found in SSE response",
        NormalizeError::JsonParse => "Failed to parse backend JSON",
    }
}

/// The response line once the backend's HTTP body arrived: the body
/// normalized, the unwrap rule applied, and a success envelope under the
/// caller's id; or the -32603 error envelope naming what failed. The HTTP
/// status plays no part here: a non-2xx reply still carries a body worth
/// parsing, and only earns a diagnostic outside.
pub open spec fn sp_finish_http(id: Seq<char>, body: Seq<char>) -> Seq<char> {
    match sp_normalize(body) {
        Ok(v) => ser(sp_success_response(id, sp_unwrap(v))),
        Err(e) => ser(
            sp_error_response(id, "-32603"@, "Internal error: "@ + sp_norm_err_text(e)),
        ),
    }
}

/// Builds the response line for a backend HTTP body.
pub fn finish_http(id: &Vec<char>, body: &Vec<char>) -> (r: Vec<char>)
    ensures
        r@ == sp_finish_http(id@, body@),
{
    match normalize_body(body) {
        Ok(v) => {
            let unwrapped = unwrap_result(v);
            success_response_text(id, unwrapped)
        },
        Err(e) => {
            let mut msg = chars_of("Internal error: ");
            let detail = chars_of(norm_err_text(e));
            append_chars(&mut msg, &detail);
            error_response_text(id, "-32603", &msg)
        },
    }
}

/// The response line once a process or socket backend answered with one
/// line: that line parsed as JSON (no SSE framing and no escape repair on
/// these transports), the unwrap rule applied, and a success envelope; or
/// the -32603 error envelope.
pub open spec fn sp_finish_reply_line(id: Seq<char>, reply: Seq<char>) -> Seq<char> {
    match sp_doc(reply) {
        Some(v) => ser(sp_success_response(id, sp_unwrap(v))),
        None => ser(
            sp_error_response(
                id,
                "-32603"@,
                "Internal error: Failed to parse backend JSON"@,
            ),
        ),
    }
}

/// Builds the response line for a process or socket backend reply line.
pub fn finish_reply_line(id: &Vec<char>, reply: &Vec<char>) -> (r: Vec<char>)
    ensures
        r@ == sp_finish_reply_line(id@, reply@),
{
    match parse_document(reply) {
        Some(v) => {
            let unwrapped = unwrap_result(v);
            success_response_text(id, unwrapped)
        },
        None => {
            let msg = chars_of("Internal error: Failed to parse backend JSON");
            error_response_text(id, "-32603", &msg)
        },
    }
}

/// The response line when the transport itself failed: the -32603 error
/// envelope with the failure's description.
pub fn transport_error_line(id: &Vec<char>, detail: &Vec<char>) -> (r: Vec<char>)
    ensures
        r@ == ser(sp_error_response(id@, "-32603"@, "Internal error: "@ + detail@)),
{
    let mut msg = chars_of("Internal error: ");
    append_chars(&mut msg, detail);
    error_response_text(id, "-32603", &msg)
}

// ---------------------------------------------------------------------------
// The socket-or-pipe target.
// ---------------------------------------------------------------------------

/// The configured target of the socket-or-pipe transport. The connection is
/// made per call, outside the library; this value only holds the path.
pub struct NamedPipeMcpClient {
    pipe_path: String,
}

impl NamedPipeMcpClient {
    /// The configured path.
    pub closed spec fn path_model(&self) -> Seq<char> {
        self.pipe_path@
    }

    /// Remembers the path to connect to on each call.
    pub fn new(pipe_path: &str) -> (r: Self)
        ensures
            r.path_model() == pipe_path@,
    {
        NamedPipeMcpClient { pipe_path: String::from_str(pipe_path) }
    }

    /// The path to connect to.
    pub fn path(&self) -> (r: &str)
        ensures
            r@ == self.path_model(),
    {
        self.pipe_path.as_str()
    }
}

} // verus!
