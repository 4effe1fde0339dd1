//! JSON-RPC envelope translation: wrapping outbound tool requests, the
//! unwrap rule for backend replies, and building the proxy's own response
//! envelopes.

use vstd::prelude::*;
use crate::json::{
    Json,
    JVal,
    Member,
    jv,
    jv_members,
    lemma_jv_members_index,
    sp_lookup,
    json_to_text,
    ser,
    chars_of,
    clone_chars,
    chars_eq_str,
    is_digit_c,
    is_digit_char,
};

verus! {

/// Whether `s` is an integer lexeme: an optional minus sign, then only
/// decimal digits, at least one.
pub open spec fn sp_is_int_lexeme(s: Seq<char>) -> bool {
    if s.len() >= 1 && s[0] == '-' {
        s.len() >= 2 && forall|t: int| 1 <= t < s.len() ==> is_digit_char(#[trigger] s[t])
    } else {
        s.len() >= 1 && forall|t: int| 0 <= t < s.len() ==> is_digit_char(#[trigger] s[t])
    }
}

/// Whether `s` is an integer lexeme.
#[verifier::loop_isolation(false)]
pub fn is_int_lexeme(s: &Vec<char>) -> (r: bool)
    ensures
        r == sp_is_int_lexeme(s@),
{
    let start: usize = if s.len() >= 1 && s[0] == '-' {
        1
    } else {
        0
    };
    if s.len() == start {
        return false;
    }
    let mut i: usize = start;
    while i < s.len()
        invariant
            start <= i && i <= s@.len(),
            forall|t: int| start <= t < i ==> is_digit_char(#[trigger] s@[t]),
        decreases s@.len() - i,
    {
        if !is_digit_c(s[i]) {
            return false;
        }
        i = i + 1;
    }
    true
}

// ---------------------------------------------------------------------------
// The unwrap rule.
// ---------------------------------------------------------------------------

/// The unwrap rule: a backend reply with a top-level `result` member stands
/// for that member's value; any other reply stands for itself.
pub open spec fn sp_unwrap(v: JVal) -> JVal {
    match v {
        JVal::Obj(ms) => match sp_lookup(ms, "result"@) {
            Some(rv) => rv,
            None => v,
        },
        _ => v,
    }
}

/// Applies the unwrap rule to a backend reply.
#[verifier::loop_isolation(false)]
pub fn unwrap_result(v: Json) -> (r: Json)
    ensures
        jv(r) == sp_unwrap(jv(v)),
{
    match v {
        Json::Obj(ms) => {
            let mut ms = ms;
            let ghost ms0 = ms@;
            let n: usize = ms.len();
            proof {
                lemma_jv_members_index(ms0);
                assert(jv_members(ms0).subrange(0, n as int) =~= jv_members(ms0));
            }
            let mut k: usize = 0;
            while k < n
                invariant
                    k <= n,
                    n == ms@.len(),
                    ms@ == ms0,
                    sp_lookup(jv_members(ms0), "result"@) == sp_lookup(
                        jv_members(ms0).subrange(k as int, n as int),
                        "result"@,
                    ),
                decreases n - k,
            {
                proof {
                    lemma_jv_members_index(ms0);
                    assert(jv_members(ms0).subrange(k as int, n as int)[0] == jv_members(ms0)[
                        k as int]);
                }
                if chars_eq_str(&ms[k].key, "result") {
                    let m = ms.remove(k);
                    return m.value;
                }
                k = k + 1;
                proof {
                    assert(jv_members(ms0).subrange(k as int - 1, n as int).subrange(
                        1,
                        n - k + 1,
                    ) =~= jv_members(ms0).subrange(k as int, n as int));
                }
            }
            Json::Obj(ms)
        },
        other => other,
    }
}

// ---------------------------------------------------------------------------
// Envelopes the proxy writes.
// ---------------------------------------------------------------------------

/// The envelope sent to the backend for one tool request. Its id is internal
/// plumbing, fixed at 1: each call is strictly request/response, so the
/// backend's id never correlates with the caller's.
pub open spec fn sp_envelope(method: Seq<char>, params: JVal) -> JVal {
    JVal::Obj(
        seq![
            ("jsonrpc"@, JVal::Str("2.0"@)),
            ("id"@, JVal::Num("1"@)),
            ("method"@, JVal::Str(method)),
            ("params"@, params),
        ],
    )
}

/// The serialized backend envelope for one tool request.
pub fn envelope_text(method: &Vec<char>, params: Json) -> (r: Vec<char>)
    ensures
        r@ == ser(sp_envelope(method@, jv(params))),
{
    let ghost pv = jv(params);
    let mut ms: Vec<Member> = Vec::new();
    ms.push(Member { key: chars_of("jsonrpc"), value: Json::Str(chars_of("2.0")) });
    ms.push(Member { key: chars_of("id"), value: Json::Num(chars_of("1")) });
    ms.push(Member { key: chars_of("method"), value: Json::Str(clone_chars(method)) });
    ms.push(Member { key: chars_of("params"), value: params });
    let obj = Json::Obj(ms);
    proof {
        lemma_jv_members_index(obj->Obj_0@);
        assert(jv_members(obj->Obj_0@) =~= seq![
            ("jsonrpc"@, JVal::Str("2.0"@)),
            ("id"@, JVal::Num("1"@)),
            ("method"@, JVal::Str(method@)),
            ("params"@, pv),
        ]);
    }
    json_to_text(&obj)
}

/// The fixed capability descriptor returned for `initialize`: the protocol
/// version, the declared tool-list-change capability, an empty logging
/// capability, and the static server name and version.
pub open spec fn sp_init_result() -> JVal {
    JVal::Obj(
        seq![
            (
                "capabilities"@,
                JVal::Obj(
                    seq![
                        ("logging"@, JVal::Obj(Seq::<(Seq<char>, JVal)>::empty())),
                        ("tools"@, JVal::Obj(seq![("listChanged"@, JVal::Bool(true))])),
                    ],
                ),
            ),
            ("protocolVersion"@, JVal::Str("2024-11-05"@)),
            (
                "serverInfo"@,
                JVal::Obj(
                    seq![
                        ("name"@, JVal::Str("mcp-proxy-tool"@)),
                        ("version"@, JVal::Str("1.0.0"@)),
                    ],
                ),
            ),
        ],
    )
}

/// A response that answers the caller's request `id` with a result.
pub open spec fn sp_success_response(id: Seq<char>, result: JVal) -> JVal {
    JVal::Obj(
        seq![
            ("jsonrpc"@, JVal::Str("2.0"@)),
            ("id"@, JVal::Num(id)),
            ("result"@, result),
        ],
    )
}

/// A response that answers the caller's request `id` with an error object.
pub open spec fn sp_error_response(id: Seq<char>, code: Seq<char>, msg: Seq<char>) -> JVal {
    JVal::Obj(
        seq![
            ("jsonrpc"@, JVal::Str("2.0"@)),
            ("id"@, JVal::Num(id)),
            (
                "error"@,
                JVal::Obj(seq![("code"@, JVal::Num(code)), ("message"@, JVal::Str(msg))]),
            ),
        ],
    )
}

/// The serialized success response line.
pub fn success_response_text(id: &Vec<char>, result: Json) -> (r: Vec<char>)
    ensures
        r@ == ser(sp_success_response(id@, jv(result))),
{
    let ghost rv = jv(result);
    let mut ms: Vec<Member> = Vec::new();
    ms.push(Member { key: chars_of("jsonrpc"), value: Json::Str(chars_of("2.0")) });
    ms.push(Member { key: chars_of("id"), value: Json::Num(clone_chars(id)) });
    ms.push(Member { key: chars_of("result"), value: result });
    let obj = Json::Obj(ms);
    proof {
        lemma_jv_members_index(obj->Obj_0@);
        assert(jv_members(obj->Obj_0@) =~= seq![
            ("jsonrpc"@, JVal::Str("2.0"@)),
            ("id"@, JVal::Num(id@)),
            ("result"@, rv),
        ]);
    }
    json_to_text(&obj)
}

/// The serialized error response line.
pub fn error_response_text(id: &Vec<char>, code: &str, msg: &Vec<char>) -> (r: Vec<char>)
    ensures
        r@ == ser(sp_error_response(id@, code@, msg@)),
{
    let mut err_ms: Vec<Member> = Vec::new();
    err_ms.push(Member { key: chars_of("code"), value: Json::Num(chars_of(code)) });
    err_ms.push(Member { key: chars_of("message"), value: Json::Str(clone_chars(msg)) });
    let err_obj = Json::Obj(err_ms);
    proof {
        lemma_jv_members_index(err_obj->Obj_0@);
        assert(jv_members(err_obj->Obj_0@) =~= seq![
            ("code"@, JVal::Num(code@)),
            ("message"@, JVal::Str(msg@)),
        ]);
    }
    let mut ms: Vec<Member> = Vec::new();
    ms.push(Member { key: chars_of("jsonrpc"), value: Json::Str(chars_of("2.0")) });
    ms.push(Member { key: chars_of("id"), value: Json::Num(clone_chars(id)) });
    ms.push(Member { key: chars_of("error"), value: err_obj });
    let obj = Json::Obj(ms);
    proof {
        lemma_jv_members_index(obj->Obj_0@);
        assert(jv_members(obj->Obj_0@) =~= seq![
            ("jsonrpc"@, JVal::Str("2.0"@)),
            ("id"@, JVal::Num(id@)),
            (
                "error"@,
                JVal::Obj(seq![("code"@, JVal::Num(code@)), ("message"@, JVal::Str(msg@))]),
            ),
        ]);
    }
    json_to_text(&obj)
}

/// The capability descriptor as a value.
pub fn init_result_value() -> (r: Json)
    ensures
        jv(r) == sp_init_result(),
{
    let mut tools_ms: Vec<Member> = Vec::new();
    tools_ms.push(Member { key: chars_of("listChanged"), value: Json::Bool(true) });
    let tools_obj = Json::Obj(tools_ms);
    proof {
        lemma_jv_members_index(tools_obj->Obj_0@);
        assert(jv_members(tools_obj->Obj_0@) =~= seq![("listChanged"@, JVal::Bool(true))]);
    }
    let logging_ms: Vec<Member> = Vec::new();
    let logging_obj = Json::Obj(logging_ms);
    proof {
        lemma_jv_members_index(logging_obj->Obj_0@);
        assert(jv_members(logging_obj->Obj_0@) =~= Seq::<(Seq<char>, JVal)>::empty());
    }
    let mut caps_ms: Vec<Member> = Vec::new();
    caps_ms.push(Member { key: chars_of("logging"), value: logging_obj });
    caps_ms.push(Member { key: chars_of("tools"), value: tools_obj });
    let caps_obj = Json::Obj(caps_ms);
    proof {
        lemma_jv_members_index(caps_obj->Obj_0@);
        assert(jv_members(caps_obj->Obj_0@) =~= seq![
            ("logging"@, JVal::Obj(Seq::<(Seq<char>, JVal)>::empty())),
            ("tools"@, JVal::Obj(seq![("listChanged"@, JVal::Bool(true))])),
        ]);
    }
    let mut info_ms: Vec<Member> = Vec::new();
    info_ms.push(Member { key: chars_of("name"), value: Json::Str(chars_of("mcp-proxy-tool")) });
    info_ms.push(Member { key: chars_of("version"), value: Json::Str(chars_of("1.0.0")) });
    let info_obj = Json::Obj(info_ms);
    proof {
        lemma_jv_members_index(info_obj->Obj_0@);
        assert(jv_members(info_obj->Obj_0@) =~= seq![
            ("name"@, JVal::Str("mcp-proxy-tool"@)),
            ("version"@, JVal::Str("1.0.0"@)),
        ]);
    }
    let mut ms: Vec<Member> = Vec::new();
    ms.push(Member { key: chars_of("capabilities"), value: caps_obj });
    ms.push(Member { key: chars_of("protocolVersion"), value: Json::Str(chars_of("2024-11-05")) });
    ms.push(Member { key: chars_of("serverInfo"), value: info_obj });
    let obj = Json::Obj(ms);
    proof {
        lemma_jv_members_index(obj->Obj_0@);
        assert(jv_members(obj->Obj_0@) =~= sp_init_result()->Obj_0);
    }
    obj
}

} // verus!
