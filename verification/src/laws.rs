//! The laws the proxy states about itself, proved over the same spec
//! functions its public contracts use.

use vstd::prelude::*;
use crate::json::{JVal, ser, sp_lookup, sp_doc};
use crate::envelope::{
    sp_unwrap,
    sp_init_result,
    sp_success_response,
    sp_error_response,
};
use crate::normalize::{
    sp_normalize,
    sp_repair_response,
    sp_repair_result,
    sp_repair_item,
    sp_update_first,
    sp_sse_payload,
    sp_line_end,
    is_sse_text,
    has_prefix_at,
    result_fix,
    content_fix,
    text_fix,
};
use crate::dispatch::{
    ReqV,
    StepV,
    sp_dispatch,
    sp_step,
    sp_extract,
    sp_finish_http,
    sp_finish_reply_line,
};

verus! {

/// Every valid `initialize` request is answered locally with a success
/// response that carries the caller's id, and whose result's
/// `protocolVersion` is the fixed constant.
pub proof fn lemma_initialize_response(req: ReqV, idlex: Seq<char>)
    requires
        req.method == "initialize"@,
        req.id == Some(idlex),
    ensures
        sp_dispatch(req) == StepV::Reply(ser(sp_success_response(idlex, sp_init_result()))),
        sp_lookup(sp_success_response(idlex, sp_init_result())->Obj_0, "id"@) == Some(
            JVal::Num(idlex),
        ),
        sp_lookup(sp_init_result()->Obj_0, "protocolVersion"@) == Some(
            JVal::Str("2024-11-05"@),
        ),
{
    reveal_strlit("initialize");
    reveal_strlit("notifications/initialized");
    reveal_strlit("jsonrpc");
    reveal_strlit("id");
    reveal_strlit("result");
    reveal_strlit("capabilities");
    reveal_strlit("protocolVersion");
    reveal_strlit("serverInfo");
    reveal_with_fuel(sp_lookup, 5);
    let resp = sp_success_response(idlex, sp_init_result());
    assert(resp->Obj_0.subrange(1, 3)[0] == resp->Obj_0[1]);
    assert(resp->Obj_0.subrange(1, 3).subrange(1, 2)[0] == resp->Obj_0[2]);
    let caps = sp_init_result()->Obj_0;
    assert(caps.len() == 3);
    assert(caps[0].0 == "capabilities"@);
    assert(caps[0].0 != "protocolVersion"@);
    assert(caps.subrange(1, 3)[0] == caps[1]);
    assert(sp_lookup(caps, "protocolVersion"@) == sp_lookup(caps.subrange(1, 3), "protocolVersion"@));
    assert(caps.subrange(1, 3)[0].0 == "protocolVersion"@);
    assert(sp_lookup(caps.subrange(1, 3), "protocolVersion"@) == Some(caps[1].1));
}

/// A request with method `notifications/initialized` produces no output
/// line.
pub proof fn lemma_initialized_notification_silent(req: ReqV)
    requires
        req.method == "notifications/initialized"@,
    ensures
        sp_dispatch(req) == StepV::Silent,
{
}

/// A request with an unrecognized method and an id is answered with exactly
/// one error response: the caller's id, code -32601, and a message naming
/// the method; no backend is contacted.
pub proof fn lemma_unknown_method_response(req: ReqV, idlex: Seq<char>)
    requires
        req.id == Some(idlex),
        req.method != "initialize"@,
        req.method != "notifications/initialized"@,
        req.method != "tools/list"@,
        req.method != "tools/call"@,
    ensures
        sp_dispatch(req) == StepV::Reply(
            ser(sp_error_response(idlex, "-32601"@, "Method not found: "@ + req.method)),
        ),
        sp_lookup(
            sp_error_response(idlex, "-32601"@, "Method not found: "@ + req.method)->Obj_0,
            "id"@,
        ) == Some(JVal::Num(idlex)),
        sp_lookup(
            sp_error_response(idlex, "-32601"@, "Method not found: "@ + req.method)->Obj_0,
            "error"@,
        ) == Some(
            JVal::Obj(
                seq![
                    ("code"@, JVal::Num("-32601"@)),
                    ("message"@, JVal::Str("Method not found: "@ + req.method)),
                ],
            ),
        ),
{
    reveal_strlit("jsonrpc");
    reveal_strlit("id");
    reveal_strlit("error");
    reveal_with_fuel(sp_lookup, 5);
    let resp = sp_error_response(idlex, "-32601"@, "Method not found: "@ + req.method);
    assert(resp->Obj_0.len() == 3);
    assert(resp->Obj_0[0].0 == "jsonrpc"@);
    assert(resp->Obj_0[0].0 != "id"@);
    assert(resp->Obj_0.subrange(1, 3)[0] == resp->Obj_0[1]);
    assert(sp_lookup(resp->Obj_0, "id"@) == sp_lookup(resp->Obj_0.subrange(1, 3), "id"@));
    assert(resp->Obj_0.subrange(1, 3)[0].0 == "id"@);
    assert(sp_lookup(resp->Obj_0.subrange(1, 3), "id"@) == Some(resp->Obj_0[1].1));
    assert(resp->Obj_0.subrange(1, 3).subrange(1, 2)[0] == resp->Obj_0[2]);
}

/// A malformed input line (one that does not parse as JSON, or parses but
/// is not a well-shaped request) yields nothing: the loop writes no line
/// for it and goes on with the next.
pub proof fn lemma_malformed_line_silent(line: Seq<char>)
    requires
        match sp_doc(line) {
            None => true,
            Some(v) => sp_extract(v) is None,
        },
    ensures
        sp_step(line) == StepV::Silent,
{
}

/// The unwrap rule, both ways: a backend reply with a top-level `result`
/// member stands for exactly that member's value, and any other reply
/// stands for itself unchanged.
pub proof fn lemma_unwrap_rule(v: JVal)
    ensures
        match v {
            JVal::Obj(ms) => match sp_lookup(ms, "result"@) {
                Some(rv) => sp_unwrap(v) == rv,
                None => sp_unwrap(v) == v,
            },
            _ => sp_unwrap(v) == v,
        },
{
}

/// Updating the first `key` member keeps the length, every key, and every
/// member whose key differs.
pub proof fn lemma_update_first_untouched(
    ms: Seq<(Seq<char>, JVal)>,
    key: Seq<char>,
    f: spec_fn(JVal) -> JVal,
)
    ensures
        sp_update_first(ms, key, f).len() == ms.len(),
        forall|t: int| 0 <= t < ms.len() ==> (#[trigger] sp_update_first(ms, key, f)[t]).0
            == ms[t].0,
        forall|t: int|
            0 <= t < ms.len() && ms[t].0 != key ==> sp_update_first(ms, key, f)[t] == ms[t],
    decreases ms.len(),
{
    if ms.len() > 0 && ms[0].0 != key {
        lemma_update_first_untouched(ms.subrange(1, ms.len() as int), key, f);
        assert forall|t: int| 0 <= t < ms.len() implies (#[trigger] sp_update_first(ms, key, f)[
        t]).0 == ms[t].0 by {
            if t > 0 {
                assert(ms.subrange(1, ms.len() as int)[t - 1] == ms[t]);
            }
        }
        assert forall|t: int| 0 <= t < ms.len() && ms[t].0 != key implies sp_update_first(
            ms,
            key,
            f,
        )[t] == ms[t] by {
            if t > 0 {
                assert(ms.subrange(1, ms.len() as int)[t - 1] == ms[t]);
            }
        }
    }
}

/// The escape repair reaches only `result.content[*].text`. At the top it
/// changes at most members named `result` and no key anywhere; a reply that
/// is no object passes through whole. The same holds one level down for
/// `content` within the result, and for `text` within each content element:
/// any sibling field, whatever it holds, passes through verbatim.
pub proof fn lemma_repair_only_result(v: JVal)
    ensures
        match v {
            JVal::Obj(ms) => {
                let ms2 = sp_repair_response(v)->Obj_0;
                &&& sp_repair_response(v) == JVal::Obj(
                    sp_update_first(ms, "result"@, result_fix()),
                )
                &&& ms2.len() == ms.len()
                &&& forall|t: int| 0 <= t < ms.len() ==> (#[trigger] ms2[t]).0 == ms[t].0
                &&& forall|t: int| 0 <= t < ms.len() && ms[t].0 != "result"@ ==> ms2[t] == ms[t]
            },
            _ => sp_repair_response(v) == v,
        },
{
    match v {
        JVal::Obj(ms) => {
            lemma_update_first_untouched(ms, "result"@, result_fix());
        },
        _ => {},
    }
}

/// Within a `result` object the repair changes at most members named
/// `content`; every sibling (for instance a `meta` field holding escape
/// sequences) passes through verbatim.
pub proof fn lemma_repair_result_only_content(v: JVal)
    ensures
        match v {
            JVal::Obj(ms) => {
                let ms2 = sp_repair_result(v)->Obj_0;
                &&& sp_repair_result(v) == JVal::Obj(
                    sp_update_first(ms, "content"@, content_fix()),
                )
                &&& ms2.len() == ms.len()
                &&& forall|t: int| 0 <= t < ms.len() ==> (#[trigger] ms2[t]).0 == ms[t].0
                &&& forall|t: int| 0 <= t < ms.len() && ms[t].0 != "content"@ ==> ms2[t] == ms[t]
            },
            _ => sp_repair_result(v) == v,
        },
{
    match v {
        JVal::Obj(ms) => {
            lemma_update_first_untouched(ms, "content"@, content_fix());
        },
        _ => {},
    }
}

/// Within one content element the repair changes at most members named
/// `text`, and only when they hold a string.
pub proof fn lemma_repair_item_only_text(v: JVal)
    ensures
        match v {
            JVal::Obj(ms) => {
                let ms2 = sp_repair_item(v)->Obj_0;
                &&& sp_repair_item(v) == JVal::Obj(sp_update_first(ms, "text"@, text_fix()))
                &&& ms2.len() == ms.len()
                &&& forall|t: int| 0 <= t < ms.len() ==> (#[trigger] ms2[t]).0 == ms[t].0
                &&& forall|t: int| 0 <= t < ms.len() && ms[t].0 != "text"@ ==> ms2[t] == ms[t]
            },
            _ => sp_repair_item(v) == v,
        },
{
    match v {
        JVal::Obj(ms) => {
            lemma_update_first_untouched(ms, "text"@, text_fix());
        },
        _ => {},
    }
}

/// The position of the first newline, characterized.
proof fn lemma_line_end_at(s: Seq<char>, i: int, e: int)
    requires
        0 <= i <= e <= s.len(),
        forall|t: int| i <= t < e ==> s[t] != '\n',
        e == s.len() || s[e] == '\n',
    ensures
        sp_line_end(s, i) == e,
    decreases e - i,
{
    if i < e {
        lemma_line_end_at(s, i + 1, e);
    }
}

/// Round-trip idempotence of the two body encodings: a plain JSON body and
/// an SSE frame whose one `data: ` line carries that same body normalize to
/// the same value. The body must be a single line that is not itself taken
/// for SSE framing, as the plain branch demands.
pub proof fn lemma_sse_plain_agree(b: Seq<char>)
    requires
        sp_doc(b) is Some,
        !is_sse_text(b),
        forall|t: int| 0 <= t < b.len() ==> b[t] != '\n' && b[t] != '\r',
    ensures
        sp_normalize("data: "@ + b + seq!['\n']) == sp_normalize(b),
{
    reveal_strlit("data: ");
    reveal_strlit("data:");
    let frame = "data: "@ + b + seq!['\n'];
    // The body itself holds a value, so it is not blank.
    assert(crate::json::sp_ws(b, 0) != b.len());
    assert(b.len() >= 1);
    // The frame starts with the data mark, so it is taken for SSE.
    assert(frame.subrange(0, 5) =~= "data:"@);
    assert(has_prefix_at(frame, 0, "data:"@));
    assert(is_sse_text(frame));
    // The frame is not blank either.
    assert(frame[0] == 'd');
    assert(crate::json::sp_ws(frame, 0) == 0);
    // Its first and only line ends where the body ends.
    let e: int = 6 + b.len() as int;
    assert(frame[e] == '\n');
    assert forall|t: int| 0 <= t < e implies frame[t] != '\n' by {
        if t >= 6 {
            assert(frame[t] == b[t - 6]);
        }
    }
    lemma_line_end_at(frame, 0, e);
    // That line carries the mark and then exactly the body.
    assert(frame[e - 1] == b[b.len() - 1]);
    assert(frame.subrange(0, 6) =~= "data: "@);
    assert(frame.subrange(6, e) =~= b);
    assert(sp_sse_payload(frame, 0) == Some(b));
}

// ---------------------------------------------------------------------------
// Sequencing. The loop around the dispatcher is strictly sequential: it
// resolves each line's response before it reads the next, so the session is
// this fold, and output order is input order.
// ---------------------------------------------------------------------------

/// What one backend round trip came to: an HTTP body to normalize, a reply
/// line from a process or socket, or a transport failure with its
/// description.
pub enum OutcomeV {
    HttpBody(Seq<char>),
    ReplyLine(Seq<char>),
    Failure(Seq<char>),
}

/// Whether this line makes a backend call.
pub open spec fn sp_forwards(line: Seq<char>) -> bool {
    sp_step(line) is Forward
}

/// The output lines of one input line, given the backend outcome it
/// consumes if it forwards.
pub open spec fn sp_line_outputs(line: Seq<char>, oc: OutcomeV) -> Seq<Seq<char>> {
    match sp_step(line) {
        StepV::Silent => Seq::empty(),
        StepV::Reply(s) => seq![s],
        StepV::Forward(_m, _p, id) => seq![
            match oc {
                OutcomeV::HttpBody(body) => sp_finish_http(id, body),
                OutcomeV::ReplyLine(l) => sp_finish_reply_line(id, l),
                OutcomeV::Failure(d) => ser(
                    sp_error_response(id, "-32603"@, "Internal error: "@ + d),
                ),
            },
        ],
    }
}

/// How many of the lines make a backend call.
pub open spec fn sp_forward_count(lines: Seq<Seq<char>>) -> int
    decreases lines.len(),
{
    if lines.len() == 0 {
        0
    } else {
        (if sp_forwards(lines[0]) {
            1int
        } else {
            0int
        }) + sp_forward_count(lines.subrange(1, lines.len() as int))
    }
}

/// The whole session: lines processed strictly in order, each answered
/// before the next is read; the k-th forwarded call consumes the k-th
/// backend outcome.
pub open spec fn sp_session(lines: Seq<Seq<char>>, oracle: Seq<OutcomeV>) -> Seq<Seq<char>>
    decreases lines.len(),
{
    if lines.len() == 0 {
        Seq::empty()
    } else {
        let rest = lines.subrange(1, lines.len() as int);
        if sp_forwards(lines[0]) {
            let oc = if oracle.len() >= 1 {
                oracle[0]
            } else {
                OutcomeV::Failure(Seq::empty())
            };
            let orest = if oracle.len() >= 1 {
                oracle.subrange(1, oracle.len() as int)
            } else {
                oracle
            };
            sp_line_outputs(lines[0], oc) + sp_session(rest, orest)
        } else {
            sp_line_outputs(lines[0], OutcomeV::Failure(Seq::empty())) + sp_session(rest, oracle)
        }
    }
}

/// Sequencing: the session's output is the responses of the first lines,
/// whole and in order, followed by the responses of the later lines —
/// whatever each call's outcome was. With one line split off at a time this
/// gives R1, R2, R3 for three inputs.
pub proof fn lemma_session_order(
    lines1: Seq<Seq<char>>,
    lines2: Seq<Seq<char>>,
    oracle: Seq<OutcomeV>,
)
    requires
        sp_forward_count(lines1) <= oracle.len(),
    ensures
        sp_session(lines1 + lines2, oracle) == sp_session(
            lines1,
            oracle.subrange(0, sp_forward_count(lines1)),
        ) + sp_session(
            lines2,
            oracle.subrange(sp_forward_count(lines1), oracle.len() as int),
        ),
    decreases lines1.len(),
{
    lemma_forward_count_bounds(lines1);
    let all = lines1 + lines2;
    if lines1.len() == 0 {
        assert(all =~= lines2);
        assert(oracle.subrange(0, 0) =~= Seq::<OutcomeV>::empty());
        assert(oracle.subrange(0, oracle.len() as int) =~= oracle);
        assert(Seq::<Seq<char>>::empty() + sp_session(lines2, oracle) =~= sp_session(
            lines2,
            oracle,
        ));
    } else {
        let rest1 = lines1.subrange(1, lines1.len() as int);
        assert(all[0] == lines1[0]);
        assert(all.subrange(1, all.len() as int) =~= rest1 + lines2);
        let k = sp_forward_count(lines1);
        let o1 = oracle.subrange(0, k);
        if sp_forwards(lines1[0]) {
            lemma_forward_count_bounds(rest1);
            assert(k >= 1);
            let otail = oracle.subrange(1, oracle.len() as int);
            lemma_session_order(rest1, lines2, otail);
            assert(o1[0] == oracle[0]);
            assert(o1.subrange(1, k) =~= otail.subrange(0, k - 1));
            assert(otail.subrange(0, sp_forward_count(rest1)) =~= oracle.subrange(1, k).subrange(
                0,
                k - 1,
            ));
            assert(oracle.subrange(1, k) =~= otail.subrange(0, k - 1));
            assert(otail.subrange(sp_forward_count(rest1), otail.len() as int) =~= oracle.subrange(
                k,
                oracle.len() as int,
            ));
            assert(o1.subrange(1, o1.len() as int) =~= otail.subrange(0, k - 1));
            assert(sp_line_outputs(lines1[0], oracle[0]) + (sp_session(
                rest1,
                otail.subrange(0, sp_forward_count(rest1)),
            ) + sp_session(lines2, oracle.subrange(k, oracle.len() as int))) =~= (sp_line_outputs(
                lines1[0],
                oracle[0],
            ) + sp_session(rest1, otail.subrange(0, sp_forward_count(rest1)))) + sp_session(
                lines2,
                oracle.subrange(k, oracle.len() as int),
            ));
        } else {
            lemma_session_order(rest1, lines2, oracle);
            assert(sp_forward_count(rest1) == k);
            assert(sp_line_outputs(lines1[0], OutcomeV::Failure(Seq::empty())) + (sp_session(
                rest1,
                oracle.subrange(0, k),
            ) + sp_session(lines2, oracle.subrange(k, oracle.len() as int))) =~= (sp_line_outputs(
                lines1[0],
                OutcomeV::Failure(Seq::empty()),
            ) + sp_session(rest1, oracle.subrange(0, k))) + sp_session(
                lines2,
                oracle.subrange(k, oracle.len() as int),
            ));
        }
    }
}

/// A session forwards a non-negative number of calls.
pub proof fn lemma_forward_count_bounds(lines: Seq<Seq<char>>)
    ensures
        0 <= sp_forward_count(lines) <= lines.len(),
    decreases lines.len(),
{
    if lines.len() > 0 {
        lemma_forward_count_bounds(lines.subrange(1, lines.len() as int));
    }
}

} // verus!
