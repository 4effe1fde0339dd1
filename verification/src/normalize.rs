//! Normalizing a backend HTTP reply: detecting Server-Sent-Events framing,
//! extracting the embedded JSON payload, and repairing double-encoded escape
//! sequences inside `result.content[*].text`.

use vstd::prelude::*;
use crate::json::{Json, JVal, Member, jv, jv_list, jv_members, lemma_jv_list_index, lemma_jv_members_index, parse_document, sp_doc, sp_ws, ws_end, chars_eq_str};

verus! {

/// Why a backend body could not be normalized.
#[derive(Clone, Copy, Debug, PartialEq, Eq, Structural)]
pub enum NormalizeError {
    /// The body is blank after trimming.
    EmptyBody,
    /// The body looks like SSE framing but holds no usable `data: ` line.
    NoSseData,
    /// The body (or the extracted SSE payload) is not valid JSON.
    JsonParse,
}

// ---------------------------------------------------------------------------
// Literal substitution, as str::replace does it: left to right, without
// overlap, in one pass.
// ---------------------------------------------------------------------------

/// Every occurrence of `pat` in `s` replaced by `rep`, scanning left to
/// right without overlap.
pub open spec fn sp_replace(s: Seq<char>, pat: Seq<char>, rep: Seq<char>) -> Seq<char>
    decreases s.len(),
{
    if pat.len() == 0 || s.len() < pat.len() {
        s
    } else if s.subrange(0, pat.len() as int) == pat {
        rep + sp_replace(s.subrange(pat.len() as int, s.len() as int), pat, rep)
    } else {
        seq![s[0]] + sp_replace(s.subrange(1, s.len() as int), pat, rep)
    }
}

/// Whether `pat` occurs in `s` at position `i`.
pub open spec fn has_prefix_at(s: Seq<char>, i: int, pat: Seq<char>) -> bool {
    0 <= i && i + pat.len() <= s.len() && s.subrange(i, i + pat.len()) == pat
}

/// Whether `pat` occurs in `s` at position `i`.
#[verifier::loop_isolation(false)]
pub fn prefix_at(s: &Vec<char>, i: usize, pat: &str) -> (r: bool)
    requires
        i <= s@.len(),
    ensures
        r == has_prefix_at(s@, i as int, pat@),
{
    let n: usize = pat.unicode_len();
    if s.len() - i < n {
        return false;
    }
    let mut t: usize = 0;
    while t < n
        invariant
            t <= n,
            i + n <= s@.len(),
            n == pat@.len(),
            forall|q: int| 0 <= q < t ==> s@[i + q] == pat@[q],
        decreases n - t,
    {
        if s[i + t] != pat.get_char(t) {
            proof {
                assert(s@.subrange(i as int, i as int + pat@.len())[t as int] != pat@[t as int]);
            }
            return false;
        }
        t = t + 1;
    }
    proof {
        assert(s@.subrange(i as int, i as int + pat@.len()) =~= pat@);
    }
    true
}

/// Every occurrence of `pat` replaced by `rep`.
#[verifier::loop_isolation(false)]
pub fn replace_all(s: &Vec<char>, pat: &str, rep: &str) -> (r: Vec<char>)
    requires
        pat@.len() > 0,
    ensures
        r@ == sp_replace(s@, pat@, rep@),
{
    let plen: usize = pat.unicode_len();
    let rlen: usize = rep.unicode_len();
    let mut out: Vec<char> = Vec::new();
    let mut i: usize = 0;
    proof {
        assert(s@.subrange(0, s@.len() as int) =~= s@);
        assert(Seq::<char>::empty() + sp_replace(s@, pat@, rep@) =~= sp_replace(s@, pat@, rep@));
    }
    while s.len() - i >= plen
        invariant
            i <= s@.len(),
            plen == pat@.len(),
            rlen == rep@.len(),
            sp_replace(s@, pat@, rep@) == out@ + sp_replace(
                s@.subrange(i as int, s@.len() as int),
                pat@,
                rep@,
            ),
        decreases s@.len() - i,
    {
        let ghost pre = s@.subrange(i as int, s@.len() as int);
        let ghost out0 = out@;
        if prefix_at(s, i, pat) {
            proof {
                assert(pre.subrange(0, plen as int) =~= s@.subrange(i as int, i as int + plen));
                assert(pre.subrange(plen as int, pre.len() as int) =~= s@.subrange(
                    i as int + plen,
                    s@.len() as int,
                ));
            }
            let mut t: usize = 0;
            while t < rlen
                invariant
                    t <= rlen,
                    out@ == out0 + rep@.subrange(0, t as int),
                decreases rlen - t,
            {
                out.push(rep.get_char(t));
                t = t + 1;
                proof {
                    assert(out@ =~= out0 + rep@.subrange(0, t as int));
                }
            }
            i = i + plen;
            proof {
                assert(out@ =~= out0 + rep@);
                assert(pre.subrange(0, plen as int) == pat@);
                assert(sp_replace(pre, pat@, rep@) == rep@ + sp_replace(
                    s@.subrange(i as int, s@.len() as int),
                    pat@,
                    rep@,
                ));
                assert(out0 + (rep@ + sp_replace(
                    s@.subrange(i as int, s@.len() as int),
                    pat@,
                    rep@,
                )) =~= out@ + sp_replace(s@.subrange(i as int, s@.len() as int), pat@, rep@));
                assert(sp_replace(s@, pat@, rep@) == out@ + sp_replace(
                    s@.subrange(i as int, s@.len() as int),
                    pat@,
                    rep@,
                ));
            }
        } else {
            proof {
                assert(pre.subrange(0, plen as int) =~= s@.subrange(i as int, i as int + plen));
                assert(pre.subrange(1, pre.len() as int) =~= s@.subrange(
                    i as int + 1,
                    s@.len() as int,
                ));
                assert(pre[0] == s@[i as int]);
            }
            out.push(s[i]);
            i = i + 1;
            proof {
                assert(out@ =~= out0 + seq![pre[0]]);
                assert(pre.subrange(0, plen as int) != pat@);
                assert(sp_replace(pre, pat@, rep@) == seq![pre[0]] + sp_replace(
                    s@.subrange(i as int, s@.len() as int),
                    pat@,
                    rep@,
                ));
                assert(out0 + (seq![pre[0]] + sp_replace(
                    s@.subrange(i as int, s@.len() as int),
                    pat@,
                    rep@,
                )) =~= out@ + sp_replace(s@.subrange(i as int, s@.len() as int), pat@, rep@));
                assert(sp_replace(s@, pat@, rep@) == out@ + sp_replace(
                    s@.subrange(i as int, s@.len() as int),
                    pat@,
                    rep@,
                ));
            }
        }
    }
    proof {
        assert(sp_replace(s@.subrange(i as int, s@.len() as int), pat@, rep@) == s@.subrange(
            i as int,
            s@.len() as int,
        ));
    }
    while i < s.len()
        invariant
            i <= s@.len(),
            plen == pat@.len(),
            s@.len() - i < plen,
            sp_replace(s@, pat@, rep@) == out@ + s@.subrange(i as int, s@.len() as int),
        decreases s@.len() - i,
    {
        let ghost out0 = out@;
        out.push(s[i]);
        i = i + 1;
        proof {
            assert(out@ =~= out0 + seq![s@[i as int - 1]]);
            assert(out0 + s@.subrange(i as int - 1, s@.len() as int) =~= out@ + s@.subrange(
                i as int,
                s@.len() as int,
            ));
        }
    }
    proof {
        assert(out@ + s@.subrange(i as int, s@.len() as int) =~= out@);
    }
    out
}

// ---------------------------------------------------------------------------
// The escape repair. Backend output that was JSON-escaped twice is mended by
// a fixed, ordered sequence of literal substitutions, applied only to string
// values under `result.content[*].text`; every other field passes through
// verbatim.
// ---------------------------------------------------------------------------

/// The fixed substitution chain applied to a text field.
pub open spec fn sp_repaired_text(t: Seq<char>) -> Seq<char> {
    let t1 = sp_replace(t, "\\u0027"@, "'"@);
    let t2 = sp_replace(t1, "\\u0060"@, "`"@);
    let t3 = sp_replace(t2, "\\u0022"@, "\""@);
    let t4 = sp_replace(t3, "\\u003C"@, "<"@);
    let t5 = sp_replace(t4, "\\u003E"@, ">"@);
    sp_replace(t5, "\\n"@, "\n"@)
}

/// The member list with the value of the first member named `key` replaced
/// by `f` of it; without such a member, the list unchanged.
pub open spec fn sp_update_first(
    ms: Seq<(Seq<char>, JVal)>,
    key: Seq<char>,
    f: spec_fn(JVal) -> JVal,
) -> Seq<(Seq<char>, JVal)>
    decreases ms.len(),
{
    if ms.len() == 0 {
        ms
    } else if ms[0].0 == key {
        seq![(ms[0].0, f(ms[0].1))] + ms.subrange(1, ms.len() as int)
    } else {
        seq![ms[0]] + sp_update_first(ms.subrange(1, ms.len() as int), key, f)
    }
}

/// Updating the first `key` member skips any prefix without that key.
pub proof fn lemma_update_first_skip(
    ms: Seq<(Seq<char>, JVal)>,
    key: Seq<char>,
    f: spec_fn(JVal) -> JVal,
    k: int,
)
    requires
        0 <= k <= ms.len(),
        forall|t: int| 0 <= t < k ==> ms[t].0 != key,
    ensures
        sp_update_first(ms, key, f) == ms.subrange(0, k) + sp_update_first(
            ms.subrange(k, ms.len() as int),
            key,
            f,
        ),
    decreases k,
{
    if k == 0 {
        assert(ms.subrange(0, ms.len() as int) =~= ms);
        assert(ms.subrange(0, 0) + sp_update_first(ms.subrange(0, ms.len() as int), key, f)
            =~= sp_update_first(ms, key, f));
    } else {
        lemma_update_first_skip(ms, key, f, k - 1);
        let tail = ms.subrange(k - 1, ms.len() as int);
        assert(tail[0] == ms[k - 1]);
        assert(tail.subrange(1, tail.len() as int) =~= ms.subrange(k, ms.len() as int));
        assert(ms.subrange(0, k - 1) + (seq![ms[k - 1]] + sp_update_first(
            ms.subrange(k, ms.len() as int),
            key,
            f,
        )) =~= ms.subrange(0, k) + sp_update_first(ms.subrange(k, ms.len() as int), key, f));
    }
}

/// The repaired form of one element of `result.content`: its first `text`
/// member, when it is a string, with the substitution chain applied.
pub open spec fn sp_repair_item(v: JVal) -> JVal {
    match v {
        JVal::Obj(ms) => JVal::Obj(
            sp_update_first(
                ms,
                "text"@,
                |t: JVal|
                    match t {
                        JVal::Str(s) => JVal::Str(sp_repaired_text(s)),
                        _ => t,
                    },
            ),
        ),
        _ => v,
    }
}

/// The repaired elements of a `content` array.
pub open spec fn sp_repair_items(items: Seq<JVal>) -> Seq<JVal>
    decreases items.len(),
{
    if items.len() == 0 {
        items
    } else {
        seq![sp_repair_item(items[0])] + sp_repair_items(items.subrange(1, items.len() as int))
    }
}

/// The repaired elements keep their count and are repaired pointwise.
pub proof fn lemma_sp_repair_items_index(items: Seq<JVal>)
    ensures
        sp_repair_items(items).len() == items.len(),
        forall|t: int| 0 <= t < items.len() ==> sp_repair_items(items)[t] == sp_repair_item(
            items[t],
        ),
    decreases items.len(),
{
    if items.len() > 0 {
        lemma_sp_repair_items_index(items.subrange(1, items.len() as int));
        assert forall|t: int| 0 <= t < items.len() implies sp_repair_items(items)[t]
            == sp_repair_item(items[t]) by {
            if t > 0 {
                assert(items.subrange(1, items.len() as int)[t - 1] == items[t]);
            }
        }
    }
}

/// The repaired form of a `content` value: when it is an array, each element
/// repaired; anything else passes through.
pub open spec fn sp_repair_content(v: JVal) -> JVal {
    match v {
        JVal::Arr(items) => JVal::Arr(sp_repair_items(items)),
        _ => v,
    }
}

/// The repaired form of a `result` value: its first `content` member
/// repaired; anything else passes through.
pub open spec fn sp_repair_result(v: JVal) -> JVal {
    match v {
        JVal::Obj(ms) => JVal::Obj(
            sp_update_first(ms, "content"@, |c: JVal| sp_repair_content(c)),
        ),
        _ => v,
    }
}

/// The repaired form of a whole backend reply: its first `result` member
/// repaired; every sibling field passes through verbatim.
pub open spec fn sp_repair_response(v: JVal) -> JVal {
    match v {
        JVal::Obj(ms) => JVal::Obj(sp_update_first(ms, "result"@, |r: JVal| sp_repair_result(r))),
        _ => v,
    }
}


/// The repair applied to the value of a `text` member.
pub open spec fn text_fix() -> spec_fn(JVal) -> JVal {
    |t: JVal|
        match t {
            JVal::Str(s) => JVal::Str(sp_repaired_text(s)),
            _ => t,
        }
}

/// The repair applied to the value of a `content` member.
pub open spec fn content_fix() -> spec_fn(JVal) -> JVal {
    |c: JVal| sp_repair_content(c)
}

/// The repair applied to the value of a `result` member.
pub open spec fn result_fix() -> spec_fn(JVal) -> JVal {
    |r: JVal| sp_repair_result(r)
}

/// Applies the fixed substitution chain to a text field.
pub fn repaired_text(t: &Vec<char>) -> (r: Vec<char>)
    ensures
        r@ == sp_repaired_text(t@),
{
    proof {
        reveal_strlit("\\u0027");
        reveal_strlit("\\u0060");
        reveal_strlit("\\u0022");
        reveal_strlit("\\u003C");
        reveal_strlit("\\u003E");
        reveal_strlit("\\n");
    }
    let t1 = replace_all(t, "\\u0027", "'");
    let t2 = replace_all(&t1, "\\u0060", "`");
    let t3 = replace_all(&t2, "\\u0022", "\"");
    let t4 = replace_all(&t3, "\\u003C", "<");
    let t5 = replace_all(&t4, "\\u003E", ">");
    replace_all(&t5, "\\n", "\n")
}

fn repair_text_value(v: Json) -> (r: Json)
    ensures
        jv(r) == (text_fix())(jv(v)),
{
    match v {
        Json::Str(s) => {
            let s2 = repaired_text(&s);
            Json::Str(s2)
        },
        other => other,
    }
}

/// One element of `result.content`, its first string `text` member repaired.
#[verifier::loop_isolation(false)]
fn repair_item(it: Json) -> (r: Json)
    ensures
        jv(r) == sp_repair_item(jv(it)),
{
    match it {
        Json::Obj(ms) => {
            let mut ms = ms;
            let ghost ms0 = ms@;
            let n: usize = ms.len();
            let mut k: usize = 0;
            while k < n
                invariant
                    k <= n,
                    n == ms@.len(),
                    ms@ == ms0,
                    forall|t: int| 0 <= t < k ==> jv_members(ms0)[t].0 != "text"@,
                decreases n - k,
            {
                proof {
                    lemma_jv_members_index(ms0);
                }
                if chars_eq_str(&ms[k].key, "text") {
                    let m = ms.remove(k);
                    let m2 = Member { key: m.key, value: repair_text_value(m.value) };
                    ms.insert(k, m2);
                    proof {
                        lemma_jv_members_index(ms0);
                        lemma_jv_members_index(ms@);
                        lemma_update_first_skip(jv_members(ms0), "text"@, text_fix(), k as int);
                        assert(jv_members(ms@) =~= sp_update_first(
                            jv_members(ms0),
                            "text"@,
                            text_fix(),
                        ));
                    }
                    return Json::Obj(ms);
                }
                k = k + 1;
            }
            proof {
                lemma_jv_members_index(ms0);
                lemma_update_first_skip(jv_members(ms0), "text"@, text_fix(), n as int);
                assert(sp_update_first(jv_members(ms0), "text"@, text_fix()) =~= jv_members(ms0));
            }
            Json::Obj(ms)
        },
        other => other,
    }
}

/// A `content` value, each array element repaired.
#[verifier::loop_isolation(false)]
fn repair_content(v: Json) -> (r: Json)
    ensures
        jv(r) == (content_fix())(jv(v)),
{
    match v {
        Json::Arr(items) => {
            let mut items = items;
            let ghost it0 = items@;
            let n: usize = items.len();
            let mut k: usize = 0;
            while k < n
                invariant
                    k <= n,
                    items@.len() == n,
                    forall|t: int| k <= t < n ==> items@[t] == it0[t],
                    forall|t: int| 0 <= t < k ==> jv(#[trigger] items@[t]) == sp_repair_item(
                        jv(it0[t]),
                    ),
                decreases n - k,
            {
                let m = items.remove(k);
                let m2 = repair_item(m);
                items.insert(k, m2);
                k = k + 1;
            }
            proof {
                lemma_jv_list_index(it0);
                lemma_jv_list_index(items@);
                lemma_sp_repair_items_index(jv_list(it0));
                assert(jv_list(items@) =~= sp_repair_items(jv_list(it0)));
            }
            Json::Arr(items)
        },
        other => other,
    }
}

/// A `result` value, its first `content` member repaired.
#[verifier::loop_isolation(false)]
fn repair_result(v: Json) -> (r: Json)
    ensures
        jv(r) == (result_fix())(jv(v)),
{
    match v {
        Json::Obj(ms) => {
            let mut ms = ms;
            let ghost ms0 = ms@;
            let n: usize = ms.len();
            let mut k: usize = 0;
            while k < n
                invariant
                    k <= n,
                    n == ms@.len(),
                    ms@ == ms0,
                    forall|t: int| 0 <= t < k ==> jv_members(ms0)[t].0 != "content"@,
                decreases n - k,
            {
                proof {
                    lemma_jv_members_index(ms0);
                }
                if chars_eq_str(&ms[k].key, "content") {
                    let m = ms.remove(k);
                    let m2 = Member { key: m.key, value: repair_content(m.value) };
                    ms.insert(k, m2);
                    proof {
                        lemma_jv_members_index(ms0);
                        lemma_jv_members_index(ms@);
                        lemma_update_first_skip(jv_members(ms0), "content"@, content_fix(), k as int);
                        assert(jv_members(ms@) =~= sp_update_first(
                            jv_members(ms0),
                            "content"@,
                            content_fix(),
                        ));
                    }
                    return Json::Obj(ms);
                }
                k = k + 1;
            }
            proof {
                lemma_jv_members_index(ms0);
                lemma_update_first_skip(jv_members(ms0), "content"@, content_fix(), n as int);
                assert(sp_update_first(jv_members(ms0), "content"@, content_fix()) =~= jv_members(
                    ms0,
                ));
            }
            Json::Obj(ms)
        },
        other => other,
    }
}

/// A whole backend reply, its first `result` member repaired; every sibling
/// field passes through verbatim.
#[verifier::loop_isolation(false)]
pub fn repair_response(v: Json) -> (r: Json)
    ensures
        jv(r) == sp_repair_response(jv(v)),
{
    match v {
        Json::Obj(ms) => {
            let mut ms = ms;
            let ghost ms0 = ms@;
            let n: usize = ms.len();
            let mut k: usize = 0;
            while k < n
                invariant
                    k <= n,
                    n == ms@.len(),
                    ms@ == ms0,
                    forall|t: int| 0 <= t < k ==> jv_members(ms0)[t].0 != "result"@,
                decreases n - k,
            {
                proof {
                    lemma_jv_members_index(ms0);
                }
                if chars_eq_str(&ms[k].key, "result") {
                    let m = ms.remove(k);
                    let m2 = Member { key: m.key, value: repair_result(m.value) };
                    ms.insert(k, m2);
                    proof {
                        lemma_jv_members_index(ms0);
                        lemma_jv_members_index(ms@);
                        lemma_update_first_skip(jv_members(ms0), "result"@, result_fix(), k as int);
                        assert(jv_members(ms@) =~= sp_update_first(
                            jv_members(ms0),
                            "result"@,
                            result_fix(),
                        ));
                    }
                    return Json::Obj(ms);
                }
                k = k + 1;
            }
            proof {
                lemma_jv_members_index(ms0);
                lemma_update_first_skip(jv_members(ms0), "result"@, result_fix(), n as int);
                assert(sp_update_first(jv_members(ms0), "result"@, result_fix()) =~= jv_members(
                    ms0,
                ));
            }
            Json::Obj(ms)
        },
        other => other,
    }
}

// ---------------------------------------------------------------------------
// Server-Sent-Events framing.
// ---------------------------------------------------------------------------

/// Whether a body is taken for SSE framing: it starts with `event:` or holds
/// `data:` anywhere.
pub open spec fn is_sse_text(s: Seq<char>) -> bool {
    has_prefix_at(s, 0, "event:"@) || exists|i: int| has_prefix_at(s, i, "data:"@)
}

/// Whether a body is taken for SSE framing.
#[verifier::loop_isolation(false)]
pub fn is_sse(s: &Vec<char>) -> (r: bool)
    ensures
        r == is_sse_text(s@),
{
    proof {
        reveal_strlit("data:");
    }
    if prefix_at(s, 0, "event:") {
        return true;
    }
    let n: usize = s.len();
    let mut i: usize = 0;
    while i < n
        invariant
            i <= n,
            n == s@.len(),
            forall|t: int| 0 <= t < i ==> !has_prefix_at(s@, t, "data:"@),
        decreases n - i,
    {
        if prefix_at(s, i, "data:") {
            return true;
        }
        i = i + 1;
    }
    proof {
        assert forall|t: int| !has_prefix_at(s@, t, "data:"@) by {
            if 0 <= t < n {
                assert(!has_prefix_at(s@, t, "data:"@));
            }
        }
    }
    false
}

/// The first position at or after `i` that holds a newline, or the end.
pub open spec fn sp_line_end(s: Seq<char>, i: int) -> int
    decreases s.len() - i,
{
    if 0 <= i && i < s.len() && s[i] != '\n' {
        sp_line_end(s, i + 1)
    } else {
        i
    }
}

#[verifier::loop_isolation(false)]
fn line_end(s: &Vec<char>, i: usize) -> (r: usize)
    requires
        i <= s@.len(),
    ensures
        r as int == sp_line_end(s@, i as int),
        i <= r && r as int <= s@.len(),
{
    let mut k: usize = i;
    while k < s.len() && s[k] != '\n'
        invariant
            i <= k && k as int <= s@.len(),
            sp_line_end(s@, i as int) == sp_line_end(s@, k as int),
        decreases s@.len() - k as int,
    {
        k = k + 1;
    }
    k
}

/// The payload of the first line that starts with `data: ` (after dropping a
/// carriage return at the line's end), scanning lines from position `i`.
pub open spec fn sp_sse_payload(s: Seq<char>, i: int) -> Option<Seq<char>>
    decreases s.len() - i,
{
    if i < 0 || i > s.len() {
        None
    } else {
        let e = sp_line_end(s, i);
        if e < i || e > s.len() {
            // Unreachable: the line end lies within the text.
            None
        } else {
            let t: int = if e > i && s[e - 1] == '\r' {
                e - 1
            } else {
                e
            };
            if t - i >= 6 && s.subrange(i, i + 6) == "data: "@ {
                Some(s.subrange(i + 6, t))
            } else if e < s.len() {
                sp_sse_payload(s, e + 1)
            } else {
                None
            }
        }
    }
}

/// The payload of the first `data: ` line of an SSE body.
#[verifier::loop_isolation(false)]
pub fn sse_payload(s: &Vec<char>) -> (r: Option<Vec<char>>)
    ensures
        match r {
            Some(d) => sp_sse_payload(s@, 0) == Some(d@),
            None => sp_sse_payload(s@, 0) is None,
        },
{
    proof {
        reveal_strlit("data: ");
    }
    let mut pos: usize = 0;
    loop
        invariant
            pos as int <= s@.len(),
            sp_sse_payload(s@, 0) == sp_sse_payload(s@, pos as int),
        decreases s@.len() - pos as int,
    {
        let e = line_end(s, pos);
        let t: usize = if e > pos && s[e - 1] == '\r' {
            e - 1
        } else {
            e
        };
        if t - pos >= 6 && prefix_at(s, pos, "data: ") {
            let mut d: Vec<char> = Vec::new();
            let mut q: usize = pos + 6;
            proof {
                assert(d@ =~= s@.subrange(pos as int + 6, pos as int + 6));
            }
            while q < t
                invariant
                    pos + 6 <= q && q <= t,
                    t as int <= s@.len(),
                    d@ == s@.subrange(pos as int + 6, q as int),
                decreases t - q,
            {
                d.push(s[q]);
                q = q + 1;
                proof {
                    assert(d@ =~= s@.subrange(pos as int + 6, q as int));
                }
            }
            return Some(d);
        } else if e < s.len() {
            pos = e + 1;
        } else {
            return None;
        }
    }
}

// ---------------------------------------------------------------------------
// Normalizing one backend HTTP body.
// ---------------------------------------------------------------------------

/// What normalizing a backend HTTP body yields: the error for a blank body;
/// for SSE framing, the first `data: ` payload parsed as JSON; otherwise the
/// whole body parsed as JSON; in both parsed cases with the escape repair
/// applied under `result.content[*].text`.
pub open spec fn sp_normalize(s: Seq<char>) -> Result<JVal, NormalizeError> {
    if sp_ws(s, 0) == s.len() {
        Err(NormalizeError::EmptyBody)
    } else if is_sse_text(s) {
        match sp_sse_payload(s, 0) {
            None => Err(NormalizeError::NoSseData),
            Some(d) => if d.len() == 0 {
                Err(NormalizeError::NoSseData)
            } else {
                match sp_doc(d) {
                    Some(v) => Ok(sp_repair_response(v)),
                    None => Err(NormalizeError::JsonParse),
                }
            },
        }
    } else {
        match sp_doc(s) {
            Some(v) => Ok(sp_repair_response(v)),
            None => Err(NormalizeError::JsonParse),
        }
    }
}

/// Normalizes one backend HTTP body.
pub fn normalize_body(body: &Vec<char>) -> (r: Result<Json, NormalizeError>)
    ensures
        match r {
            Ok(v) => sp_normalize(body@) == Ok::<JVal, NormalizeError>(jv(v)),
            Err(e) => sp_normalize(body@) == Err::<JVal, NormalizeError>(e),
        },
{
    let w = ws_end(body, 0);
    if w == body.len() {
        return Err(NormalizeError::EmptyBody);
    }
    if is_sse(body) {
        match sse_payload(body) {
            None => Err(NormalizeError::NoSseData),
            Some(d) => {
                if d.len() == 0 {
                    return Err(NormalizeError::NoSseData);
                }
                match parse_document(&d) {
                    Some(v) => Ok(repair_response(v)),
                    None => Err(NormalizeError::JsonParse),
                }
            },
        }
    } else {
        match parse_document(body) {
            Some(v) => Ok(repair_response(v)),
            None => Err(NormalizeError::JsonParse),
        }
    }
}

} // verus!
