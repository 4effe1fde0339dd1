//! JSON values and a verified parser and serializer for the line-delimited
//! JSON-RPC traffic the proxy speaks.
//!
//! A value keeps a number as its literal lexeme and a string as its decoded
//! characters, so a document can be carried through the proxy without loss.

use vstd::prelude::*;

verus! {

/// Mathematical model of a JSON value, used in specifications.
pub enum JVal {
    Null,
    Bool(bool),
    /// The literal number lexeme, e.g. `-1.5e3`.
    Num(Seq<char>),
    /// The decoded characters of a string.
    Str(Seq<char>),
    Arr(Seq<JVal>),
    /// Members in document order; keys may repeat, lookups take the first.
    Obj(Seq<(Seq<char>, JVal)>),
}

/// One `key: value` member of a JSON object.
pub struct Member {
    pub key: Vec<char>,
    pub value: Json,
}

/// An executable JSON value.
pub enum Json {
    Null,
    Bool(bool),
    /// The literal number lexeme, e.g. `-1.5e3`.
    Num(Vec<char>),
    /// The decoded characters of a string.
    Str(Vec<char>),
    Arr(Vec<Json>),
    /// Members in document order; keys may repeat, lookups take the first.
    Obj(Vec<Member>),
}

/// The model of an executable JSON value.
pub open spec fn jv(j: Json) -> JVal
    decreases j, 1int,
{
    match j {
        Json::Null => JVal::Null,
        Json::Bool(b) => JVal::Bool(b),
        Json::Num(s) => JVal::Num(s@),
        Json::Str(s) => JVal::Str(s@),
        Json::Arr(items) => {
            proof {
                assert(decreases_to!(j => items));
                assert(decreases_to!(items => items@));
            }
            JVal::Arr(jv_list(items@))
        },
        Json::Obj(ms) => {
            proof {
                assert(decreases_to!(j => ms));
                assert(decreases_to!(ms => ms@));
            }
            JVal::Obj(jv_members(ms@))
        },
    }
}

/// The models of a sequence of executable JSON values, in order.
pub open spec fn jv_list(s: Seq<Json>) -> Seq<JVal>
    decreases s, 0int,
{
    if s.len() == 0 {
        Seq::empty()
    } else {
        proof {
            assert(decreases_to!(s => s[s.len() - 1]));
            assert(decreases_to!(s => s.subrange(0, s.len() - 1)));
        }
        jv_list(s.subrange(0, s.len() - 1)).push(jv(s[s.len() - 1]))
    }
}

/// The models of a sequence of object members, in order.
pub open spec fn jv_members(s: Seq<Member>) -> Seq<(Seq<char>, JVal)>
    decreases s, 0int,
{
    if s.len() == 0 {
        Seq::empty()
    } else {
        proof {
            assert(decreases_to!(s => s[s.len() - 1]));
            assert(decreases_to!(s[s.len() - 1] => s[s.len() - 1].value));
            assert(decreases_to!(s => s.subrange(0, s.len() - 1)));
        }
        jv_members(s.subrange(0, s.len() - 1)).push(
            (s[s.len() - 1].key@, jv(s[s.len() - 1].value)),
        )
    }
}

/// Pushing a value onto a list pushes its model onto the list's model.
pub proof fn lemma_jv_list_push(s: Seq<Json>, v: Json)
    ensures
        jv_list(s.push(v)) == jv_list(s).push(jv(v)),
{
    assert(s.push(v).subrange(0, s.push(v).len() - 1) =~= s);
    assert(s.push(v)[s.push(v).len() - 1] == v);
}

/// Pushing a member onto a member list pushes its model onto the list's model.
pub proof fn lemma_jv_members_push(s: Seq<Member>, m: Member)
    ensures
        jv_members(s.push(m)) == jv_members(s).push((m.key@, jv(m.value))),
{
    assert(s.push(m).subrange(0, s.push(m).len() - 1) =~= s);
    assert(s.push(m)[s.push(m).len() - 1] == m);
}

/// The model of a list has the same length and models each element.
pub proof fn lemma_jv_list_index(s: Seq<Json>)
    ensures
        jv_list(s).len() == s.len(),
        forall|i: int| 0 <= i < s.len() ==> jv_list(s)[i] == jv(s[i]),
    decreases s.len(),
{
    if s.len() > 0 {
        lemma_jv_list_index(s.subrange(0, s.len() - 1));
        assert forall|i: int| 0 <= i < s.len() implies jv_list(s)[i] == jv(s[i]) by {
            if i < s.len() - 1 {
                assert(s.subrange(0, s.len() - 1)[i] == s[i]);
            }
        }
    }
}

/// The model of a member list has the same length and models each member.
pub proof fn lemma_jv_members_index(s: Seq<Member>)
    ensures
        jv_members(s).len() == s.len(),
        forall|i: int| 0 <= i < s.len() ==> jv_members(s)[i] == (s[i].key@, jv(s[i].value)),
    decreases s.len(),
{
    if s.len() > 0 {
        lemma_jv_members_index(s.subrange(0, s.len() - 1));
        assert forall|i: int| 0 <= i < s.len() implies jv_members(s)[i] == (
        s[i].key@,
        jv(s[i].value),
        ) by {
            if i < s.len() - 1 {
                assert(s.subrange(0, s.len() - 1)[i] == s[i]);
            }
        }
    }
}

// ---------------------------------------------------------------------------
// The grammar, as a functional specification of parsing.
// ---------------------------------------------------------------------------

/// JSON insignificant whitespace.
pub open spec fn is_ws_char(c: char) -> bool {
    c == ' ' || c == '\t' || c == '\n' || c == '\r'
}

/// An ASCII decimal digit.
pub open spec fn is_digit_char(c: char) -> bool {
    '0' <= c && c <= '9'
}

/// The value of a hexadecimal digit, or -1 for any other character.
pub open spec fn hex_digit_val(c: char) -> int {
    if '0' <= c && c <= '9' {
        c as int - '0' as int
    } else if 'a' <= c && c <= 'f' {
        10 + c as int - 'a' as int
    } else if 'A' <= c && c <= 'F' {
        10 + c as int - 'A' as int
    } else {
        -1
    }
}

/// The first position at or after `i` that does not hold whitespace.
pub open spec fn sp_ws(s: Seq<char>, i: int) -> int
    decreases s.len() - i,
{
    if 0 <= i && i < s.len() && is_ws_char(s[i]) {
        sp_ws(s, i + 1)
    } else {
        i
    }
}

/// The value of the four hexadecimal digits at `i`, or -1 if any is missing.
pub open spec fn hex4(s: Seq<char>, i: int) -> int {
    if 0 <= i && i + 4 <= s.len() {
        let a = hex_digit_val(s[i]);
        let b = hex_digit_val(s[i + 1]);
        let c = hex_digit_val(s[i + 2]);
        let d = hex_digit_val(s[i + 3]);
        if a < 0 || b < 0 || c < 0 || d < 0 {
            -1
        } else {
            4096 * a + 256 * b + 16 * c + d
        }
    } else {
        -1
    }
}

/// Parses the body of a string literal from position `i` (just after the
/// opening quote), accumulating decoded characters onto `acc`. On success
/// returns the decoded characters and the position after the closing quote.
pub open spec fn sp_str_body(s: Seq<char>, i: int, acc: Seq<char>) -> Option<(Seq<char>, int)>
    decreases s.len() - i,
{
    if i < 0 || i >= s.len() {
        None
    } else {
        let c = s[i];
        if c == '"' {
            Some((acc, i + 1))
        } else if c == '\\' {
            if i + 1 >= s.len() {
                None
            } else {
                let e = s[i + 1];
                if e == '"' {
                    sp_str_body(s, i + 2, acc.push('"'))
                } else if e == '\\' {
                    sp_str_body(s, i + 2, acc.push('\\'))
                } else if e == '/' {
                    sp_str_body(s, i + 2, acc.push('/'))
                } else if e == 'b' {
                    sp_str_body(s, i + 2, acc.push('\u{0008}'))
                } else if e == 'f' {
                    sp_str_body(s, i + 2, acc.push('\u{000C}'))
                } else if e == 'n' {
                    sp_str_body(s, i + 2, acc.push('\n'))
                } else if e == 'r' {
                    sp_str_body(s, i + 2, acc.push('\r'))
                } else if e == 't' {
                    sp_str_body(s, i + 2, acc.push('\t'))
                } else if e == 'u' {
                    let h = hex4(s, i + 2);
                    if h < 0 {
                        None
                    } else if 0xD800 <= h && h < 0xDC00 {
                        // A high surrogate must pair with a following low one.
                        if i + 12 <= s.len() && s[i + 6] == '\\' && s[i + 7] == 'u' {
                            let l = hex4(s, i + 8);
                            if 0xDC00 <= l && l < 0xE000 {
                                sp_str_body(
                                    s,
                                    i + 12,
                                    acc.push(
                                        (0x10000 + (h - 0xD800) * 0x400 + (l - 0xDC00)) as char,
                                    ),
                                )
                            } else {
                                None
                            }
                        } else {
                            None
                        }
                    } else if 0xDC00 <= h && h < 0xE000 {
                        None
                    } else {
                        sp_str_body(s, i + 6, acc.push(h as char))
                    }
                } else {
                    None
                }
            }
        } else if (c as u32) < 32 {
            None
        } else {
            sp_str_body(s, i + 1, acc.push(c))
        }
    }
}

/// The end of the run of decimal digits starting at `i`.
pub open spec fn sp_digits_end(s: Seq<char>, i: int) -> int
    decreases s.len() - i,
{
    if 0 <= i && i < s.len() && is_digit_char(s[i]) {
        sp_digits_end(s, i + 1)
    } else {
        i
    }
}

/// Parses a number lexeme starting at `i` (a minus sign or a digit).
/// The lexeme is kept verbatim as the value.
pub open spec fn sp_number(s: Seq<char>, i: int) -> Option<(JVal, int)> {
    let j1: int = if 0 <= i && i < s.len() && s[i] == '-' {
        i + 1
    } else {
        i
    };
    if 0 <= j1 && j1 < s.len() && is_digit_char(s[j1]) {
        let j2: int = if s[j1] == '0' {
            j1 + 1
        } else {
            sp_digits_end(s, j1)
        };
        let j3: int = if j2 + 1 < s.len() && s[j2] == '.' && is_digit_char(s[j2 + 1]) {
            sp_digits_end(s, j2 + 1)
        } else {
            j2
        };
        let j4: int = if j3 < s.len() && (s[j3] == 'e' || s[j3] == 'E') {
            let j3s: int = if j3 + 1 < s.len() && (s[j3 + 1] == '+' || s[j3 + 1] == '-') {
                j3 + 2
            } else {
                j3 + 1
            };
            if j3s < s.len() && is_digit_char(s[j3s]) {
                sp_digits_end(s, j3s)
            } else {
                j3
            }
        } else {
            j3
        };
        Some((JVal::Num(s.subrange(i, j4)), j4))
    } else {
        None
    }
}

/// Parses one JSON value starting exactly at `i`.
pub open spec fn sp_value(s: Seq<char>, i: int) -> Option<(JVal, int)>
    decreases s.len() - i, 0int,
{
    if i < 0 || i >= s.len() {
        None
    } else {
        let c = s[i];
        if c == 'n' {
            if i + 4 <= s.len() && s[i + 1] == 'u' && s[i + 2] == 'l' && s[i + 3] == 'l' {
                Some((JVal::Null, i + 4))
            } else {
                None
            }
        } else if c == 't' {
            if i + 4 <= s.len() && s[i + 1] == 'r' && s[i + 2] == 'u' && s[i + 3] == 'e' {
                Some((JVal::Bool(true), i + 4))
            } else {
                None
            }
        } else if c == 'f' {
            if i + 5 <= s.len() && s[i + 1] == 'a' && s[i + 2] == 'l' && s[i + 3] == 's' && s[i
                + 4] == 'e' {
                Some((JVal::Bool(false), i + 5))
            } else {
                None
            }
        } else if c == '"' {
            match sp_str_body(s, i + 1, Seq::<char>::empty()) {
                Some((cs, j)) => Some((JVal::Str(cs), j)),
                None => None,
            }
        } else if c == '[' {
            let j: int = sp_ws(s, i + 1);
            if j <= i || j > s.len() {
                // Unreachable: whitespace skipping stays within the text.
                None
            } else if j < s.len() && s[j] == ']' {
                Some((JVal::Arr(Seq::<JVal>::empty()), j + 1))
            } else {
                sp_elems(s, j, Seq::<JVal>::empty())
            }
        } else if c == '{' {
            let j: int = sp_ws(s, i + 1);
            if j <= i || j > s.len() {
                // Unreachable: whitespace skipping stays within the text.
                None
            } else if j < s.len() && s[j] == '}' {
                Some((JVal::Obj(Seq::<(Seq<char>, JVal)>::empty()), j + 1))
            } else {
                sp_members(s, j, Seq::<(Seq<char>, JVal)>::empty())
            }
        } else if c == '-' || is_digit_char(c) {
            sp_number(s, i)
        } else {
            None
        }
    }
}

/// Parses the elements of a non-empty array. `i` stands at the start of the
/// next element; `acc` holds the elements already parsed.
pub open spec fn sp_elems(s: Seq<char>, i: int, acc: Seq<JVal>) -> Option<(JVal, int)>
    decreases s.len() - i, 1int,
{
    if i < 0 || i > s.len() {
        None
    } else {
        match sp_value(s, i) {
            None => None,
            Some((v, j)) => {
                let k: int = sp_ws(s, j);
                if 0 <= k && k < s.len() && s[k] == ']' {
                    Some((JVal::Arr(acc.push(v)), k + 1))
                } else if 0 <= k && k < s.len() && s[k] == ',' {
                    let m: int = sp_ws(s, k + 1);
                    if m <= i || m > s.len() {
                        // Unreachable: a parsed value and a comma advance the position.
                        None
                    } else {
                        sp_elems(s, m, acc.push(v))
                    }
                } else {
                    None
                }
            },
        }
    }
}

/// Parses the members of a non-empty object. `i` stands at the opening quote
/// of the next key; `acc` holds the members already parsed.
pub open spec fn sp_members(s: Seq<char>, i: int, acc: Seq<(Seq<char>, JVal)>) -> Option<
    (JVal, int),
>
    decreases s.len() - i, 1int,
{
    if i < 0 || i >= s.len() {
        None
    } else if s[i] != '"' {
        None
    } else {
        match sp_str_body(s, i + 1, Seq::<char>::empty()) {
            None => None,
            Some((key, j)) => {
                let k: int = sp_ws(s, j);
                if !(0 <= k && k < s.len() && s[k] == ':') {
                    None
                } else {
                    let m: int = sp_ws(s, k + 1);
                    if m < i || m > s.len() {
                        // Unreachable: whitespace skipping stays within the text.
                        None
                    } else {
                        match sp_value(s, m) {
                            None => None,
                            Some((v, j2)) => {
                                let k2: int = sp_ws(s, j2);
                                if 0 <= k2 && k2 < s.len() && s[k2] == '}' {
                                    Some((JVal::Obj(acc.push((key, v))), k2 + 1))
                                } else if 0 <= k2 && k2 < s.len() && s[k2] == ',' {
                                    let m2: int = sp_ws(s, k2 + 1);
                                    if m2 <= i || m2 > s.len() {
                                        // Unreachable: the parsed member advances the position.
                                        None
                                    } else {
                                        sp_members(s, m2, acc.push((key, v)))
                                    }
                                } else {
                                    None
                                }
                            },
                        }
                    }
                }
            },
        }
    }
}

/// Parses a whole text as one JSON document: one value, surrounded only by
/// whitespace. This is what parsing an input line or a backend body means.
pub open spec fn sp_doc(s: Seq<char>) -> Option<JVal> {
    let i: int = sp_ws(s, 0);
    match sp_value(s, i) {
        Some((v, j)) => if sp_ws(s, j) == s.len() {
            Some(v)
        } else {
            None
        },
        None => None,
    }
}

// ---------------------------------------------------------------------------
// The executable parser, verified against the grammar above.
// ---------------------------------------------------------------------------

/// Relies on char::from_u32 of std: a scalar value for every code point that
/// is neither a surrogate nor above char::MAX, and None otherwise.
pub assume_specification[ char::from_u32 ](u: u32) -> (r: Option<char>)
    ensures
        r == (if u < 0xD800 || (0xE000 <= u && u < 0x110000) {
            Some(u as char)
        } else {
            None::<char>
        }),
;

/// The characters of a text, as a vector.
pub fn chars_of(s: &str) -> (r: Vec<char>)
    ensures
        r@ == s@,
{
    let n: usize = s.unicode_len();
    let mut r: Vec<char> = Vec::new();
    let mut i: usize = 0;
    while i < n
        invariant
            i <= n,
            n == s@.len(),
            r@ == s@.subrange(0, i as int),
        decreases n - i,
    {
        r.push(s.get_char(i));
        i = i + 1;
        proof {
            assert(r@ =~= s@.subrange(0, i as int));
        }
    }
    proof {
        assert(r@ =~= s@);
    }
    r
}

fn is_ws_c(c: char) -> (r: bool)
    ensures
        r == is_ws_char(c),
{
    c == ' ' || c == '\t' || c == '\n' || c == '\r'
}

pub fn is_digit_c(c: char) -> (r: bool)
    ensures
        r == is_digit_char(c),
{
    let u = c as u32;
    48 <= u && u <= 57
}

fn hexv(c: char) -> (r: i32)
    ensures
        r as int == hex_digit_val(c),
        r == -1 || (0 <= r && r < 16),
{
    let u = c as u32;
    if 48 <= u && u <= 57 {
        (u - 48) as i32
    } else if 97 <= u && u <= 102 {
        (u - 97 + 10) as i32
    } else if 65 <= u && u <= 70 {
        (u - 65 + 10) as i32
    } else {
        -1
    }
}

/// The first position at or after `i` without whitespace.
pub fn ws_end(s: &Vec<char>, i: usize) -> (r: usize)
    requires
        i <= s@.len(),
    ensures
        r as int == sp_ws(s@, i as int),
        i <= r && r as int <= s@.len(),
{
    let mut k: usize = i;
    while k < s.len() && is_ws_c(s[k])
        invariant
            i <= k && k as int <= s@.len(),
            sp_ws(s@, i as int) == sp_ws(s@, k as int),
        decreases s@.len() - k as int,
    {
        k = k + 1;
    }
    k
}

fn digits_end(s: &Vec<char>, i: usize) -> (r: usize)
    requires
        i <= s@.len(),
    ensures
        r as int == sp_digits_end(s@, i as int),
        i <= r && r as int <= s@.len(),
{
    let mut k: usize = i;
    while k < s.len() && is_digit_c(s[k])
        invariant
            i <= k && k as int <= s@.len(),
            sp_digits_end(s@, i as int) == sp_digits_end(s@, k as int),
        decreases s@.len() - k as int,
    {
        k = k + 1;
    }
    k
}

fn hex4_at(s: &Vec<char>, i: usize) -> (r: i32)
    requires
        i as int + 4 <= s@.len(),
    ensures
        r as int == hex4(s@, i as int),
        r < 0x10000,
{
    let n: usize = s.len();
    let a = hexv(s[i]);
    let b = hexv(s[i + 1]);
    let c = hexv(s[i + 2]);
    let d = hexv(s[i + 3]);
    if a < 0 || b < 0 || c < 0 || d < 0 {
        -1
    } else {
        4096 * a + 256 * b + 16 * c + d
    }
}

/// Parses a string body from just after the opening quote, decoding escapes
/// onto `acc`.
#[verifier::loop_isolation(false)]
fn p_string(s: &Vec<char>, i: usize, acc: Vec<char>) -> (r: Option<(Vec<char>, usize)>)
    requires
        i <= s@.len(),
    ensures
        match r {
            Some(p) => sp_str_body(s@, i as int, acc@) == Some((p.0@, p.1 as int)) && i < p.1
                && p.1 as int <= s@.len(),
            None => sp_str_body(s@, i as int, acc@) is None,
        },
{
    let ghost acc0 = acc@;
    let mut a = acc;
    let mut pos: usize = i;
    loop
        invariant
            i <= pos && pos as int <= s@.len(),
            sp_str_body(s@, i as int, acc0) == sp_str_body(s@, pos as int, a@),
        decreases s@.len() - pos as int,
    {
        if pos >= s.len() {
            return None;
        }
        let c = s[pos];
        if c == '"' {
            return Some((a, pos + 1));
        } else if c == '\\' {
            if s.len() - pos < 2 {
                return None;
            }
            let e = s[pos + 1];
            if e == '"' {
                a.push('"');
                pos = pos + 2;
            } else if e == '\\' {
                a.push('\\');
                pos = pos + 2;
            } else if e == '/' {
                a.push('/');
                pos = pos + 2;
            } else if e == 'b' {
                a.push('\u{0008}');
                pos = pos + 2;
            } else if e == 'f' {
                a.push('\u{000C}');
                pos = pos + 2;
            } else if e == 'n' {
                a.push('\n');
                pos = pos + 2;
            } else if e == 'r' {
                a.push('\r');
                pos = pos + 2;
            } else if e == 't' {
                a.push('\t');
                pos = pos + 2;
            } else if e == 'u' {
                if s.len() - pos < 6 {
                    return None;
                }
                let h = hex4_at(s, pos + 2);
                if h < 0 {
                    return None;
                } else if 0xD800 <= h && h < 0xDC00 {
                    if s.len() - pos >= 12 && s[pos + 6] == '\\' && s[pos + 7] == 'u' {
                        let l = hex4_at(s, pos + 8);
                        if 0xDC00 <= l && l < 0xE000 {
                            let cp: u32 = 0x10000 + (h as u32 - 0xD800) * 0x400 + (l as u32
                                - 0xDC00);
                            match char::from_u32(cp) {
                                Some(ch) => {
                                    a.push(ch);
                                    pos = pos + 12;
                                },
                                None => {
                                    proof {
                                        assert(false);
                                    }
                                    return None;
                                },
                            }
                        } else {
                            return None;
                        }
                    } else {
                        return None;
                    }
                } else if 0xDC00 <= h && h < 0xE000 {
                    return None;
                } else {
                    match char::from_u32(h as u32) {
                        Some(ch) => {
                            a.push(ch);
                            pos = pos + 6;
                        },
                        None => {
                            proof {
                                assert(false);
                            }
                            return None;
                        },
                    }
                }
            } else {
                return None;
            }
        } else if (c as u32) < 32 {
            return None;
        } else {
            a.push(c);
            pos = pos + 1;
        }
    }
}

/// A run of digits stays within the text.
pub proof fn lemma_sp_digits_bounds(s: Seq<char>, i: int)
    requires
        0 <= i <= s.len(),
    ensures
        i <= sp_digits_end(s, i) <= s.len(),
    decreases s.len() - i,
{
    if i < s.len() && is_digit_char(s[i]) {
        lemma_sp_digits_bounds(s, i + 1);
    }
}

/// Parses a number lexeme starting at `i`.
#[verifier::loop_isolation(false)]
fn p_number(s: &Vec<char>, i: usize) -> (r: Option<(Json, usize)>)
    requires
        i <= s@.len(),
    ensures
        match r {
            Some(p) => sp_number(s@, i as int) == Some((jv(p.0), p.1 as int)) && i < p.1
                && p.1 as int <= s@.len(),
            None => sp_number(s@, i as int) is None,
        },
{
    let j1: usize = if i < s.len() && s[i] == '-' {
        i + 1
    } else {
        i
    };
    if j1 < s.len() && is_digit_c(s[j1]) {
        proof {
            lemma_sp_digits_bounds(s@, j1 as int + 1);
        }
        let j2: usize = if s[j1] == '0' {
            j1 + 1
        } else {
            digits_end(s, j1)
        };
        proof {
            assert(j1 < j2);
        }
        let j3: usize = if s.len() - j2 > 1 && s[j2] == '.' && is_digit_c(s[j2 + 1]) {
            digits_end(s, j2 + 1)
        } else {
            j2
        };
        let j4: usize = if j3 < s.len() && (s[j3] == 'e' || s[j3] == 'E') {
            let j3s: usize = if s.len() - j3 > 1 && (s[j3 + 1] == '+' || s[j3 + 1] == '-') {
                j3 + 2
            } else {
                j3 + 1
            };
            if j3s < s.len() && is_digit_c(s[j3s]) {
                digits_end(s, j3s)
            } else {
                j3
            }
        } else {
            j3
        };
        let mut lex: Vec<char> = Vec::new();
        let mut k: usize = i;
        while k < j4
            invariant
                i <= k && k <= j4 && j4 as int <= s@.len(),
                lex@ == s@.subrange(i as int, k as int),
            decreases j4 - k,
        {
            lex.push(s[k]);
            k = k + 1;
            proof {
                assert(lex@ =~= s@.subrange(i as int, k as int));
            }
        }
        Some((Json::Num(lex), j4))
    } else {
        None
    }
}

/// Parses one JSON value starting exactly at `i`.
pub fn p_value(s: &Vec<char>, i: usize) -> (r: Option<(Json, usize)>)
    requires
        i <= s@.len(),
    ensures
        match r {
            Some(p) => sp_value(s@, i as int) == Some((jv(p.0), p.1 as int)) && i < p.1
                && p.1 as int <= s@.len(),
            None => sp_value(s@, i as int) is None,
        },
    decreases s@.len() - i as int, 0int,
{
    if i >= s.len() {
        return None;
    }
    let c = s[i];
    if c == 'n' {
        if s.len() - i >= 4 && s[i + 1] == 'u' && s[i + 2] == 'l' && s[i + 3] == 'l' {
            Some((Json::Null, i + 4))
        } else {
            None
        }
    } else if c == 't' {
        if s.len() - i >= 4 && s[i + 1] == 'r' && s[i + 2] == 'u' && s[i + 3] == 'e' {
            Some((Json::Bool(true), i + 4))
        } else {
            None
        }
    } else if c == 'f' {
        if s.len() - i >= 5 && s[i + 1] == 'a' && s[i + 2] == 'l' && s[i + 3] == 's' && s[i + 4]
            == 'e' {
            Some((Json::Bool(false), i + 5))
        } else {
            None
        }
    } else if c == '"' {
        match p_string(s, i + 1, Vec::new()) {
            Some((cs, j)) => Some((Json::Str(cs), j)),
            None => None,
        }
    } else if c == '[' {
        let j = ws_end(s, i + 1);
        if j < s.len() && s[j] == ']' {
            let items: Vec<Json> = Vec::new();
            Some((Json::Arr(items), j + 1))
        } else {
            p_elems(s, j)
        }
    } else if c == '{' {
        let j = ws_end(s, i + 1);
        if j < s.len() && s[j] == '}' {
            let ms: Vec<Member> = Vec::new();
            Some((Json::Obj(ms), j + 1))
        } else {
            p_members(s, j)
        }
    } else if c == '-' || is_digit_c(c) {
        p_number(s, i)
    } else {
        None
    }
}

/// Parses the elements of a non-empty array, starting at the first element.
#[verifier::loop_isolation(false)]
fn p_elems(s: &Vec<char>, i: usize) -> (r: Option<(Json, usize)>)
    requires
        i <= s@.len(),
    ensures
        match r {
            Some(p) => sp_elems(s@, i as int, Seq::<JVal>::empty()) == Some((jv(p.0), p.1 as int))
                && i < p.1 && p.1 as int <= s@.len(),
            None => sp_elems(s@, i as int, Seq::<JVal>::empty()) is None,
        },
    decreases s@.len() - i as int, 1int,
{
    let mut items: Vec<Json> = Vec::new();
    let mut pos: usize = i;
    loop
        invariant
            i <= pos && pos as int <= s@.len(),
            i as int <= s@.len(),
            sp_elems(s@, i as int, Seq::<JVal>::empty()) == sp_elems(
                s@,
                pos as int,
                jv_list(items@),
            ),
        decreases s@.len() - pos as int,
    {
        let rv = p_value(s, pos);
        match rv {
            None => {
                return None;
            },
            Some((v, j)) => {
                let k = ws_end(s, j);
                if k < s.len() && s[k] == ']' {
                    proof {
                        lemma_jv_list_push(items@, v);
                    }
                    items.push(v);
                    return Some((Json::Arr(items), k + 1));
                } else if k < s.len() && s[k] == ',' {
                    let m = ws_end(s, k + 1);
                    proof {
                        lemma_jv_list_push(items@, v);
                    }
                    items.push(v);
                    pos = m;
                } else {
                    return None;
                }
            },
        }
    }
}

/// Parses the members of a non-empty object, starting at the first key.
#[verifier::loop_isolation(false)]
fn p_members(s: &Vec<char>, i: usize) -> (r: Option<(Json, usize)>)
    requires
        i <= s@.len(),
    ensures
        match r {
            Some(p) => sp_members(s@, i as int, Seq::<(Seq<char>, JVal)>::empty()) == Some(
                (jv(p.0), p.1 as int),
            ) && i < p.1 && p.1 as int <= s@.len(),
            None => sp_members(s@, i as int, Seq::<(Seq<char>, JVal)>::empty()) is None,
        },
    decreases s@.len() - i as int, 1int,
{
    let mut ms: Vec<Member> = Vec::new();
    let mut pos: usize = i;
    loop
        invariant
            i <= pos && pos as int <= s@.len(),
            i as int <= s@.len(),
            sp_members(s@, i as int, Seq::<(Seq<char>, JVal)>::empty()) == sp_members(
                s@,
                pos as int,
                jv_members(ms@),
            ),
        decreases s@.len() - pos as int,
    {
        if pos >= s.len() {
            return None;
        }
        if s[pos] != '"' {
            return None;
        }
        match p_string(s, pos + 1, Vec::new()) {
            None => {
                return None;
            },
            Some((key, j)) => {
                let k = ws_end(s, j);
                if !(k < s.len() && s[k] == ':') {
                    return None;
                }
                let m = ws_end(s, k + 1);
                match p_value(s, m) {
                    None => {
                        return None;
                    },
                    Some((v, j2)) => {
                        let k2 = ws_end(s, j2);
                        if k2 < s.len() && s[k2] == '}' {
                            proof {
                                lemma_jv_members_push(ms@, Member { key: key, value: v });
                            }
                            ms.push(Member { key, value: v });
                            return Some((Json::Obj(ms), k2 + 1));
                        } else if k2 < s.len() && s[k2] == ',' {
                            let m2 = ws_end(s, k2 + 1);
                            proof {
                                lemma_jv_members_push(ms@, Member { key: key, value: v });
                            }
                            ms.push(Member { key, value: v });
                            pos = m2;
                        } else {
                            return None;
                        }
                    },
                }
            },
        }
    }
}

/// Parses a whole text as one JSON document.
pub fn parse_document(s: &Vec<char>) -> (r: Option<Json>)
    ensures
        match r {
            Some(v) => sp_doc(s@) == Some(jv(v)),
            None => sp_doc(s@) is None,
        },
{
    let i = ws_end(s, 0);
    match p_value(s, i) {
        Some((v, j)) => {
            let k = ws_end(s, j);
            if k == s.len() {
                Some(v)
            } else {
                None
            }
        },
        None => None,
    }
}


// ---------------------------------------------------------------------------
// Serialization: compact text, elements and members in order, string escapes
// normalized, number lexemes verbatim.
// ---------------------------------------------------------------------------

/// The hexadecimal digit character for `n` in 0..16.
pub open spec fn hex_char(n: int) -> char {
    if n == 0 { '0' } else if n == 1 { '1' } else if n == 2 { '2' } else if n == 3 { '3' }
    else if n == 4 { '4' } else if n == 5 { '5' } else if n == 6 { '6' } else if n == 7 { '7' }
    else if n == 8 { '8' } else if n == 9 { '9' } else if n == 10 { 'a' } else if n == 11 { 'b' }
    else if n == 12 { 'c' } else if n == 13 { 'd' } else if n == 14 { 'e' } else { 'f' }
}

/// The escaped form of one string character.
pub open spec fn esc_char(c: char) -> Seq<char> {
    if c == '"' { seq!['\\', '"'] }
    else if c == '\\' { seq!['\\', '\\'] }
    else if c == '\n' { seq!['\\', 'n'] }
    else if c == '\r' { seq!['\\', 'r'] }
    else if c == '\t' { seq!['\\', 't'] }
    else if c == '\u{0008}' { seq!['\\', 'b'] }
    else if c == '\u{000C}' { seq!['\\', 'f'] }
    else if (c as u32) < 32 {
        seq!['\\', 'u', '0', '0', hex_char(c as int / 16), hex_char(c as int % 16)]
    }
    else { seq![c] }
}

/// The escaped body of the first `k` characters of a string.
pub open spec fn ser_str_upto(s: Seq<char>, k: int) -> Seq<char>
    decreases k,
{
    if k <= 0 || k > s.len() {
        Seq::empty()
    } else {
        ser_str_upto(s, k - 1) + esc_char(s[k - 1])
    }
}

/// The serialized form of a string value, quotes included.
pub open spec fn ser_string(s: Seq<char>) -> Seq<char> {
    seq!['"'] + ser_str_upto(s, s.len() as int) + seq!['"']
}

/// The serialized text of a JSON value.
pub open spec fn ser(v: JVal) -> Seq<char>
    decreases v, 0int,
{
    match v {
        JVal::Null => seq!['n', 'u', 'l', 'l'],
        JVal::Bool(b) => if b {
            seq!['t', 'r', 'u', 'e']
        } else {
            seq!['f', 'a', 'l', 's', 'e']
        },
        JVal::Num(s) => s,
        JVal::Str(s) => ser_string(s),
        JVal::Arr(items) => {
            proof {
                assert(decreases_to!(v => items));
            }
            seq!['['] + ser_items_upto(items, items.len() as int) + seq![']']
        },
        JVal::Obj(ms) => {
            proof {
                assert(decreases_to!(v => ms));
            }
            seq!['{'] + ser_members_upto(ms, ms.len() as int) + seq!['}']
        },
    }
}

/// The serialized text of the first `k` array elements, comma-separated.
pub open spec fn ser_items_upto(items: Seq<JVal>, k: int) -> Seq<char>
    decreases items, k,
{
    if k <= 0 || k > items.len() {
        Seq::empty()
    } else {
        proof {
            assert(decreases_to!(items => items[k - 1]));
        }
        let prefix = if k == 1 {
            Seq::<char>::empty()
        } else {
            ser_items_upto(items, k - 1) + seq![',']
        };
        prefix + ser(items[k - 1])
    }
}

/// The serialized text of the first `k` object members, comma-separated.
pub open spec fn ser_members_upto(ms: Seq<(Seq<char>, JVal)>, k: int) -> Seq<char>
    decreases ms, k,
{
    if k <= 0 || k > ms.len() {
        Seq::empty()
    } else {
        proof {
            assert(decreases_to!(ms => ms[k - 1]));
            assert(decreases_to!(ms[k - 1] => ms[k - 1].1));
        }
        let prefix = if k == 1 {
            Seq::<char>::empty()
        } else {
            ser_members_upto(ms, k - 1) + seq![',']
        };
        prefix + ser_string(ms[k - 1].0) + seq![':'] + ser(ms[k - 1].1)
    }
}

fn hex_char_e(n: u32) -> (r: char)
    requires
        n < 16,
    ensures
        r == hex_char(n as int),
{
    if n == 0 { '0' } else if n == 1 { '1' } else if n == 2 { '2' } else if n == 3 { '3' }
    else if n == 4 { '4' } else if n == 5 { '5' } else if n == 6 { '6' } else if n == 7 { '7' }
    else if n == 8 { '8' } else if n == 9 { '9' } else if n == 10 { 'a' } else if n == 11 { 'b' }
    else if n == 12 { 'c' } else if n == 13 { 'd' } else if n == 14 { 'e' } else { 'f' }
}

/// Appends the escaped form of one character.
fn esc_push(out: &mut Vec<char>, c: char)
    ensures
        final(out)@ == old(out)@ + esc_char(c),
{
    if c == '"' {
        out.push('\\');
        out.push('"');
    } else if c == '\\' {
        out.push('\\');
        out.push('\\');
    } else if c == '\n' {
        out.push('\\');
        out.push('n');
    } else if c == '\r' {
        out.push('\\');
        out.push('r');
    } else if c == '\t' {
        out.push('\\');
        out.push('t');
    } else if c == '\u{0008}' {
        out.push('\\');
        out.push('b');
    } else if c == '\u{000C}' {
        out.push('\\');
        out.push('f');
    } else if (c as u32) < 32 {
        out.push('\\');
        out.push('u');
        out.push('0');
        out.push('0');
        out.push(hex_char_e(c as u32 / 16));
        out.push(hex_char_e(c as u32 % 16));
    } else {
        out.push(c);
    }
    proof {
        assert(out@ =~= old(out)@ + esc_char(c));
    }
}

/// Appends the serialized form of a string value.
#[verifier::loop_isolation(false)]
fn write_string(out: &mut Vec<char>, s: &Vec<char>)
    ensures
        final(out)@ == old(out)@ + ser_string(s@),
{
    out.push('"');
    let n: usize = s.len();
    let mut k: usize = 0;
    while k < n
        invariant
            k <= n,
            out@ == old(out)@ + seq!['"'] + ser_str_upto(s@, k as int),
        decreases n - k,
    {
        esc_push(out, s[k]);
        k = k + 1;
    }
    out.push('"');
    proof {
        assert(out@ =~= old(out)@ + ser_string(s@));
    }
}

/// Appends the serialized text of a value.
#[verifier::loop_isolation(false)]
pub fn write_value(out: &mut Vec<char>, j: &Json)
    ensures
        final(out)@ == old(out)@ + ser(jv(*j)),
    decreases *j,
{
    match j {
        Json::Null => {
            out.push('n');
            out.push('u');
            out.push('l');
            out.push('l');
            proof {
                assert(out@ =~= old(out)@ + ser(jv(*j)));
            }
        },
        Json::Bool(b) => {
            if *b {
                out.push('t');
                out.push('r');
                out.push('u');
                out.push('e');
            } else {
                out.push('f');
                out.push('a');
                out.push('l');
                out.push('s');
                out.push('e');
            }
            proof {
                assert(out@ =~= old(out)@ + ser(jv(*j)));
            }
        },
        Json::Num(s) => {
            let n: usize = s.len();
            let mut k: usize = 0;
            while k < n
                invariant
                    k <= n,
                    out@ == old(out)@ + s@.subrange(0, k as int),
                decreases n - k,
            {
                out.push(s[k]);
                k = k + 1;
                proof {
                    assert(out@ =~= old(out)@ + s@.subrange(0, k as int));
                }
            }
            proof {
                assert(out@ =~= old(out)@ + ser(jv(*j)));
            }
        },
        Json::Str(s) => {
            write_string(out, s);
        },
        Json::Arr(items) => {
            out.push('[');
            let n: usize = items.len();
            let mut k: usize = 0;
            while k < n
                invariant
                    k <= n,
                    out@ == old(out)@ + seq!['['] + ser_items_upto(jv_list(items@), k as int),
                decreases n - k,
            {
                if k > 0 {
                    out.push(',');
                }
                proof {
                    assert(decreases_to!(*j => *items));
                    assert(decreases_to!(*items => items@));
                    assert(decreases_to!(items@ => items@[k as int]));
                    lemma_jv_list_index(items@);
                }
                write_value(out, &items[k]);
                k = k + 1;
                proof {
                    assert(out@ =~= old(out)@ + seq!['['] + ser_items_upto(
                        jv_list(items@),
                        k as int,
                    ));
                }
            }
            out.push(']');
            proof {
                lemma_jv_list_index(items@);
                assert(out@ =~= old(out)@ + ser(jv(*j)));
            }
        },
        Json::Obj(ms) => {
            out.push('{');
            let n: usize = ms.len();
            let mut k: usize = 0;
            while k < n
                invariant
                    k <= n,
                    out@ == old(out)@ + seq!['{'] + ser_members_upto(jv_members(ms@), k as int),
                decreases n - k,
            {
                if k > 0 {
                    out.push(',');
                }
                write_string(out, &ms[k].key);
                out.push(':');
                proof {
                    assert(decreases_to!(*j => *ms));
                    assert(decreases_to!(*ms => ms@));
                    assert(decreases_to!(ms@ => ms@[k as int]));
                    assert(decreases_to!(ms@[k as int] => ms@[k as int].value));
                    lemma_jv_members_index(ms@);
                }
                write_value(out, &ms[k].value);
                k = k + 1;
                proof {
                    assert(out@ =~= old(out)@ + seq!['{'] + ser_members_upto(
                        jv_members(ms@),
                        k as int,
                    ));
                }
            }
            out.push('}');
            proof {
                lemma_jv_members_index(ms@);
                assert(out@ =~= old(out)@ + ser(jv(*j)));
            }
        },
    }
}

/// The serialized text of a value.
pub fn json_to_text(j: &Json) -> (r: Vec<char>)
    ensures
        r@ == ser(jv(*j)),
{
    let mut out: Vec<char> = Vec::new();
    write_value(&mut out, j);
    out
}

// ---------------------------------------------------------------------------
// Object lookup.
// ---------------------------------------------------------------------------

/// The value of the first member with the given key, if any.
pub open spec fn sp_lookup(ms: Seq<(Seq<char>, JVal)>, key: Seq<char>) -> Option<JVal>
    decreases ms.len(),
{
    if ms.len() == 0 {
        None
    } else if ms[0].0 == key {
        Some(ms[0].1)
    } else {
        sp_lookup(ms.subrange(1, ms.len() as int), key)
    }
}

/// Whether a character vector holds the text of a string slice.
#[verifier::loop_isolation(false)]
pub fn chars_eq_str(a: &Vec<char>, b: &str) -> (r: bool)
    ensures
        r == (a@ == b@),
{
    let n: usize = b.unicode_len();
    if a.len() != n {
        return false;
    }
    let mut i: usize = 0;
    while i < n
        invariant
            i <= n,
            a@.len() == b@.len(),
            forall|t: int| 0 <= t < i ==> a@[t] == b@[t],
        decreases n - i,
    {
        if a[i] != b.get_char(i) {
            return false;
        }
        i = i + 1;
    }
    proof {
        assert(a@ =~= b@);
    }
    true
}

/// A borrow of the value of the first member with the given key, if any.
#[verifier::loop_isolation(false)]
pub fn find_member<'a>(ms: &'a Vec<Member>, key: &str) -> (r: Option<&'a Json>)
    ensures
        match r {
            Some(v) => sp_lookup(jv_members(ms@), key@) == Some(jv(*v)),
            None => sp_lookup(jv_members(ms@), key@) is None,
        },
{
    let n: usize = ms.len();
    proof {
        lemma_jv_members_index(ms@);
        assert(jv_members(ms@).subrange(0, n as int) =~= jv_members(ms@));
    }
    let mut k: usize = 0;
    while k < n
        invariant
            k <= n,
            sp_lookup(jv_members(ms@), key@) == sp_lookup(
                jv_members(ms@).subrange(k as int, n as int),
                key@,
            ),
        decreases n - k,
    {
        proof {
            lemma_jv_members_index(ms@);
            assert(jv_members(ms@).subrange(k as int, n as int)[0] == jv_members(ms@)[k as int]);
        }
        if chars_eq_str(&ms[k].key, key) {
            return Some(&ms[k].value);
        }
        k = k + 1;
        proof {
            assert(jv_members(ms@).subrange(k as int - 1, n as int).subrange(
                1,
                n - k + 1,
            ) =~= jv_members(ms@).subrange(k as int, n as int));
        }
    }
    None
}


// ---------------------------------------------------------------------------
// Copying and appending.
// ---------------------------------------------------------------------------

/// A copy of a character vector.
#[verifier::loop_isolation(false)]
pub fn clone_chars(s: &Vec<char>) -> (r: Vec<char>)
    ensures
        r@ == s@,
{
    let mut out: Vec<char> = Vec::new();
    let mut i: usize = 0;
    while i < s.len()
        invariant
            i <= s@.len(),
            out@ == s@.subrange(0, i as int),
        decreases s@.len() - i,
    {
        out.push(s[i]);
        i = i + 1;
        proof {
            assert(out@ =~= s@.subrange(0, i as int));
        }
    }
    proof {
        assert(out@ =~= s@);
    }
    out
}

/// Appends every character of `src` to `dst`.
#[verifier::loop_isolation(false)]
pub fn append_chars(dst: &mut Vec<char>, src: &Vec<char>)
    ensures
        final(dst)@ == old(dst)@ + src@,
{
    let mut i: usize = 0;
    proof {
        assert(dst@ =~= old(dst)@ + src@.subrange(0, 0));
    }
    while i < src.len()
        invariant
            i <= src@.len(),
            dst@ == old(dst)@ + src@.subrange(0, i as int),
        decreases src@.len() - i,
    {
        dst.push(src[i]);
        i = i + 1;
        proof {
            assert(dst@ =~= old(dst)@ + src@.subrange(0, i as int));
        }
    }
    proof {
        assert(dst@ =~= old(dst)@ + src@);
    }
}

/// A copy of a value, with the same model.
#[verifier::loop_isolation(false)]
pub fn clone_json(j: &Json) -> (r: Json)
    ensures
        jv(r) == jv(*j),
    decreases *j,
{
    match j {
        Json::Null => Json::Null,
        Json::Bool(b) => Json::Bool(*b),
        Json::Num(s) => Json::Num(clone_chars(s)),
        Json::Str(s) => Json::Str(clone_chars(s)),
        Json::Arr(items) => {
            let n: usize = items.len();
            let mut out: Vec<Json> = Vec::new();
            let mut k: usize = 0;
            while k < n
                invariant
                    k <= n,
                    n == items@.len(),
                    out@.len() == k,
                    forall|t: int| 0 <= t < k ==> jv(#[trigger] out@[t]) == jv(items@[t]),
                decreases n - k,
            {
                proof {
                    assert(decreases_to!(*j => *items));
                    assert(decreases_to!(*items => items@));
                    assert(decreases_to!(items@ => items@[k as int]));
                }
                out.push(clone_json(&items[k]));
                k = k + 1;
            }
            proof {
                lemma_jv_list_index(out@);
                lemma_jv_list_index(items@);
                assert(jv_list(out@) =~= jv_list(items@));
            }
            Json::Arr(out)
        },
        Json::Obj(ms) => {
            let n: usize = ms.len();
            let mut out: Vec<Member> = Vec::new();
            let mut k: usize = 0;
            while k < n
                invariant
                    k <= n,
                    n == ms@.len(),
                    out@.len() == k,
                    forall|t: int| 0 <= t < k ==> (#[trigger] out@[t]).key@ == ms@[t].key@ && jv(
                        out@[t].value,
                    ) == jv(ms@[t].value),
                decreases n - k,
            {
                proof {
                    assert(decreases_to!(*j => *ms));
                    assert(decreases_to!(*ms => ms@));
                    assert(decreases_to!(ms@ => ms@[k as int]));
                    assert(decreases_to!(ms@[k as int] => ms@[k as int].value));
                }
                let key2 = clone_chars(&ms[k].key);
                let val2 = clone_json(&ms[k].value);
                out.push(Member { key: key2, value: val2 });
                k = k + 1;
            }
            proof {
                lemma_jv_members_index(out@);
                lemma_jv_members_index(ms@);
                assert(jv_members(out@) =~= jv_members(ms@));
            }
            Json::Obj(out)
        },
    }
}

} // verus!
