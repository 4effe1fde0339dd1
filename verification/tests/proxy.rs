//! The dispatcher, the normalizer, and the envelope translation, end to end.

use mcp_proxy_tool::dispatch::{
    finish_http, finish_reply_line, handle_line, transport_error_line, NamedPipeMcpClient, Step,
};
use mcp_proxy_tool::envelope::envelope_text;
use mcp_proxy_tool::normalize::{normalize_body, replace_all};
use mcp_proxy_tool::json::json_to_text;

fn cv(s: &str) -> Vec<char> {
    s.chars().collect()
}

fn s_of(v: Vec<char>) -> String {
    v.into_iter().collect()
}

#[test]
fn initialize_gets_the_fixed_descriptor() {
    let step = handle_line(&cv("{\"jsonrpc\":\"2.0\",\"id\":3,\"method\":\"initialize\"}"));
    match step {
        Step::Reply(line) => assert_eq!(
            s_of(line),
            "{\"jsonrpc\":\"2.0\",\"id\":3,\"result\":{\"capabilities\":{\"logging\":{},\
             \"tools\":{\"listChanged\":true}},\"protocolVersion\":\"2024-11-05\",\
             \"serverInfo\":{\"name\":\"mcp-proxy-tool\",\"version\":\"1.0.0\"}}}"
        ),
        _ => panic!("expected a reply"),
    }
}

#[test]
fn initialize_echoes_any_id() {
    let step = handle_line(&cv("{\"jsonrpc\":\"2.0\",\"id\":-41,\"method\":\"initialize\"}"));
    match step {
        Step::Reply(line) => {
            let out = s_of(line);
            assert!(out.starts_with("{\"jsonrpc\":\"2.0\",\"id\":-41,\"result\":"));
        }
        _ => panic!("expected a reply"),
    }
}

#[test]
fn initialized_notification_is_silent() {
    let step = handle_line(&cv(
        "{\"jsonrpc\":\"2.0\",\"method\":\"notifications/initialized\"}",
    ));
    assert!(matches!(step, Step::Silent));
}

#[test]
fn initialized_notification_with_id_is_still_silent() {
    let step = handle_line(&cv(
        "{\"jsonrpc\":\"2.0\",\"id\":1,\"method\":\"notifications/initialized\"}",
    ));
    assert!(matches!(step, Step::Silent));
}

#[test]
fn unknown_method_gets_32601() {
    let step = handle_line(&cv("{\"jsonrpc\":\"2.0\",\"id\":9,\"method\":\"foo/bar\"}"));
    match step {
        Step::Reply(line) => assert_eq!(
            s_of(line),
            "{\"jsonrpc\":\"2.0\",\"id\":9,\"error\":{\"code\":-32601,\
             \"message\":\"Method not found: foo/bar\"}}"
        ),
        _ => panic!("expected a reply"),
    }
}

#[test]
fn requests_without_id_are_notifications() {
    let step = handle_line(&cv("{\"jsonrpc\":\"2.0\",\"method\":\"tools/list\"}"));
    assert!(matches!(step, Step::Silent));
    let step = handle_line(&cv("{\"jsonrpc\":\"2.0\",\"id\":null,\"method\":\"foo\"}"));
    assert!(matches!(step, Step::Silent));
}

#[test]
fn malformed_lines_are_skipped_and_the_loop_goes_on() {
    assert!(matches!(handle_line(&cv("")), Step::Silent));
    assert!(matches!(handle_line(&cv("   ")), Step::Silent));
    assert!(matches!(handle_line(&cv("not json")), Step::Silent));
    assert!(matches!(handle_line(&cv("{\"jsonrpc\":\"2.0\"")), Step::Silent));
    // No jsonrpc member, no method, or a bad id: skipped too.
    assert!(matches!(handle_line(&cv("{\"id\":1,\"method\":\"x\"}")), Step::Silent));
    assert!(matches!(handle_line(&cv("{\"jsonrpc\":\"2.0\",\"id\":1}")), Step::Silent));
    assert!(matches!(
        handle_line(&cv("{\"jsonrpc\":\"2.0\",\"id\":\"x\",\"method\":\"a\"}")),
        Step::Silent
    ));
    assert!(matches!(
        handle_line(&cv("{\"jsonrpc\":\"2.0\",\"id\":2.5,\"method\":\"a\"}")),
        Step::Silent
    ));
    assert!(matches!(
        handle_line(&cv("{\"jsonrpc\":\"2.0\",\"id\":1e2,\"method\":\"a\"}")),
        Step::Silent
    ));
    // The next well-formed line still gets its answer.
    let step = handle_line(&cv("{\"jsonrpc\":\"2.0\",\"id\":1,\"method\":\"nope\"}"));
    assert!(matches!(step, Step::Reply(_)));
}

#[test]
fn tools_list_forwards_with_empty_params() {
    let step = handle_line(&cv("{\"jsonrpc\":\"2.0\",\"id\":7,\"method\":\"tools/list\",\"params\":{}}"));
    match step {
        Step::Forward(tr, id) => {
            assert_eq!(s_of(id), "7");
            assert_eq!(s_of(tr.method.clone()), "tools/list");
            let env = envelope_text(&tr.method, tr.params);
            assert_eq!(
                s_of(env),
                "{\"jsonrpc\":\"2.0\",\"id\":1,\"method\":\"tools/list\",\"params\":{}}"
            );
        }
        _ => panic!("expected a forward"),
    }
}

#[test]
fn tools_call_forwards_params_verbatim() {
    let step = handle_line(&cv(
        "{\"jsonrpc\":\"2.0\",\"id\":2,\"method\":\"tools/call\",\
         \"params\":{\"name\":\"t\",\"arguments\":{\"q\":\"x\"}}}",
    ));
    match step {
        Step::Forward(tr, id) => {
            assert_eq!(s_of(id), "2");
            let env = envelope_text(&tr.method, tr.params);
            assert_eq!(
                s_of(env),
                "{\"jsonrpc\":\"2.0\",\"id\":1,\"method\":\"tools/call\",\
                 \"params\":{\"name\":\"t\",\"arguments\":{\"q\":\"x\"}}}"
            );
        }
        _ => panic!("expected a forward"),
    }
}

#[test]
fn tools_call_without_params_sends_empty_object() {
    let step = handle_line(&cv("{\"jsonrpc\":\"2.0\",\"id\":2,\"method\":\"tools/call\"}"));
    match step {
        Step::Forward(tr, _id) => {
            let env = envelope_text(&tr.method, tr.params);
            assert_eq!(
                s_of(env),
                "{\"jsonrpc\":\"2.0\",\"id\":1,\"method\":\"tools/call\",\"params\":{}}"
            );
        }
        _ => panic!("expected a forward"),
    }
}

#[test]
fn end_to_end_tools_list_against_http_backend() {
    let step = handle_line(&cv("{\"jsonrpc\":\"2.0\",\"id\":7,\"method\":\"tools/list\",\"params\":{}}"));
    match step {
        Step::Forward(_tr, id) => {
            let body = cv("{\"jsonrpc\":\"2.0\",\"id\":1,\"result\":{\"tools\":[]}}");
            let out = finish_http(&id, &body);
            assert_eq!(s_of(out), "{\"jsonrpc\":\"2.0\",\"id\":7,\"result\":{\"tools\":[]}}");
        }
        _ => panic!("expected a forward"),
    }
}

#[test]
fn unwrap_rule_takes_the_nested_result() {
    let out = finish_reply_line(&cv("5"), &cv("{\"result\":{\"foo\":1}}"));
    assert_eq!(s_of(out), "{\"jsonrpc\":\"2.0\",\"id\":5,\"result\":{\"foo\":1}}");
}

#[test]
fn unwrap_rule_keeps_an_unnested_reply() {
    let out = finish_reply_line(&cv("5"), &cv("{\"foo\":1}"));
    assert_eq!(s_of(out), "{\"jsonrpc\":\"2.0\",\"id\":5,\"result\":{\"foo\":1}}");
}

#[test]
fn sse_and_plain_bodies_normalize_alike() {
    let payload = "{\"jsonrpc\":\"2.0\",\"id\":1,\"result\":{\"tools\":[]}}";
    let plain = normalize_body(&cv(payload));
    let framed = normalize_body(&cv(&format!("event: message\ndata: {}\n\n", payload)));
    let a = plain.map(|v| s_of(json_to_text(&v)));
    let b = framed.map(|v| s_of(json_to_text(&v)));
    assert!(a.is_ok());
    assert_eq!(a, b);
}

#[test]
fn sse_with_carriage_returns_is_handled() {
    let out = finish_http(&cv("1"), &cv("event: message\r\ndata: {\"result\":{\"a\":1}}\r\n\r\n"));
    assert_eq!(s_of(out), "{\"jsonrpc\":\"2.0\",\"id\":1,\"result\":{\"a\":1}}");
}

#[test]
fn escape_repair_rewrites_only_content_text() {
    // The backend double-encoded the text field; a sibling of `content`
    // keeps its escape sequences untouched.
    let body = cv(
        "{\"result\":{\"content\":[{\"text\":\"It\\\\u0027s \\\\u0022ok\\\\u0022\"}],\
         \"meta\":\"a\\\\u0027b\"}}",
    );
    let out = finish_http(&cv("4"), &body);
    assert_eq!(
        s_of(out),
        "{\"jsonrpc\":\"2.0\",\"id\":4,\"result\":{\"content\":[{\"text\":\"It's \\\"ok\\\"\"}],\
         \"meta\":\"a\\\\u0027b\"}}"
    );
}

#[test]
fn escape_repair_applies_the_whole_chain() {
    let got = replace_all(&cv("x\\u003Cy\\u003Ez"), "\\u003C", "<");
    let got = replace_all(&got, "\\u003E", ">");
    assert_eq!(s_of(got), "x<y>z");
}

#[test]
fn reply_line_path_applies_no_escape_repair() {
    // Process and socket replies are parsed directly: no repair there.
    let out = finish_reply_line(&cv("1"), &cv("{\"result\":{\"content\":[{\"text\":\"a\\\\u0027b\"}]}}"));
    assert_eq!(
        s_of(out),
        "{\"jsonrpc\":\"2.0\",\"id\":1,\"result\":{\"content\":[{\"text\":\"a\\\\u0027b\"}]}}"
    );
}

#[test]
fn empty_body_gets_32603() {
    let out = finish_http(&cv("3"), &cv("  \n "));
    assert_eq!(
        s_of(out),
        "{\"jsonrpc\":\"2.0\",\"id\":3,\"error\":{\"code\":-32603,\
         \"message\":\"Internal error: Empty response body from MCP server\"}}"
    );
}

#[test]
fn sse_without_data_line_gets_32603() {
    let out = finish_http(&cv("3"), &cv("event: message\nid: 5\n\n"));
    assert_eq!(
        s_of(out),
        "{\"jsonrpc\":\"2.0\",\"id\":3,\"error\":{\"code\":-32603,\
         \"message\":\"Internal error: No data found in SSE response\"}}"
    );
}

#[test]
fn unparsable_body_gets_32603() {
    let out = finish_http(&cv("3"), &cv("<html>oops</html>"));
    assert_eq!(
        s_of(out),
        "{\"jsonrpc\":\"2.0\",\"id\":3,\"error\":{\"code\":-32603,\
         \"message\":\"Internal error: Failed to parse backend JSON\"}}"
    );
}

#[test]
fn unparsable_reply_line_gets_32603() {
    let out = finish_reply_line(&cv("8"), &cv("garbage"));
    assert_eq!(
        s_of(out),
        "{\"jsonrpc\":\"2.0\",\"id\":8,\"error\":{\"code\":-32603,\
         \"message\":\"Internal error: Failed to parse backend JSON\"}}"
    );
}

#[test]
fn transport_failure_gets_32603_with_the_description() {
    let out = transport_error_line(&cv("6"), &cv("connection refused"));
    assert_eq!(
        s_of(out),
        "{\"jsonrpc\":\"2.0\",\"id\":6,\"error\":{\"code\":-32603,\
         \"message\":\"Internal error: connection refused\"}}"
    );
}

#[test]
fn responses_keep_input_order() {
    // Three lines, three responses, in order; the middle one needs no
    // backend at all.
    let l1 = cv("{\"jsonrpc\":\"2.0\",\"id\":1,\"method\":\"initialize\"}");
    let l2 = cv("{\"jsonrpc\":\"2.0\",\"id\":2,\"method\":\"nope\"}");
    let l3 = cv("{\"jsonrpc\":\"2.0\",\"id\":3,\"method\":\"tools/list\"}");
    let mut outputs: Vec<String> = Vec::new();
    for line in [l1, l2, l3] {
        match handle_line(&line) {
            Step::Reply(s) => outputs.push(s_of(s)),
            Step::Forward(_tr, id) => {
                outputs.push(s_of(finish_reply_line(&id, &cv("{\"result\":{}}"))));
            }
            Step::Silent => {}
        }
    }
    assert_eq!(outputs.len(), 3);
    assert!(outputs[0].contains("\"id\":1"));
    assert!(outputs[1].contains("\"id\":2"));
    assert!(outputs[2].contains("\"id\":3"));
}

#[test]
fn pipe_client_remembers_its_path() {
    let c = NamedPipeMcpClient::new("/tmp/mcp.sock");
    assert_eq!(c.path(), "/tmp/mcp.sock");
}

#[test]
fn large_ids_are_echoed_verbatim() {
    let step = handle_line(&cv(
        "{\"jsonrpc\":\"2.0\",\"id\":99999999999999999999,\"method\":\"nope\"}",
    ));
    match step {
        Step::Reply(line) => {
            assert!(s_of(line).starts_with("{\"jsonrpc\":\"2.0\",\"id\":99999999999999999999,"));
        }
        _ => panic!("expected a reply"),
    }
}

#[test]
fn sse_with_empty_data_line_gets_32603() {
    let out = finish_http(&cv("2"), &cv("event: message\ndata: \n\n"));
    assert_eq!(
        s_of(out),
        "{\"jsonrpc\":\"2.0\",\"id\":2,\"error\":{\"code\":-32603,\
         \"message\":\"Internal error: No data found in SSE response\"}}"
    );
}

#[test]
fn sse_takes_the_first_data_line() {
    let out = finish_http(
        &cv("2"),
        &cv("event: message\nretry: 5\ndata: {\"a\":1}\ndata: {\"b\":2}\n\n"),
    );
    assert_eq!(s_of(out), "{\"jsonrpc\":\"2.0\",\"id\":2,\"result\":{\"a\":1}}");
}

#[test]
fn extra_request_members_are_ignored() {
    let step = handle_line(&cv(
        "{\"jsonrpc\":\"2.0\",\"id\":5,\"method\":\"nope\",\"extra\":[1,2]}",
    ));
    assert!(matches!(step, Step::Reply(_)));
}
