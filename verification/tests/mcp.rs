use radiochron::mcp::{
    after_read, answer, first_step, handle_line, handle_read, is_blank, networks_outcome, scan_outcome,
    tool_reply, NetworkStep, Step, Tool, INVALID_REQUEST, METHOD_NOT_FOUND, PARSE_ERROR,
    PROTOCOL_VERSION,
};
use serde_json::Value;

fn response(line: &str) -> Value {
    match handle_line(line) {
        Step::Reply(reply) => serde_json::from_str(&reply).unwrap(),
        other => panic!("expected a response, got {other:?}"),
    }
}

#[test]
fn initialize_reports_protocol_and_tool_capability() {
    let out = response(r#"{"jsonrpc":"2.0","id":1,"method":"initialize"}"#);
    assert_eq!(out["id"], 1);
    assert_eq!(out["result"]["protocolVersion"], PROTOCOL_VERSION);
    assert_eq!(out["result"]["serverInfo"]["name"], "beacontrail");
    assert!(out["result"]["capabilities"]["tools"].is_object());
}

#[test]
fn notifications_get_no_reply() {
    assert!(matches!(
        handle_line(r#"{"jsonrpc":"2.0","method":"notifications/initialized"}"#),
        Step::Silent
    ));
}

#[test]
fn tools_list_exposes_only_read_only_tools() {
    let out = response(r#"{"jsonrpc":"2.0","id":2,"method":"tools/list"}"#);
    let tools = out["result"]["tools"].as_array().unwrap();
    let names: Vec<&str> = tools.iter().map(|t| t["name"].as_str().unwrap()).collect();
    assert_eq!(names, vec!["wifi_status", "wifi_networks", "wifi_scan"]);

    // Nothing that reads secrets or mutates the adapter may ever appear here.
    for forbidden in [
        "wifi_profile_secret",
        "scan_identity_apply",
        "local_network_scan",
    ] {
        assert!(
            !names.contains(&forbidden),
            "{forbidden} must not be exposed"
        );
    }
    // Every tool must advertise an object schema.
    for tool in tools {
        assert_eq!(tool["inputSchema"]["type"], "object");
    }
}

#[test]
fn unknown_method_is_a_jsonrpc_error() {
    let out = response(r#"{"jsonrpc":"2.0","id":3,"method":"nope"}"#);
    assert_eq!(out["error"]["code"], METHOD_NOT_FOUND);
}

#[test]
fn unknown_tool_is_a_jsonrpc_error() {
    let out =
        response(r#"{"jsonrpc":"2.0","id":4,"method":"tools/call","params":{"name":"nope"}}"#);
    assert_eq!(out["error"]["code"], METHOD_NOT_FOUND);
}

#[test]
fn malformed_json_reports_a_parse_error() {
    let out = response("{ not json");
    assert_eq!(out["error"]["code"], PARSE_ERROR);
    assert_eq!(out["id"], Value::Null);
}

#[test]
fn leading_utf8_bom_is_tolerated() {
    let out = response("\u{feff}{\"jsonrpc\":\"2.0\",\"id\":9,\"method\":\"ping\"}");
    assert_eq!(out["id"], 9);
    assert!(out.get("error").is_none());
}

#[test]
fn request_without_method_is_invalid() {
    let out = response(r#"{"jsonrpc":"2.0","id":5}"#);
    assert_eq!(out["error"]["code"], INVALID_REQUEST);
}

#[test]
fn errors_carry_their_words_and_their_id() {
    let out = response(r#"{"id":"abc","method":"nope"}"#);
    assert_eq!(out["jsonrpc"], "2.0");
    assert_eq!(out["id"], "abc");
    assert_eq!(out["error"]["message"], "unknown method: nope");
    let out = response(r#"{"id":1.5,"method":"tools/call","params":{}}"#);
    assert_eq!(out["id"], 1.5);
    assert_eq!(out["error"]["message"], "tools/call requires a name");
    assert_eq!(out["error"]["code"], INVALID_REQUEST);
    let out = response("[1,2]");
    assert_eq!(out["id"], Value::Null);
    assert_eq!(out["error"]["message"], "missing method");
    // A method that is no string is none.
    let out = response(r#"{"id":1,"method":7}"#);
    assert_eq!(out["error"]["code"], INVALID_REQUEST);
}

fn called(line: &str) -> (Value, Tool) {
    match handle_line(line) {
        Step::Call { id, tool } => (id, tool),
        other => panic!("expected a call, got {other:?}"),
    }
}

#[test]
fn listed_tools_are_called_with_their_arguments() {
    let call = |name: &str, arguments: &str| {
        called(&format!(
            "{{\"id\":6,\"method\":\"tools/call\",\"params\":{{\"name\":\"{name}\",\"arguments\":{arguments}}}}}"
        ))
    };
    assert_eq!(call("wifi_status", "null"), (Value::from(6), Tool::Status));
    assert_eq!(call("wifi_scan", "{}").1, Tool::Scan);
    assert_eq!(
        call("wifi_networks", "{}").1,
        Tool::Networks {
            full: false,
            refresh: false
        }
    );
    assert_eq!(
        call("wifi_networks", "{\"detail\":\"full\",\"refresh_scan\":true}").1,
        Tool::Networks {
            full: true,
            refresh: true
        }
    );
    assert_eq!(
        call("wifi_networks", "{\"detail\":\"all\",\"refresh_scan\":\"true\"}").1,
        Tool::Networks {
            full: false,
            refresh: false
        }
    );
    // A call without an id is a notification and runs nothing.
    let message: Value =
        serde_json::from_str(r#"{"method":"tools/call","params":{"name":"wifi_scan"}}"#).unwrap();
    assert!(matches!(answer(&message), Step::Silent));
}

#[test]
fn outcomes_of_tools_are_told_to_the_model() {
    let reply: Value =
        serde_json::from_str(&tool_reply(Value::from(6), &Ok("said".into()))).unwrap();
    assert_eq!(reply["id"], 6);
    assert_eq!(reply["result"]["isError"], false);
    assert_eq!(reply["result"]["content"][0]["type"], "text");
    assert_eq!(reply["result"]["content"][0]["text"], "said");
    let reply: Value =
        serde_json::from_str(&tool_reply(Value::from(6), &Err("why".into()))).unwrap();
    assert_eq!(reply["result"]["isError"], true);
    assert_eq!(reply["result"]["content"][0]["text"], "why");
    assert_eq!(scan_outcome(2), "{\"interfaces_scanning\":2}");
    assert_eq!(
        networks_outcome(0, true, false, Value::Array(vec![])),
        "{\"count\":0,\"detail\":\"summary\",\"networks\":[],\"refreshed\":true}"
    );
}

#[test]
fn what_is_wrong_with_a_line_is_told() {
    match handle_read(&Err("why".into())) {
        Step::Reply(reply) => assert_eq!(
            reply,
            "{\"error\":{\"code\":-32700,\"message\":\"why\"},\"id\":null,\"jsonrpc\":\"2.0\"}"
        ),
        other => panic!("unexpected {other:?}"),
    }
    assert!(matches!(handle_read(&Ok(Value::Null)), Step::Reply(_)));
}

#[test]
fn answers_stand_on_one_line() {
    let reply = tool_reply(Value::from("a\nb"), &Ok("first\r\nsecond\n".into()));
    assert!(!reply.contains('\n') && !reply.contains('\r'));
    let read: Value = serde_json::from_str(&reply).unwrap();
    assert_eq!(read["id"], "a\nb");
    assert_eq!(read["result"]["content"][0]["text"], "first\r\nsecond\n");
}

#[test]
fn an_empty_cache_is_tried_once_more() {
    assert_eq!(first_step(true), NetworkStep::ScanAndRead);
    assert_eq!(first_step(false), NetworkStep::Read);
    assert_eq!(after_read(NetworkStep::Read, 0), NetworkStep::ScanAndRead);
    assert_eq!(after_read(NetworkStep::Read, 3), NetworkStep::Report);
    assert_eq!(after_read(NetworkStep::ScanAndRead, 0), NetworkStep::Report);
}

#[test]
fn blank_lines_are_passed_over() {
    assert!(is_blank(" \t\r"));
    assert!(is_blank(""));
    assert!(!is_blank(" {}"));
}
