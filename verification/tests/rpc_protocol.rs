use llama_desktop::json::JsonValue;
use llama_desktop::rpc::{
    encode_rpc_request, parse_rpc_body, scan_stdio_line, LineScan, RpcCounter, RpcSseScanner,
};

#[test]
fn rpc_counter_increases() {
    let mut counter = RpcCounter::new();
    assert_eq!(counter.take(), 1);
    assert_eq!(counter.take(), 2);
    assert_eq!(counter.take(), 3);
}

#[test]
fn encoded_request_carries_id_and_method() {
    // Round-trip through a real JSON parser: the encoded line must hold
    // the exact protocol fields.
    let text = encode_rpc_request(7, "tools/list", None);
    let parsed: serde_json::Value = serde_json::from_str(&text).expect("valid JSON");
    assert_eq!(parsed["jsonrpc"], "2.0");
    assert_eq!(parsed["id"], 7);
    assert_eq!(parsed["method"], "tools/list");
    assert!(parsed["params"].is_null());
}

#[test]
fn encoded_request_carries_params() {
    let params = JsonValue::Obj(vec![(
        "name".to_string(),
        JsonValue::Str("echo".to_string()),
    )]);
    let text = encode_rpc_request(2, "tools/call", Some(params));
    let parsed: serde_json::Value = serde_json::from_str(&text).expect("valid JSON");
    assert_eq!(parsed["params"]["name"], "echo");
}

#[test]
fn stdio_scan_skips_noise_until_matching_id() {
    assert!(matches!(scan_stdio_line("not json at all", 1), LineScan::Skip));
    assert!(matches!(
        scan_stdio_line("{\"jsonrpc\":\"2.0\",\"id\":2,\"result\":{}}", 1),
        LineScan::Skip
    ));
    match scan_stdio_line("{\"jsonrpc\":\"2.0\",\"id\":1,\"result\":{\"ok\":true}}", 1) {
        LineScan::Reply(Ok(v)) => {
            assert_eq!(v.get("ok"), Some(&JsonValue::Bool(true)));
        }
        _ => panic!("expected the matching result"),
    }
}

#[test]
fn stdio_scan_surfaces_remote_errors() {
    match scan_stdio_line(
        "{\"id\":1,\"error\":{\"code\":-32600,\"message\":\"bad request\"}}",
        1,
    ) {
        LineScan::Reply(Err(e)) => {
            assert_eq!(e, "MCP error -32600: bad request");
        }
        _ => panic!("expected the remote error"),
    }
}

#[test]
fn stdio_scan_reports_missing_result() {
    match scan_stdio_line("{\"id\":1}", 1) {
        LineScan::Reply(Err(e)) => assert!(e.contains("Missing result")),
        _ => panic!("expected the missing-result failure"),
    }
}

#[test]
fn body_parse_reads_single_response() {
    let v = parse_rpc_body("{\"id\":9,\"result\":{\"content\":\"data\"}}").expect("result");
    match v.get("content") {
        Some(JsonValue::Str(s)) => assert_eq!(s, "data"),
        _ => panic!("expected the content field"),
    }
    let err = parse_rpc_body("{{{").expect_err("invalid");
    assert!(err.contains("Failed to parse response"));
}

#[test]
fn sse_scanner_accumulates_events_until_match() {
    let mut scanner = RpcSseScanner::new();
    assert!(scanner.feed("data: {\"id\":4,\"result\"", 4).is_none());
    match scanner.feed(":{\"ok\":1}}\n\n", 4) {
        Some(Ok(v)) => {
            assert!(v.get("ok").is_some());
        }
        _ => panic!("expected the matching response"),
    }
}

#[test]
fn sse_scanner_scans_batched_responses() {
    let mut scanner = RpcSseScanner::new();
    let body = "data: [{\"id\":1,\"result\":{}},{\"id\":2,\"result\":{\"hit\":true}}]\n\n";
    match scanner.feed(body, 2) {
        Some(Ok(v)) => assert_eq!(v.get("hit"), Some(&JsonValue::Bool(true))),
        _ => panic!("expected the second response"),
    }
}

#[test]
fn sse_scanner_finish_reports_silence() {
    let scanner = RpcSseScanner::new();
    let err = scanner.finish(1).expect_err("no response");
    assert!(err.contains("SSE stream ended without response"));
}

#[test]
fn sse_scanner_surfaces_remote_errors() {
    let mut scanner = RpcSseScanner::new();
    let body = "data: {\"id\":3,\"error\":{\"code\":5,\"message\":\"nope\"}}\n\n";
    match scanner.feed(body, 3) {
        Some(Err(e)) => assert_eq!(e, "MCP error 5: nope"),
        _ => panic!("expected the remote error"),
    }
}
