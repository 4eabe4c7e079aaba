use llama_desktop::sse::SseParser;

fn collect(parser: &mut SseParser, text: &str) -> String {
    let mut all = String::new();
    for chunk in parser.feed(text) {
        all.push_str(&chunk);
    }
    all
}

#[test]
fn sse_frames_concatenate_in_order() {
    // A data: frame, a blank line, a keep-alive comment, and a bare JSON
    // line: the forwarded output is exactly the frames' delta content.
    let mut parser = SseParser::new();
    let text = "data: {\"choices\":[{\"delta\":{\"content\":\"Hel\"}}]}\n\n: keep-alive\n{\"choices\":[{\"delta\":{\"content\":\"lo\"}}]}\n";
    assert_eq!(collect(&mut parser, text), "Hello");
}

#[test]
fn sse_done_stops_forwarding() {
    let mut parser = SseParser::new();
    let text = "data: {\"choices\":[{\"delta\":{\"content\":\"A\"}}]}\ndata: [DONE]\ndata: {\"choices\":[{\"delta\":{\"content\":\"B\"}}]}\n";
    assert_eq!(collect(&mut parser, text), "A");
}

#[test]
fn sse_parser_buffers_partial_lines() {
    let mut parser = SseParser::new();
    let first = collect(&mut parser, "data: {\"choices\":[{\"delta\":{\"co");
    assert_eq!(first, "");
    let second = collect(&mut parser, "ntent\":\"Hi\"}}]}\n");
    assert_eq!(second, "Hi");
}

#[test]
fn sse_skips_malformed_frames() {
    let mut parser = SseParser::new();
    let text = "data: this is not json\ndata: {\"choices\":[]}\ndata: {\"choices\":[{\"delta\":{\"content\":\"ok\"}}]}\n";
    assert_eq!(collect(&mut parser, text), "ok");
}
