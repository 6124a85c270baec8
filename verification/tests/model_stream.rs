use clicky::model::{
    chat_status_error, chat_step, chat_url, collect_names, contains_model, friendly,
    model_names, no_model_message, pull_status_error, pull_step, pull_url, read_chat_line,
    read_pull_line, tags_url, LineFramer, StreamEnd,
};

fn drain(f: &mut LineFramer) -> Vec<String> {
    let mut out = Vec::new();
    while let Some(l) = f.next_line() {
        out.push(l);
    }
    out
}

#[test]
fn urls_name_the_endpoints() {
    assert_eq!(chat_url("http://127.0.0.1:11434"), "http://127.0.0.1:11434/api/chat");
    assert_eq!(tags_url("http://h"), "http://h/api/tags");
    assert_eq!(pull_url("http://h"), "http://h/api/pull");
}

#[test]
fn friendly_says_ollama_is_not_running() {
    let want = "Ollama isn't running. Start it, then try again.";
    assert_eq!(friendly("error trying to connect: tcp connect error", "m"), want);
    assert_eq!(friendly("Connection REFUSED", "m"), want);
    assert_eq!(friendly("DNS error", "m"), want);
}

#[test]
fn friendly_gives_the_pull_command() {
    assert_eq!(
        friendly("model 'qwen3:4b' Not Found, try pulling it first", "qwen3:4b"),
        "No model called qwen3:4b. Pull it with: ollama pull qwen3:4b"
    );
    assert_eq!(
        friendly("no such model", "gemma3:4b"),
        "No model called gemma3:4b. Pull it with: ollama pull gemma3:4b"
    );
}

#[test]
fn friendly_passes_other_errors_through() {
    assert_eq!(friendly("Out of Memory", "m"), "Out of Memory");
    assert_eq!(friendly("", "m"), "");
}

#[test]
fn no_model_message_names_the_model_twice() {
    assert_eq!(no_model_message("x"), "No model called x. Pull it with: ollama pull x");
}

#[test]
fn chat_status_errors() {
    assert_eq!(chat_status_error(200, "200 OK", "m"), None);
    assert_eq!(chat_status_error(204, "204 No Content", "m"), None);
    assert_eq!(
        chat_status_error(404, "404 Not Found", "m"),
        Some("No model called m. Pull it with: ollama pull m".to_string())
    );
    assert_eq!(
        chat_status_error(500, "500 Internal Server Error", "m"),
        Some("Ollama answered 500 Internal Server Error".to_string())
    );
    assert_eq!(
        chat_status_error(301, "301 Moved Permanently", "m"),
        Some("Ollama answered 301 Moved Permanently".to_string())
    );
}

#[test]
fn pull_status_errors() {
    assert_eq!(pull_status_error(200, "200 OK"), None);
    assert_eq!(
        pull_status_error(404, "404 Not Found"),
        Some("Ollama answered 404 Not Found".to_string())
    );
}

#[test]
fn framer_waits_for_a_whole_line() {
    let mut f = LineFramer::new();
    f.push_bytes(b"{\"a\":");
    assert_eq!(f.next_line(), None);
    f.push_bytes(b"1}\n{\"b\"");
    assert_eq!(f.next_line(), Some("{\"a\":1}".to_string()));
    assert_eq!(f.next_line(), None);
    f.push_bytes(b":2}\n");
    assert_eq!(drain(&mut f), vec!["{\"b\":2}".to_string()]);
}

#[test]
fn framer_chunking_does_not_change_lines() {
    let text = b"  one \n\ntwo\r\nthree\npartial";
    let mut whole = LineFramer::new();
    whole.push_bytes(text);
    let all_at_once = drain(&mut whole);
    let mut split = LineFramer::new();
    let mut piecewise = Vec::new();
    for chunk in text.chunks(3) {
        split.push_bytes(chunk);
        piecewise.extend(drain(&mut split));
    }
    assert_eq!(all_at_once, vec!["one", "", "two", "three"]);
    assert_eq!(piecewise, all_at_once);
}

#[test]
fn take_lines_drains_complete_lines_only() {
    let mut f = LineFramer::new();
    f.push_bytes(b"a\n b \nc");
    assert_eq!(f.take_lines(), vec!["a".to_string(), "b".to_string()]);
    assert!(f.take_lines().is_empty());
    f.push_bytes(b"d\n");
    assert_eq!(f.take_lines(), vec!["cd".to_string()]);
}

#[test]
fn framer_replaces_invalid_utf8() {
    let mut f = LineFramer::new();
    f.push_bytes(&[b'a', 0xff, b'b', b'\n']);
    assert_eq!(f.next_line(), Some("a\u{fffd}b".to_string()));
    f.push_bytes("é\n".as_bytes());
    assert_eq!(f.next_line(), Some("é".to_string()));
}

#[test]
fn chat_step_error_ends_with_friendly_message() {
    let s = chat_step(Some("connection refused".to_string()), Some("hi".to_string()), Some(true), "m");
    assert_eq!(s.token, None);
    assert!(matches!(s.end, StreamEnd::Failed(ref m) if m == "Ollama isn't running. Start it, then try again."));
}

#[test]
fn chat_step_token_and_done() {
    let s = chat_step(None, Some("Hel".to_string()), Some(false), "m");
    assert_eq!(s.token, Some("Hel".to_string()));
    assert!(matches!(s.end, StreamEnd::Continue));
    let s = chat_step(None, Some(String::new()), Some(true), "m");
    assert_eq!(s.token, None);
    assert!(matches!(s.end, StreamEnd::Done));
    let s = chat_step(None, None, None, "m");
    assert_eq!(s.token, None);
    assert!(matches!(s.end, StreamEnd::Continue));
}

#[test]
fn read_chat_line_reads_ollama_json() {
    let s = read_chat_line(r#"{"message":{"role":"assistant","content":"Hola"},"done":false}"#, "m");
    assert_eq!(s.token, Some("Hola".to_string()));
    assert!(matches!(s.end, StreamEnd::Continue));
    let s = read_chat_line(r#"{"message":{"content":""},"done":true}"#, "m");
    assert_eq!(s.token, None);
    assert!(matches!(s.end, StreamEnd::Done));
    let s = read_chat_line(r#"{"error":"model \"x\" not found"}"#, "x");
    assert!(matches!(s.end, StreamEnd::Failed(ref m) if m == "No model called x. Pull it with: ollama pull x"));
}

#[test]
fn read_chat_line_ignores_noise() {
    for line in ["", "not json", "{\"done\":", "[1,2]", "{\"done\":\"yes\"}"] {
        let s = read_chat_line(line, "m");
        assert_eq!(s.token, None);
        assert!(matches!(s.end, StreamEnd::Continue));
    }
}

#[test]
fn pull_step_reports_progress() {
    let s = pull_step(None, Some("downloading".to_string()), Some(10), Some(100));
    let p = s.progress.unwrap();
    assert_eq!(p.status, "downloading");
    assert_eq!(p.completed, Some(10));
    assert_eq!(p.total, Some(100));
    assert!(matches!(s.end, StreamEnd::Continue));
    let s = pull_step(None, Some("success".to_string()), None, None);
    assert!(matches!(s.end, StreamEnd::Done));
    let s = pull_step(None, None, None, None);
    assert_eq!(s.progress.unwrap().status, "");
    let s = pull_step(Some("boom".to_string()), Some("success".to_string()), None, None);
    assert!(s.progress.is_none());
    assert!(matches!(s.end, StreamEnd::Failed(ref m) if m == "boom"));
}

#[test]
fn read_pull_line_reads_ollama_json() {
    let s = read_pull_line(r#"{"status":"pulling abc","digest":"abc","total":2000,"completed":500}"#);
    let p = s.progress.unwrap();
    assert_eq!(p.status, "pulling abc");
    assert_eq!(p.completed, Some(500));
    assert_eq!(p.total, Some(2000));
    let s = read_pull_line(r#"{"status":"success"}"#);
    assert!(matches!(s.end, StreamEnd::Done));
    let s = read_pull_line(r#"{"error":"pull model manifest: file does not exist"}"#);
    assert!(matches!(s.end, StreamEnd::Failed(ref m) if m == "pull model manifest: file does not exist"));
    let s = read_pull_line("garbage");
    assert!(s.progress.is_none());
    assert!(matches!(s.end, StreamEnd::Continue));
}

#[test]
fn collect_names_keeps_present_names_in_order() {
    let got = collect_names(vec![Some("a".to_string()), None, Some("b".to_string())]);
    assert_eq!(got, vec!["a".to_string(), "b".to_string()]);
    assert!(collect_names(vec![]).is_empty());
}

#[test]
fn model_names_reads_tags_answer() {
    let body = r#"{"models":[{"name":"gemma3:4b","size":1},{"size":2},{"name":7},{"name":"qwen3:4b"}]}"#;
    assert_eq!(model_names(body), vec!["gemma3:4b".to_string(), "qwen3:4b".to_string()]);
    assert!(model_names(r#"{"models":"none"}"#).is_empty());
    assert!(model_names(r#"{"other":[]}"#).is_empty());
    assert!(model_names("not json").is_empty());
}

#[test]
fn model_names_reads_long_lists() {
    let mut body = String::from("{\"models\":[");
    for i in 0..12 {
        if i > 0 {
            body.push(',');
        }
        body.push_str(&format!("{{\"name\":\"m{i}\"}}"));
    }
    body.push_str("]}");
    let want: Vec<String> = (0..12).map(|i| format!("m{i}")).collect();
    assert_eq!(model_names(&body), want);
}

#[test]
fn decimal_text_writes_numbers() {
    assert_eq!(clicky::text::decimal_text(0), "0");
    assert_eq!(clicky::text::decimal_text(7), "7");
    assert_eq!(clicky::text::decimal_text(10), "10");
    assert_eq!(clicky::text::decimal_text(1203), "1203");
}

#[test]
fn chat_line_fields_of_wrong_type_are_ignored() {
    let s = read_chat_line(r#"{"error":5,"message":{"content":["x"]},"done":true}"#, "m");
    assert_eq!(s.token, None);
    assert!(matches!(s.end, StreamEnd::Done));
    let s = read_chat_line(r#"{"message":"hi","done":1}"#, "m");
    assert_eq!(s.token, None);
    assert!(matches!(s.end, StreamEnd::Continue));
}

#[test]
fn contains_model_matches_exact_names() {
    let models = vec!["gemma3:4b".to_string(), "qwen3:4b".to_string()];
    assert!(contains_model(&models, "qwen3:4b"));
    assert!(!contains_model(&models, "qwen3"));
    assert!(!contains_model(&[], "qwen3:4b"));
}

#[test]
fn pull_body_names_the_model() {
    assert_eq!(clicky::model::pull_body("gemma3:4b"), r#"{"model":"gemma3:4b","stream":true}"#);
    assert_eq!(clicky::model::pull_body("a\"b\\c"), r#"{"model":"a\"b\\c","stream":true}"#);
}

#[test]
fn friendly_twice_is_friendly_once() {
    for raw in ["tcp connect error", "model not found", "No such model", "boom", ""] {
        let once = friendly(raw, "gemma3:4b");
        assert_eq!(friendly(&once, "gemma3:4b"), once);
    }
}

#[test]
fn friendly_from_decides_on_the_lowered_text() {
    assert_eq!(
        clicky::model::friendly_from("connection refused", "Connection Refused", "m"),
        "Ollama isn't running. Start it, then try again."
    );
    assert_eq!(clicky::model::friendly_from("fine", "FINE", "m"), "FINE");
    assert_eq!(
        clicky::model::friendly_from("no such model", "x", "m"),
        "No model called m. Pull it with: ollama pull m"
    );
}
