use clicky::reply::{ChatEvent, ChatReader, PullEvent, PullReader};

fn describe(events: &[ChatEvent]) -> Vec<String> {
    events
        .iter()
        .map(|e| match e {
            ChatEvent::Token(t) => format!("token:{t}"),
            ChatEvent::Done => "done".to_string(),
            ChatEvent::Error(m) => format!("error:{m}"),
        })
        .collect()
}

fn run_chat(chunks: &[&[u8]]) -> Vec<String> {
    let mut reader = ChatReader::new();
    let mut out = Vec::new();
    for c in chunks {
        out.extend(describe(&reader.feed(c, "m")));
    }
    if let Some(e) = reader.finish() {
        out.extend(describe(&[e]));
    }
    out
}

const BODY: &[u8] = b"{\"message\":{\"content\":\"Hel\"},\"done\":false}\n\n{\"message\":{\"content\":\"lo\"},\"done\":false}\n{\"message\":{\"content\":\"\"},\"done\":true}\n{\"message\":{\"content\":\"late\"}}\n";

#[test]
fn chat_reply_ends_once_at_done() {
    assert_eq!(run_chat(&[BODY]), vec!["token:Hel", "token:lo", "done"]);
}

#[test]
fn chat_reply_is_the_same_however_chunked() {
    let whole = run_chat(&[BODY]);
    for size in 1..BODY.len() {
        let chunks: Vec<&[u8]> = BODY.chunks(size).collect();
        assert_eq!(run_chat(&chunks), whole, "chunks of {size}");
    }
}

#[test]
fn chat_reply_without_done_ends_at_body_end() {
    assert_eq!(
        run_chat(&[b"{\"message\":{\"content\":\"a\"}}\n{\"message\":{\"content\":\"b\"}}"]),
        vec!["token:a", "done"]
    );
    assert_eq!(run_chat(&[]), vec!["done"]);
}

#[test]
fn chat_reply_error_is_the_last_event() {
    let got = run_chat(&[b"{\"message\":{\"content\":\"a\"}}\n{\"error\":\"connection refused\"}\n{\"done\":true}\n"]);
    assert_eq!(
        got,
        vec!["token:a", "error:Ollama isn't running. Start it, then try again."]
    );
}

#[test]
fn chat_reader_sends_nothing_after_the_end() {
    let mut reader = ChatReader::new();
    let first = reader.feed(b"{\"done\":true}\n", "m");
    assert_eq!(describe(&first), vec!["done"]);
    assert!(reader.ended());
    assert!(reader.feed(b"{\"message\":{\"content\":\"x\"}}\n", "m").is_empty());
    assert!(reader.finish().is_none());
}

#[test]
fn pull_progress_then_done() {
    let mut reader = PullReader::new();
    let events = reader.feed(b"{\"status\":\"pulling\",\"completed\":5,\"total\":10}\n{\"total\":10}\n{\"status\":\"success\"}\n{\"status\":\"after\"}\n");
    assert_eq!(events.len(), 4);
    match &events[0] {
        PullEvent::Progress(p) => {
            assert_eq!(p.status, "pulling");
            assert_eq!(p.completed, Some(5));
            assert_eq!(p.total, Some(10));
        }
        _ => panic!("expected progress"),
    }
    match &events[1] {
        PullEvent::Progress(p) => {
            assert_eq!(p.status, "");
            assert_eq!(p.completed, None);
        }
        _ => panic!("expected progress"),
    }
    match &events[2] {
        PullEvent::Progress(p) => assert_eq!(p.status, "success"),
        _ => panic!("expected progress"),
    }
    assert!(matches!(events[3], PullEvent::Done));
    assert!(reader.ended());
    assert!(reader.finish().is_none());
}

#[test]
fn pull_error_ends_the_pull() {
    let mut reader = PullReader::new();
    let events = reader.feed(b"{\"error\":\"no space\"}\n");
    assert!(matches!(&events[..], [PullEvent::Error(m)] if m == "no space"));
    assert!(reader.ended());
}

#[test]
fn pull_without_success_ends_at_body_end() {
    let mut reader = PullReader::new();
    assert!(reader.feed(b"{\"status\":\"pull").is_empty());
    let events = reader.feed(b"ing\"}\n");
    assert!(matches!(&events[..], [PullEvent::Progress(p)] if p.status == "pulling"));
    assert!(matches!(reader.finish(), Some(PullEvent::Done)));
}
