use clicky::selection::{clipboard_sentinel, finish_capture, ClipboardPoll, PollStep, COPY_POLLS};

#[test]
fn sentinel_is_unlikely_text() {
    assert_eq!(clipboard_sentinel(), "\u{0}clicky\u{0}");
}

#[test]
fn poll_finds_new_text() {
    let mut p = ClipboardPoll::new();
    assert!(matches!(p.observe(Some(clipboard_sentinel())), PollStep::Retry));
    assert!(matches!(p.observe(None), PollStep::Retry));
    assert!(matches!(p.observe(Some("picked".to_string())), PollStep::Found(ref t) if t == "picked"));
}

#[test]
fn poll_gives_up_after_twelve_reads() {
    let mut p = ClipboardPoll::new();
    for _ in 1..COPY_POLLS {
        assert!(matches!(p.observe(None), PollStep::Retry));
    }
    assert!(matches!(p.observe(Some(clipboard_sentinel())), PollStep::GiveUp));
    assert_eq!(p.reads_left, 0);
    assert_eq!(COPY_POLLS, 12);
}

#[test]
fn empty_clipboard_text_counts_as_found() {
    let mut p = ClipboardPoll::new();
    assert!(matches!(p.observe(Some(String::new())), PollStep::Found(ref t) if t.is_empty()));
}

#[test]
fn capture_result_is_trimmed() {
    assert_eq!(finish_capture(Some("  word \n".to_string())), "word");
    assert_eq!(finish_capture(None), "");
}
