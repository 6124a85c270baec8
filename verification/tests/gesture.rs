use clicky::watcher::{
    judge_capture, offer_allowed, BeadMove, Frame, GestureTracker, Verdict, Watcher,
};
use std::sync::atomic::Ordering;

const MS: u64 = 1_000_000;

fn frame(down: bool, now_ms: u64) -> Frame {
    Frame {
        down,
        now_ns: now_ms * MS,
        follow_cursor: true,
        frozen: false,
        watch_selection: true,
        paused: false,
        dragged_far: false,
        near_last_click: false,
    }
}

#[test]
fn drag_selection_is_offered() {
    let mut g = GestureTracker::new();
    let a = g.step(frame(true, 100));
    assert!(a.mark_press && !a.offer);
    let a = g.step(frame(true, 200));
    assert!(!a.mark_press && !a.offer);
    let a = g.step(Frame { dragged_far: true, ..frame(false, 400) });
    assert!(a.mark_click);
    assert!(a.offer);
}

#[test]
fn quick_or_far_too_long_drags_are_not_offered() {
    let mut g = GestureTracker::new();
    g.step(frame(true, 100));
    let a = g.step(Frame { dragged_far: true, ..frame(false, 160) });
    assert!(!a.offer, "60 ms is not more than 60 ms");
    let mut g = GestureTracker::new();
    g.step(frame(true, 100));
    let a = g.step(Frame { dragged_far: true, ..frame(false, 12_100) });
    assert!(!a.offer, "12 s is not less than 12 s");
    let mut g = GestureTracker::new();
    g.step(frame(true, 100));
    let a = g.step(Frame { dragged_far: true, ..frame(false, 12_099) });
    assert!(a.offer);
}

#[test]
fn plain_click_is_not_offered() {
    let mut g = GestureTracker::new();
    g.step(frame(true, 100));
    let a = g.step(frame(false, 200));
    assert!(a.mark_click && !a.offer);
}

#[test]
fn double_click_is_offered() {
    let mut g = GestureTracker::new();
    g.step(frame(true, 1000));
    assert!(!g.step(frame(false, 1050)).offer);
    g.step(frame(true, 1200));
    let a = g.step(Frame { near_last_click: true, ..frame(false, 1469) });
    assert!(a.offer);
}

#[test]
fn slow_or_distant_second_click_is_not_double() {
    let mut g = GestureTracker::new();
    g.step(frame(true, 1000));
    g.step(frame(false, 1050));
    g.step(frame(true, 1400));
    let a = g.step(Frame { near_last_click: true, ..frame(false, 1470) });
    assert!(!a.offer, "420 ms apart is too slow");
    let mut g = GestureTracker::new();
    g.step(frame(true, 1000));
    g.step(frame(false, 1050));
    g.step(frame(true, 1100));
    let a = g.step(frame(false, 1150));
    assert!(!a.offer, "not near the last click");
}

#[test]
fn first_click_ever_is_not_double() {
    let mut g = GestureTracker::new();
    g.step(frame(true, 1));
    let a = g.step(Frame { near_last_click: true, ..frame(false, 2) });
    assert!(!a.offer);
}

#[test]
fn nothing_is_offered_while_paused_frozen_or_off() {
    for f in [
        |f: Frame| Frame { paused: true, ..f },
        |f: Frame| Frame { frozen: true, ..f },
        |f: Frame| Frame { watch_selection: false, ..f },
    ] {
        let mut g = GestureTracker::new();
        let a = g.step(f(frame(true, 100)));
        assert!(!a.mark_press);
        let a = g.step(f(Frame { dragged_far: true, ..frame(false, 400) }));
        assert!(!a.offer && !a.mark_click);
        assert!(!g.was_down);
    }
}

#[test]
fn bead_jumps_then_glides_and_stays_when_frozen() {
    let mut g = GestureTracker::new();
    assert!(g.step(frame(false, 1)).bead == BeadMove::Jump);
    assert!(g.step(frame(false, 2)).bead == BeadMove::Glide);
    assert!(g.step(Frame { frozen: true, ..frame(false, 3) }).bead == BeadMove::Stay);
    assert!(g.step(frame(false, 4)).bead == BeadMove::Glide);
    assert!(g.step(Frame { follow_cursor: false, ..frame(false, 5) }).bead == BeadMove::Stay);
    assert!(g.step(frame(false, 6)).bead == BeadMove::Jump);
}

#[test]
fn capture_verdicts() {
    let mut last = String::new();
    assert!(matches!(judge_capture("  ", &mut last), Verdict::Clear));
    assert!(matches!(judge_capture(" a ", &mut last), Verdict::Clear));
    assert_eq!(last, "");
    assert!(matches!(judge_capture("  hi there \n", &mut last), Verdict::Offer(ref t) if t == "hi there"));
    assert_eq!(last, "hi there");
    assert!(matches!(judge_capture("hi there", &mut last), Verdict::Repeat));
    assert_eq!(last, "hi there");
    assert!(matches!(judge_capture("other", &mut last), Verdict::Offer(ref t) if t == "other"));
    assert_eq!(last, "other");
}

#[test]
fn two_character_selection_is_offered() {
    let mut last = String::new();
    assert!(matches!(judge_capture("ok", &mut last), Verdict::Offer(ref t) if t == "ok"));
    assert!(matches!(judge_capture("é", &mut last), Verdict::Clear));
}

#[test]
fn own_focused_panel_blocks_capture() {
    assert!(!offer_allowed(true, true));
    assert!(offer_allowed(true, false));
    assert!(offer_allowed(false, true));
    assert!(offer_allowed(false, false));
}

#[test]
fn new_watcher_starts_idle() {
    let w = Watcher::new();
    assert!(!w.paused.load(Ordering::Relaxed));
    assert!(!w.frozen.load(Ordering::Relaxed));
    assert_eq!(*w.last_offer.lock().unwrap(), "");
}
