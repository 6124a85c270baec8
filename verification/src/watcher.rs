//! Recognising the gesture of selecting text, and deciding what to offer.
//!
//! There is no cross-platform "the user selected something" event, so the
//! watcher recognises the gesture instead: a drag of more than a few pixels
//! that took a plausible time, or a double click. Every frame the window code
//! hands the tracker what it saw, and the tracker says what to do.

use vstd::prelude::*;

use std::sync::atomic::AtomicBool;
use std::sync::Arc;
use std::sync::Mutex;

use crate::text::{chars_of, trim, trimmed, same_text};

verus! {

#[verifier::external_type_specification]
#[verifier::external_body]
#[verifier::reject_recursive_types(T)]
pub struct ExMutex<T: ?Sized>(Mutex<T>);

/// Calls `Mutex::new`. Nothing is claimed of the result: a mutex is opaque here.
#[verifier::external_body]
fn new_mutex(s: String) -> Mutex<String> {
    Mutex::new(s)
}

/// The flags the watcher shares with the rest of the app.
pub struct Watcher {
    /// Set while a capture is in flight, so that the copy keystroke it sends
    /// is not itself taken for a selection.
    pub paused: Arc<AtomicBool>,
    /// Set while the bead is showing an offer. A window that moves between
    /// your mousedown and mouseup swallows the click, so once the bead has
    /// something to say, it stands still until you deal with it.
    pub frozen: Arc<AtomicBool>,
    /// The last text offered, so the same selection is not offered twice.
    pub last_offer: Arc<Mutex<String>>,
}

impl Watcher {
    /// Fresh flags: not paused, not frozen, nothing offered yet.
    pub fn new() -> (w: Watcher) {
        Watcher {
            paused: Arc::new(AtomicBool::new(false)),
            frozen: Arc::new(AtomicBool::new(false)),
            last_offer: Arc::new(new_mutex(String::new())),
        }
    }
}

// ---------------------------------------------------------------------------
// The gesture
// ---------------------------------------------------------------------------

/// Two clicks closer together than this, in the same spot, select a word.
pub const DOUBLE_CLICK_MS: u64 = 420;
/// A drag shorter than this is a click, not a selection.
pub const MIN_DRAG_MS: u64 = 60;
/// A drag longer than this is something else, such as moving a window.
pub const MAX_DRAG_MS: u64 = 12_000;
/// Nanoseconds in a millisecond.
pub const NANOS_PER_MS: u64 = 1_000_000;

/// What the window code saw in one frame.
#[derive(Clone, Copy)]
pub struct Frame {
    /// The primary mouse button is down.
    pub down: bool,
    /// Nanoseconds since the tracker was made, from a monotonic clock.
    pub now_ns: u64,
    /// The `follow_cursor` setting.
    pub follow_cursor: bool,
    /// The bead is frozen because it is showing an offer.
    pub frozen: bool,
    /// The `watch_selection` setting.
    pub watch_selection: bool,
    /// A capture is in flight.
    pub paused: bool,
    /// The cursor is farther than the drag threshold from where the button
    /// last went down.
    pub dragged_far: bool,
    /// The cursor is within a few pixels of where the last click ended.
    pub near_last_click: bool,
}

/// Where the bead goes this frame.
#[derive(Clone, Copy, PartialEq, Eq, Structural)]
pub enum BeadMove {
    /// Leave it where it is.
    Stay,
    /// Put it straight on its spot next to the cursor.
    Jump,
    /// Move it part of the way towards its spot, so it trails the cursor.
    Glide,
}

/// What to do after a frame.
#[derive(Clone, Copy)]
pub struct FrameAction {
    pub bead: BeadMove,
    /// Remember the cursor position as where the button went down.
    pub mark_press: bool,
    /// Remember the cursor position as where the last click ended.
    pub mark_click: bool,
    /// A selection gesture just ended: capture the selection and offer it.
    pub offer: bool,
}

/// The watcher's memory of the mouse between frames.
#[derive(Clone, Copy)]
pub struct GestureTracker {
    pub was_down: bool,
    /// When the button last went down, in nanoseconds.
    pub down_ns: u64,
    /// When the last click ended, if one has.
    pub last_click_ns: Option<u64>,
    /// The bead has been put on its spot since following began.
    pub placed: bool,
}

/// Whole milliseconds from `then` to `now`, or zero if `now` is earlier.
pub open spec fn millis_between(then: u64, now: u64) -> int {
    if now >= then {
        ((now - then) as int) / (NANOS_PER_MS as int)
    } else {
        0
    }
}

/// Selection gestures are ignored in this frame.
pub open spec fn watching_off(f: Frame) -> bool {
    !f.watch_selection || f.paused || f.frozen
}

/// The bead trails the cursor in this frame.
pub open spec fn following(f: Frame) -> bool {
    f.follow_cursor && !f.frozen
}

/// The release ends a double click: near where the last click ended, and soon after.
pub open spec fn is_double_click(g: GestureTracker, f: Frame) -> bool {
    &&& f.near_last_click
    &&& g.last_click_ns matches Some(t)
    &&& millis_between(t, f.now_ns) < DOUBLE_CLICK_MS
}

/// The release ends a drag that looks like selecting text.
pub open spec fn is_selecting_drag(g: GestureTracker, f: Frame) -> bool {
    let held = millis_between(g.down_ns, f.now_ns);
    f.dragged_far && MIN_DRAG_MS < held && held < MAX_DRAG_MS
}

/// One frame of the watcher: where the bead goes, and whether a selection
/// gesture has just ended.
pub open spec fn gesture_step(g: GestureTracker, f: Frame) -> (GestureTracker, FrameAction) {
    let bead = if following(f) {
        if g.placed {
            BeadMove::Glide
        } else {
            BeadMove::Jump
        }
    } else {
        BeadMove::Stay
    };
    let placed = if following(f) {
        true
    } else if !f.follow_cursor {
        false
    } else {
        g.placed
    };
    if watching_off(f) {
        (
            GestureTracker { was_down: f.down, down_ns: g.down_ns, last_click_ns: g.last_click_ns, placed },
            FrameAction { bead, mark_press: false, mark_click: false, offer: false },
        )
    } else {
        let press = f.down && !g.was_down;
        let release = !f.down && g.was_down;
        (
            GestureTracker {
                was_down: f.down,
                down_ns: if press {
                    f.now_ns
                } else {
                    g.down_ns
                },
                last_click_ns: if release {
                    Some(f.now_ns)
                } else {
                    g.last_click_ns
                },
                placed,
            },
            FrameAction {
                bead,
                mark_press: press,
                mark_click: release,
                offer: release && (is_selecting_drag(g, f) || is_double_click(g, f)),
            },
        )
    }
}

/// Whole milliseconds from `then` to `now`, or zero if `now` is earlier.
fn millis_since(then: u64, now: u64) -> (ms: u64)
    ensures
        ms == millis_between(then, now),
{
    if now >= then {
        (now - then) / NANOS_PER_MS
    } else {
        0
    }
}

impl GestureTracker {
    /// A tracker that has seen nothing: button up, no click yet, bead not placed.
    pub fn new() -> (g: GestureTracker)
        ensures
            !g.was_down,
            g.down_ns == 0,
            g.last_click_ns is None,
            !g.placed,
    {
        GestureTracker { was_down: false, down_ns: 0, last_click_ns: None, placed: false }
    }

    /// Takes in one frame and says what to do about it.
    pub fn step(&mut self, f: Frame) -> (a: FrameAction)
        ensures
            (*final(self), a) == gesture_step(*old(self), f),
    {
        let follow = f.follow_cursor && !f.frozen;
        let bead = if follow {
            if self.placed {
                BeadMove::Glide
            } else {
                BeadMove::Jump
            }
        } else {
            BeadMove::Stay
        };
        if follow {
            self.placed = true;
        } else if !f.follow_cursor {
            self.placed = false;
        }
        if !f.watch_selection || f.paused || f.frozen {
            self.was_down = f.down;
            return FrameAction { bead, mark_press: false, mark_click: false, offer: false };
        }
        let press = f.down && !self.was_down;
        let release = !f.down && self.was_down;
        let mut offer = false;
        if release {
            let held = millis_since(self.down_ns, f.now_ns);
            let is_double = f.near_last_click && match self.last_click_ns {
                Some(t) => millis_since(t, f.now_ns) < DOUBLE_CLICK_MS,
                None => false,
            };
            offer = (f.dragged_far && MIN_DRAG_MS < held && held < MAX_DRAG_MS) || is_double;
            self.last_click_ns = Some(f.now_ns);
        }
        if press {
            self.down_ns = f.now_ns;
        }
        self.was_down = f.down;
        FrameAction { bead, mark_press: press, mark_click: release, offer }
    }
}

/// An offer only ever comes as the button is released.
pub proof fn lemma_offer_only_on_release(g: GestureTracker, f: Frame)
    ensures
        gesture_step(g, f).1.offer ==> g.was_down && !f.down,
{
}

/// While selections are not watched, the watcher is paused, or the bead is
/// frozen, nothing is offered and no press or click is recorded; the button
/// state is still tracked, so a release that follows is not mistaken for a press.
pub proof fn lemma_quiet_while_not_watching(g: GestureTracker, f: Frame)
    requires
        watching_off(f),
    ensures
        !gesture_step(g, f).1.offer,
        !gesture_step(g, f).1.mark_press,
        !gesture_step(g, f).1.mark_click,
        gesture_step(g, f).0.was_down == f.down,
        gesture_step(g, f).0.last_click_ns == g.last_click_ns,
{
}

/// A plain click, neither a drag nor the second half of a double click, offers nothing.
pub proof fn lemma_plain_click_offers_nothing(g: GestureTracker, f: Frame)
    requires
        !f.dragged_far,
        !f.near_last_click,
    ensures
        !gesture_step(g, f).1.offer,
{
}

/// A frozen bead stands still, so the click that answers an offer lands on it.
pub proof fn lemma_frozen_bead_stays(g: GestureTracker, f: Frame)
    requires
        f.frozen,
    ensures
        gesture_step(g, f).1.bead == BeadMove::Stay,
{
}

/// Two releases in the same spot within the double-click time offer the
/// selection, whether or not the mouse was dragged.
pub proof fn lemma_double_click_offers(g: GestureTracker, f: Frame, t: u64)
    requires
        !watching_off(f),
        g.was_down,
        !f.down,
        f.near_last_click,
        g.last_click_ns == Some(t),
        t <= f.now_ns < t + DOUBLE_CLICK_MS * NANOS_PER_MS,
    ensures
        gesture_step(g, f).1.offer,
{
    assert(((f.now_ns - t) as int) / (NANOS_PER_MS as int) < DOUBLE_CLICK_MS) by (nonlinear_arith)
        requires
            0 <= f.now_ns - t < DOUBLE_CLICK_MS * NANOS_PER_MS,
            NANOS_PER_MS == 1_000_000,
            DOUBLE_CLICK_MS == 420,
    ;
}

/// The bead is put straight on its spot the first time it follows, and
/// trails the cursor after that, until following is switched off.
pub proof fn lemma_bead_jumps_then_glides(g: GestureTracker, f: Frame, f2: Frame)
    requires
        following(f),
        following(f2),
    ensures
        gesture_step(g, f).1.bead == (if g.placed {
            BeadMove::Glide
        } else {
            BeadMove::Jump
        }),
        gesture_step(gesture_step(g, f).0, f2).1.bead == BeadMove::Glide,
{
}

// ---------------------------------------------------------------------------
// The offer
// ---------------------------------------------------------------------------

/// Whether a selection may be captured at all: not while the user is working
/// inside clicky's own panel. An unfocused panel that opened on its own is
/// fair game: highlighting something else just swaps what it works on.
pub fn offer_allowed(panel_visible: bool, panel_focused: bool) -> (b: bool)
    ensures
        b == !(panel_visible && panel_focused),
{
    !(panel_visible && panel_focused)
}

/// What to do with a captured selection.
pub enum Verdict {
    /// Too little was selected: clear any offer on show.
    Clear,
    /// The same text was just offered: do nothing.
    Repeat,
    /// Offer this text.
    Offer(String),
}

pub enum VerdictView {
    Clear,
    Repeat,
    Offer(Seq<char>),
}

impl View for Verdict {
    type V = VerdictView;

    open spec fn view(&self) -> VerdictView {
        match self {
            Verdict::Clear => VerdictView::Clear,
            Verdict::Repeat => VerdictView::Repeat,
            Verdict::Offer(t) => VerdictView::Offer(t@),
        }
    }
}

/// The verdict on `captured` when `last` was offered last, and what is
/// remembered as offered afterwards: the selection is trimmed; fewer than two
/// characters clear the offer; the text offered last is not offered again;
/// anything else is offered and remembered.
pub open spec fn judge(captured: Seq<char>, last: Seq<char>) -> (VerdictView, Seq<char>) {
    let t = trimmed(captured);
    if t.len() < 2 {
        (VerdictView::Clear, last)
    } else if t == last {
        (VerdictView::Repeat, last)
    } else {
        (VerdictView::Offer(t), t)
    }
}

/// Decides what to do with a captured selection, given the text offered
/// last, and updates that memory.
pub fn judge_capture(captured: &str, last_offer: &mut String) -> (v: Verdict)
    ensures
        (v@, final(last_offer)@) == judge(captured@, old(last_offer)@),
{
    let text = trim(captured);
    let n = chars_of(text.as_str()).len();
    if n < 2 {
        return Verdict::Clear;
    }
    if same_text(last_offer.as_str(), text.as_str()) {
        return Verdict::Repeat;
    }
    *last_offer = text.clone();
    Verdict::Offer(text)
}

/// The same selection is never offered twice in a row: once a text has been
/// offered, capturing it again is a repeat and changes nothing.
pub proof fn lemma_no_repeat_offer(captured: Seq<char>, last: Seq<char>)
    requires
        judge(captured, last).0 matches VerdictView::Offer(_),
    ensures
        judge(captured, judge(captured, last).1) == (VerdictView::Repeat, judge(captured, last).1),
{
}

/// Whatever is offered is trimmed and at least two characters long.
pub proof fn lemma_offer_is_substantial(captured: Seq<char>, last: Seq<char>)
    ensures
        judge(captured, last).0 matches VerdictView::Offer(t) ==> t == trimmed(captured) && t.len()
            >= 2,
{
}

/// The press time is recorded when the button goes down, and only then: a
/// frame in which the button stays down keeps it, and so does every frame in
/// which the button is up.
pub proof fn lemma_press_time_kept_while_held(g: GestureTracker, f: Frame)
    ensures
        !(f.down && !g.was_down) ==> gesture_step(g, f).0.down_ns == g.down_ns,
        f.down && !g.was_down && !watching_off(f) ==> gesture_step(g, f).0.down_ns == f.now_ns,
{
}

/// A release that ends a drag which went far, and which began more than 60
/// and less than 12 000 whole milliseconds before, offers the selection.
pub proof fn lemma_timed_drag_offers(g: GestureTracker, f: Frame)
    requires
        !watching_off(f),
        g.was_down,
        !f.down,
        f.dragged_far,
        g.down_ns + (MIN_DRAG_MS + 1) * NANOS_PER_MS <= f.now_ns,
        f.now_ns < g.down_ns + MAX_DRAG_MS * NANOS_PER_MS,
    ensures
        gesture_step(g, f).1.offer,
{
    let d = f.now_ns - g.down_ns;
    assert(61 <= (d as int) / 1_000_000 < 12_000) by (nonlinear_arith)
        requires
            61_000_000 <= d < 12_000_000_000,
    ;
}

/// A drag held down over any number of frames and then released far away,
/// within the time a selection takes, is offered: the frames in between keep
/// the press time.
pub proof fn lemma_held_drag_offers(g: GestureTracker, press: Frame, held: Frame, release: Frame)
    requires
        !watching_off(press),
        !watching_off(held),
        !watching_off(release),
        !g.was_down,
        press.down,
        held.down,
        !release.down,
        release.dragged_far,
        press.now_ns + (MIN_DRAG_MS + 1) * NANOS_PER_MS <= release.now_ns,
        release.now_ns < press.now_ns + MAX_DRAG_MS * NANOS_PER_MS,
    ensures
        gesture_step(gesture_step(gesture_step(g, press).0, held).0, release).1.offer,
        gesture_step(gesture_step(g, press).0, release).1.offer,
{
    let g1 = gesture_step(g, press).0;
    let g2 = gesture_step(g1, held).0;
    assert(g1.down_ns == press.now_ns && g1.was_down);
    assert(g2.down_ns == press.now_ns && g2.was_down);
    lemma_timed_drag_offers(g2, release);
    lemma_timed_drag_offers(g1, release);
}

/// What happens to a captured selection, stated on its trimmed text: fewer
/// than two characters clear the offer; the text offered last is a repeat;
/// any other text, however it relates to the last offer, is offered and
/// remembered.
pub proof fn lemma_judge_cases(captured: Seq<char>, last: Seq<char>)
    ensures
        trimmed(captured).len() < 2 ==> judge(captured, last) == (VerdictView::Clear, last),
        trimmed(captured).len() >= 2 && trimmed(captured) == last ==> judge(captured, last) == (
            VerdictView::Repeat,
            last,
        ),
        trimmed(captured).len() >= 2 && trimmed(captured) != last ==> judge(captured, last) == (
            VerdictView::Offer(trimmed(captured)),
            trimmed(captured),
        ),
{
}

} // verus!
