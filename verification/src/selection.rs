//! Reading the text the user has highlighted in another application.
//!
//! The copy keystroke is sent and the clipboard read back, with the user's
//! clipboard put back afterwards. A sentinel placed on the clipboard first
//! tells "the user selected nothing" apart from "the user selected exactly the
//! text that was already on the clipboard". Apps vary a lot in how fast they
//! service a copy, so the clipboard is polled rather than read once.

use vstd::prelude::*;

use crate::text::{same_text, trim, trimmed};

verus! {

/// How many times the clipboard is read, a short wait apart, before giving up.
pub const COPY_POLLS: u32 = 12;

/// What is placed on the clipboard before the copy keystroke.
pub open spec fn sentinel_text() -> Seq<char> {
    "\u{0}clicky\u{0}"@
}

/// The sentinel, ready to place on the clipboard.
pub fn clipboard_sentinel() -> (s: String)
    ensures
        s@ == sentinel_text(),
{
    let mut s = String::new();
    s.append("\u{0}clicky\u{0}");
    s
}

/// What one read of the clipboard means.
pub enum PollStep {
    /// The copy has landed: this is what was selected.
    Found(String),
    /// Nothing yet: wait and read again.
    Retry,
    /// The reads are used up: nothing was selected.
    GiveUp,
}

/// Waiting for a copy to land on the clipboard.
pub struct ClipboardPoll {
    /// Reads still allowed.
    pub reads_left: u32,
}

impl ClipboardPoll {
    /// A poll with all its reads ahead of it.
    pub fn new() -> (p: ClipboardPoll)
        ensures
            p.reads_left == COPY_POLLS,
    {
        ClipboardPoll { reads_left: COPY_POLLS }
    }

    /// Takes in one read of the clipboard (`None` when reading failed). Text
    /// other than the sentinel is the selection; anything else uses up a read,
    /// and the last read used up gives up.
    pub fn observe(&mut self, read: Option<String>) -> (s: PollStep)
        ensures
            match read {
                Some(t) if t@ != sentinel_text() => s matches PollStep::Found(f) && f == t
                    && final(self).reads_left == old(self).reads_left,
                _ => (s is GiveUp || s is Retry) && (final(self).reads_left, s is GiveUp) == fail_once(
                    old(self).reads_left,
                ),
            },
    {
        if let Some(t) = read {
            let sentinel = clipboard_sentinel();
            if !same_text(t.as_str(), sentinel.as_str()) {
                return PollStep::Found(t);
            }
        }
        if self.reads_left <= 1 {
            self.reads_left = 0;
            PollStep::GiveUp
        } else {
            self.reads_left = self.reads_left - 1;
            PollStep::Retry
        }
    }
}

/// A read that brings nothing new: one read fewer is left, and the poll gives
/// up when that was the last one.
pub open spec fn fail_once(left: u32) -> (u32, bool) {
    if left <= 1 {
        (0, true)
    } else {
        ((left - 1) as u32, false)
    }
}

/// The reads left after `k` reads that brought nothing new, on a fresh poll.
pub open spec fn left_after_failures(k: nat) -> u32
    decreases k,
{
    if k == 0 {
        COPY_POLLS
    } else {
        fail_once(left_after_failures((k - 1) as nat)).0
    }
}

proof fn lemma_left_after_failures(k: nat)
    requires
        k < COPY_POLLS,
    ensures
        left_after_failures(k) == COPY_POLLS - k,
    decreases k,
{
    if k > 0 {
        lemma_left_after_failures((k - 1) as nat);
    }
}

/// A fresh poll gives up on exactly the `COPY_POLLS`-th read that brings
/// nothing new; every read before it asks to retry.
pub proof fn lemma_poll_gives_up_on_last_read(k: nat)
    requires
        1 <= k <= COPY_POLLS,
    ensures
        fail_once(left_after_failures((k - 1) as nat)).1 <==> k == COPY_POLLS,
{
    lemma_left_after_failures((k - 1) as nat);
}

/// The selection that a capture returns: what was found, trimmed; empty when
/// nothing was found.
pub fn finish_capture(found: Option<String>) -> (text: String)
    ensures
        text@ == trimmed(
            match found {
                Some(f) => f@,
                None => Seq::<char>::empty(),
            },
        ),
{
    match found {
        Some(f) => trim(f.as_str()),
        None => {
            let nothing = String::new();
            trim(nothing.as_str())
        },
    }
}

} // verus!
