//! What the user can configure, with the defaults a fresh install starts from.

use vstd::prelude::*;

verus! {

/// The bits of the default `follow_easing` factor, 0.22, as an IEEE-754 double.
pub const DEFAULT_FOLLOW_EASING_BITS: u64 = 0x3fcc28f5c28f5c29u64;

/// clicky's settings, as the settings file holds them.
#[derive(Clone, Debug)]
pub struct Settings {
    /// Any model you've pulled with `ollama pull`.
    pub model: String,
    pub host: String,
    /// The bead trails your cursor around the screen.
    pub follow_cursor: bool,
    /// Watch for text selections and offer to act on them.
    pub watch_selection: bool,
    /// Open the panel the moment you highlight something, instead of waiting
    /// for you to click the bead.
    pub auto_open: bool,
    /// Give the panel your keyboard when it auto-opens.
    pub auto_open_focus: bool,
    /// An auto-opened panel you never touch closes itself after this long.
    pub auto_close_ms: u64,
    /// Where the bead sits relative to the cursor, in points.
    pub offset_x: i32,
    pub offset_y: i32,
    /// How far the bead closes on the cursor each frame (0.0 to 1.0), kept as
    /// the bit pattern of an IEEE-754 double: the library only carries it, the
    /// window code computes with it.
    pub follow_easing_bits: u64,
    pub target_language: String,
    /// Leave empty for the default (Cmd/Ctrl + Shift + Space).
    pub hotkey: String,
}

/// The settings a fresh install starts from.
pub open spec fn is_default_settings(s: Settings) -> bool {
    &&& s.model@ == "gemma3:4b"@
    &&& s.host@ == "http://127.0.0.1:11434"@
    &&& s.follow_cursor
    &&& s.watch_selection
    &&& s.auto_open
    &&& !s.auto_open_focus
    &&& s.auto_close_ms == 14_000
    &&& s.offset_x == 22
    &&& s.offset_y == 22
    &&& s.follow_easing_bits == DEFAULT_FOLLOW_EASING_BITS
    &&& s.target_language@ == "English"@
    &&& s.hotkey@ == Seq::<char>::empty()
}

/// A `String` holding `s`.
fn owned(s: &str) -> (r: String)
    ensures
        r@ == s@,
{
    let mut r = String::new();
    r.append(s);
    r
}

impl Default for Settings {
    fn default() -> (s: Self)
        ensures
            is_default_settings(s),
    {
        Settings {
            model: owned("gemma3:4b"),
            host: owned("http://127.0.0.1:11434"),
            follow_cursor: true,
            watch_selection: true,
            auto_open: true,
            auto_open_focus: false,
            auto_close_ms: 14_000,
            offset_x: 22,
            offset_y: 22,
            follow_easing_bits: DEFAULT_FOLLOW_EASING_BITS,
            target_language: owned("English"),
            hotkey: String::new(),
        }
    }
}

impl Settings {
    /// Flips whether the bead follows the cursor, and says whether it now does.
    pub fn toggle_follow(&mut self) -> (on: bool)
        ensures
            on == final(self).follow_cursor,
            *final(self) == (Settings { follow_cursor: !old(self).follow_cursor, ..*old(self) }),
    {
        self.follow_cursor = !self.follow_cursor;
        self.follow_cursor
    }

    /// Flips whether selections are watched for, and says whether they now are.
    pub fn toggle_watch(&mut self) -> (on: bool)
        ensures
            on == final(self).watch_selection,
            *final(self) == (Settings { watch_selection: !old(self).watch_selection, ..*old(self) }),
    {
        self.watch_selection = !self.watch_selection;
        self.watch_selection
    }

    /// Whether an offer opens the panel on its own, and if so whether the panel
    /// takes the keyboard: `None` to wait for a click on the bead, `Some(focus)`
    /// to open at once.
    pub fn auto_panel(&self) -> (open: Option<bool>)
        ensures
            open == (if self.auto_open {
                Some(self.auto_open_focus)
            } else {
                None
            }),
    {
        if self.auto_open {
            Some(self.auto_open_focus)
        } else {
            None
        }
    }

    /// The hotkey the user asked for, or `None` for the default chord.
    pub fn custom_hotkey(&self) -> (k: Option<String>)
        ensures
            k.deep_view() == (if self.hotkey@.len() == 0 {
                None
            } else {
                Some(self.hotkey@)
            }),
    {
        if self.hotkey.as_str().is_empty() {
            None
        } else {
            Some(self.hotkey.clone())
        }
    }
}

/// Lets overrides win over the file, so a model can be tried without editing
/// anything: `model` and `host` are the values of `CLICKY_MODEL` and
/// `CLICKY_HOST`, where those are set.
pub fn apply_env(s: &mut Settings, model: Option<String>, host: Option<String>)
    ensures
        *final(s) == (Settings {
            model: match model {
                Some(m) => m,
                None => old(s).model,
            },
            host: match host {
                Some(h) => h,
                None => old(s).host,
            },
            ..*old(s)
        }),
{
    if let Some(m) = model {
        s.model = m;
    }
    if let Some(h) = host {
        s.host = h;
    }
}

} // verus!
