//! A display block: full target text plus a progressively revealed prefix.
use vstd::prelude::*;
use crate::text::{chars_of, slice_chars, string_of, copy_chars};

verus! {

/// Milliseconds between two revealed characters when the timer is honoured.
pub const REVEAL_INTERVAL_MS: u64 = 20;

/// The text shown while nothing has been heard yet.
pub const WAITING_TEXT: &'static str = "... waiting for the sound ...";

pub open spec fn opt_view(o: Option<String>) -> Option<Seq<char>> {
    match o {
        Some(s) => Some(s@),
        None => None,
    }
}

/// A copy of an optional speaker label.
pub fn copy_speaker(o: &Option<String>) -> (r: Option<String>)
    ensures
        opt_view(r) == opt_view(*o),
{
    match o {
        Some(s) => Some(s.clone()),
        None => None,
    }
}

/// Whether two optional speaker labels are equal.
pub fn same_speaker(a: &Option<String>, b: &Option<String>) -> (r: bool)
    ensures
        r == (opt_view(*a) == opt_view(*b)),
{
    match (a, b) {
        (Some(x), Some(y)) => *x == *y,
        (None, None) => true,
        _ => false,
    }
}

/// The mathematical model of a block.
#[verifier::ext_equal]
pub struct SubtitleView {
    pub speaker: Option<Seq<char>>,
    pub text: Seq<char>,
    pub revealed: nat,
    pub last_update_ms: u64,
}

/// One display block. `revealed` counts the characters of `text` shown so far.
pub struct AudioSubtitle {
    pub speaker: Option<String>,
    pub text: Vec<char>,
    pub revealed: usize,
    pub last_update_ms: u64,
}

impl View for AudioSubtitle {
    type V = SubtitleView;

    open spec fn view(&self) -> SubtitleView {
        SubtitleView {
            speaker: opt_view(self.speaker),
            text: self.text@,
            revealed: self.revealed as nat,
            last_update_ms: self.last_update_ms,
        }
    }
}

/// The revealed prefix of a block.
pub open spec fn shown(v: SubtitleView) -> Seq<char> {
    if v.revealed <= v.text.len() {
        v.text.take(v.revealed as int)
    } else {
        v.text
    }
}

/// One step of the reveal animation: snap an over-long prefix down, or show one
/// more character if `force` is set or the interval has passed since the last one.
pub open spec fn advance(v: SubtitleView, force: bool, now_ms: u64) -> (SubtitleView, bool) {
    if v.revealed >= v.text.len() {
        if v.revealed > v.text.len() {
            (SubtitleView { revealed: v.text.len(), ..v }, true)
        } else {
            (v, false)
        }
    } else if force || (now_ms >= v.last_update_ms && now_ms - v.last_update_ms
        >= REVEAL_INTERVAL_MS) {
        (SubtitleView { revealed: v.revealed + 1, last_update_ms: now_ms, ..v }, true)
    } else {
        (v, false)
    }
}

impl AudioSubtitle {
    /// A block whose text is still to be revealed.
    pub fn new(speaker: Option<String>, text: String, now_ms: u64) -> (r: Self)
        ensures
            r@ == (SubtitleView {
                speaker: opt_view(speaker),
                text: text@,
                revealed: 0,
                last_update_ms: now_ms,
            }),
    {
        AudioSubtitle { speaker, text: chars_of(text.as_str()), revealed: 0, last_update_ms: now_ms }
    }

    /// A block whose text is revealed at once.
    pub fn new_complete(speaker: Option<String>, text: String, now_ms: u64) -> (r: Self)
        ensures
            r@ == (SubtitleView {
                speaker: opt_view(speaker),
                text: text@,
                revealed: text@.len(),
                last_update_ms: now_ms,
            }),
    {
        let chars = chars_of(text.as_str());
        let n = chars.len();
        AudioSubtitle { speaker, text: chars, revealed: n, last_update_ms: now_ms }
    }

    /// Advances the reveal by one step; true when the shown text changed.
    pub fn update_animation(&mut self, ignore_timer: bool, now_ms: u64) -> (changed: bool)
        ensures
            (final(self)@, changed) == advance(old(self)@, ignore_timer, now_ms),
    {
        let n = self.text.len();
        if self.revealed >= n {
            if self.revealed > n {
                self.revealed = n;
                return true;
            }
            return false;
        }
        if ignore_timer || (now_ms >= self.last_update_ms && now_ms - self.last_update_ms
            >= REVEAL_INTERVAL_MS) {
            self.revealed = self.revealed + 1;
            self.last_update_ms = now_ms;
            return true;
        }
        false
    }

    /// Whether part of the text is not yet revealed.
    pub fn is_pending(&self) -> (r: bool)
        ensures
            r == (self@.revealed < self@.text.len()),
    {
        self.revealed < self.text.len()
    }

    /// The full target text.
    pub fn text(&self) -> (r: String)
        ensures
            r@ == self@.text,
    {
        string_of(&self.text)
    }

    /// The revealed prefix of the text.
    pub fn displayed_text(&self) -> (r: String)
        ensures
            r@ == shown(self@),
    {
        let n = if self.revealed <= self.text.len() {
            self.revealed
        } else {
            self.text.len()
        };
        let part = slice_chars(&self.text, 0, n);
        proof {
            if self.revealed > self.text.len() {
                assert(self.text@.subrange(0, n as int) =~= self.text@);
            }
        }
        string_of(&part)
    }

    /// The speaker label, if any.
    pub fn speaker(&self) -> (r: Option<String>)
        ensures
            opt_view(r) == self@.speaker,
    {
        copy_speaker(&self.speaker)
    }

    /// An independent copy of the block.
    pub fn duplicate(&self) -> (r: Self)
        ensures
            r@ == self@,
    {
        AudioSubtitle {
            speaker: copy_speaker(&self.speaker),
            text: copy_chars(&self.text),
            revealed: self.revealed,
            last_update_ms: self.last_update_ms,
        }
    }
}

impl AudioSubtitle {
    /// The model of the waiting block.
    pub open spec fn default_view() -> SubtitleView {
        SubtitleView {
            speaker: None,
            text: WAITING_TEXT@,
            revealed: WAITING_TEXT@.len(),
            last_update_ms: 0,
        }
    }
}

impl Default for AudioSubtitle {
    /// The waiting block shown before any speech arrives, fully revealed.
    fn default() -> (r: Self)
        ensures
            r@ == AudioSubtitle::default_view(),
    {
        let chars = chars_of(WAITING_TEXT);
        let n = chars.len();
        AudioSubtitle { speaker: None, text: chars, revealed: n, last_update_ms: 0 }
    }
}

} // verus!
