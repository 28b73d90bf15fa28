//! The transcript stabilisation engine: classifies token batches, reconciles
//! finals against speculatively frozen text, buffers jittery interim updates,
//! promotes stale interim text and drives the reveal animation.
use vstd::prelude::*;
use crate::blocks::{commit, commit_text, views, BlockPolicy};
use crate::modes::{keeps, SonioxMode};
use crate::soniox::{
    first_speaker, purely_interim, SonioxTranscriptionResponse, TokenView,
};
use crate::subtitle::{
    advance, copy_speaker, opt_view, same_speaker, shown, AudioSubtitle, SubtitleView,
};
use crate::text::{
    chars_of, contains_chars, copy_chars, extend_chars, occurs_in, find_break, find_ws_before, find_ws_from, first_break, first_ws_from,
    last_ws, slice_chars, starts_with,
};

verus! {

/// Default ceiling on a block's length before it is closed at a word boundary.
pub const DEFAULT_BLOCK_CEILING: usize = 200;

/// Default slack over the line budget before interim text is frozen at a word boundary.
pub const DEFAULT_OVERFLOW_SLACK: usize = 50;

/// Default time an interim text may stay unchanged before it is committed.
pub const DEFAULT_STABILITY_TIMEOUT_MS: u64 = 1500;

/// At most this many reveal steps are taken per block and tick when several blocks lag.
pub const MAX_CATCH_UP: usize = 4;

/// The tunable parameters of the engine.
#[derive(Clone, Copy)]
pub struct EngineConfig {
    pub policy: BlockPolicy,
    /// The character budget of a line, used as the threshold for freezing interim text.
    pub max_chars_in_block: usize,
    pub overflow_slack: usize,
    pub smart_delay_ms: u64,
    pub stability_timeout_ms: u64,
    pub show_interim: bool,
    pub mode: SonioxMode,
}

/// What one batch contributes: its interim and its final text, each with its speaker.
pub struct Classified {
    pub interim: Vec<char>,
    pub interim_speaker: Option<String>,
    pub final_text: Vec<char>,
    pub final_speaker: Option<String>,
    pub has_final: bool,
    /// The highest end offset confirmed once this batch is taken.
    pub max_end_ms: u64,
}

pub struct ClassifiedView {
    pub interim: Seq<char>,
    pub interim_speaker: Option<Seq<char>>,
    pub final_text: Seq<char>,
    pub final_speaker: Option<Seq<char>>,
    pub has_final: bool,
    pub max_end_ms: u64,
}

impl View for Classified {
    type V = ClassifiedView;

    open spec fn view(&self) -> ClassifiedView {
        ClassifiedView {
            interim: self.interim@,
            interim_speaker: opt_view(self.interim_speaker),
            final_text: self.final_text@,
            final_speaker: opt_view(self.final_speaker),
            has_final: self.has_final,
            max_end_ms: self.max_end_ms,
        }
    }
}

/// The token by which the service marks the end of an utterance; it is not speech.
pub const END_MARKER: &'static str = "<end>";

/// Whether the policy drops a token for carrying the end-of-utterance marker:
/// translation output holding the marker anywhere is not shown; transcription
/// keeps every token of a shown variant.
pub open spec fn drops_marker(mode: SonioxMode, text: Seq<char>) -> bool {
    mode == SonioxMode::Translate && occurs_in(text, END_MARKER@)
}

/// Takes one token into the running classification. Tokens of a variant the
/// policy hides, and marker tokens that the policy drops, are left out. A final
/// token whose end offset does not pass the confirmed one is a resend and is
/// dropped too.
pub open spec fn classify_step(
    mode: SonioxMode,
    confirmed_ms: u64,
    acc: ClassifiedView,
    t: TokenView,
) -> ClassifiedView {
    if !keeps(mode, t.status) || drops_marker(mode, t.text) {
        acc
    } else if t.is_final {
        let m = match t.end_ms {
            Some(e) => if e > acc.max_end_ms {
                e
            } else {
                acc.max_end_ms
            },
            None => acc.max_end_ms,
        };
        if t.end_ms matches Some(e) && e <= confirmed_ms {
            ClassifiedView { max_end_ms: m, ..acc }
        } else {
            ClassifiedView {
                final_text: acc.final_text + t.text,
                final_speaker: t.speaker,
                has_final: true,
                max_end_ms: m,
                ..acc
            }
        }
    } else {
        ClassifiedView { interim: acc.interim + t.text, interim_speaker: t.speaker, ..acc }
    }
}

pub open spec fn classify_prefix(
    mode: SonioxMode,
    confirmed_ms: u64,
    tokens: Seq<TokenView>,
    n: int,
) -> ClassifiedView
    decreases n,
{
    if n <= 0 {
        ClassifiedView {
            interim: Seq::empty(),
            interim_speaker: None,
            final_text: Seq::empty(),
            final_speaker: None,
            has_final: false,
            max_end_ms: confirmed_ms,
        }
    } else {
        classify_step(
            mode,
            confirmed_ms,
            classify_prefix(mode, confirmed_ms, tokens, n - 1),
            tokens[n - 1],
        )
    }
}

/// The classification of a whole batch.
pub open spec fn classify(mode: SonioxMode, confirmed_ms: u64, tokens: Seq<TokenView>) -> ClassifiedView {
    classify_prefix(mode, confirmed_ms, tokens, tokens.len() as int)
}

/// Whether the policy drops a token with this text for the end-of-utterance marker.
fn drops_marker_token(mode: SonioxMode, text: &String) -> (r: bool)
    ensures
        r == drops_marker(mode, text@),
{
    match mode {
        SonioxMode::Transcribe => false,
        SonioxMode::Translate => {
            let chars = chars_of(text.as_str());
            let marker = chars_of(END_MARKER);
            contains_chars(&chars, &marker)
        },
    }
}

/// Splits a batch into interim and final text under the mode policy.
pub fn classify_batch(mode: SonioxMode, confirmed_ms: u64, response: &SonioxTranscriptionResponse) -> (r:
    Classified)
    ensures
        r@ == classify(mode, confirmed_ms, response@),
{
    let mut acc = Classified {
        interim: Vec::new(),
        interim_speaker: None,
        final_text: Vec::new(),
        final_speaker: None,
        has_final: false,
        max_end_ms: confirmed_ms,
    };
    let mut i: usize = 0;
    while i < response.tokens.len()
        invariant
            i <= response@.len(),
            response@.len() == response.tokens@.len(),
            acc@ == classify_prefix(mode, confirmed_ms, response@, i as int),
        decreases response.tokens@.len() - i,
    {
        let t = &response.tokens[i];
        assert(response@[i as int] == t@);
        if mode.keeps_token(t.translation_status) && !drops_marker_token(mode, &t.text) {
            if t.is_final {
                let m = match t.end_ms {
                    Some(e) => if e > acc.max_end_ms {
                        e
                    } else {
                        acc.max_end_ms
                    },
                    None => acc.max_end_ms,
                };
                let resent = match t.end_ms {
                    Some(e) => e <= confirmed_ms,
                    None => false,
                };
                acc.max_end_ms = m;
                if !resent {
                    let chars = chars_of(t.text.as_str());
                    extend_chars(&mut acc.final_text, &chars);
                    acc.final_speaker = copy_speaker(&t.speaker);
                    acc.has_final = true;
                }
            } else {
                let chars = chars_of(t.text.as_str());
                extend_chars(&mut acc.interim, &chars);
                acc.interim_speaker = copy_speaker(&t.speaker);
            }
        }
        i = i + 1;
    }
    acc
}

/// The model of the engine, the buffer of pending batches aside.
#[verifier::ext_equal]
pub struct EngineView {
    /// Committed blocks, oldest first.
    pub blocks: Seq<SubtitleView>,
    pub interim: SubtitleView,
    /// Text shown as frozen interim text and not yet confirmed by a final.
    pub history: Seq<char>,
    /// How many of the newest blocks were created speculatively from `history`.
    pub frozen: nat,
    pub last_final_ms: u64,
    pub last_interim_change_ms: u64,
    pub config: EngineConfig,
}

/// `s` without its `k` newest blocks.
pub open spec fn drop_newest(s: Seq<SubtitleView>, k: nat) -> Seq<SubtitleView> {
    if k >= s.len() {
        Seq::empty()
    } else {
        s.take(s.len() - k)
    }
}

/// Reconciles newly finalised text against the frozen history: extension,
/// absorption, or backtrack.
pub open spec fn reconcile_final(
    e: EngineView,
    text: Seq<char>,
    speaker: Option<Seq<char>>,
    now_ms: u64,
) -> EngineView {
    if e.history.is_prefix_of(text) {
        let b = commit(e.config.policy, e.blocks, speaker, text.skip(e.history.len() as int), now_ms).0;
        EngineView { blocks: b, history: Seq::empty(), frozen: 0, ..e }
    } else if text.is_prefix_of(e.history) {
        EngineView { history: e.history.skip(text.len() as int), ..e }
    } else {
        let b = commit(e.config.policy, drop_newest(e.blocks, e.frozen), speaker, text, now_ms).0;
        EngineView { blocks: b, history: Seq::empty(), frozen: 0, ..e }
    }
}

/// Commits a chunk of interim text speculatively: the history grows by the
/// chunk and the speculative count by the blocks created (saturating at the
/// largest `usize`).
pub open spec fn freeze(
    e: EngineView,
    chunk: Seq<char>,
    speaker: Option<Seq<char>>,
    now_ms: u64,
) -> EngineView {
    let (b, a) = commit(e.config.policy, e.blocks, speaker, chunk, now_ms);
    let f = if e.frozen + a <= usize::MAX {
        e.frozen + a
    } else {
        usize::MAX as nat
    };
    EngineView { blocks: b, history: e.history + chunk, frozen: f, ..e }
}

/// Undoes the speculation when the interim text no longer extends the history.
pub open spec fn resync(e: EngineView, interim: Seq<char>) -> EngineView {
    if e.history.is_prefix_of(interim) {
        e
    } else {
        EngineView { blocks: drop_newest(e.blocks, e.frozen), history: Seq::empty(), frozen: 0, ..e }
    }
}

/// Takes the interim text of a batch: freezes a finished sentence, or an
/// overlong run at a word boundary; the rest is the new live text.
pub open spec fn absorb_interim(
    e: EngineView,
    interim: Seq<char>,
    speaker: Option<Seq<char>>,
    now_ms: u64,
) -> (EngineView, Seq<char>) {
    if interim.len() == 0 {
        (e, Seq::empty())
    } else {
        let e1 = resync(e, interim);
        let eff = interim.skip(e1.history.len() as int);
        let limit = e.config.max_chars_in_block;
        match find_break(eff, 0, limit as int) {
            Some(i) => (freeze(e1, eff.take(i + 1), speaker, now_ms), eff.skip(i + 1)),
            None => if eff.len() > limit + e.config.overflow_slack {
                match find_ws_from(eff, limit as int) {
                    Some(j) => (freeze(e1, eff.take(j), speaker, now_ms), eff.skip(j)),
                    None => (e1, eff),
                }
            } else {
                (e1, eff)
            },
        }
    }
}

/// The live line after a revision: the revealed part is kept while it still
/// reads as a prefix of the new text, and restarts otherwise.
pub open spec fn revise(line: SubtitleView, speaker: Option<Seq<char>>, text: Seq<char>) -> SubtitleView {
    SubtitleView {
        speaker,
        text,
        revealed: if shown(line).is_prefix_of(text) {
            shown(line).len()
        } else {
            0
        },
        last_update_ms: line.last_update_ms,
    }
}

pub open spec fn set_interim(
    e: EngineView,
    speaker: Option<Seq<char>>,
    text: Seq<char>,
    now_ms: u64,
) -> EngineView {
    EngineView {
        interim: revise(e.interim, speaker, text),
        last_interim_change_ms: if text != e.interim.text {
            now_ms
        } else {
            e.last_interim_change_ms
        },
        ..e
    }
}

/// The effect of processing one batch.
pub open spec fn process_batch(e: EngineView, tokens: Seq<TokenView>, now_ms: u64) -> EngineView {
    let c = classify(e.config.mode, e.last_final_ms, tokens);
    let e1 = EngineView { last_final_ms: c.max_end_ms, ..e };
    let e2 = if c.has_final {
        reconcile_final(e1, c.final_text, c.final_speaker, now_ms)
    } else {
        e1
    };
    let (e3, next) = absorb_interim(e2, c.interim, c.interim_speaker, now_ms);
    set_interim(e3, c.interim_speaker, next, now_ms)
}

/// A buffered batch is due once it has waited the configured delay.
pub open spec fn due(stamp_ms: u64, now_ms: u64, delay_ms: u64) -> bool {
    (if now_ms >= stamp_ms {
        now_ms - stamp_ms
    } else {
        0
    }) >= delay_ms
}

/// Processes the due batches at the head of the buffer, in order.
pub open spec fn drain(e: EngineView, q: Seq<(u64, Seq<TokenView>)>, now_ms: u64) -> (
    EngineView,
    Seq<(u64, Seq<TokenView>)>,
)
    decreases q.len(),
{
    if q.len() > 0 && due(q[0].0, now_ms, e.config.smart_delay_ms) {
        drain(process_batch(e, q[0].1, now_ms), q.drop_first(), now_ms)
    } else {
        (e, q)
    }
}

/// Buffers a batch; a purely interim batch replaces a purely interim tail entry
/// of the same first speaker, keeping that entry's time stamp.
pub open spec fn enqueue(q: Seq<(u64, Seq<TokenView>)>, tokens: Seq<TokenView>, now_ms: u64) -> Seq<
    (u64, Seq<TokenView>),
> {
    if purely_interim(tokens) && q.len() > 0 && purely_interim(q.last().1) && first_speaker(tokens)
        == first_speaker(q.last().1) {
        q.update(q.len() - 1, (q.last().0, tokens))
    } else {
        q.push((now_ms, tokens))
    }
}

/// Where a stale live text is cut: just after its last whitespace, or at its end.
pub open spec fn stable_cut(t: Seq<char>) -> int {
    match find_ws_before(t, t.len() as int) {
        Some(j) => j + 1,
        None => t.len() as int,
    }
}

pub open spec fn is_stale(e: EngineView, now_ms: u64) -> bool {
    e.interim.text.len() > 0 && now_ms >= e.last_interim_change_ms && now_ms
        - e.last_interim_change_ms > e.config.stability_timeout_ms
}

/// Commits a live text that has not changed for longer than the stability timeout.
pub open spec fn promote(e: EngineView, now_ms: u64) -> EngineView {
    if is_stale(e, now_ms) {
        let t = e.interim.text;
        let cut = stable_cut(t);
        let e1 = freeze(e, t.take(cut), e.interim.speaker, now_ms);
        set_interim(e1, e.interim.speaker, t.skip(cut), now_ms)
    } else {
        e
    }
}

/// `k` forced reveal steps.
pub open spec fn advance_more(v: SubtitleView, now_ms: u64, k: nat) -> SubtitleView
    decreases k,
{
    if k == 0 {
        v
    } else {
        advance_more(advance(v, true, now_ms).0, now_ms, (k - 1) as nat)
    }
}

/// One tick of a block's animation: a timed step, then up to `steps - 1`
/// forced ones to catch up when several blocks lag.
pub open spec fn animate_block(v: SubtitleView, now_ms: u64, steps: nat) -> (SubtitleView, bool) {
    let (v1, c) = advance(v, false, now_ms);
    if c && steps > 1 {
        (advance_more(v1, now_ms, (steps - 1) as nat), true)
    } else {
        (v1, c)
    }
}

pub open spec fn is_pending(v: SubtitleView) -> bool {
    v.revealed < v.text.len()
}

pub open spec fn pending_blocks(s: Seq<SubtitleView>) -> nat
    decreases s.len(),
{
    if s.len() == 0 {
        0
    } else {
        pending_blocks(s.drop_last()) + if is_pending(s.last()) {
            1nat
        } else {
            0nat
        }
    }
}

/// Reveal steps per block this tick: more than one only when several blocks lag.
pub open spec fn catch_up(e: EngineView) -> nat {
    let n = pending_blocks(e.blocks) + if is_pending(e.interim) {
        1nat
    } else {
        0nat
    };
    if n <= 1 {
        1
    } else if n > MAX_CATCH_UP {
        MAX_CATCH_UP as nat
    } else {
        n
    }
}

/// The animation of one tick: committed blocks first; the live line only once
/// every committed block is fully revealed. The flag tells whether any shown text changed.
pub open spec fn animate(e: EngineView, now_ms: u64) -> (EngineView, bool) {
    let steps = catch_up(e);
    let b = Seq::new(e.blocks.len(), |i: int| animate_block(e.blocks[i], now_ms, steps).0);
    let blocks_changed = exists|i: int|
        0 <= i < e.blocks.len() && (#[trigger] animate_block(e.blocks[i], now_ms, steps)).1;
    if pending_blocks(b) == 0 {
        let (line, c) = animate_block(e.interim, now_ms, steps);
        (EngineView { blocks: b, interim: line, ..e }, blocks_changed || c)
    } else {
        (EngineView { blocks: b, ..e }, blocks_changed)
    }
}

/// What the screen shows of each rendered block: its speaker and revealed text.
pub open spec fn on_screen(e: EngineView) -> Seq<(Option<Seq<char>>, Seq<char>)> {
    rendered(e).map_values(|v: SubtitleView| (v.speaker, shown(v)))
}

/// One tick: due batches are processed, a stale live text is committed, and the
/// animation advances. The flag is true exactly when what the screen shows
/// (some rendered block's speaker or revealed text) differs afterwards.
pub open spec fn tick(e: EngineView, q: Seq<(u64, Seq<TokenView>)>, now_ms: u64) -> (
    EngineView,
    Seq<(u64, Seq<TokenView>)>,
    bool,
) {
    let (e1, q1) = drain(e, q, now_ms);
    let e2 = promote(e1, now_ms);
    let (e3, c) = animate(e2, now_ms);
    (e3, q1, on_screen(e3) != on_screen(e))
}

/// How many diagnostic events the engine keeps.
pub const DEBUG_LOG_CAPACITY: usize = 20;

/// A diagnostic record of a decision the engine took. Counts are in characters
/// or blocks.
#[derive(Clone, Copy, Debug, PartialEq, Eq, Structural)]
pub enum DebugEvent {
    FinalExtends { pushed_chars: usize },
    FinalCovered { consumed_chars: usize, remaining_chars: usize },
    FinalBacktrack { dropped_blocks: usize },
    InterimDrift { dropped_blocks: usize },
    FreezeSentence { chars: usize },
    FreezeOverflow { chars: usize },
    FreezeStale { chars: usize },
}

/// The log after one more event: the oldest goes once the log is full.
pub open spec fn logged(log: Seq<DebugEvent>, ev: DebugEvent) -> Seq<DebugEvent> {
    if log.len() >= DEBUG_LOG_CAPACITY {
        log.drop_first().push(ev)
    } else {
        log.push(ev)
    }
}

pub struct TranscriptionState {
    finishes_lines: Vec<AudioSubtitle>,
    interim_line: AudioSubtitle,
    config: EngineConfig,
    frozen_interim_history: Vec<char>,
    frozen_blocks_count: usize,
    last_final_ms: u64,
    last_interim_change_ms: u64,
    event_queue: Vec<(u64, SonioxTranscriptionResponse)>,
    debug_log: Vec<DebugEvent>,
}

impl View for TranscriptionState {
    type V = EngineView;

    closed spec fn view(&self) -> EngineView {
        EngineView {
            blocks: views(self.finishes_lines@),
            interim: self.interim_line@,
            history: self.frozen_interim_history@,
            frozen: self.frozen_blocks_count as nat,
            last_final_ms: self.last_final_ms,
            last_interim_change_ms: self.last_interim_change_ms,
            config: self.config,
        }
    }
}

/// The invariant of the engine.
pub open spec fn engine_wf(e: EngineView) -> bool {
    &&& e.config.policy.max_lines > 0
    &&& e.blocks.len() < e.config.policy.max_lines
    &&& e.frozen <= usize::MAX
    &&& forall|i: int| 0 <= i < e.blocks.len() ==> (#[trigger] e.blocks[i]).revealed
        <= e.blocks[i].text.len()
    &&& e.interim.revealed <= e.interim.text.len()
}

pub open spec fn blocks_wf(s: Seq<SubtitleView>) -> bool {
    forall|i: int| 0 <= i < s.len() ==> (#[trigger] s[i]).revealed <= s[i].text.len()
}

/// Committing keeps every block's revealed prefix within its text.
pub proof fn lemma_commit_wf(
    p: BlockPolicy,
    blocks: Seq<SubtitleView>,
    speaker: Option<Seq<char>>,
    text: Seq<char>,
    now_ms: u64,
)
    requires
        blocks_wf(blocks),
    ensures
        blocks_wf(commit(p, blocks, speaker, text, now_ms).0),
    decreases text.len(),
{
    if text.len() > 0 {
        let (chunk, rest) = crate::blocks::next_chunk(text);
        let (b1, a) = crate::blocks::place_chunk(p, blocks, speaker, chunk, now_ms);
        assert(blocks_wf(b1)) by {
            if blocks.len() > 0 && !crate::blocks::starts_new_block(p, blocks.last(), speaker, chunk) {
                let last = blocks.last();
                assert(crate::blocks::joined(last.text, chunk).len() >= last.text.len());
            } else {
                let grown = blocks.push(
                    SubtitleView { speaker, text: chunk, revealed: 0, last_update_ms: now_ms },
                );
                assert(blocks_wf(grown));
                if grown.len() >= p.max_lines && grown.len() > 0 {
                    assert(blocks_wf(grown.drop_first()));
                }
            }
        }
        if rest.len() < text.len() {
            lemma_commit_wf(p, b1, speaker, rest, now_ms);
        }
    }
}

pub proof fn lemma_drop_newest(s: Seq<SubtitleView>, k: nat)
    ensures
        blocks_wf(s) ==> blocks_wf(drop_newest(s, k)),
        drop_newest(s, k).len() <= s.len(),
        k <= s.len() ==> drop_newest(s, k).len() == s.len() - k,
{
}

impl TranscriptionState {
    /// The buffered batches, oldest first, with the time each was queued.
    pub closed spec fn queue(&self) -> Seq<(u64, Seq<TokenView>)> {
        self.event_queue@.map_values(|p: (u64, SonioxTranscriptionResponse)| (p.0, p.1@))
    }

    /// A fresh engine. The line budget counts the live line, so it must be positive.
    pub fn new(max_lines: usize, max_chars_in_block: usize, mode: SonioxMode) -> (r: Self)
        requires
            max_lines > 0,
        ensures
            engine_wf(r@),
            r@.blocks.len() == 0,
            r@.interim == AudioSubtitle::default_view(),
            r@.history.len() == 0,
            r@.frozen == 0,
            r@.last_final_ms == 0,
            r@.last_interim_change_ms == 0,
            r@.config == (EngineConfig {
                policy: BlockPolicy {
                    max_lines,
                    block_ceiling: DEFAULT_BLOCK_CEILING,
                    split_on_speaker_change: false,
                },
                max_chars_in_block,
                overflow_slack: DEFAULT_OVERFLOW_SLACK,
                smart_delay_ms: 0,
                stability_timeout_ms: DEFAULT_STABILITY_TIMEOUT_MS,
                show_interim: true,
                mode,
            }),
            r.queue().len() == 0,
    {
        let r = TranscriptionState {
            finishes_lines: Vec::new(),
            interim_line: AudioSubtitle::default(),
            config: EngineConfig {
                policy: BlockPolicy {
                    max_lines,
                    block_ceiling: DEFAULT_BLOCK_CEILING,
                    split_on_speaker_change: false,
                },
                max_chars_in_block,
                overflow_slack: DEFAULT_OVERFLOW_SLACK,
                smart_delay_ms: 0,
                stability_timeout_ms: DEFAULT_STABILITY_TIMEOUT_MS,
                show_interim: true,
                mode,
            },
            frozen_interim_history: Vec::new(),
            frozen_blocks_count: 0,
            last_final_ms: 0,
            last_interim_change_ms: 0,
            event_queue: Vec::new(),
            debug_log: Vec::new(),
        };
        assert(r@.blocks =~= Seq::<SubtitleView>::empty());
        assert(r.queue() =~= Seq::<(u64, Seq<TokenView>)>::empty());
        r
    }

    /// The diagnostic events, oldest first.
    pub closed spec fn debug_events(&self) -> Seq<DebugEvent> {
        self.debug_log@
    }

    /// Records a diagnostic event.
    fn log_debug(&mut self, ev: DebugEvent)
        ensures
            final(self)@ == old(self)@,
            final(self).queue() == old(self).queue(),
            final(self).debug_events() == logged(old(self).debug_events(), ev),
    {
        if self.debug_log.len() >= DEBUG_LOG_CAPACITY {
            let ghost log = self.debug_log@;
            self.debug_log.remove(0);
            assert(self.debug_log@ =~= log.drop_first());
        }
        self.debug_log.push(ev);
    }

    /// The diagnostic events, oldest first.
    pub fn get_debug_log(&self) -> (r: Vec<DebugEvent>)
        ensures
            r@ == self.debug_events(),
    {
        let mut r: Vec<DebugEvent> = Vec::new();
        let mut i: usize = 0;
        while i < self.debug_log.len()
            invariant
                i <= self.debug_log@.len(),
                r@ == self.debug_log@.take(i as int),
            decreases self.debug_log@.len() - i,
        {
            r.push(self.debug_log[i]);
            i = i + 1;
            assert(r@ =~= self.debug_log@.take(i as int));
        }
        assert(self.debug_log@.take(i as int) =~= self.debug_log@);
        r
    }

    /// Drops the speculative blocks and forgets the frozen history.
    fn backtrack(&mut self)
        requires
            engine_wf(old(self)@),
        ensures
            final(self)@ == (EngineView {
                blocks: drop_newest(old(self)@.blocks, old(self)@.frozen),
                history: Seq::empty(),
                frozen: 0,
                ..old(self)@
            }),
            engine_wf(final(self)@),
            final(self).queue() == old(self).queue(),
    {
        let n = self.finishes_lines.len();
        let k = self.frozen_blocks_count;
        let ghost before = self@;
        let keep = if k <= n {
            n - k
        } else {
            0
        };
        self.finishes_lines.truncate(keep);
        self.frozen_blocks_count = 0;
        self.frozen_interim_history = Vec::new();
        proof {
            lemma_drop_newest(before.blocks, before.frozen);
        }
        assert(self@.blocks =~= drop_newest(before.blocks, before.frozen));
        assert(self@ =~= EngineView {
            blocks: drop_newest(before.blocks, before.frozen),
            history: Seq::empty(),
            frozen: 0,
            ..before
        });
    }

    /// Commits text to the blocks; returns the number of new blocks.
    fn push_final(&mut self, speaker: &Option<String>, text: Vec<char>, now_ms: u64) -> (added: usize)
        requires
            engine_wf(old(self)@),
        ensures
            (final(self)@.blocks, added as nat) == commit(
                old(self)@.config.policy,
                old(self)@.blocks,
                opt_view(*speaker),
                text@,
                now_ms,
            ),
            final(self)@ == (EngineView { blocks: final(self)@.blocks, ..old(self)@ }),
            final(self)@.blocks.len() < final(self)@.config.policy.max_lines,
            blocks_wf(final(self)@.blocks),
            final(self).queue() == old(self).queue(),
    {
        let ghost before = self@;
        proof {
            lemma_commit_wf(before.config.policy, before.blocks, opt_view(*speaker), text@, now_ms);
        }
        let added = commit_text(&mut self.finishes_lines, &self.config.policy, speaker, text, now_ms);
        assert(self@ =~= EngineView { blocks: self@.blocks, ..before });
        added
    }
}

impl TranscriptionState {
    /// Reconciles a final segment against the frozen history.
    fn reconcile(&mut self, text: Vec<char>, speaker: &Option<String>, now_ms: u64)
        requires
            engine_wf(old(self)@),
        ensures
            final(self)@ == reconcile_final(old(self)@, text@, opt_view(*speaker), now_ms),
            engine_wf(final(self)@),
            final(self).queue() == old(self).queue(),
    {
        let ghost e = self@;
        if starts_with(&text, &self.frozen_interim_history) {
            let suffix = slice_chars(&text, self.frozen_interim_history.len(), text.len());
            assert(suffix@ =~= text@.skip(e.history.len() as int));
            self.log_debug(DebugEvent::FinalExtends { pushed_chars: suffix.len() });
            self.push_final(speaker, suffix, now_ms);
            self.frozen_blocks_count = 0;
            self.frozen_interim_history = Vec::new();
            assert(self@ =~= reconcile_final(e, text@, opt_view(*speaker), now_ms));
        } else if starts_with(&self.frozen_interim_history, &text) {
            let rest = slice_chars(
                &self.frozen_interim_history,
                text.len(),
                self.frozen_interim_history.len(),
            );
            assert(rest@ =~= e.history.skip(text@.len() as int));
            self.log_debug(
                DebugEvent::FinalCovered { consumed_chars: text.len(), remaining_chars: rest.len() },
            );
            self.frozen_interim_history = rest;
            assert(self@ =~= reconcile_final(e, text@, opt_view(*speaker), now_ms));
        } else {
            self.log_debug(DebugEvent::FinalBacktrack { dropped_blocks: self.frozen_blocks_count });
            self.backtrack();
            self.push_final(speaker, text, now_ms);
            assert(self@ =~= reconcile_final(e, text@, opt_view(*speaker), now_ms));
        }
    }

    /// Commits a chunk of interim text speculatively.
    fn freeze_chunk(&mut self, chunk: Vec<char>, speaker: &Option<String>, now_ms: u64)
        requires
            engine_wf(old(self)@),
        ensures
            final(self)@ == freeze(old(self)@, chunk@, opt_view(*speaker), now_ms),
            engine_wf(final(self)@),
            final(self).queue() == old(self).queue(),
    {
        let ghost e = self@;
        extend_chars(&mut self.frozen_interim_history, &chunk);
        let ghost chunk_view = chunk@;
        let added = self.push_final(speaker, chunk, now_ms);
        if added <= usize::MAX - self.frozen_blocks_count {
            self.frozen_blocks_count = self.frozen_blocks_count + added;
        } else {
            self.frozen_blocks_count = usize::MAX;
        }
        assert(self@ =~= freeze(e, chunk_view, opt_view(*speaker), now_ms));
    }

    /// Takes the interim text of a batch; returns the new live text.
    fn absorb(&mut self, interim: Vec<char>, speaker: &Option<String>, now_ms: u64) -> (next: Vec<
        char,
    >)
        requires
            engine_wf(old(self)@),
        ensures
            (final(self)@, next@) == absorb_interim(
                old(self)@,
                interim@,
                opt_view(*speaker),
                now_ms,
            ),
            engine_wf(final(self)@),
            final(self).queue() == old(self).queue(),
    {
        if interim.len() == 0 {
            return Vec::new();
        }
        let ghost e = self@;
        if !starts_with(&interim, &self.frozen_interim_history) {
            self.log_debug(DebugEvent::InterimDrift { dropped_blocks: self.frozen_blocks_count });
            self.backtrack();
        }
        let ghost e1 = self@;
        assert(e1 == resync(e, interim@));
        let eff = slice_chars(&interim, self.frozen_interim_history.len(), interim.len());
        assert(eff@ =~= interim@.skip(e1.history.len() as int));
        let limit = self.config.max_chars_in_block;
        let len = eff.len();
        match first_break(&eff, limit) {
            Some(i) => {
                let chunk = slice_chars(&eff, 0, i + 1);
                let rest = slice_chars(&eff, i + 1, len);
                assert(chunk@ =~= eff@.take(i + 1));
                assert(rest@ =~= eff@.skip(i + 1));
                self.log_debug(DebugEvent::FreezeSentence { chars: chunk.len() });
                self.freeze_chunk(chunk, speaker, now_ms);
                rest
            },
            None => {
                if len > limit && len - limit > self.config.overflow_slack {
                    match first_ws_from(&eff, limit) {
                        Some(j) => {
                            let chunk = slice_chars(&eff, 0, j);
                            let rest = slice_chars(&eff, j, len);
                            assert(chunk@ =~= eff@.take(j as int));
                            assert(rest@ =~= eff@.skip(j as int));
                            self.log_debug(DebugEvent::FreezeOverflow { chars: chunk.len() });
                            self.freeze_chunk(chunk, speaker, now_ms);
                            rest
                        },
                        None => eff,
                    }
                } else {
                    eff
                }
            },
        }
    }

    /// Replaces the live text, keeping its revealed part while that still reads as a prefix.
    fn update_interim(&mut self, speaker: Option<String>, text: Vec<char>, now_ms: u64)
        requires
            engine_wf(old(self)@),
        ensures
            final(self)@ == set_interim(old(self)@, opt_view(speaker), text@, now_ms),
            engine_wf(final(self)@),
            final(self).queue() == old(self).queue(),
    {
        let ghost e = self@;
        let ghost line = e.interim;
        let shown_len = self.interim_line.revealed;
        let part = slice_chars(&self.interim_line.text, 0, shown_len);
        assert(part@ =~= shown(line));
        let keep = starts_with(&text, &part);
        let changed = !(text.len() == self.interim_line.text.len() && starts_with(
            &text,
            &self.interim_line.text,
        ));
        proof {
            if !changed {
                assert(text@ =~= line.text);
            } else if text@.len() == line.text.len() {
                assert(text@ != line.text);
            }
        }
        if changed {
            self.last_interim_change_ms = now_ms;
        }
        self.interim_line.speaker = speaker;
        self.interim_line.text = text;
        self.interim_line.revealed = if keep {
            shown_len
        } else {
            0
        };
        assert(self@ =~= set_interim(e, opt_view(speaker), text@, now_ms));
    }

    /// Processes one batch: classification, reconciliation of its final text,
    /// freezing of its interim text, and the new live line.
    pub fn process_transcription_event(&mut self, response: SonioxTranscriptionResponse, now_ms: u64)
        requires
            engine_wf(old(self)@),
        ensures
            final(self)@ == process_batch(old(self)@, response@, now_ms),
            engine_wf(final(self)@),
            final(self).queue() == old(self).queue(),
    {
        let ghost e = self@;
        let c = classify_batch(self.config.mode, self.last_final_ms, &response);
        self.last_final_ms = c.max_end_ms;
        let Classified { interim, interim_speaker, final_text, final_speaker, has_final, .. } = c;
        if has_final {
            self.reconcile(final_text, &final_speaker, now_ms);
        }
        let next = self.absorb(interim, &interim_speaker, now_ms);
        self.update_interim(interim_speaker, next, now_ms);
    }
}

/// Forced steps keep the revealed prefix within the text.
pub proof fn lemma_advance_more_wf(v: SubtitleView, now_ms: u64, k: nat)
    requires
        v.revealed <= v.text.len(),
    ensures
        advance_more(v, now_ms, k).revealed <= v.text.len(),
        advance_more(v, now_ms, k).text == v.text,
        advance_more(v, now_ms, k).speaker == v.speaker,
    decreases k,
{
    if k > 0 {
        lemma_advance_more_wf(advance(v, true, now_ms).0, now_ms, (k - 1) as nat);
    }
}

/// Advances one block by one tick, as `animate_block` says.
fn animate_one(b: &mut AudioSubtitle, now_ms: u64, steps: usize) -> (changed: bool)
    ensures
        (final(b)@, changed) == animate_block(old(b)@, now_ms, steps as nat),
{
    let c = b.update_animation(false, now_ms);
    if c && steps > 1 {
        let ghost v1 = b@;
        let mut k: usize = 1;
        while k < steps
            invariant
                1 <= k <= steps,
                advance_more(v1, now_ms, (steps - 1) as nat) == advance_more(
                    b@,
                    now_ms,
                    (steps - k) as nat,
                ),
            decreases steps - k,
        {
            b.update_animation(true, now_ms);
            k = k + 1;
        }
    }
    c
}

/// The number of blocks with text still to reveal.
fn count_pending(blocks: &Vec<AudioSubtitle>) -> (n: usize)
    ensures
        n == pending_blocks(views(blocks@)),
        n <= blocks@.len(),
{
    let mut n: usize = 0;
    let mut i: usize = 0;
    while i < blocks.len()
        invariant
            i <= blocks@.len(),
            n <= i,
            n == pending_blocks(views(blocks@).take(i as int)),
        decreases blocks@.len() - i,
    {
        let ghost before = views(blocks@).take(i as int);
        assert(views(blocks@).take(i + 1).drop_last() =~= before);
        if blocks[i].is_pending() {
            n = n + 1;
        }
        i = i + 1;
    }
    assert(views(blocks@).take(i as int) =~= views(blocks@));
    n
}

/// Whether the first tokens of two batches (if any) have the same speaker.
fn same_first_speaker(a: &SonioxTranscriptionResponse, b: &SonioxTranscriptionResponse) -> (r: bool)
    ensures
        r == (first_speaker(a@) == first_speaker(b@)),
{
    if a.tokens.len() == 0 || b.tokens.len() == 0 {
        return a.tokens.len() == b.tokens.len();
    }
    assert(a@[0] == a.tokens@[0]@);
    assert(b@[0] == b.tokens@[0]@);
    same_speaker(&a.tokens[0].speaker, &b.tokens[0].speaker)
}

impl TranscriptionState {
    /// Buffers a batch for the next ticks; see `enqueue`.
    pub fn handle_transcription(&mut self, response: SonioxTranscriptionResponse, now_ms: u64)
        ensures
            final(self)@ == old(self)@,
            final(self).queue() == enqueue(old(self).queue(), response@, now_ms),
    {
        let ghost q = self.queue();
        let n = self.event_queue.len();
        if n > 0 && response.is_purely_interim() && self.event_queue[n - 1].1.is_purely_interim()
            && same_first_speaker(&response, &self.event_queue[n - 1].1) {
            let (stamp, _) = self.event_queue.pop().unwrap();
            let ghost resp_view = response@;
            self.event_queue.push((stamp, response));
            assert(self.queue() =~= q.update(n - 1, (q.last().0, resp_view)));
            return ;
        }
        let ghost resp_view = response@;
        self.event_queue.push((now_ms, response));
        assert(self.queue() =~= q.push((now_ms, resp_view)));
    }

    /// Processes the due batches at the head of the buffer; true when any was.
    pub fn process_pending_events(&mut self, now_ms: u64) -> (processed: bool)
        requires
            engine_wf(old(self)@),
        ensures
            (final(self)@, final(self).queue()) == drain(old(self)@, old(self).queue(), now_ms),
            processed == (final(self).queue().len() < old(self).queue().len()),
            engine_wf(final(self)@),
    {
        let ghost goal = drain(self@, self.queue(), now_ms);
        let ghost start = self.queue().len();
        let mut processed = false;
        loop
            invariant
                engine_wf(self@),
                drain(self@, self.queue(), now_ms) == goal,
                self.queue().len() <= start,
                processed == (self.queue().len() < start),
            ensures
                (self@, self.queue()) == goal,
                processed == (self.queue().len() < start),
            decreases self.queue().len(),
        {
            if self.event_queue.len() == 0 {
                break ;
            }
            let stamp = self.event_queue[0].0;
            let waited = if now_ms >= stamp {
                now_ms - stamp
            } else {
                0
            };
            if waited < self.config.smart_delay_ms {
                break ;
            }
            let ghost q = self.queue();
            let (_, response) = self.event_queue.remove(0);
            assert(self.queue() =~= q.drop_first());
            self.process_transcription_event(response, now_ms);
            processed = true;
        }
        processed
    }

    /// Commits the live text if it has stayed unchanged past the stability timeout.
    pub fn promote_stale_interim(&mut self, now_ms: u64) -> (promoted: bool)
        requires
            engine_wf(old(self)@),
        ensures
            final(self)@ == promote(old(self)@, now_ms),
            promoted == is_stale(old(self)@, now_ms),
            engine_wf(final(self)@),
            final(self).queue() == old(self).queue(),
    {
        let len = self.interim_line.text.len();
        let stale = len > 0 && now_ms >= self.last_interim_change_ms && now_ms
            - self.last_interim_change_ms > self.config.stability_timeout_ms;
        if !stale {
            return false;
        }
        let ghost e = self@;
        let t = copy_chars(&self.interim_line.text);
        let cut = match last_ws(&t) {
            Some(j) => j + 1,
            None => len,
        };
        let chunk = slice_chars(&t, 0, cut);
        let rest = slice_chars(&t, cut, len);
        assert(chunk@ =~= t@.take(cut as int));
        assert(rest@ =~= t@.skip(cut as int));
        let speaker = copy_speaker(&self.interim_line.speaker);
        self.log_debug(DebugEvent::FreezeStale { chars: chunk.len() });
        self.freeze_chunk(chunk, &speaker, now_ms);
        self.update_interim(speaker, rest, now_ms);
        true
    }

    /// Advances the reveal animation by one tick; see `animate`.
    fn animate_all(&mut self, now_ms: u64) -> (changed: bool)
        requires
            engine_wf(old(self)@),
        ensures
            (final(self)@, changed) == animate(old(self)@, now_ms),
            engine_wf(final(self)@),
            final(self).queue() == old(self).queue(),
    {
        let ghost e = self@;
        let pending = count_pending(&self.finishes_lines) + if self.interim_line.is_pending() {
            1usize
        } else {
            0usize
        };
        let steps: usize = if pending <= 1 {
            1
        } else if pending > MAX_CATCH_UP {
            MAX_CATCH_UP
        } else {
            pending
        };
        assert(steps as nat == catch_up(e));
        let ghost target = Seq::new(
            e.blocks.len(),
            |i: int| animate_block(e.blocks[i], now_ms, steps as nat).0,
        );
        let mut changed = false;
        let mut i: usize = 0;
        let n = self.finishes_lines.len();
        while i < n
            invariant
                n == self.finishes_lines@.len(),
                n == e.blocks.len(),
                target.len() == n,
                forall|j: int| 0 <= j < n ==> (#[trigger] target[j]) == animate_block(
                    e.blocks[j],
                    now_ms,
                    steps as nat,
                ).0,
                i <= n,
                self@ == (EngineView { blocks: self@.blocks, ..e }),
                self.queue() == old(self).queue(),
                forall|j: int| 0 <= j < i ==> self@.blocks[j] == target[j],
                forall|j: int| i <= j < n ==> self@.blocks[j] == e.blocks[j],
                changed == exists|j: int|
                    0 <= j < i && (#[trigger] animate_block(e.blocks[j], now_ms, steps as nat)).1,
            decreases n - i,
        {
            let mut b = AudioSubtitle { speaker: None, text: Vec::new(), revealed: 0, last_update_ms: 0 };
            self.finishes_lines.set_and_swap(i, &mut b);
            assert(b@ == e.blocks[i as int]);
            let c = animate_one(&mut b, now_ms, steps);
            let ghost animated = b@;
            self.finishes_lines.set_and_swap(i, &mut b);
            assert(self.finishes_lines@[i as int]@ == animated);
            assert(c == animate_block(e.blocks[i as int], now_ms, steps as nat).1);
            if c {
                changed = true;
            }
            assert(self@.blocks[i as int] == target[i as int]);
            assert(self@ =~= EngineView { blocks: self@.blocks, ..e });
            i = i + 1;
        }
        assert(self@.blocks =~= target);
        proof {
            assert forall|j: int| 0 <= j < n implies (#[trigger] target[j]).revealed
                <= target[j].text.len() by {
                let v = e.blocks[j];
                let (v1, c) = advance(v, false, now_ms);
                if c && steps > 1 {
                    lemma_advance_more_wf(v1, now_ms, (steps - 1) as nat);
                }
            }
        }
        if count_pending(&self.finishes_lines) == 0 {
            let c = animate_one(&mut self.interim_line, now_ms, steps);
            proof {
                let (v1, c1) = advance(e.interim, false, now_ms);
                if c1 && steps > 1 {
                    lemma_advance_more_wf(v1, now_ms, (steps - 1) as nat);
                }
            }
            if c {
                changed = true;
            }
        }
        changed
    }

    /// One tick of the engine; see `tick`. True when anything visible changed.
    pub fn update_animation(&mut self, now_ms: u64) -> (changed: bool)
        requires
            engine_wf(old(self)@),
        ensures
            (final(self)@, final(self).queue(), changed) == tick(old(self)@, old(self).queue(), now_ms),
            engine_wf(final(self)@),
            final(self)@.blocks.len() < final(self)@.config.policy.max_lines,
    {
        let before = self.snapshot();
        self.process_pending_events(now_ms);
        self.promote_stale_interim(now_ms);
        self.animate_all(now_ms);
        let after = self.snapshot();
        !same_snapshot(&before, &after)
    }

    /// What the screen shows now, block by block.
    fn snapshot(&self) -> (r: Vec<ShownLine>)
        ensures
            shown_views(r@) == on_screen(self@),
    {
        let mut r: Vec<ShownLine> = Vec::new();
        let mut i: usize = 0;
        while i < self.finishes_lines.len()
            invariant
                i <= self.finishes_lines@.len(),
                shown_views(r@) == on_screen(self@).take(i as int),
            decreases self.finishes_lines@.len() - i,
        {
            let ghost before = shown_views(r@);
            let line = shown_line(&self.finishes_lines[i]);
            r.push(line);
            assert(shown_views(r@) =~= before.push(shown_views(r@).last()));
            assert(on_screen(self@).take(i + 1) =~= on_screen(self@).take(i as int).push(
                on_screen(self@)[i as int],
            ));
            i = i + 1;
            assert(shown_views(r@) =~= on_screen(self@).take(i as int));
        }
        if self.config.show_interim {
            let ghost before = shown_views(r@);
            r.push(shown_line(&self.interim_line));
            assert(shown_views(r@) =~= before.push(shown_views(r@).last()));
        }
        assert(shown_views(r@) =~= on_screen(self@));
        r
    }
}

/// What is rendered, in order: committed blocks oldest first, then the live line
/// when it is shown.
pub open spec fn rendered(e: EngineView) -> Seq<SubtitleView> {
    if e.config.show_interim {
        e.blocks.push(e.interim)
    } else {
        e.blocks
    }
}

impl TranscriptionState {
    /// Copies of the blocks to render, in order; see `rendered`.
    pub fn iter(&self) -> (r: Vec<AudioSubtitle>)
        ensures
            views(r@) == rendered(self@),
    {
        let mut r: Vec<AudioSubtitle> = Vec::new();
        let mut i: usize = 0;
        while i < self.finishes_lines.len()
            invariant
                i <= self.finishes_lines@.len(),
                views(r@) == views(self.finishes_lines@).take(i as int),
            decreases self.finishes_lines@.len() - i,
        {
            let ghost before = views(r@);
            let d = self.finishes_lines[i].duplicate();
            assert(d@ == views(self.finishes_lines@)[i as int]);
            r.push(d);
            assert(views(r@) =~= before.push(d@));
            assert(views(self.finishes_lines@).take(i + 1) =~= views(self.finishes_lines@).take(
                i as int,
            ).push(d@));
            i = i + 1;
        }
        assert(views(self.finishes_lines@).take(i as int) =~= self@.blocks);
        if self.config.show_interim {
            let ghost before = views(r@);
            r.push(self.interim_line.duplicate());
            assert(views(r@) =~= before.push(self@.interim));
        }
        r
    }

    /// The length, in characters, of the newest committed block (0 if there is none).
    pub fn get_active_char_count(&self) -> (r: usize)
        ensures
            r == (if self@.blocks.len() > 0 {
                self@.blocks.last().text.len()
            } else {
                0
            }),
    {
        let n = self.finishes_lines.len();
        if n > 0 {
            self.finishes_lines[n - 1].text.len()
        } else {
            0
        }
    }

    /// The number of committed blocks.
    pub fn get_frozen_block_count(&self) -> (r: usize)
        ensures
            r == self@.blocks.len(),
    {
        self.finishes_lines.len()
    }

    /// The number of newest blocks that are still speculative.
    pub fn speculative_block_count(&self) -> (r: usize)
        ensures
            r == self@.frozen,
    {
        self.frozen_blocks_count
    }

    /// The frozen interim text not yet confirmed by a final.
    pub fn frozen_history(&self) -> (r: String)
        ensures
            r@ == self@.history,
    {
        crate::text::string_of(&self.frozen_interim_history)
    }

    /// The live line.
    pub fn interim(&self) -> (r: AudioSubtitle)
        ensures
            r@ == self@.interim,
    {
        self.interim_line.duplicate()
    }

    /// The number of buffered batches.
    pub fn pending_event_count(&self) -> (r: usize)
        ensures
            r == self.queue().len(),
    {
        self.event_queue.len()
    }

    pub fn get_max_chars(&self) -> (r: usize)
        ensures
            r == self@.config.max_chars_in_block,
    {
        self.config.max_chars_in_block
    }

    /// Sets the character budget of a line, as the layout reports it.
    pub fn set_max_chars(&mut self, max_chars: usize)
        ensures
            final(self)@ == (EngineView {
                config: EngineConfig { max_chars_in_block: max_chars, ..old(self)@.config },
                ..old(self)@
            }),
            final(self).queue() == old(self).queue(),
    {
        self.config.max_chars_in_block = max_chars;
    }

    /// Sets how long a buffered batch waits before it is processed.
    pub fn set_smart_delay(&mut self, delay_ms: u64)
        ensures
            final(self)@ == (EngineView {
                config: EngineConfig { smart_delay_ms: delay_ms, ..old(self)@.config },
                ..old(self)@
            }),
            final(self).queue() == old(self).queue(),
    {
        self.config.smart_delay_ms = delay_ms;
    }

    /// Sets whether the live line is rendered, and the stability timeout.
    pub fn set_stability_params(&mut self, show_interim: bool, stability_timeout_ms: u64)
        ensures
            final(self)@ == (EngineView {
                config: EngineConfig { show_interim, stability_timeout_ms, ..old(self)@.config },
                ..old(self)@
            }),
            final(self).queue() == old(self).queue(),
    {
        self.config.show_interim = show_interim;
        self.config.stability_timeout_ms = stability_timeout_ms;
    }

    /// Sets the block ceiling and the slack over the line budget before interim text is frozen.
    pub fn set_overflow_params(&mut self, block_ceiling: usize, overflow_slack: usize)
        ensures
            final(self)@ == (EngineView {
                config: EngineConfig {
                    policy: BlockPolicy { block_ceiling, ..old(self)@.config.policy },
                    overflow_slack,
                    ..old(self)@.config
                },
                ..old(self)@
            }),
            final(self).queue() == old(self).queue(),
    {
        self.config.policy.block_ceiling = block_ceiling;
        self.config.overflow_slack = overflow_slack;
    }

    /// Sets whether a change of speaker starts a new block.
    pub fn set_split_on_speaker_change(&mut self, split: bool)
        ensures
            final(self)@ == (EngineView {
                config: EngineConfig {
                    policy: BlockPolicy { split_on_speaker_change: split, ..old(self)@.config.policy },
                    ..old(self)@.config
                },
                ..old(self)@
            }),
            final(self).queue() == old(self).queue(),
    {
        self.config.policy.split_on_speaker_change = split;
    }
}

/// The speaker and revealed text of one rendered block.
pub struct ShownLine {
    pub speaker: Option<String>,
    pub shown: Vec<char>,
}

pub open spec fn shown_views(v: Seq<ShownLine>) -> Seq<(Option<Seq<char>>, Seq<char>)> {
    v.map_values(|l: ShownLine| (opt_view(l.speaker), l.shown@))
}

/// What the screen shows of one block.
fn shown_line(b: &AudioSubtitle) -> (r: ShownLine)
    ensures
        (opt_view(r.speaker), r.shown@) == (b@.speaker, shown(b@)),
{
    let n = if b.revealed <= b.text.len() {
        b.revealed
    } else {
        b.text.len()
    };
    let part = slice_chars(&b.text, 0, n);
    proof {
        if b.revealed > b.text.len() {
            assert(b.text@.subrange(0, n as int) =~= b.text@);
        }
    }
    ShownLine { speaker: copy_speaker(&b.speaker), shown: part }
}

/// Whether two character sequences are equal.
fn same_chars(a: &Vec<char>, b: &Vec<char>) -> (r: bool)
    ensures
        r == (a@ == b@),
{
    let r = a.len() == b.len() && starts_with(a, b);
    proof {
        if a@.len() == b@.len() && b@.is_prefix_of(a@) {
            assert(a@ =~= b@);
        }
    }
    r
}

/// Whether two snapshots show the same thing.
fn same_snapshot(a: &Vec<ShownLine>, b: &Vec<ShownLine>) -> (r: bool)
    ensures
        r == (shown_views(a@) == shown_views(b@)),
{
    if a.len() != b.len() {
        assert(shown_views(a@).len() != shown_views(b@).len());
        return false;
    }
    let mut i: usize = 0;
    while i < a.len()
        invariant
            a@.len() == b@.len(),
            i <= a@.len(),
            forall|k: int| 0 <= k < i ==> shown_views(a@)[k] == shown_views(b@)[k],
        decreases a@.len() - i,
    {
        if !same_speaker(&a[i].speaker, &b[i].speaker) || !same_chars(&a[i].shown, &b[i].shown) {
            assert(shown_views(a@)[i as int] != shown_views(b@)[i as int]);
            return false;
        }
        i = i + 1;
    }
    assert(shown_views(a@) =~= shown_views(b@));
    true
}

} // verus!
