//! The block manager: commits text to the bounded list of display blocks,
//! one sentence per block where possible, merging into the newest block otherwise.
use vstd::prelude::*;
use crate::text::{
    ends_sentence, ends_with_ws, extend_chars, find_break, first_break, is_whitespace, slice_chars,
    starts_with_ws, text_ends_sentence,
};
use crate::subtitle::{copy_speaker, opt_view, same_speaker, AudioSubtitle, SubtitleView};

verus! {

/// Chunks of at most this many characters are glued to the newest block
/// without a separator: they are taken for a split syllable or a mark.
pub const FRAGMENT_MAX_CHARS: usize = 2;

/// How the block manager decides between merging and starting a new block.
#[derive(Clone, Copy)]
pub struct BlockPolicy {
    /// Lines on screen, the live line included: at most `max_lines - 1` blocks are kept.
    pub max_lines: usize,
    /// A block longer than this is closed at the next join that is not mid-word.
    pub block_ceiling: usize,
    /// Whether a change of speaker starts a new block.
    pub split_on_speaker_change: bool,
}

pub open spec fn views(v: Seq<AudioSubtitle>) -> Seq<SubtitleView> {
    v.map_values(|b: AudioSubtitle| b@)
}

/// A separator goes between the newest block and a chunk when neither side
/// has whitespace at the join and the chunk is more than a fragment.
pub open spec fn needs_separator(prev: Seq<char>, chunk: Seq<char>) -> bool {
    prev.len() > 0 && !ends_with_ws(prev) && !starts_with_ws(chunk) && chunk.len()
        > FRAGMENT_MAX_CHARS
}

pub open spec fn joined(prev: Seq<char>, chunk: Seq<char>) -> Seq<char> {
    if needs_separator(prev, chunk) {
        prev + seq![' '] + chunk
    } else {
        prev + chunk
    }
}

/// The join point lies inside a word.
pub open spec fn mid_word(prev: Seq<char>, chunk: Seq<char>) -> bool {
    prev.len() > 0 && !ends_with_ws(prev) && chunk.len() > 0 && !starts_with_ws(chunk)
}

pub open spec fn starts_new_block(
    p: BlockPolicy,
    last: SubtitleView,
    speaker: Option<Seq<char>>,
    chunk: Seq<char>,
) -> bool {
    ||| ends_sentence(last.text)
    ||| (last.text.len() > p.block_ceiling && !mid_word(last.text, chunk))
    ||| (p.split_on_speaker_change && last.speaker != speaker)
}

/// Drops the oldest block once the list has reached the line budget.
pub open spec fn evict(p: BlockPolicy, s: Seq<SubtitleView>) -> Seq<SubtitleView> {
    if s.len() >= p.max_lines && s.len() > 0 {
        s.drop_first()
    } else {
        s
    }
}

/// Places one chunk: merged into the newest block, or as a new block.
/// The count is the number of new blocks.
pub open spec fn place_chunk(
    p: BlockPolicy,
    blocks: Seq<SubtitleView>,
    speaker: Option<Seq<char>>,
    chunk: Seq<char>,
    now_ms: u64,
) -> (Seq<SubtitleView>, nat) {
    if blocks.len() > 0 && !starts_new_block(p, blocks.last(), speaker, chunk) {
        let last = blocks.last();
        (blocks.update(blocks.len() - 1, SubtitleView { text: joined(last.text, chunk), ..last }), 0)
    } else {
        let fresh = SubtitleView { speaker, text: chunk, revealed: 0, last_update_ms: now_ms };
        (evict(p, blocks.push(fresh)), 1)
    }
}

/// The first chunk of `text` (up to and including its first sentence break) and the rest.
pub open spec fn next_chunk(text: Seq<char>) -> (Seq<char>, Seq<char>) {
    match find_break(text, 0, text.len() as int) {
        Some(i) => if 0 <= i && i + 1 < text.len() {
            (text.take(i + 1), text.skip(i + 1))
        } else {
            (text, Seq::empty())
        },
        None => (text, Seq::empty()),
    }
}

/// Commits `text`, chunk by chunk; the count is the number of new blocks.
pub open spec fn commit(
    p: BlockPolicy,
    blocks: Seq<SubtitleView>,
    speaker: Option<Seq<char>>,
    text: Seq<char>,
    now_ms: u64,
) -> (Seq<SubtitleView>, nat)
    decreases text.len(),
{
    if text.len() == 0 {
        (blocks, 0)
    } else {
        let (chunk, rest) = next_chunk(text);
        if rest.len() < text.len() {
            let (b1, a) = place_chunk(p, blocks, speaker, chunk, now_ms);
            let (b2, n) = commit(p, b1, speaker, rest, now_ms);
            (b2, a + n)
        } else {
            place_chunk(p, blocks, speaker, chunk, now_ms)
        }
    }
}

/// No more new blocks than characters committed, and the list stays within budget.
pub proof fn lemma_commit_bounds(
    p: BlockPolicy,
    blocks: Seq<SubtitleView>,
    speaker: Option<Seq<char>>,
    text: Seq<char>,
    now_ms: u64,
)
    requires
        p.max_lines > 0,
        blocks.len() < p.max_lines,
    ensures
        commit(p, blocks, speaker, text, now_ms).1 <= text.len(),
        commit(p, blocks, speaker, text, now_ms).0.len() < p.max_lines,
    decreases text.len(),
{
    if text.len() > 0 {
        let (chunk, rest) = next_chunk(text);
        if rest.len() < text.len() {
            let (b1, a) = place_chunk(p, blocks, speaker, chunk, now_ms);
            lemma_commit_bounds(p, b1, speaker, rest, now_ms);
        }
    }
}

/// Whether `chunk` opens a new block after `last`.
fn opens_new_block(p: &BlockPolicy, last: &AudioSubtitle, speaker: &Option<String>, chunk: &Vec<char>) -> (r: bool)
    ensures
        r == starts_new_block(*p, last@, opt_view(*speaker), chunk@),
{
    if text_ends_sentence(&last.text) {
        return true;
    }
    let n = last.text.len();
    let mid = n > 0 && !is_whitespace(last.text[n - 1]) && chunk.len() > 0 && !is_whitespace(
        chunk[0],
    );
    if n > p.block_ceiling && !mid {
        return true;
    }
    p.split_on_speaker_change && !same_speaker(&last.speaker, speaker)
}

/// Appends `chunk` to `prev` as `joined` says.
fn join_into(prev: &mut Vec<char>, chunk: &Vec<char>)
    ensures
        final(prev)@ == joined(old(prev)@, chunk@),
{
    let n = prev.len();
    if n > 0 && !is_whitespace(prev[n - 1]) && !(chunk.len() > 0 && is_whitespace(chunk[0]))
        && chunk.len() > FRAGMENT_MAX_CHARS {
        prev.push(' ');
    }
    extend_chars(prev, chunk);
}

/// Places one chunk, as `place_chunk` says.
fn place(
    blocks: &mut Vec<AudioSubtitle>,
    p: &BlockPolicy,
    speaker: &Option<String>,
    chunk: Vec<char>,
    now_ms: u64,
) -> (added: usize)
    ensures
        (views(final(blocks)@), added as nat) == place_chunk(
            *p,
            views(old(blocks)@),
            opt_view(*speaker),
            chunk@,
            now_ms,
        ),
{
    let n = blocks.len();
    let ghost old_views = views(blocks@);
    if n > 0 && !opens_new_block(p, &blocks[n - 1], speaker, &chunk) {
        let mut last = blocks.pop().unwrap();
        join_into(&mut last.text, &chunk);
        blocks.push(last);
        assert(views(blocks@) =~= old_views.update(
            n - 1,
            SubtitleView { text: joined(old_views.last().text, chunk@), ..old_views.last() },
        ));
        0
    } else {
        let fresh = AudioSubtitle {
            speaker: copy_speaker(speaker),
            text: chunk,
            revealed: 0,
            last_update_ms: now_ms,
        };
        blocks.push(fresh);
        let ghost grown = views(blocks@);
        assert(grown =~= old_views.push(fresh@));
        if blocks.len() >= p.max_lines && blocks.len() > 0 {
            blocks.remove(0);
            assert(views(blocks@) =~= grown.drop_first());
        }
        1
    }
}

/// Commits `text` to `blocks`, as `commit` says; returns the number of new blocks.
pub fn commit_text(
    blocks: &mut Vec<AudioSubtitle>,
    p: &BlockPolicy,
    speaker: &Option<String>,
    text: Vec<char>,
    now_ms: u64,
) -> (added: usize)
    requires
        p.max_lines > 0,
        old(blocks)@.len() < p.max_lines,
    ensures
        (views(final(blocks)@), added as nat) == commit(
            *p,
            views(old(blocks)@),
            opt_view(*speaker),
            text@,
            now_ms,
        ),
        final(blocks)@.len() < p.max_lines,
        added <= text@.len(),
{
    let ghost spk = opt_view(*speaker);
    let ghost goal = commit(*p, views(blocks@), spk, text@, now_ms);
    proof {
        lemma_commit_bounds(*p, views(blocks@), spk, text@, now_ms);
    }
    let total_len = text.len();
    let mut rest = text;
    let mut added: usize = 0;
    while rest.len() > 0
        invariant
            p.max_lines > 0,
            blocks@.len() < p.max_lines,
            spk == opt_view(*speaker),
            commit(*p, views(blocks@), spk, rest@, now_ms).0 == goal.0,
            added + commit(*p, views(blocks@), spk, rest@, now_ms).1 == goal.1,
            goal.1 <= total_len,
        decreases rest@.len(),
    {
        let ghost before = views(blocks@);
        let ghost rest_before = rest@;
        proof {
            lemma_commit_bounds(*p, before, spk, rest_before, now_ms);
        }
        let len = rest.len();
        let (chunk, next) = match first_break(&rest, len) {
            Some(i) => (slice_chars(&rest, 0, i + 1), slice_chars(&rest, i + 1, len)),
            None => (rest, Vec::new()),
        };
        assert(next_chunk(rest_before) == (chunk@, next@)) by {
            assert(rest_before.take(0) =~= rest_before.subrange(0, 0));
        }
        let a = place(blocks, p, speaker, chunk, now_ms);
        proof {
            let (b1, a1) = place_chunk(*p, before, spk, chunk@, now_ms);
            lemma_commit_bounds(*p, b1, spk, next@, now_ms);
            if next@.len() >= rest_before.len() {
                assert(next@.len() == 0);
            }
            assert(commit(*p, before, spk, rest_before, now_ms) == (
                commit(*p, b1, spk, next@, now_ms).0,
                a1 + commit(*p, b1, spk, next@, now_ms).1,
            ));
        }
        added = added + a;
        rest = next;
    }
    added
}

} // verus!
