//! General properties of the engine, stated over its model and proved.
use vstd::prelude::*;
use crate::blocks::{
    commit, joined, needs_separator, next_chunk, place_chunk, starts_new_block, BlockPolicy,
};
use crate::text::is_ws;
use crate::soniox::TokenView;
use crate::state::{
    classify, classify_prefix, drain, drop_newest, process_batch, reconcile_final, EngineView,
};
use crate::subtitle::{advance, SubtitleView};

verus! {

/// The committed text: every block's text, oldest first, run together.
pub open spec fn flat(s: Seq<SubtitleView>) -> Seq<char>
    decreases s.len(),
{
    if s.len() == 0 {
        Seq::empty()
    } else {
        flat(s.drop_last()) + s.last().text
    }
}

/// The final segments run together, in arrival order.
pub open spec fn concat(fs: Seq<Seq<char>>) -> Seq<char>
    decreases fs.len(),
{
    if fs.len() == 0 {
        Seq::empty()
    } else {
        fs[0] + concat(fs.drop_first())
    }
}

/// Final segments reconciled one after the other.
pub open spec fn confirm_all(
    e: EngineView,
    finals: Seq<Seq<char>>,
    speaker: Option<Seq<char>>,
    now_ms: u64,
) -> EngineView
    decreases finals.len(),
{
    if finals.len() == 0 {
        e
    } else {
        confirm_all(reconcile_final(e, finals[0], speaker, now_ms), finals.drop_first(), speaker, now_ms)
    }
}

proof fn lemma_flat_last(s: Seq<SubtitleView>, v: SubtitleView)
    requires
        s.len() > 0,
    ensures
        flat(s.update(s.len() - 1, v)) == flat(s.drop_last()) + v.text,
{
    assert(s.update(s.len() - 1, v).drop_last() =~= s.drop_last());
}

proof fn lemma_flat_push(s: Seq<SubtitleView>, v: SubtitleView)
    ensures
        flat(s.push(v)) == flat(s) + v.text,
{
    assert(s.push(v).drop_last() =~= s);
}

/// The text so far ends with a non-whitespace character, so a separator may follow.
pub open spec fn gap_after(s: Seq<char>) -> bool {
    s.len() > 0 && !is_ws(s.last())
}

/// `c` is `f` with single spaces put in at some of the places where a
/// non-whitespace character is followed by another one; `gap` tells whether
/// the text before `f` ends with a non-whitespace character.
pub open spec fn spaced_from(c: Seq<char>, f: Seq<char>, gap: bool) -> bool
    decreases c.len(),
{
    if f.len() == 0 {
        c.len() == 0
    } else if c.len() == 0 {
        false
    } else if gap && c[0] == ' ' && !is_ws(f[0]) {
        spaced_from(c.drop_first(), f, false)
    } else {
        c[0] == f[0] && spaced_from(c.drop_first(), f.drop_first(), !is_ws(f[0]))
    }
}

/// A commit of `text` onto `blocks` evicts no block.
pub open spec fn commits_without_eviction(
    p: BlockPolicy,
    blocks: Seq<SubtitleView>,
    speaker: Option<Seq<char>>,
    text: Seq<char>,
    now_ms: u64,
) -> bool {
    blocks.len() + commit(p, blocks, speaker, text, now_ms).1 < p.max_lines
}

proof fn lemma_spaced_self(t: Seq<char>, gap: bool)
    ensures
        spaced_from(t, t, gap),
    decreases t.len(),
{
    if t.len() > 0 {
        lemma_spaced_self(t.drop_first(), !is_ws(t[0]));
    }
}

proof fn lemma_spaced_concat(x1: Seq<char>, t1: Seq<char>, x2: Seq<char>, t2: Seq<char>, gap: bool)
    requires
        spaced_from(x1, t1, gap),
        spaced_from(
            x2,
            t2,
            if t1.len() > 0 {
                !is_ws(t1.last())
            } else {
                gap
            },
        ),
    ensures
        spaced_from(x1 + x2, t1 + t2, gap),
    decreases x1.len(),
{
    if t1.len() == 0 {
        assert(x1.len() == 0);
        assert(x1 + x2 =~= x2);
        assert(t1 + t2 =~= t2);
    } else {
        assert(x1.len() > 0);
        assert((x1 + x2).drop_first() =~= x1.drop_first() + x2);
        assert((x1 + x2)[0] == x1[0]);
        assert((t1 + t2)[0] == t1[0]);
        if gap && x1[0] == ' ' && !is_ws(t1[0]) {
            lemma_spaced_concat(x1.drop_first(), t1, x2, t2, false);
        } else {
            let t1r = t1.drop_first();
            if t1r.len() > 0 {
                assert(t1r.last() == t1.last());
            }
            lemma_spaced_concat(x1.drop_first(), t1r, x2, t2, !is_ws(t1[0]));
            assert((t1 + t2).drop_first() =~= t1r + t2);
        }
    }
}

/// Placing one chunk without eviction appends it to the committed text, with
/// at most a separating space before it.
proof fn lemma_place_appends(
    p: BlockPolicy,
    blocks: Seq<SubtitleView>,
    speaker: Option<Seq<char>>,
    chunk: Seq<char>,
    now_ms: u64,
)
    requires
        chunk.len() > 0,
        blocks.len() + place_chunk(p, blocks, speaker, chunk, now_ms).1 < p.max_lines,
    ensures
        ({
            let (b1, a) = place_chunk(p, blocks, speaker, chunk, now_ms);
            &&& b1.len() == blocks.len() + a
            &&& flat(b1) == flat(blocks) + flat(b1).skip(flat(blocks).len() as int)
            &&& spaced_from(flat(b1).skip(flat(blocks).len() as int), chunk, gap_after(flat(blocks)))
            &&& gap_after(flat(b1)) == !is_ws(chunk.last())
        }),
{
    let (b1, a) = place_chunk(p, blocks, speaker, chunk, now_ms);
    if blocks.len() > 0 && !starts_new_block(p, blocks.last(), speaker, chunk) {
        let last = blocks.last();
        let v = SubtitleView { text: joined(last.text, chunk), ..last };
        lemma_flat_last(blocks, v);
        assert(flat(blocks) == flat(blocks.drop_last()) + last.text);
        if needs_separator(last.text, chunk) {
            let y = seq![' '] + chunk;
            assert(flat(b1) =~= flat(blocks) + y);
            assert(flat(b1).skip(flat(blocks).len() as int) =~= y);
            assert(flat(blocks).last() == last.text.last());
            lemma_spaced_self(chunk, false);
            assert(y.drop_first() =~= chunk);
            assert(flat(b1).last() == chunk.last());
        } else {
            assert(flat(b1) =~= flat(blocks) + chunk);
            assert(flat(b1).skip(flat(blocks).len() as int) =~= chunk);
            lemma_spaced_self(chunk, gap_after(flat(blocks)));
            assert(flat(b1).last() == chunk.last());
        }
    } else {
        let fresh = SubtitleView { speaker, text: chunk, revealed: 0, last_update_ms: now_ms };
        lemma_flat_push(blocks, fresh);
        assert(b1 == blocks.push(fresh));
        assert(flat(b1).skip(flat(blocks).len() as int) =~= chunk);
        lemma_spaced_self(chunk, gap_after(flat(blocks)));
        assert(flat(b1).last() == chunk.last());
    }
}

/// While no block is evicted, committing a text appends exactly that text to
/// the committed text, save single spaces put in at joins where two words
/// would otherwise run together.
pub proof fn lemma_commit_appends(
    p: BlockPolicy,
    blocks: Seq<SubtitleView>,
    speaker: Option<Seq<char>>,
    text: Seq<char>,
    now_ms: u64,
)
    requires
        commits_without_eviction(p, blocks, speaker, text, now_ms),
    ensures
        ({
            let r = commit(p, blocks, speaker, text, now_ms).0;
            &&& r.len() == blocks.len() + commit(p, blocks, speaker, text, now_ms).1
            &&& flat(r) == flat(blocks) + flat(r).skip(flat(blocks).len() as int)
            &&& spaced_from(flat(r).skip(flat(blocks).len() as int), text, gap_after(flat(blocks)))
            &&& gap_after(flat(r)) == if text.len() > 0 {
                !is_ws(text.last())
            } else {
                gap_after(flat(blocks))
            }
        }),
    decreases text.len(),
{
    let r = commit(p, blocks, speaker, text, now_ms).0;
    if text.len() == 0 {
        assert(flat(r).skip(flat(blocks).len() as int) =~= Seq::<char>::empty());
        assert(flat(blocks) + Seq::<char>::empty() =~= flat(blocks));
    } else {
        let (chunk, rest) = next_chunk(text);
        assert(text =~= chunk + rest);
        assert(chunk.len() > 0);
        let (b1, a) = place_chunk(p, blocks, speaker, chunk, now_ms);
        if rest.len() < text.len() {
            assert(commit(p, blocks, speaker, text, now_ms).1 == a + commit(p, b1, speaker, rest, now_ms).1);
        } else {
            assert(rest.len() == 0);
        }
        lemma_place_appends(p, blocks, speaker, chunk, now_ms);
        let y1 = flat(b1).skip(flat(blocks).len() as int);
        if rest.len() < text.len() {
            lemma_commit_appends(p, b1, speaker, rest, now_ms);
            let y2 = flat(r).skip(flat(b1).len() as int);
            lemma_spaced_concat(y1, chunk, y2, rest, gap_after(flat(blocks)));
            assert(flat(r) =~= flat(blocks) + (y1 + y2));
            assert(flat(r).skip(flat(blocks).len() as int) =~= y1 + y2);
            if rest.len() == 0 {
                assert(text.last() == chunk.last());
            } else {
                assert(text.last() == rest.last());
            }
        } else {
            assert(chunk =~= text);
        }
    }
}

/// Final segments confirmed one after the other evict no block.
pub open spec fn confirms_without_eviction(
    e: EngineView,
    finals: Seq<Seq<char>>,
    speaker: Option<Seq<char>>,
    now_ms: u64,
) -> bool
    decreases finals.len(),
{
    finals.len() == 0 || (commits_without_eviction(
        e.config.policy,
        e.blocks,
        speaker,
        finals[0].skip(e.history.len() as int),
        now_ms,
    ) && confirms_without_eviction(
        reconcile_final(e, finals[0], speaker, now_ms),
        finals.drop_first(),
        speaker,
        now_ms,
    ))
}

/// Monotonic confirmation: when each final segment extends the frozen history
/// (the first one extends the history at the start; each later one extends the
/// empty history the previous one left), and no block is evicted, the committed
/// text ends up as what was committed before followed by all the segments in
/// arrival order, less the frozen prefix already shown, with nothing twice and
/// nothing added but single spaces where two words would run together.
#[verifier::spinoff_prover]
#[verifier::rlimit(50)]
pub proof fn lemma_monotonic_confirmation(
    e: EngineView,
    finals: Seq<Seq<char>>,
    speaker: Option<Seq<char>>,
    now_ms: u64,
)
    requires
        finals.len() > 0 ==> e.history.is_prefix_of(finals[0]),
        confirms_without_eviction(e, finals, speaker, now_ms),
    ensures
        finals.len() > 0 ==> ({
            let r = confirm_all(e, finals, speaker, now_ms);
            let t = concat(finals).skip(e.history.len() as int);
            &&& flat(r.blocks) == flat(e.blocks) + flat(r.blocks).skip(flat(e.blocks).len() as int)
            &&& spaced_from(
                flat(r.blocks).skip(flat(e.blocks).len() as int),
                t,
                gap_after(flat(e.blocks)),
            )
            &&& gap_after(flat(r.blocks)) == if t.len() > 0 {
                !is_ws(t.last())
            } else {
                gap_after(flat(e.blocks))
            }
            &&& r.history.len() == 0
            &&& r.frozen == 0
        }),
    decreases finals.len(),
{
    if finals.len() > 0 {
        let f0 = finals[0];
        let rest = finals.drop_first();
        let h = e.history;
        let s0 = f0.skip(h.len() as int);
        assert(concat(finals) == f0 + concat(rest));
        lemma_commit_appends(e.config.policy, e.blocks, speaker, s0, now_ms);
        let e1 = reconcile_final(e, f0, speaker, now_ms);
        assert(e1.blocks == commit(e.config.policy, e.blocks, speaker, s0, now_ms).0);
        assert(e1.history.len() == 0);
        assert(e1.config == e.config);
        let t = concat(finals).skip(h.len() as int);
        assert(t =~= s0 + concat(rest));
        let y1 = flat(e1.blocks).skip(flat(e.blocks).len() as int);
        if rest.len() == 0 {
            assert(concat(rest) =~= Seq::<char>::empty());
            assert(t =~= s0);
        } else {
            assert(e1.history.is_prefix_of(rest[0]));
            lemma_monotonic_confirmation(e1, rest, speaker, now_ms);
            let r = confirm_all(e1, rest, speaker, now_ms);
            assert(confirm_all(e, finals, speaker, now_ms) == r);
            assert(concat(rest).skip(0) =~= concat(rest));
            let y2 = flat(r.blocks).skip(flat(e1.blocks).len() as int);
            lemma_spaced_concat(y1, s0, y2, concat(rest), gap_after(flat(e.blocks)));
            assert(flat(r.blocks) =~= flat(e.blocks) + (y1 + y2));
            assert(flat(r.blocks).skip(flat(e.blocks).len() as int) =~= y1 + y2);
            if concat(rest).len() > 0 {
                assert(t.last() == concat(rest).last());
            } else {
                assert(t =~= s0);
            }
        }
    }
}

/// Idempotent absorption: a final segment that the frozen history already
/// covers leaves the committed blocks as they are.
pub proof fn lemma_idempotent_absorption(
    e: EngineView,
    text: Seq<char>,
    speaker: Option<Seq<char>>,
    now_ms: u64,
)
    requires
        text.is_prefix_of(e.history),
    ensures
        reconcile_final(e, text, speaker, now_ms).blocks == e.blocks,
        reconcile_final(e, text, speaker, now_ms).history == e.history.skip(text.len() as int),
{
    if e.history.is_prefix_of(text) {
        assert(text =~= e.history);
        assert(text.skip(e.history.len() as int) =~= Seq::<char>::empty());
        assert(e.history.skip(text.len() as int) =~= Seq::<char>::empty());
    }
}

/// Backtrack correctness: a final segment that contradicts the frozen history
/// drops exactly the speculative blocks, keeps every block before them, and
/// commits the whole segment in their place.
pub proof fn lemma_backtrack(e: EngineView, text: Seq<char>, speaker: Option<Seq<char>>, now_ms: u64)
    requires
        !e.history.is_prefix_of(text),
        !text.is_prefix_of(e.history),
    ensures
        reconcile_final(e, text, speaker, now_ms).blocks == commit(
            e.config.policy,
            e.blocks.take(
                if e.frozen <= e.blocks.len() {
                    e.blocks.len() - e.frozen
                } else {
                    0
                },
            ),
            speaker,
            text,
            now_ms,
        ).0,
        reconcile_final(e, text, speaker, now_ms).history.len() == 0,
        reconcile_final(e, text, speaker, now_ms).frozen == 0,
{
    if e.frozen >= e.blocks.len() {
        assert(e.blocks.take(0) =~= Seq::<SubtitleView>::empty());
    }
    assert(drop_newest(e.blocks, e.frozen) =~= e.blocks.take(
        if e.frozen <= e.blocks.len() {
            e.blocks.len() - e.frozen
        } else {
            0
        },
    ));
}

/// Reveal monotonicity: a reveal step keeps the text, never moves a prefix that
/// fits its text backwards or past the text's end, and snaps an over-long one
/// down to the text's length.
pub proof fn lemma_reveal_monotonic(v: SubtitleView, force: bool, now_ms: u64)
    ensures
        advance(v, force, now_ms).0.text == v.text,
        v.revealed <= v.text.len() ==> v.revealed <= advance(v, force, now_ms).0.revealed
            <= v.text.len(),
        v.revealed > v.text.len() ==> advance(v, force, now_ms).0.revealed == v.text.len(),
{
}

proof fn lemma_finals_leave_no_interim(
    mode: crate::modes::SonioxMode,
    confirmed_ms: u64,
    tokens: Seq<TokenView>,
    n: int,
)
    requires
        0 <= n <= tokens.len(),
        forall|i: int| 0 <= i < tokens.len() ==> (#[trigger] tokens[i]).is_final,
    ensures
        classify_prefix(mode, confirmed_ms, tokens, n).interim.len() == 0,
    decreases n,
{
    if n > 0 {
        lemma_finals_leave_no_interim(mode, confirmed_ms, tokens, n - 1);
    }
}

/// A batch of final tokens only changes the committed blocks and the frozen
/// history exactly as reconciling its final text does, so the confirmation law
/// above carries over to such batches.
pub proof fn lemma_final_batch_reconciles(e: EngineView, tokens: Seq<TokenView>, now_ms: u64)
    requires
        forall|i: int| 0 <= i < tokens.len() ==> (#[trigger] tokens[i]).is_final,
    ensures
        ({
            let c = classify(e.config.mode, e.last_final_ms, tokens);
            let e1 = EngineView { last_final_ms: c.max_end_ms, ..e };
            let r = if c.has_final {
                reconcile_final(e1, c.final_text, c.final_speaker, now_ms)
            } else {
                e1
            };
            &&& process_batch(e, tokens, now_ms).blocks == r.blocks
            &&& process_batch(e, tokens, now_ms).history == r.history
            &&& process_batch(e, tokens, now_ms).frozen == r.frozen
            &&& process_batch(e, tokens, now_ms).config == e.config
        }),
{
    lemma_finals_leave_no_interim(e.config.mode, e.last_final_ms, tokens, tokens.len() as int);
}

proof fn lemma_prefix_offset_monotonic(
    mode: crate::modes::SonioxMode,
    confirmed_ms: u64,
    tokens: Seq<TokenView>,
    n: int,
)
    ensures
        classify_prefix(mode, confirmed_ms, tokens, n).max_end_ms >= confirmed_ms,
    decreases n,
{
    if n > 0 {
        lemma_prefix_offset_monotonic(mode, confirmed_ms, tokens, n - 1);
    }
}

/// The highest confirmed end offset never decreases from one batch to the next.
pub proof fn lemma_confirmed_offset_monotonic(e: EngineView, tokens: Seq<TokenView>, now_ms: u64)
    ensures
        process_batch(e, tokens, now_ms).last_final_ms >= e.last_final_ms,
{
    lemma_prefix_offset_monotonic(e.config.mode, e.last_final_ms, tokens, tokens.len() as int);
}

/// Batches processed one after the other.
pub open spec fn process_all(e: EngineView, batches: Seq<Seq<TokenView>>, now_ms: u64) -> EngineView
    decreases batches.len(),
{
    if batches.len() == 0 {
        e
    } else {
        process_all(process_batch(e, batches[0], now_ms), batches.drop_first(), now_ms)
    }
}

/// The final segments that batches processed one after the other carry, each
/// classified against the confirmed offset current when its batch is taken.
pub open spec fn chain_finals(e: EngineView, batches: Seq<Seq<TokenView>>, now_ms: u64) -> Seq<
    Seq<char>,
>
    decreases batches.len(),
{
    if batches.len() == 0 {
        Seq::empty()
    } else {
        let c = classify(e.config.mode, e.last_final_ms, batches[0]);
        let rest = chain_finals(process_batch(e, batches[0], now_ms), batches.drop_first(), now_ms);
        if c.has_final {
            seq![c.final_text] + rest
        } else {
            rest
        }
    }
}

/// Processing the batches one after the other evicts no block.
pub open spec fn chain_without_eviction(e: EngineView, batches: Seq<Seq<TokenView>>, now_ms: u64) -> bool
    decreases batches.len(),
{
    batches.len() == 0 || ({
        let c = classify(e.config.mode, e.last_final_ms, batches[0]);
        &&& c.has_final ==> commits_without_eviction(
            e.config.policy,
            e.blocks,
            c.final_speaker,
            c.final_text.skip(e.history.len() as int),
            now_ms,
        )
        &&& chain_without_eviction(process_batch(e, batches[0], now_ms), batches.drop_first(), now_ms)
    })
}

pub open spec fn all_final(batches: Seq<Seq<TokenView>>) -> bool {
    forall|i: int, j: int|
        0 <= i < batches.len() && 0 <= j < batches[i].len() ==> (#[trigger] batches[i][j]).is_final
}

/// Monotonic confirmation over batches: batches of final tokens, whose first
/// final segment extends the frozen history and which evict no block, leave
/// the committed text as before followed by all their final segments in
/// arrival order, less the frozen prefix already shown, with nothing twice and
/// nothing added but single spaces where two words would run together.
#[verifier::spinoff_prover]
#[verifier::rlimit(50)]
pub proof fn lemma_batches_confirm(e: EngineView, batches: Seq<Seq<TokenView>>, now_ms: u64)
    requires
        all_final(batches),
        chain_finals(e, batches, now_ms).len() > 0 ==> e.history.is_prefix_of(
            chain_finals(e, batches, now_ms)[0],
        ),
        chain_without_eviction(e, batches, now_ms),
    ensures
        ({
            let fs = chain_finals(e, batches, now_ms);
            let r = process_all(e, batches, now_ms);
            let t = concat(fs).skip(e.history.len() as int);
            &&& fs.len() == 0 ==> r.blocks == e.blocks && r.history == e.history
            &&& fs.len() > 0 ==> {
                &&& flat(r.blocks) == flat(e.blocks) + flat(r.blocks).skip(
                    flat(e.blocks).len() as int,
                )
                &&& spaced_from(
                    flat(r.blocks).skip(flat(e.blocks).len() as int),
                    t,
                    gap_after(flat(e.blocks)),
                )
                &&& gap_after(flat(r.blocks)) == if t.len() > 0 {
                    !is_ws(t.last())
                } else {
                    gap_after(flat(e.blocks))
                }
                &&& r.history.len() == 0
            }
            &&& r.config == e.config
        }),
    decreases batches.len(),
{
    if batches.len() > 0 {
        let b0 = batches[0];
        let rest = batches.drop_first();
        assert forall|j: int| 0 <= j < b0.len() implies (#[trigger] b0[j]).is_final by {
            assert(batches[0][j].is_final);
        }
        assert(all_final(rest)) by {
            assert forall|i: int, j: int|
                0 <= i < rest.len() && 0 <= j < rest[i].len() implies (#[trigger] rest[i][j]).is_final by {
                assert(rest[i] == batches[i + 1]);
                assert(batches[i + 1][j].is_final);
            }
        }
        lemma_final_batch_reconciles(e, b0, now_ms);
        let c = classify(e.config.mode, e.last_final_ms, b0);
        let e1 = EngineView { last_final_ms: c.max_end_ms, ..e };
        let e2 = process_batch(e, b0, now_ms);
        let fs = chain_finals(e, batches, now_ms);
        let fs2 = chain_finals(e2, rest, now_ms);
        let h = e.history;
        if c.has_final {
            let f0 = c.final_text;
            let s0 = f0.skip(h.len() as int);
            assert(fs == seq![f0] + fs2);
            assert(fs[0] == f0);
            assert(concat(fs) == f0 + concat(fs.drop_first())) ;
            assert(fs.drop_first() =~= fs2);
            lemma_commit_appends(e.config.policy, e.blocks, c.final_speaker, s0, now_ms);
            assert(e2.blocks == commit(e.config.policy, e.blocks, c.final_speaker, s0, now_ms).0);
            assert(e2.history.len() == 0);
            let t = concat(fs).skip(h.len() as int);
            assert(t =~= s0 + concat(fs2));
            let y1 = flat(e2.blocks).skip(flat(e.blocks).len() as int);
            assert(fs2.len() > 0 ==> e2.history.is_prefix_of(fs2[0]));
            lemma_batches_confirm(e2, rest, now_ms);
            let r = process_all(e2, rest, now_ms);
            assert(process_all(e, batches, now_ms) == r);
            if fs2.len() == 0 {
                assert(concat(fs2) =~= Seq::<char>::empty());
                assert(t =~= s0);
                assert(r.blocks == e2.blocks);
            } else {
                assert(concat(fs2).skip(0) =~= concat(fs2));
                let y2 = flat(r.blocks).skip(flat(e2.blocks).len() as int);
                lemma_spaced_concat(y1, s0, y2, concat(fs2), gap_after(flat(e.blocks)));
                assert(flat(r.blocks) =~= flat(e.blocks) + (y1 + y2));
                assert(flat(r.blocks).skip(flat(e.blocks).len() as int) =~= y1 + y2);
                if concat(fs2).len() > 0 {
                    assert(t.last() == concat(fs2).last());
                } else {
                    assert(t =~= s0);
                }
            }
        } else {
            assert(fs == fs2);
            assert(e2.blocks == e.blocks);
            assert(e2.history == e.history);
            lemma_batches_confirm(e2, rest, now_ms);
        }
    }
}

/// With no processing delay, draining the buffer processes every buffered
/// batch, in arrival order, and leaves the buffer empty.
pub proof fn lemma_drain_all(e: EngineView, q: Seq<(u64, Seq<TokenView>)>, now_ms: u64)
    requires
        e.config.smart_delay_ms == 0,
        all_final(q.map_values(|x: (u64, Seq<TokenView>)| x.1)),
    ensures
        drain(e, q, now_ms) == (
            process_all(e, q.map_values(|x: (u64, Seq<TokenView>)| x.1), now_ms),
            Seq::<(u64, Seq<TokenView>)>::empty(),
        ),
    decreases q.len(),
{
    let bs = q.map_values(|x: (u64, Seq<TokenView>)| x.1);
    if q.len() == 0 {
        assert(q =~= Seq::<(u64, Seq<TokenView>)>::empty());
    } else {
        let rest = q.drop_first();
        let brest = rest.map_values(|x: (u64, Seq<TokenView>)| x.1);
        assert(bs.drop_first() =~= brest);
        assert(bs[0] == q[0].1);
        assert forall|j: int| 0 <= j < bs[0].len() implies (#[trigger] bs[0][j]).is_final by {
            assert(bs[0][j].is_final);
        }
        assert(all_final(brest)) by {
            assert forall|i: int, j: int|
                0 <= i < brest.len() && 0 <= j < brest[i].len() implies (#[trigger] brest[i][j]).is_final by {
                assert(brest[i] == bs[i + 1]);
                assert(bs[i + 1][j].is_final);
            }
        }
        lemma_final_batch_reconciles(e, q[0].1, now_ms);
        lemma_drain_all(process_batch(e, q[0].1, now_ms), rest, now_ms);
    }
}

/// Monotonic confirmation through the buffer: with no processing delay, a tick's
/// draining of buffered batches of final tokens that extend the frozen history
/// and evict no block empties the buffer and leaves the committed text as
/// before followed by all their final segments in arrival order, less the
/// frozen prefix already shown, with nothing twice and nothing added but single
/// spaces where two words would run together.
pub proof fn lemma_pending_confirmation(e: EngineView, q: Seq<(u64, Seq<TokenView>)>, now_ms: u64)
    requires
        e.config.smart_delay_ms == 0,
        all_final(q.map_values(|x: (u64, Seq<TokenView>)| x.1)),
        chain_finals(e, q.map_values(|x: (u64, Seq<TokenView>)| x.1), now_ms).len() > 0
            ==> e.history.is_prefix_of(
            chain_finals(e, q.map_values(|x: (u64, Seq<TokenView>)| x.1), now_ms)[0],
        ),
        chain_without_eviction(e, q.map_values(|x: (u64, Seq<TokenView>)| x.1), now_ms),
    ensures
        ({
            let bs = q.map_values(|x: (u64, Seq<TokenView>)| x.1);
            let (r, q1) = drain(e, q, now_ms);
            let t = concat(chain_finals(e, bs, now_ms)).skip(e.history.len() as int);
            &&& q1.len() == 0
            &&& chain_finals(e, bs, now_ms).len() > 0 ==> {
                &&& flat(r.blocks) == flat(e.blocks) + flat(r.blocks).skip(
                    flat(e.blocks).len() as int,
                )
                &&& spaced_from(
                    flat(r.blocks).skip(flat(e.blocks).len() as int),
                    t,
                    gap_after(flat(e.blocks)),
                )
                &&& r.history.len() == 0
            }
        }),
{
    let bs = q.map_values(|x: (u64, Seq<TokenView>)| x.1);
    lemma_drain_all(e, q, now_ms);
    lemma_batches_confirm(e, bs, now_ms);
}

} // verus!
