use sonilivetext::modes::SonioxMode;
use sonilivetext::soniox::{SonioxTranscriptionResponse, SonioxTranscriptionToken, TranslationStatus};
use sonilivetext::state::{DebugEvent, TranscriptionState};

fn token(text: &str, is_final: bool, speaker: Option<&str>) -> SonioxTranscriptionToken {
    SonioxTranscriptionToken {
        text: text.to_string(),
        end_ms: None,
        is_final,
        speaker: speaker.map(|s| s.to_string()),
        translation_status: TranslationStatus::Untagged,
    }
}

fn batch(tokens: Vec<SonioxTranscriptionToken>) -> SonioxTranscriptionResponse {
    SonioxTranscriptionResponse { tokens, finished: None }
}

fn committed(state: &TranscriptionState) -> Vec<String> {
    let mut all = state.iter();
    all.pop();
    all.iter().map(|b| b.text()).collect()
}

fn interim_text(state: &TranscriptionState) -> String {
    state.interim().text()
}

#[test]
fn interim_then_final_gives_one_block() {
    let mut s = TranscriptionState::new(50, 80, SonioxMode::Transcribe);
    s.handle_transcription(batch(vec![token("Hel", false, Some("A"))]), 0);
    s.handle_transcription(batch(vec![token("Hello there", false, Some("A"))]), 0);
    s.handle_transcription(batch(vec![token("Hello there.", true, Some("A"))]), 0);
    assert_eq!(s.pending_event_count(), 2);
    assert!(s.update_animation(0));
    assert_eq!(s.pending_event_count(), 0);
    assert_eq!(committed(&s), vec!["Hello there.".to_string()]);
    assert_eq!(interim_text(&s), "");
    assert_eq!(s.speculative_block_count(), 0);
    assert_eq!(s.frozen_history(), "");
}

#[test]
fn stale_interim_word_is_committed() {
    let mut s = TranscriptionState::new(50, 80, SonioxMode::Transcribe);
    s.set_stability_params(true, 500);
    s.handle_transcription(batch(vec![token("word", false, Some("A"))]), 0);
    s.update_animation(0);
    assert_eq!(interim_text(&s), "word");
    assert!(committed(&s).is_empty());
    s.update_animation(400);
    assert!(committed(&s).is_empty());
    s.update_animation(600);
    assert_eq!(committed(&s), vec!["word".to_string()]);
    assert_eq!(interim_text(&s), "");
    assert_eq!(s.speculative_block_count(), 1);
    assert_eq!(s.frozen_history(), "word");
}

#[test]
fn stale_interim_keeps_unfinished_word() {
    let mut s = TranscriptionState::new(50, 80, SonioxMode::Transcribe);
    s.set_stability_params(true, 500);
    s.handle_transcription(batch(vec![token("hello wor", false, None)]), 0);
    s.update_animation(0);
    s.update_animation(501);
    assert_eq!(committed(&s), vec!["hello ".to_string()]);
    assert_eq!(interim_text(&s), "wor");
    assert_eq!(s.frozen_history(), "hello ");
}

#[test]
fn translate_mode_shows_only_translation() {
    let mut s = TranscriptionState::new(50, 80, SonioxMode::Translate);
    let mut original = token("bonjour", true, None);
    original.translation_status = TranslationStatus::Original;
    let mut translated = token("hello", true, None);
    translated.translation_status = TranslationStatus::Translation;
    s.handle_transcription(batch(vec![original, translated]), 0);
    s.update_animation(0);
    let texts = committed(&s);
    assert_eq!(texts, vec!["hello".to_string()]);
    assert!(texts.iter().all(|t| !t.contains("bonjour")));
}

#[test]
fn transcribe_mode_drops_translation_tokens() {
    let mut s = TranscriptionState::new(50, 80, SonioxMode::Transcribe);
    let mut original = token("bonjour", true, None);
    original.translation_status = TranslationStatus::Original;
    let mut translated = token("hello", true, None);
    translated.translation_status = TranslationStatus::Translation;
    s.handle_transcription(batch(vec![original, translated]), 0);
    s.update_animation(0);
    assert_eq!(committed(&s), vec!["bonjour".to_string()]);
}

#[test]
fn backtrack_replaces_speculative_blocks() {
    let mut s = TranscriptionState::new(50, 80, SonioxMode::Transcribe);
    s.set_stability_params(true, 500);
    s.handle_transcription(batch(vec![token("The caT sat", false, None)]), 0);
    s.update_animation(0);
    s.update_animation(600);
    assert_eq!(committed(&s), vec!["The caT ".to_string()]);
    assert_eq!(s.speculative_block_count(), 1);
    s.handle_transcription(batch(vec![token("The cat sat down", true, None)]), 700);
    s.update_animation(700);
    let texts = committed(&s);
    assert_eq!(texts, vec!["The cat sat down".to_string()]);
    let all = texts.join(" ");
    assert!(!(all.contains("caT") && all.contains("cat")));
    assert_eq!(s.speculative_block_count(), 0);
    assert_eq!(s.frozen_history(), "");
}

#[test]
fn backtrack_keeps_confirmed_blocks() {
    let mut s = TranscriptionState::new(50, 80, SonioxMode::Transcribe);
    s.set_stability_params(true, 500);
    s.handle_transcription(batch(vec![token("First one.", true, None)]), 0);
    s.update_animation(0);
    s.handle_transcription(batch(vec![token("The caT sat", false, None)]), 10);
    s.update_animation(10);
    s.update_animation(700);
    assert_eq!(committed(&s), vec!["First one.".to_string(), "The caT ".to_string()]);
    s.handle_transcription(batch(vec![token("The cat sat", true, None)]), 800);
    s.update_animation(800);
    assert_eq!(committed(&s), vec!["First one.".to_string(), "The cat sat".to_string()]);
}

#[test]
fn final_covered_by_history_adds_nothing() {
    let mut s = TranscriptionState::new(50, 80, SonioxMode::Transcribe);
    s.set_stability_params(true, 500);
    s.handle_transcription(batch(vec![token("hello world", false, None)]), 0);
    s.update_animation(0);
    s.update_animation(600);
    assert_eq!(committed(&s), vec!["hello ".to_string()]);
    s.handle_transcription(batch(vec![token("hello", true, None)]), 700);
    s.update_animation(700);
    assert_eq!(committed(&s), vec!["hello ".to_string()]);
    assert_eq!(s.frozen_history(), " ");
    assert_eq!(s.speculative_block_count(), 1);
    s.handle_transcription(batch(vec![token(" world", true, None)]), 800);
    s.update_animation(800);
    assert_eq!(committed(&s), vec!["hello world".to_string()]);
    assert_eq!(s.frozen_history(), "");
    assert_eq!(s.speculative_block_count(), 0);
}

#[test]
fn finals_extending_history_are_concatenated() {
    let mut s = TranscriptionState::new(50, 80, SonioxMode::Transcribe);
    for (i, part) in ["Good", " morning", " every", "day"].iter().enumerate() {
        s.handle_transcription(batch(vec![token(part, true, None)]), i as u64);
    }
    s.update_animation(10);
    assert_eq!(committed(&s), vec!["Good morning every day".to_string()]);
}

#[test]
fn sentences_in_one_final_make_separate_blocks() {
    let mut s = TranscriptionState::new(50, 80, SonioxMode::Transcribe);
    s.handle_transcription(batch(vec![token("One. Two! Three", true, None)]), 0);
    s.update_animation(0);
    assert_eq!(
        committed(&s),
        vec!["One.".to_string(), " Two!".to_string(), " Three".to_string()]
    );
}

#[test]
fn block_count_stays_within_budget() {
    let mut s = TranscriptionState::new(3, 80, SonioxMode::Transcribe);
    for i in 0..20u64 {
        s.handle_transcription(batch(vec![token("Again. ", true, None)]), i);
        s.update_animation(i);
        assert!(s.get_frozen_block_count() <= 2);
    }
    assert_eq!(s.get_frozen_block_count(), 2);
}

#[test]
fn collapse_keeps_only_latest_interim() {
    let mut s = TranscriptionState::new(50, 80, SonioxMode::Transcribe);
    s.handle_transcription(batch(vec![token("a", false, Some("A"))]), 0);
    s.handle_transcription(batch(vec![token("ab", false, Some("A"))]), 1);
    s.handle_transcription(batch(vec![token("abc", false, Some("B"))]), 2);
    assert_eq!(s.pending_event_count(), 2);
    s.handle_transcription(batch(vec![token("x", true, Some("B"))]), 3);
    s.handle_transcription(batch(vec![token("y", false, Some("B"))]), 4);
    assert_eq!(s.pending_event_count(), 4);
}

#[test]
fn smart_delay_holds_batches() {
    let mut s = TranscriptionState::new(50, 80, SonioxMode::Transcribe);
    s.set_smart_delay(100);
    s.handle_transcription(batch(vec![token("Hi.", true, None)]), 1000);
    s.update_animation(1050);
    assert_eq!(s.pending_event_count(), 1);
    assert!(committed(&s).is_empty());
    s.update_animation(1100);
    assert_eq!(s.pending_event_count(), 0);
    assert_eq!(committed(&s), vec!["Hi.".to_string()]);
}

#[test]
fn resent_final_tokens_are_dropped() {
    let mut s = TranscriptionState::new(50, 80, SonioxMode::Transcribe);
    let mut t = token("Hello", true, None);
    t.end_ms = Some(500);
    s.handle_transcription(batch(vec![t]), 0);
    let mut again = token("Hello", true, None);
    again.end_ms = Some(500);
    s.handle_transcription(batch(vec![again]), 1);
    let mut next = token(" you", true, None);
    next.end_ms = Some(900);
    s.handle_transcription(batch(vec![next]), 2);
    s.update_animation(10);
    assert_eq!(committed(&s), vec!["Hello you".to_string()]);
}

#[test]
fn interim_sentence_is_frozen_speculatively() {
    let mut s = TranscriptionState::new(50, 80, SonioxMode::Transcribe);
    s.handle_transcription(batch(vec![token("It works. And then", false, None)]), 0);
    s.update_animation(0);
    assert_eq!(committed(&s), vec!["It works.".to_string()]);
    assert_eq!(interim_text(&s), " And then");
    assert_eq!(s.frozen_history(), "It works.");
    assert_eq!(s.speculative_block_count(), 1);
    s.handle_transcription(batch(vec![token("It works. And then more", false, None)]), 10);
    s.update_animation(10);
    assert_eq!(interim_text(&s), " And then more");
    s.handle_transcription(batch(vec![token("It wonks", false, None)]), 20);
    s.update_animation(20);
    assert!(committed(&s).is_empty());
    assert_eq!(interim_text(&s), "It wonks");
    assert_eq!(s.speculative_block_count(), 0);
}

#[test]
fn overlong_interim_is_frozen_at_word_boundary() {
    let mut s = TranscriptionState::new(50, 10, SonioxMode::Transcribe);
    s.set_overflow_params(200, 5);
    s.handle_transcription(batch(vec![token("aaaa bbbb cccc dddd", false, None)]), 0);
    s.update_animation(0);
    assert_eq!(committed(&s), vec!["aaaa bbbb cccc".to_string()]);
    assert_eq!(interim_text(&s), " dddd");
}

#[test]
fn hidden_interim_is_not_rendered() {
    let mut s = TranscriptionState::new(50, 80, SonioxMode::Transcribe);
    assert_eq!(s.iter().len(), 1);
    s.set_stability_params(false, 500);
    assert_eq!(s.iter().len(), 0);
}

#[test]
fn fresh_engine_shows_waiting_line() {
    let s = TranscriptionState::new(5, 80, SonioxMode::Transcribe);
    let all = s.iter();
    assert_eq!(all.len(), 1);
    assert_eq!(all[0].text(), "... waiting for the sound ...");
    assert_eq!(all[0].displayed_text(), "... waiting for the sound ...");
    assert_eq!(s.get_active_char_count(), 0);
    assert_eq!(s.get_max_chars(), 80);
}

#[test]
fn reveal_waits_for_older_blocks() {
    let mut s = TranscriptionState::new(50, 80, SonioxMode::Transcribe);
    s.handle_transcription(batch(vec![token("Ab.", true, None), token("cd", false, None)]), 0);
    s.update_animation(0);
    let all = s.iter();
    assert_eq!(all[0].text(), "Ab.");
    assert_eq!(all[0].displayed_text(), "");
    assert_eq!(all[1].text(), "cd");
    assert_eq!(all[1].displayed_text(), "");
    s.update_animation(5);
    assert_eq!(s.iter()[0].displayed_text(), "");
    s.update_animation(20);
    assert_eq!(s.iter()[0].displayed_text(), "Ab");
    assert_eq!(s.iter()[1].displayed_text(), "");
    s.update_animation(40);
    assert_eq!(s.iter()[0].displayed_text(), "Ab.");
    assert_eq!(s.iter()[1].displayed_text(), "cd");
}

#[test]
fn lagging_blocks_catch_up_faster() {
    let mut s = TranscriptionState::new(50, 80, SonioxMode::Transcribe);
    s.handle_transcription(batch(vec![token("Abcdef. Ghijkl.", true, None)]), 0);
    s.update_animation(0);
    assert_eq!(s.iter()[0].displayed_text(), "");
    s.update_animation(20);
    let all = s.iter();
    assert_eq!(all[0].displayed_text(), "Ab");
    assert_eq!(all[1].displayed_text(), " G");
}

#[test]
fn active_char_count_counts_characters() {
    let mut s = TranscriptionState::new(50, 80, SonioxMode::Transcribe);
    s.handle_transcription(batch(vec![token("héllo wörld", true, None)]), 0);
    s.update_animation(0);
    assert_eq!(s.get_active_char_count(), 11);
    s.set_max_chars(40);
    assert_eq!(s.get_max_chars(), 40);
}

#[test]
fn speaker_change_splits_when_enabled() {
    let mut s = TranscriptionState::new(50, 80, SonioxMode::Transcribe);
    s.set_split_on_speaker_change(true);
    s.handle_transcription(batch(vec![token("hi there", true, Some("A"))]), 0);
    s.handle_transcription(batch(vec![token(" hello", true, Some("B"))]), 1);
    s.update_animation(2);
    assert_eq!(committed(&s), vec!["hi there".to_string(), " hello".to_string()]);
    let mut t = TranscriptionState::new(50, 80, SonioxMode::Transcribe);
    t.handle_transcription(batch(vec![token("hi there", true, Some("A"))]), 0);
    t.handle_transcription(batch(vec![token(" hello", true, Some("B"))]), 1);
    t.update_animation(2);
    assert_eq!(committed(&t), vec!["hi there hello".to_string()]);
}

#[test]
fn transcribe_mode_keeps_end_marker_text() {
    let mut s = TranscriptionState::new(50, 80, SonioxMode::Transcribe);
    s.handle_transcription(batch(vec![token("Hi", true, None), token("<end>", true, None)]), 0);
    s.update_animation(0);
    assert_eq!(committed(&s), vec!["Hi<end>".to_string()]);
}

#[test]
fn translate_mode_drops_tokens_holding_end_marker() {
    let mut s = TranscriptionState::new(50, 80, SonioxMode::Translate);
    let mut hi = token("Hi", true, None);
    hi.translation_status = TranslationStatus::Translation;
    let mut end = token("a<end>", true, None);
    end.translation_status = TranslationStatus::Translation;
    let mut live = token("x<end>y", false, None);
    live.translation_status = TranslationStatus::Translation;
    s.handle_transcription(batch(vec![hi, end, live]), 0);
    s.update_animation(0);
    assert_eq!(committed(&s), vec!["Hi".to_string()]);
    assert_eq!(interim_text(&s), "");
}

#[test]
fn tick_reports_no_change_when_nothing_visible_changes() {
    let mut s = TranscriptionState::new(50, 80, SonioxMode::Transcribe);
    s.handle_transcription(batch(vec![token("Ok.", true, None)]), 0);
    assert!(s.update_animation(0));
    for t in [20u64, 40, 60, 80] {
        s.update_animation(t);
    }
    assert_eq!(s.iter()[0].displayed_text(), "Ok.");
    assert!(!s.update_animation(100));
    s.handle_transcription(batch(vec![]), 100);
    assert!(!s.update_animation(100));
    assert_eq!(s.pending_event_count(), 0);
}

#[test]
fn speculative_count_rises_past_block_budget() {
    let mut s = TranscriptionState::new(2, 80, SonioxMode::Transcribe);
    s.set_stability_params(true, 500);
    s.handle_transcription(batch(vec![token("One. two", false, None)]), 0);
    s.update_animation(0);
    assert_eq!(s.speculative_block_count(), 1);
    s.update_animation(600);
    assert_eq!(s.get_frozen_block_count(), 1);
    assert_eq!(s.speculative_block_count(), 2);
    assert_eq!(s.frozen_history(), "One. ");
    assert_eq!(interim_text(&s), "two");
    s.update_animation(1200);
    assert_eq!(committed(&s), vec![" two".to_string()]);
    assert_eq!(s.speculative_block_count(), 2);
    assert_eq!(s.frozen_history(), "One. two");
}

#[test]
fn debug_log_records_decisions() {
    let mut s = TranscriptionState::new(50, 80, SonioxMode::Transcribe);
    s.handle_transcription(batch(vec![token("Yes. and", false, None)]), 0);
    s.update_animation(0);
    s.handle_transcription(batch(vec![token("No", true, None)]), 1);
    s.update_animation(1);
    assert_eq!(
        s.get_debug_log(),
        vec![
            DebugEvent::FreezeSentence { chars: 4 },
            DebugEvent::FinalBacktrack { dropped_blocks: 1 },
        ]
    );
    assert_eq!(committed(&s), vec!["No".to_string()]);
}

#[test]
fn debug_log_is_bounded() {
    let mut s = TranscriptionState::new(50, 80, SonioxMode::Transcribe);
    for i in 0..30u64 {
        s.handle_transcription(batch(vec![token("x", true, None)]), i);
        s.update_animation(i);
    }
    let log = s.get_debug_log();
    assert_eq!(log.len(), 20);
    assert!(log.iter().all(|e| *e == DebugEvent::FinalExtends { pushed_chars: 1 }));
}
