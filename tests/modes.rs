use sonilivetext::languages::LanguageHint;
use sonilivetext::modes::{SonioxMode, TranscribeMode, TranslateMode};
use sonilivetext::soniox::{StreamSettings, TranslationStatus};

fn settings() -> StreamSettings {
    StreamSettings {
        api_key: "key".to_string(),
        model: "stt-rt-preview".to_string(),
        context: "meeting".to_string(),
        language_hints: vec![LanguageHint::English, LanguageHint::French],
        enable_speakers: true,
        target_language: LanguageHint::Japanese,
    }
}

#[test]
fn transcribe_request_has_no_translation() {
    let s = settings();
    let r = TranscribeMode.create_request(&s, (48000, 2));
    assert_eq!(r.api_key, "key");
    assert_eq!(r.model, "stt-rt-preview");
    assert_eq!(r.audio_format, "pcm_s16le");
    assert_eq!(r.sample_rate, Some(48000));
    assert_eq!(r.num_channels, Some(2));
    assert_eq!(r.context, Some("meeting"));
    assert_eq!(r.language_hints, &[LanguageHint::English, LanguageHint::French]);
    assert_eq!(r.enable_speaker_diarization, Some(true));
    assert_eq!(r.enable_non_final_tokens, Some(true));
    assert_eq!(r.enable_endpoint_detection, Some(true));
    assert!(r.translation.is_none());
}

#[test]
fn translate_request_targets_language() {
    let s = settings();
    let r = TranslateMode.create_request(&s, (16000, 1));
    let t = r.translation.expect("translation part");
    assert_eq!(t.translation_type, "one_way");
    assert_eq!(t.target_language, Some(LanguageHint::Japanese));
    assert_eq!(t.language_a, None);
    assert_eq!(r.num_channels, Some(1));
    let via_enum = SonioxMode::Translate.create_request(&s, (16000, 1));
    assert!(via_enum.translation.is_some());
    assert!(SonioxMode::Transcribe.create_request(&s, (16000, 1)).translation.is_none());
}

#[test]
fn modes_filter_variants() {
    assert!(SonioxMode::Transcribe.keeps_token(TranslationStatus::Untagged));
    assert!(SonioxMode::Transcribe.keeps_token(TranslationStatus::Original));
    assert!(!SonioxMode::Transcribe.keeps_token(TranslationStatus::Translation));
    assert!(!SonioxMode::Translate.keeps_token(TranslationStatus::Untagged));
    assert!(!SonioxMode::Translate.keeps_token(TranslationStatus::Original));
    assert!(SonioxMode::Translate.keeps_token(TranslationStatus::Translation));
    assert!(TranscribeMode.keeps_token(TranslationStatus::Original));
    assert!(TranslateMode.keeps_token(TranslationStatus::Translation));
}

#[test]
fn language_codes() {
    assert_eq!(LanguageHint::English.code(), "en");
    assert_eq!(LanguageHint::Japanese.code(), "ja");
    assert_eq!(LanguageHint::Welsh.code(), "cy");
    assert_eq!(LanguageHint::Norwegian.code(), "no");
}
