//! The two mode policies: plain transcription, and one-way translation.
//! A policy decides which token variants are shown and how a session is requested.
use vstd::prelude::*;
use crate::soniox::{
    SonioxTranscriptionRequest, SonioxTranslationObject, StreamSettings, TranslationStatus,
    AUDIO_FORMAT, ONE_WAY,
};

verus! {

/// Transcription only: source-language tokens are shown.
pub struct TranscribeMode;

/// One-way translation: only translated tokens are shown.
pub struct TranslateMode;

/// The policy an engine runs with.
#[derive(Clone, Copy, Debug, PartialEq, Eq, Structural)]
pub enum SonioxMode {
    Transcribe,
    Translate,
}

/// Whether a token of the given variant is shown under the policy.
pub open spec fn keeps(mode: SonioxMode, status: TranslationStatus) -> bool {
    match mode {
        SonioxMode::Transcribe => status != TranslationStatus::Translation,
        SonioxMode::Translate => status == TranslationStatus::Translation,
    }
}

/// The request fields that both policies share.
pub open spec fn common_request(
    r: SonioxTranscriptionRequest,
    settings: StreamSettings,
    audio_format: (u32, u16),
) -> bool {
    &&& r.api_key@ == settings.api_key@
    &&& r.model@ == settings.model@
    &&& r.audio_format@ == AUDIO_FORMAT@
    &&& r.sample_rate == Some(audio_format.0)
    &&& r.num_channels == Some(audio_format.1 as u32)
    &&& r.context matches Some(c) && c@ == settings.context@
    &&& r.language_hints@ == settings.language_hints@
    &&& r.enable_speaker_diarization == Some(settings.enable_speakers)
    &&& r.enable_language_identification is None
    &&& r.enable_non_final_tokens == Some(true)
    &&& r.enable_endpoint_detection == Some(true)
    &&& r.client_reference_id is None
}

fn base_request<'a>(settings: &'a StreamSettings, audio_format: (u32, u16)) -> (r:
    SonioxTranscriptionRequest<'a>)
    ensures
        common_request(r, *settings, audio_format),
        r.translation is None,
{
    let (sample_rate, channels) = audio_format;
    SonioxTranscriptionRequest {
        api_key: settings.api_key.as_str(),
        model: settings.model.as_str(),
        audio_format: AUDIO_FORMAT,
        num_channels: Some(channels as u32),
        sample_rate: Some(sample_rate),
        language_hints: settings.language_hints.as_slice(),
        context: Some(settings.context.as_str()),
        enable_speaker_diarization: Some(settings.enable_speakers),
        enable_language_identification: None,
        enable_non_final_tokens: Some(true),
        enable_endpoint_detection: Some(true),
        client_reference_id: None,
        translation: None,
    }
}

impl TranscribeMode {
    /// The session request for transcription: no translation part.
    pub fn create_request<'a>(&self, settings: &'a StreamSettings, audio_format: (u32, u16)) -> (r:
        SonioxTranscriptionRequest<'a>)
        ensures
            common_request(r, *settings, audio_format),
            r.translation is None,
    {
        base_request(settings, audio_format)
    }

    pub fn keeps_token(&self, status: TranslationStatus) -> (r: bool)
        ensures
            r == keeps(SonioxMode::Transcribe, status),
    {
        status != TranslationStatus::Translation
    }
}

impl TranslateMode {
    /// The session request for one-way translation into the target language.
    pub fn create_request<'a>(&self, settings: &'a StreamSettings, audio_format: (u32, u16)) -> (r:
        SonioxTranscriptionRequest<'a>)
        ensures
            common_request(r, *settings, audio_format),
            r.translation matches Some(t) && t.translation_type@ == ONE_WAY@ && t.language_a is None
                && t.language_b is None && t.target_language == Some(settings.target_language),
    {
        let mut r = base_request(settings, audio_format);
        r.translation = Some(
            SonioxTranslationObject {
                translation_type: ONE_WAY,
                language_a: None,
                language_b: None,
                target_language: Some(settings.target_language),
            },
        );
        r
    }

    pub fn keeps_token(&self, status: TranslationStatus) -> (r: bool)
        ensures
            r == keeps(SonioxMode::Translate, status),
    {
        status == TranslationStatus::Translation
    }
}

impl SonioxMode {
    /// Whether a token of the given variant is shown.
    pub fn keeps_token(&self, status: TranslationStatus) -> (r: bool)
        ensures
            r == keeps(*self, status),
    {
        match self {
            SonioxMode::Transcribe => TranscribeMode.keeps_token(status),
            SonioxMode::Translate => TranslateMode.keeps_token(status),
        }
    }

    /// The session request under this policy.
    pub fn create_request<'a>(&self, settings: &'a StreamSettings, audio_format: (u32, u16)) -> (r:
        SonioxTranscriptionRequest<'a>)
        ensures
            common_request(r, *settings, audio_format),
            *self == SonioxMode::Transcribe ==> r.translation is None,
            *self == SonioxMode::Translate ==> (r.translation matches Some(t)
                && t.translation_type@ == ONE_WAY@ && t.target_language == Some(
                settings.target_language,
            )),
    {
        match self {
            SonioxMode::Transcribe => TranscribeMode.create_request(settings, audio_format),
            SonioxMode::Translate => TranslateMode.create_request(settings, audio_format),
        }
    }
}

} // verus!
