//! The values exchanged with the recognition service: the session request
//! and the token batches that come back.
use vstd::prelude::*;
use crate::languages::LanguageHint;
use crate::subtitle::opt_view;

verus! {

/// The sample format of the audio sent to the service.
pub const AUDIO_FORMAT: &'static str = "pcm_s16le";

/// The translation kind in which every token is translated to one target.
pub const ONE_WAY: &'static str = "one_way";

/// Which variant a token is: source-language text, its translation, or neither.
#[derive(Clone, Copy, Debug, PartialEq, Eq, Structural)]
pub enum TranslationStatus {
    Untagged,
    Original,
    Translation,
}

/// The translation part of a session request.
pub struct SonioxTranslationObject {
    pub translation_type: &'static str,
    pub language_a: Option<LanguageHint>,
    pub language_b: Option<LanguageHint>,
    pub target_language: Option<LanguageHint>,
}

/// The first message of a session: credentials, audio format and options.
pub struct SonioxTranscriptionRequest<'a> {
    pub api_key: &'a str,
    pub model: &'a str,
    pub audio_format: &'static str,
    pub num_channels: Option<u32>,
    pub sample_rate: Option<u32>,
    pub language_hints: &'a [LanguageHint],
    pub context: Option<&'a str>,
    pub enable_speaker_diarization: Option<bool>,
    pub enable_language_identification: Option<bool>,
    pub enable_non_final_tokens: Option<bool>,
    pub enable_endpoint_detection: Option<bool>,
    pub client_reference_id: Option<&'a str>,
    pub translation: Option<SonioxTranslationObject>,
}

/// The values a session request is built from.
pub struct StreamSettings {
    pub api_key: String,
    pub model: String,
    pub context: String,
    pub language_hints: Vec<LanguageHint>,
    pub enable_speakers: bool,
    pub target_language: LanguageHint,
}

/// One recognised unit of speech. `end_ms` is the end of its audio, in milliseconds.
pub struct SonioxTranscriptionToken {
    pub text: String,
    pub end_ms: Option<u64>,
    pub is_final: bool,
    pub speaker: Option<String>,
    pub translation_status: TranslationStatus,
}

/// The model of a token.
pub struct TokenView {
    pub text: Seq<char>,
    pub end_ms: Option<u64>,
    pub is_final: bool,
    pub speaker: Option<Seq<char>>,
    pub status: TranslationStatus,
}

impl View for SonioxTranscriptionToken {
    type V = TokenView;

    open spec fn view(&self) -> TokenView {
        TokenView {
            text: self.text@,
            end_ms: self.end_ms,
            is_final: self.is_final,
            speaker: opt_view(self.speaker),
            status: self.translation_status,
        }
    }
}

/// One update from the service: the tokens that arrived together.
pub struct SonioxTranscriptionResponse {
    pub tokens: Vec<SonioxTranscriptionToken>,
    pub finished: Option<bool>,
}

impl View for SonioxTranscriptionResponse {
    type V = Seq<TokenView>;

    open spec fn view(&self) -> Seq<TokenView> {
        self.tokens@.map_values(|t: SonioxTranscriptionToken| t@)
    }
}

/// A batch with no final token.
pub open spec fn purely_interim(tokens: Seq<TokenView>) -> bool {
    forall|i: int| 0 <= i < tokens.len() ==> !(#[trigger] tokens[i]).is_final
}

/// The speaker of the first token, if there is a first token.
pub open spec fn first_speaker(tokens: Seq<TokenView>) -> Option<Option<Seq<char>>> {
    if tokens.len() > 0 {
        Some(tokens[0].speaker)
    } else {
        None
    }
}

impl SonioxTranscriptionResponse {
    /// Whether no token of the batch is final.
    pub fn is_purely_interim(&self) -> (r: bool)
        ensures
            r == purely_interim(self@),
    {
        let mut i: usize = 0;
        while i < self.tokens.len()
            invariant
                i <= self.tokens@.len(),
                forall|j: int| 0 <= j < i ==> !(#[trigger] self@[j]).is_final,
            decreases self.tokens@.len() - i,
        {
            if self.tokens[i].is_final {
                assert(self@[i as int].is_final);
                return false;
            }
            i = i + 1;
        }
        true
    }
}

} // verus!
