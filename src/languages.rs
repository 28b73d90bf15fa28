//! Languages that the recognition service can be hinted with or translate into.
use vstd::prelude::*;

verus! {

/// A language, by the name of its ISO 639-1 code.
#[derive(Clone, Copy, Debug, PartialEq, Eq, Structural)]
pub enum LanguageHint {
    Afrikaans,
    Albanian,
    Arabic,
    Azerbaijani,
    Basque,
    Belarusian,
    Bengali,
    Bosnian,
    Bulgarian,
    Catalan,
    Chinese,
    Croatian,
    Czech,
    Danish,
    Dutch,
    English,
    Estonian,
    Finnish,
    French,
    Galician,
    German,
    Greek,
    Gujarati,
    Hebrew,
    Hindi,
    Hungarian,
    Indonesian,
    Italian,
    Japanese,
    Kannada,
    Kazakh,
    Korean,
    Latvian,
    Lithuanian,
    Macedonian,
    Malay,
    Malayalam,
    Marathi,
    Norwegian,
    Persian,
    Polish,
    Portuguese,
    Punjabi,
    Romanian,
    Russian,
    Serbian,
    Slovak,
    Slovenian,
    Spanish,
    Swahili,
    Swedish,
    Tagalog,
    Tamil,
    Telugu,
    Thai,
    Turkish,
    Ukrainian,
    Urdu,
    Vietnamese,
    Welsh,
}

/// The ISO 639-1 code of a language.
pub open spec fn language_code(l: LanguageHint) -> Seq<char> {
    match l {
        LanguageHint::Afrikaans => "af"@,
        LanguageHint::Albanian => "sq"@,
        LanguageHint::Arabic => "ar"@,
        LanguageHint::Azerbaijani => "az"@,
        LanguageHint::Basque => "eu"@,
        LanguageHint::Belarusian => "be"@,
        LanguageHint::Bengali => "bn"@,
        LanguageHint::Bosnian => "bs"@,
        LanguageHint::Bulgarian => "bg"@,
        LanguageHint::Catalan => "ca"@,
        LanguageHint::Chinese => "zh"@,
        LanguageHint::Croatian => "hr"@,
        LanguageHint::Czech => "cs"@,
        LanguageHint::Danish => "da"@,
        LanguageHint::Dutch => "nl"@,
        LanguageHint::English => "en"@,
        LanguageHint::Estonian => "et"@,
        LanguageHint::Finnish => "fi"@,
        LanguageHint::French => "fr"@,
        LanguageHint::Galician => "gl"@,
        LanguageHint::German => "de"@,
        LanguageHint::Greek => "el"@,
        LanguageHint::Gujarati => "gu"@,
        LanguageHint::Hebrew => "he"@,
        LanguageHint::Hindi => "hi"@,
        LanguageHint::Hungarian => "hu"@,
        LanguageHint::Indonesian => "id"@,
        LanguageHint::Italian => "it"@,
        LanguageHint::Japanese => "ja"@,
        LanguageHint::Kannada => "kn"@,
        LanguageHint::Kazakh => "kk"@,
        LanguageHint::Korean => "ko"@,
        LanguageHint::Latvian => "lv"@,
        LanguageHint::Lithuanian => "lt"@,
        LanguageHint::Macedonian => "mk"@,
        LanguageHint::Malay => "ms"@,
        LanguageHint::Malayalam => "ml"@,
        LanguageHint::Marathi => "mr"@,
        LanguageHint::Norwegian => "no"@,
        LanguageHint::Persian => "fa"@,
        LanguageHint::Polish => "pl"@,
        LanguageHint::Portuguese => "pt"@,
        LanguageHint::Punjabi => "pa"@,
        LanguageHint::Romanian => "ro"@,
        LanguageHint::Russian => "ru"@,
        LanguageHint::Serbian => "sr"@,
        LanguageHint::Slovak => "sk"@,
        LanguageHint::Slovenian => "sl"@,
        LanguageHint::Spanish => "es"@,
        LanguageHint::Swahili => "sw"@,
        LanguageHint::Swedish => "sv"@,
        LanguageHint::Tagalog => "tl"@,
        LanguageHint::Tamil => "ta"@,
        LanguageHint::Telugu => "te"@,
        LanguageHint::Thai => "th"@,
        LanguageHint::Turkish => "tr"@,
        LanguageHint::Ukrainian => "uk"@,
        LanguageHint::Urdu => "ur"@,
        LanguageHint::Vietnamese => "vi"@,
        LanguageHint::Welsh => "cy"@,
    }
}

impl LanguageHint {
    /// The ISO 639-1 code that the service uses for this language.
    pub fn code(&self) -> (r: &'static str)
        ensures
            r@ == language_code(*self),
    {
        match self {
            LanguageHint::Afrikaans => "af",
            LanguageHint::Albanian => "sq",
            LanguageHint::Arabic => "ar",
            LanguageHint::Azerbaijani => "az",
            LanguageHint::Basque => "eu",
            LanguageHint::Belarusian => "be",
            LanguageHint::Bengali => "bn",
            LanguageHint::Bosnian => "bs",
            LanguageHint::Bulgarian => "bg",
            LanguageHint::Catalan => "ca",
            LanguageHint::Chinese => "zh",
            LanguageHint::Croatian => "hr",
            LanguageHint::Czech => "cs",
            LanguageHint::Danish => "da",
            LanguageHint::Dutch => "nl",
            LanguageHint::English => "en",
            LanguageHint::Estonian => "et",
            LanguageHint::Finnish => "fi",
            LanguageHint::French => "fr",
            LanguageHint::Galician => "gl",
            LanguageHint::German => "de",
            LanguageHint::Greek => "el",
            LanguageHint::Gujarati => "gu",
            LanguageHint::Hebrew => "he",
            LanguageHint::Hindi => "hi",
            LanguageHint::Hungarian => "hu",
            LanguageHint::Indonesian => "id",
            LanguageHint::Italian => "it",
            LanguageHint::Japanese => "ja",
            LanguageHint::Kannada => "kn",
            LanguageHint::Kazakh => "kk",
            LanguageHint::Korean => "ko",
            LanguageHint::Latvian => "lv",
            LanguageHint::Lithuanian => "lt",
            LanguageHint::Macedonian => "mk",
            LanguageHint::Malay => "ms",
            LanguageHint::Malayalam => "ml",
            LanguageHint::Marathi => "mr",
            LanguageHint::Norwegian => "no",
            LanguageHint::Persian => "fa",
            LanguageHint::Polish => "pl",
            LanguageHint::Portuguese => "pt",
            LanguageHint::Punjabi => "pa",
            LanguageHint::Romanian => "ro",
            LanguageHint::Russian => "ru",
            LanguageHint::Serbian => "sr",
            LanguageHint::Slovak => "sk",
            LanguageHint::Slovenian => "sl",
            LanguageHint::Spanish => "es",
            LanguageHint::Swahili => "sw",
            LanguageHint::Swedish => "sv",
            LanguageHint::Tagalog => "tl",
            LanguageHint::Tamil => "ta",
            LanguageHint::Telugu => "te",
            LanguageHint::Thai => "th",
            LanguageHint::Turkish => "tr",
            LanguageHint::Ukrainian => "uk",
            LanguageHint::Urdu => "ur",
            LanguageHint::Vietnamese => "vi",
            LanguageHint::Welsh => "cy",
        }
    }
}

} // verus!
