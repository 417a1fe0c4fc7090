//! Local Qwen3-TTS: named speakers, instruct-style control, ten languages,
//! run on the device. What it is asked and what its result means; inference
//! itself is performed elsewhere.
//!
//! The engine natively emits 24 kHz WAV; other requested codecs are re-encoded
//! afterwards.

use crate::capabilities::{CapabilitiesView, ProviderCapabilities};
use crate::domain::{AudioOutput, AudioOutputView, Language, SpeechRequest};
use crate::error::{CoreError, CoreResult, Failure};
use crate::ports::Provider;
use crate::provider::ProviderId;
use crate::text;
use vstd::prelude::*;

verus! {

pub const HF_REPO: &'static str = "Qwen/Qwen3-TTS-12Hz-1.7B-CustomVoice";

pub const DEFAULT_VOICE: &'static str = "ryan";

/// The name of a language that the model knows, by its primary subtag.
pub open spec fn name_of(subtag: Seq<char>) -> Option<Seq<char>> {
    if subtag == "en"@ {
        Some("English"@)
    } else if subtag == "es"@ {
        Some("Spanish"@)
    } else if subtag == "ru"@ {
        Some("Russian"@)
    } else if subtag == "zh"@ {
        Some("Chinese"@)
    } else if subtag == "ja"@ {
        Some("Japanese"@)
    } else if subtag == "ko"@ {
        Some("Korean"@)
    } else if subtag == "de"@ {
        Some("German"@)
    } else if subtag == "fr"@ {
        Some("French"@)
    } else if subtag == "pt"@ {
        Some("Portuguese"@)
    } else if subtag == "it"@ {
        Some("Italian"@)
    } else {
        None
    }
}

/// What the model calls a language: its name, or the code itself where it has
/// none.
pub open spec fn model_language(code: Seq<char>) -> Seq<char> {
    text::or(name_of(crate::domain::primary_subtag(code)), code)
}

/// Map an ISO 639-1 (or BCP-47) tag onto the language *names* the model
/// expects. Unknown tags pass through unchanged so model-native names (or
/// `auto`) keep working.
pub fn language_name(language: &Language) -> (r: String)
    ensures
        r@ == model_language(language.0@),
{
    let subtag = language.primary();
    if text::same(&subtag, "en") {
        "English".to_owned()
    } else if text::same(&subtag, "es") {
        "Spanish".to_owned()
    } else if text::same(&subtag, "ru") {
        "Russian".to_owned()
    } else if text::same(&subtag, "zh") {
        "Chinese".to_owned()
    } else if text::same(&subtag, "ja") {
        "Japanese".to_owned()
    } else if text::same(&subtag, "ko") {
        "Korean".to_owned()
    } else if text::same(&subtag, "de") {
        "German".to_owned()
    } else if text::same(&subtag, "fr") {
        "French".to_owned()
    } else if text::same(&subtag, "pt") {
        "Portuguese".to_owned()
    } else if text::same(&subtag, "it") {
        "Italian".to_owned()
    } else {
        language.code().to_owned()
    }
}

/// Speaker ids are in small letters (`ryan`, not `Ryan`).
pub fn normalize_voice(voice: &str) -> (r: String)
    ensures
        r@ == text::lower(text::trim(voice@)),
{
    text::to_lower(text::trimmed(voice))
}

#[derive(Debug, Clone)]
pub struct Qwen3TtsLocalProvider {
    /// Local model directory; `None` resolves via the shared cache.
    pub model_dir: Option<String>,
    pub default_voice: String,
}

impl Provider for Qwen3TtsLocalProvider {
    open spec fn identity(&self) -> ProviderId {
        ProviderId::LocalQwen3
    }

    open spec fn abilities(&self) -> CapabilitiesView {
        CapabilitiesView { batch_tts: true, ..CapabilitiesView::none() }
    }

    fn id(&self) -> ProviderId {
        ProviderId::LocalQwen3
    }

    fn capabilities(&self) -> ProviderCapabilities {
        let mut r = ProviderCapabilities::default();
        r.batch_tts = true;
        r
    }
}

/// What inference is asked.
#[derive(Debug)]
pub struct Qwen3Call {
    pub text: String,
    pub language: Option<String>,
    pub voice: String,
    pub instruct: Option<String>,
}

impl Qwen3TtsLocalProvider {
    pub fn new(model_dir: Option<String>, default_voice: Option<String>) -> (r:
        Qwen3TtsLocalProvider)
        ensures
            r.model_dir == model_dir,
            r.default_voice@ == match default_voice {
                Some(v) if v@.len() > 0 => v@,
                _ => DEFAULT_VOICE@,
            },
    {
        let voice = match default_voice {
            Some(v) => if v.as_str().is_empty() {
                DEFAULT_VOICE.to_owned()
            } else {
                v
            },
            None => DEFAULT_VOICE.to_owned(),
        };
        Qwen3TtsLocalProvider { model_dir, default_voice: voice }
    }

    /// The voice of a request: the one asked for where it is not blank, else
    /// the default one.
    pub open spec fn voice_of(self, request: SpeechRequest) -> Seq<char> {
        text::lower(
            text::trim(
                match request.voice {
                    Some(v) if !text::is_blank(v@) => v@,
                    _ => self.default_voice@,
                },
            ),
        )
    }

    /// What inference is asked for a request. Blank text cannot be spoken; the
    /// speed of a request is not looked at.
    pub fn synthesize(&self, request: &SpeechRequest) -> (r: CoreResult<Qwen3Call>)
        ensures
            match r {
                Ok(call) => {
                    &&& !text::is_blank(request.text@)
                    &&& call.text@ == request.text@
                    &&& call.language.deep_view() == match request.language {
                        Some(l) => Some(model_language(l.0@)),
                        None => None,
                    }
                    &&& call.voice@ == self.voice_of(*request)
                    &&& call.instruct.deep_view() == request.instructions.deep_view()
                },
                Err(e) => text::is_blank(request.text@) && e.deep_view() == Failure::InvalidInput(
                    "empty text"@,
                ),
            },
    {
        if text::blank(&request.text) {
            return Err(CoreError::InvalidInput("empty text".to_owned()));
        }
        let language = match &request.language {
            Some(l) => Some(language_name(l)),
            None => None,
        };
        let voice = match &request.voice {
            Some(v) => if text::blank(v) {
                normalize_voice(&self.default_voice)
            } else {
                normalize_voice(v)
            },
            None => normalize_voice(&self.default_voice),
        };
        Ok(
            Qwen3Call {
                text: request.text.clone(),
                language,
                voice,
                instruct: text::copied(&request.instructions),
            },
        )
    }

    /// The speech of encoded bytes.
    pub fn speech(&self, request: &SpeechRequest, bytes: Vec<u8>) -> (r: AudioOutput)
        ensures
            r.deep_view() == AudioOutputView::plain(
                bytes@,
                crate::xai::codec_mime(request.codec),
                request.codec,
                ProviderId::LocalQwen3,
            ),
    {
        AudioOutput::plain(
            bytes,
            crate::xai::mime_for_codec(request.codec),
            request.codec,
            ProviderId::LocalQwen3,
        )
    }
}

// ---------------------------------------------------------------------------
// Laws
// ---------------------------------------------------------------------------

/// The model is told the name of each of its ten languages, whatever follows the
/// primary subtag and whatever the case of letters, and any other language as it was
/// written.
pub proof fn law_language_names(code: Seq<char>)
    ensures
        ({
            let subtag = crate::domain::primary_subtag(code);
            &&& subtag == seq!['e', 'n'] ==> model_language(code) == "English"@
            &&& subtag == seq!['e', 's'] ==> model_language(code) == "Spanish"@
            &&& subtag == seq!['r', 'u'] ==> model_language(code) == "Russian"@
            &&& subtag == seq!['z', 'h'] ==> model_language(code) == "Chinese"@
            &&& subtag == seq!['j', 'a'] ==> model_language(code) == "Japanese"@
            &&& subtag == seq!['k', 'o'] ==> model_language(code) == "Korean"@
            &&& subtag == seq!['d', 'e'] ==> model_language(code) == "German"@
            &&& subtag == seq!['f', 'r'] ==> model_language(code) == "French"@
            &&& subtag == seq!['p', 't'] ==> model_language(code) == "Portuguese"@
            &&& subtag == seq!['i', 't'] ==> model_language(code) == "Italian"@
            &&& subtag != seq!['e', 'n'] && subtag != seq!['e', 's'] && subtag != seq!['r', 'u'] && subtag != seq!['z', 'h'] && subtag != seq!['j', 'a'] && subtag != seq!['k', 'o'] && subtag != seq!['d', 'e'] && subtag != seq!['f', 'r'] && subtag != seq!['p', 't'] && subtag != seq!['i', 't']
                ==> model_language(code) == code
        }),
{
    reveal_strlit("en");
    assert("en"@ =~= seq!['e', 'n']);
    reveal_strlit("es");
    assert("es"@ =~= seq!['e', 's']);
    reveal_strlit("ru");
    assert("ru"@ =~= seq!['r', 'u']);
    reveal_strlit("zh");
    assert("zh"@ =~= seq!['z', 'h']);
    reveal_strlit("ja");
    assert("ja"@ =~= seq!['j', 'a']);
    reveal_strlit("ko");
    assert("ko"@ =~= seq!['k', 'o']);
    reveal_strlit("de");
    assert("de"@ =~= seq!['d', 'e']);
    reveal_strlit("fr");
    assert("fr"@ =~= seq!['f', 'r']);
    reveal_strlit("pt");
    assert("pt"@ =~= seq!['p', 't']);
    reveal_strlit("it");
    assert("it"@ =~= seq!['i', 't']);
    assert(seq!['e', 'n'][0] == 'e' && seq!['e', 'n'][1] == 'n');
    assert(seq!['e', 's'][0] == 'e' && seq!['e', 's'][1] == 's');
    assert(seq!['r', 'u'][0] == 'r' && seq!['r', 'u'][1] == 'u');
    assert(seq!['z', 'h'][0] == 'z' && seq!['z', 'h'][1] == 'h');
    assert(seq!['j', 'a'][0] == 'j' && seq!['j', 'a'][1] == 'a');
    assert(seq!['k', 'o'][0] == 'k' && seq!['k', 'o'][1] == 'o');
    assert(seq!['d', 'e'][0] == 'd' && seq!['d', 'e'][1] == 'e');
    assert(seq!['f', 'r'][0] == 'f' && seq!['f', 'r'][1] == 'r');
    assert(seq!['p', 't'][0] == 'p' && seq!['p', 't'][1] == 't');
    assert(seq!['i', 't'][0] == 'i' && seq!['i', 't'][1] == 't');
}

/// The voice is the one asked for where it is not blank, else the default one, in
/// small letters and trimmed.
pub proof fn law_voice(p: Qwen3TtsLocalProvider, request: SpeechRequest)
    ensures
        match request.voice {
            Some(v) if !text::is_white(v@) => p.voice_of(request) == text::lower(text::trim(v@)),
            _ => p.voice_of(request) == text::lower(text::trim(p.default_voice@)),
        },
{
    if let Some(v) = request.voice {
        text::law_blank_text(v@);
    }
}

/// The local engine speaks, and does nothing else.
pub proof fn law_abilities(p: Qwen3TtsLocalProvider)
    ensures
        p.identity() == ProviderId::LocalQwen3,
        p.abilities().batch_tts,
        !p.abilities().batch_stt && !p.abilities().streaming_stt && !p.abilities().streaming_tts,
{
}

} // verus!
