//! The tables and reports that the command line prints about providers, models
//! and voices.

use crate::capabilities::{CapabilitiesView, ProviderCapabilities};
use crate::cartesia::{CartesiaProvider, CartesiaSettings};
use crate::compose::Qwen3Source;
use crate::config::Config;
use crate::domain::{
    AudioCodec, AudioSource, Language, SourceView, SpeechRequest, TranscribeRequest,
};
use crate::elevenlabs::{ElevenLabsProvider, ElevenLabsSettings};
use crate::json;
use crate::json::Json;
use crate::openai::{OpenAiProvider, OpenAiSettings};
use crate::ports::Provider;
use crate::provider::ProviderId;
use crate::text;
use crate::xai::{XaiProvider, XaiSettings};
use crate::xai_voices::{
    CustomVoiceCreateRequest, CustomVoiceUpdateRequest, XaiVoice, XAI_BUILT_IN_VOICES,
};
use vstd::prelude::*;

verus! {

// ---------------------------------------------------------------------------
// Providers
// ---------------------------------------------------------------------------

/// What is known of the local engines: whether they are compiled in.
#[derive(Debug, Clone, Copy)]
pub struct Compiled {
    pub canary: bool,
    pub qwen3: bool,
}

/// The status of a provider.
pub open spec fn status_text(id: ProviderId, configured: bool, compiled: Compiled) -> Seq<char> {
    if configured {
        "ready"@
    } else {
        match id {
            ProviderId::LocalCanary => if compiled.canary {
                "no model"@
            } else {
                "not compiled"@
            },
            ProviderId::LocalQwen3 => if compiled.qwen3 {
                "no model"@
            } else {
                "not compiled"@
            },
            _ => "no api key"@,
        }
    }
}

pub fn provider_status(id: ProviderId, configured: bool, compiled: Compiled) -> (r: &'static str)
    ensures
        r@ == status_text(id, configured, compiled),
{
    if configured {
        return "ready";
    }
    match id {
        ProviderId::LocalCanary => if compiled.canary {
            "no model"
        } else {
            "not compiled"
        },
        ProviderId::LocalQwen3 => if compiled.qwen3 {
            "no model"
        } else {
            "not compiled"
        },
        _ => "no api key",
    }
}

/// A word where it applies.
pub open spec fn word_if(applies: bool, word: Seq<char>) -> Seq<Seq<char>> {
    if applies {
        seq![word]
    } else {
        Seq::empty()
    }
}

/// The words that sum capabilities up.
pub open spec fn ability_words(caps: CapabilitiesView) -> Seq<Seq<char>> {
    word_if(caps.batch_stt, "stt"@) + word_if(caps.batch_tts, "tts"@) + word_if(
        caps.streaming_stt || caps.streaming_tts,
        "streaming"@,
    ) + word_if(caps.diarization, "diarization"@) + word_if(
        caps.word_timestamps,
        "word-timestamps"@,
    ) + word_if(caps.keyterms, "keyterms"@)
}

fn push_if(parts: &mut Vec<String>, applies: bool, word: &str)
    ensures
        final(parts).deep_view() == old(parts).deep_view() + word_if(applies, word@),
{
    let ghost before = parts.deep_view();
    if applies {
        parts.push(word.to_owned());
    }
    assert(parts.deep_view() =~= before + word_if(applies, word@));
}

/// Capabilities in a few words.
pub fn summarize(caps: &ProviderCapabilities) -> (r: String)
    ensures
        r@ == text::join(ability_words(caps.deep_view()), ", "@),
{
    let mut parts: Vec<String> = Vec::new();
    assert(parts.deep_view() =~= Seq::empty());
    push_if(&mut parts, caps.batch_stt, "stt");
    assert(parts.deep_view() =~= word_if(caps.batch_stt, "stt"@));
    push_if(&mut parts, caps.batch_tts, "tts");
    push_if(&mut parts, caps.streaming_stt || caps.streaming_tts, "streaming");
    push_if(&mut parts, caps.diarization, "diarization");
    push_if(&mut parts, caps.word_timestamps, "word-timestamps");
    push_if(&mut parts, caps.keyterms, "keyterms");
    text::joined(&parts, ", ")
}

/// The capabilities of a provider in a few words: of a remote one, what its
/// adapter with default settings declares.
pub open spec fn summary_text(id: ProviderId) -> Seq<char> {
    match id {
        ProviderId::LocalCanary => "stt (local, 25 languages, offline)"@,
        ProviderId::LocalQwen3 => "tts (local, named voices, 10 languages, offline)"@,
        ProviderId::Openai => text::join(seq!["stt"@, "tts"@, "word-timestamps"@], ", "@),
        ProviderId::Elevenlabs => text::join(
            seq!["stt"@, "tts"@, "diarization"@, "word-timestamps"@, "keyterms"@],
            ", "@,
        ),
        ProviderId::Cartesia => text::join(seq!["stt"@, "tts"@, "word-timestamps"@], ", "@),
        ProviderId::Xai => text::join(
            seq![
                "stt"@,
                "tts"@,
                "streaming"@,
                "diarization"@,
                "word-timestamps"@,
                "keyterms"@,
            ],
            ", "@,
        ),
    }
}

pub fn capability_summary(id: ProviderId) -> (r: String)
    ensures
        r@ == summary_text(id),
{
    match id {
        ProviderId::LocalCanary => "stt (local, 25 languages, offline)".to_owned(),
        ProviderId::LocalQwen3 => "tts (local, named voices, 10 languages, offline)".to_owned(),
        ProviderId::Openai => {
            let p = OpenAiProvider::new("-", OpenAiSettings::default());
            let caps = p.capabilities();
            proof {
                reveal_strlit("whisper-1");
                reveal_strlit("whisper");
                assert("whisper-1"@.take(7) =~= "whisper"@);
                assert(crate::openai::is_whisper("whisper-1"@));
                assert(ability_words(caps.deep_view()) =~= seq![
                    "stt"@,
                    "tts"@,
                    "word-timestamps"@,
                ]);
            }
            summarize(&caps)
        },
        ProviderId::Elevenlabs => {
            let p = ElevenLabsProvider::new("-", ElevenLabsSettings::default());
            let caps = p.capabilities();
            assert(ability_words(caps.deep_view()) =~= seq![
                "stt"@,
                "tts"@,
                "diarization"@,
                "word-timestamps"@,
                "keyterms"@,
            ]);
            summarize(&caps)
        },
        ProviderId::Cartesia => {
            let p = CartesiaProvider::new("-", CartesiaSettings::default());
            let caps = p.capabilities();
            assert(ability_words(caps.deep_view()) =~= seq!["stt"@, "tts"@, "word-timestamps"@]);
            summarize(&caps)
        },
        ProviderId::Xai => {
            let p = XaiProvider::new("-", XaiSettings::default());
            let caps = p.capabilities();
            assert(ability_words(caps.deep_view()) =~= seq![
                "stt"@,
                "tts"@,
                "streaming"@,
                "diarization"@,
                "word-timestamps"@,
                "keyterms"@,
            ]);
            summarize(&caps)
        },
    }
}

/// A line of the table of providers.
pub open spec fn provider_line(id: ProviderId, configured: bool, compiled: Compiled) -> Seq<char> {
    text::pad_right(id.name(), 14) + " "@ + text::pad_right(
        status_text(id, configured, compiled),
        12,
    ) + " "@ + summary_text(id)
}

/// The table of providers, as lines.
pub open spec fn provider_table(configured: Seq<ProviderId>, compiled: Compiled) -> Seq<Seq<char>> {
    seq![text::pad_right("PROVIDER"@, 14) + " "@ + text::pad_right("STATUS"@, 12)
        + " CAPABILITIES"@] + Seq::new(
        6,
        |i: int|
            provider_line(
                ProviderId::ALL@[i],
                configured.contains(ProviderId::ALL@[i]),
                compiled,
            ),
    )
}

fn has_provider(list: &Vec<ProviderId>, id: ProviderId) -> (r: bool)
    ensures
        r == list@.contains(id),
{
    let mut i: usize = 0;
    while i < list.len()
        invariant
            i <= list@.len(),
            forall|j: int| 0 <= j < i ==> list@[j] != id,
        decreases list@.len() - i,
    {
        if list[i] == id {
            return true;
        }
        i = i + 1;
    }
    false
}

fn make_provider_line(id: ProviderId, configured: bool, compiled: Compiled) -> (r: String)
    ensures
        r@ == provider_line(id, configured, compiled),
{
    let mut line = text::padded_right(id.as_str(), 14);
    line.append(" ");
    line.append(&text::padded_right(provider_status(id, configured, compiled), 12));
    line.append(" ");
    line.append(&capability_summary(id));
    line
}

/// The table of providers, as lines.
pub fn providers_list(configured: &Vec<ProviderId>, compiled: Compiled) -> (r: Vec<String>)
    ensures
        r.deep_view() == provider_table(configured@, compiled),
{
    let mut r: Vec<String> = Vec::new();
    let mut head = text::padded_right("PROVIDER", 14);
    head.append(" ");
    head.append(&text::padded_right("STATUS", 12));
    head.append(" CAPABILITIES");
    r.push(head);
    let all = ProviderId::ALL;
    let mut i: usize = 0;
    while i < 6
        invariant
            i <= 6,
            all == ProviderId::ALL,
            r@.len() == i + 1,
            r@[0]@ == provider_table(configured@, compiled)[0],
            forall|j: int|
                0 <= j < i ==> (#[trigger] r@[j + 1])@ == provider_table(
                    configured@,
                    compiled,
                )[j + 1],
        decreases 6 - i,
    {
        let id = all[i];
        r.push(make_provider_line(id, has_provider(configured, id), compiled));
        i = i + 1;
    }
    assert(r.deep_view() =~= provider_table(configured@, compiled)) by {
        let table = provider_table(configured@, compiled);
        assert forall|k: int| 0 <= k < 7 implies r.deep_view()[k] == table[k] by {
            if k > 0 {
                assert(r@[(k - 1) + 1]@ == table[(k - 1) + 1]);
            }
        }
    }
    r
}

// ---------------------------------------------------------------------------
// Diagnosis
// ---------------------------------------------------------------------------

/// What a diagnosis finds on the machine.
#[derive(Debug)]
pub struct Findings {
    pub ffmpeg: bool,
    pub compiled: Compiled,
    pub models_dir: String,
    pub canary_installed: bool,
    pub qwen3: Option<Qwen3Source>,
}

pub open spec fn yes_no(b: bool) -> Seq<char> {
    if b {
        "true"@
    } else {
        "false"@
    }
}

/// What is said of where the local text-to-speech model is found.
pub open spec fn qwen3_text(source: Option<Qwen3Source>) -> Seq<char> {
    match source {
        Some(Qwen3Source::Dir(d)) => "dir: "@ + d@,
        Some(Qwen3Source::HfCache) => "huggingface cache (shared)"@,
        None => "missing (run: openvoice models fetch qwen3-tts)"@,
    }
}

/// The lines about a remote provider.
pub open spec fn key_lines(id: ProviderId, variable: Seq<char>, present: bool) -> Seq<Seq<char>> {
    seq![
        id.name() + ":"@,
        "  api key: "@ + if present {
            "present"@
        } else {
            "missing (export "@ + variable + "=...)"@
        },
    ]
}

/// The lines of a diagnosis.
pub open spec fn doctor_lines(
    config: Config,
    findings: Findings,
    configured: Seq<ProviderId>,
) -> Seq<Seq<char>> {
    seq![
        "ffmpeg: "@ + if findings.ffmpeg {
            "ok"@
        } else {
            "MISSING (transcoding and local/streaming decode will fail)"@
        },
        Seq::empty(),
        "local-canary:"@,
        "  compiled: "@ + yes_no(findings.compiled.canary),
        "  models dir: "@ + findings.models_dir@,
        "  model: "@ + if findings.canary_installed {
            "installed"@
        } else {
            "missing (run: openvoice models fetch canary-1b-v2)"@
        },
        "local-qwen3:"@,
        "  compiled: "@ + yes_no(findings.compiled.qwen3),
        "  model: "@ + qwen3_text(findings.qwen3),
    ] + key_lines(
        ProviderId::Openai,
        config.providers.openai.api_key_env@,
        configured.contains(ProviderId::Openai),
    ) + key_lines(
        ProviderId::Elevenlabs,
        config.providers.elevenlabs.api_key_env@,
        configured.contains(ProviderId::Elevenlabs),
    ) + key_lines(
        ProviderId::Cartesia,
        config.providers.cartesia.api_key_env@,
        configured.contains(ProviderId::Cartesia),
    ) + key_lines(
        ProviderId::Xai,
        config.providers.xai.api_key_env@,
        configured.contains(ProviderId::Xai),
    )
}

fn two(a: &str, b: &str) -> (r: String)
    ensures
        r@ == a@ + b@,
{
    let mut r = a.to_owned();
    r.append(b);
    r
}

fn push_key_lines(lines: &mut Vec<String>, id: ProviderId, variable: &str, present: bool)
    ensures
        final(lines).deep_view() == old(lines).deep_view() + key_lines(id, variable@, present),
{
    let ghost before = lines.deep_view();
    lines.push(two(id.as_str(), ":"));
    let state = if present {
        "present".to_owned()
    } else {
        two(&two("missing (export ", variable), "=...)")
    };
    lines.push(two("  api key: ", &state));
    assert(lines.deep_view() =~= before + key_lines(id, variable@, present));
}

fn local_lines(findings: &Findings) -> (r: Vec<String>)
    ensures
        r.deep_view() == seq![
            "ffmpeg: "@ + if findings.ffmpeg {
                "ok"@
            } else {
                "MISSING (transcoding and local/streaming decode will fail)"@
            },
            Seq::empty(),
            "local-canary:"@,
            "  compiled: "@ + yes_no(findings.compiled.canary),
            "  models dir: "@ + findings.models_dir@,
            "  model: "@ + if findings.canary_installed {
                "installed"@
            } else {
                "missing (run: openvoice models fetch canary-1b-v2)"@
            },
            "local-qwen3:"@,
            "  compiled: "@ + yes_no(findings.compiled.qwen3),
            "  model: "@ + qwen3_text(findings.qwen3),
        ],
{
    let mut r: Vec<String> = Vec::new();
    r.push(
        two(
            "ffmpeg: ",
            if findings.ffmpeg {
                "ok"
            } else {
                "MISSING (transcoding and local/streaming decode will fail)"
            },
        ),
    );
    r.push(String::new());
    assert(r@[1]@ =~= Seq::<char>::empty());
    r.push("local-canary:".to_owned());
    r.push(
        two(
            "  compiled: ",
            if findings.compiled.canary {
                "true"
            } else {
                "false"
            },
        ),
    );
    r.push(two("  models dir: ", &findings.models_dir));
    r.push(
        two(
            "  model: ",
            if findings.canary_installed {
                "installed"
            } else {
                "missing (run: openvoice models fetch canary-1b-v2)"
            },
        ),
    );
    r.push("local-qwen3:".to_owned());
    r.push(
        two(
            "  compiled: ",
            if findings.compiled.qwen3 {
                "true"
            } else {
                "false"
            },
        ),
    );
    let source = match &findings.qwen3 {
        Some(Qwen3Source::Dir(d)) => two("dir: ", d),
        Some(Qwen3Source::HfCache) => "huggingface cache (shared)".to_owned(),
        None => "missing (run: openvoice models fetch qwen3-tts)".to_owned(),
    };
    r.push(two("  model: ", &source));
    r
}

/// The lines of a diagnosis. A remote provider is `configured` where its key
/// was found.
pub fn providers_doctor(config: &Config, findings: &Findings, configured: &Vec<ProviderId>) -> (r:
    Vec<String>)
    ensures
        r.deep_view() == doctor_lines(*config, *findings, configured@),
{
    let mut r = local_lines(findings);
    push_key_lines(
        &mut r,
        ProviderId::Openai,
        &config.providers.openai.api_key_env,
        has_provider(configured, ProviderId::Openai),
    );
    push_key_lines(
        &mut r,
        ProviderId::Elevenlabs,
        &config.providers.elevenlabs.api_key_env,
        has_provider(configured, ProviderId::Elevenlabs),
    );
    push_key_lines(
        &mut r,
        ProviderId::Cartesia,
        &config.providers.cartesia.api_key_env,
        has_provider(configured, ProviderId::Cartesia),
    );
    push_key_lines(
        &mut r,
        ProviderId::Xai,
        &config.providers.xai.api_key_env,
        has_provider(configured, ProviderId::Xai),
    );
    r
}

// ---------------------------------------------------------------------------
// Models
// ---------------------------------------------------------------------------

/// A line of the list of models. `hf_cache` says whether the shared cache holds
/// the text-to-speech model.
pub fn model_line(name: &str, installed: bool, hf_cache: bool, description: &str) -> (r: String)
    ensures
        r@ == text::pad_right(name@, 16) + " "@ + text::pad_right(
            if installed {
                "installed"@
            } else if name@ == "qwen3-tts"@ && hf_cache {
                "hf-cache"@
            } else {
                "missing"@
            },
            12,
        ) + " "@ + description@,
{
    let status = if installed {
        "installed"
    } else if text::same(name, "qwen3-tts") && hf_cache {
        "hf-cache"
    } else {
        "missing"
    };
    let mut line = text::padded_right(name, 16);
    line.append(" ");
    line.append(&text::padded_right(status, 12));
    line.append(" ");
    line.append(description);
    line
}

/// What is said of a model name that the registry does not know.
pub fn unknown_model(name: &str) -> (r: String)
    ensures
        r@ == "unknown model '"@ + name@ + "' (see: openvoice models list)"@,
{
    two(&two("unknown model '", name), "' (see: openvoice models list)")
}

/// What is said after a fetch where this build cannot run the model.
pub fn fetch_note(name: &str, compiled: Compiled) -> (r: Option<String>)
    ensures
        r.deep_view() == if name@ == "qwen3-tts"@ {
            if compiled.qwen3 {
                None
            } else {
                Some(
                    "note: this build cannot run the model (compile with --features local-tts to use it)"@,
                )
            }
        } else {
            if compiled.canary {
                None
            } else {
                Some(
                    "note: this build cannot run the model (compile with --features local to use it)"@,
                )
            }
        },
{
    if text::same(name, "qwen3-tts") {
        if compiled.qwen3 {
            None
        } else {
            Some(
                "note: this build cannot run the model (compile with --features local-tts to use it)".to_owned(),
            )
        }
    } else {
        if compiled.canary {
            None
        } else {
            Some(
                "note: this build cannot run the model (compile with --features local to use it)".to_owned(),
            )
        }
    }
}

/// What stands in the way of the local smoke check, if anything.
pub fn smoke_obstacle(compiled: Compiled, canary_installed: bool, qwen3_found: bool) -> (r: Option<
    &'static str,
>)
    ensures
        r.deep_view() == if !compiled.canary || !compiled.qwen3 {
            Some("local smoke requires a build with local STT and local TTS features"@)
        } else if !canary_installed {
            Some("local-canary model missing (run: openvoice models fetch canary-1b-v2)"@)
        } else if !qwen3_found {
            Some("local-qwen3 model missing (run: openvoice models fetch qwen3-tts)"@)
        } else {
            None
        },
{
    if !compiled.canary || !compiled.qwen3 {
        Some("local smoke requires a build with local STT and local TTS features")
    } else if !canary_installed {
        Some("local-canary model missing (run: openvoice models fetch canary-1b-v2)")
    } else if !qwen3_found {
        Some("local-qwen3 model missing (run: openvoice models fetch qwen3-tts)")
    } else {
        None
    }
}

// ---------------------------------------------------------------------------
// Voices
// ---------------------------------------------------------------------------

/// Named speakers of the local text-to-speech model.
pub const QWEN3_TTS_VOICES: [&'static str; 9] = [
    "ryan",
    "serena",
    "vivian",
    "uncle_fu",
    "aiden",
    "ono_anna",
    "sohee",
    "eric",
    "dylan",
];

#[derive(Debug, Clone, Copy, PartialEq, Eq, Structural)]
pub enum VoiceProviderFilter {
    All,
    Local,
    Xai,
}

#[derive(Debug, Clone)]
pub struct VoicesListArgs {
    /// Voice source to list.
    pub provider: VoiceProviderFilter,
    /// Only show custom voices.
    pub custom_only: bool,
    /// Emit JSON instead of a table.
    pub json: bool,
    /// Page size of custom voices.
    pub limit: u32,
    /// Pagination token of custom voices.
    pub page_token: Option<String>,
}

/// A row of the table of voices.
#[derive(Debug)]
pub struct VoiceRow {
    pub provider: String,
    pub id: String,
    pub name: String,
    pub kind: String,
    pub description: String,
}

/// What a [`VoiceRow`] says.
pub struct RowView {
    pub provider: Seq<char>,
    pub id: Seq<char>,
    pub name: Seq<char>,
    pub kind: Seq<char>,
    pub description: Seq<char>,
}

impl DeepView for VoiceRow {
    type V = RowView;

    open spec fn deep_view(&self) -> RowView {
        RowView {
            provider: self.provider@,
            id: self.id@,
            name: self.name@,
            kind: self.kind@,
            description: self.description@,
        }
    }
}

/// The row of a local voice.
pub open spec fn local_row(i: int) -> RowView {
    RowView {
        provider: "local-qwen3"@,
        id: QWEN3_TTS_VOICES@[i]@,
        name: QWEN3_TTS_VOICES@[i]@,
        kind: "built-in"@,
        description: Seq::empty(),
    }
}

/// The row of a built-in voice of the xAI service.
pub open spec fn built_in_row(i: int) -> RowView {
    RowView {
        provider: "xai"@,
        id: XAI_BUILT_IN_VOICES@[i].0@,
        name: XAI_BUILT_IN_VOICES@[i].1@,
        kind: "built-in"@,
        description: XAI_BUILT_IN_VOICES@[i].2@,
    }
}

/// The row of a custom voice: described by its description, else its tone,
/// else its use case.
pub open spec fn custom_row(voice: XaiVoice) -> RowView {
    RowView {
        provider: "xai"@,
        id: voice.voice_id@,
        name: text::or(voice.name.deep_view(), Seq::empty()),
        kind: "custom"@,
        description: if voice.description is Some {
            voice.description->Some_0@
        } else if voice.tone is Some {
            voice.tone->Some_0@
        } else {
            text::or(voice.use_case.deep_view(), Seq::empty())
        },
    }
}

/// Whether local voices are listed.
pub open spec fn lists_local(args: VoicesListArgs) -> bool {
    !args.custom_only && args.provider != VoiceProviderFilter::Xai
}

/// Whether built-in voices of the xAI service are listed.
pub open spec fn lists_built_in(args: VoicesListArgs) -> bool {
    !args.custom_only && args.provider != VoiceProviderFilter::Local
}

/// Whether custom voices are asked for.
pub open spec fn lists_custom(args: VoicesListArgs) -> bool {
    args.provider != VoiceProviderFilter::Local
}

/// The rows of the table of voices: local ones, built-in ones, custom ones.
pub open spec fn voice_rows(args: VoicesListArgs, custom: Seq<XaiVoice>) -> Seq<RowView> {
    (if lists_local(args) {
        Seq::new(9, |i: int| local_row(i))
    } else {
        Seq::empty()
    }) + (if lists_built_in(args) {
        Seq::new(5, |i: int| built_in_row(i))
    } else {
        Seq::empty()
    }) + (if lists_custom(args) {
        Seq::new(custom.len(), |i: int| custom_row(custom[i]))
    } else {
        Seq::empty()
    })
}

/// Whether custom voices are to be fetched.
pub fn wants_custom_voices(args: &VoicesListArgs) -> (r: bool)
    ensures
        r == lists_custom(*args),
{
    !matches!(args.provider, VoiceProviderFilter::Local)
}

/// What is said where custom voices were asked for and there is no key for
/// them.
pub fn missing_key_warning(args: &VoicesListArgs) -> (r: Option<&'static str>)
    ensures
        r.deep_view() == if lists_custom(*args) && (args.custom_only || args.provider
            == VoiceProviderFilter::Xai) {
            Some("warn: XAI_API_KEY missing; custom voices are not listed"@)
        } else {
            None
        },
{
    if wants_custom_voices(args) && (args.custom_only || matches!(
        args.provider,
        VoiceProviderFilter::Xai
    )) {
        Some("warn: XAI_API_KEY missing; custom voices are not listed")
    } else {
        None
    }
}

fn push_local_rows(rows: &mut Vec<VoiceRow>)
    ensures
        final(rows).deep_view() == old(rows).deep_view() + Seq::new(9, |i: int| local_row(i)),
{
    let ghost before = rows.deep_view();
    let voices = QWEN3_TTS_VOICES;
    let mut i: usize = 0;
    assert(before =~= before + Seq::new(9, |i: int| local_row(i)).take(0));
    while i < 9
        invariant
            i <= 9,
            voices == QWEN3_TTS_VOICES,
            rows.deep_view() == before + Seq::new(9, |i: int| local_row(i)).take(i as int),
        decreases 9 - i,
    {
        let row = VoiceRow {
            provider: "local-qwen3".to_owned(),
            id: voices[i].to_owned(),
            name: voices[i].to_owned(),
            kind: "built-in".to_owned(),
            description: String::new(),
        };
        assert(row.description@ =~= Seq::<char>::empty());
        assert(row.deep_view() == local_row(i as int));
        let ghost now = rows.deep_view();
        rows.push(row);
        assert(rows.deep_view() =~= now.push(local_row(i as int)));
        assert(rows.deep_view() =~= before + Seq::new(9, |i: int| local_row(i)).take(i + 1));
        i = i + 1;
    }
    assert(Seq::new(9, |i: int| local_row(i)).take(9) =~= Seq::new(9, |i: int| local_row(i)));
}

fn push_built_in_rows(rows: &mut Vec<VoiceRow>)
    ensures
        final(rows).deep_view() == old(rows).deep_view() + Seq::new(5, |i: int| built_in_row(i)),
{
    let ghost before = rows.deep_view();
    let voices = XAI_BUILT_IN_VOICES;
    let mut i: usize = 0;
    assert(before =~= before + Seq::new(5, |i: int| built_in_row(i)).take(0));
    while i < 5
        invariant
            i <= 5,
            voices == XAI_BUILT_IN_VOICES,
            rows.deep_view() == before + Seq::new(5, |i: int| built_in_row(i)).take(i as int),
        decreases 5 - i,
    {
        let voice = voices[i];
        let row = VoiceRow {
            provider: "xai".to_owned(),
            id: voice.0.to_owned(),
            name: voice.1.to_owned(),
            kind: "built-in".to_owned(),
            description: voice.2.to_owned(),
        };
        assert(row.deep_view() == built_in_row(i as int));
        let ghost now = rows.deep_view();
        rows.push(row);
        assert(rows.deep_view() =~= now.push(built_in_row(i as int)));
        assert(rows.deep_view() =~= before + Seq::new(5, |i: int| built_in_row(i)).take(i + 1));
        i = i + 1;
    }
    assert(Seq::new(5, |i: int| built_in_row(i)).take(5) =~= Seq::new(5, |i: int| built_in_row(i)));
}

fn make_custom_row(voice: &XaiVoice) -> (r: VoiceRow)
    ensures
        r.deep_view() == custom_row(*voice),
{
    let description = if let Some(d) = &voice.description {
        d.clone()
    } else if let Some(t) = &voice.tone {
        t.clone()
    } else if let Some(u) = &voice.use_case {
        u.clone()
    } else {
        String::new()
    };
    assert(description@ =~= custom_row(*voice).description);
    let name = match &voice.name {
        Some(n) => n.clone(),
        None => String::new(),
    };
    assert(name@ =~= custom_row(*voice).name);
    VoiceRow {
        provider: "xai".to_owned(),
        id: voice.voice_id.clone(),
        name,
        kind: "custom".to_owned(),
        description,
    }
}

fn push_custom_rows(rows: &mut Vec<VoiceRow>, custom: &Vec<XaiVoice>)
    ensures
        final(rows).deep_view() == old(rows).deep_view() + Seq::new(
            custom@.len(),
            |i: int| custom_row(custom@[i]),
        ),
{
    let ghost before = rows.deep_view();
    let ghost added = Seq::new(custom@.len(), |i: int| custom_row(custom@[i]));
    let mut i: usize = 0;
    assert(before =~= before + added.take(0));
    while i < custom.len()
        invariant
            i <= custom@.len(),
            added == Seq::new(custom@.len(), |i: int| custom_row(custom@[i])),
            rows.deep_view() == before + added.take(i as int),
        decreases custom@.len() - i,
    {
        let row = make_custom_row(&custom[i]);
        let ghost now = rows.deep_view();
        rows.push(row);
        assert(rows.deep_view() =~= now.push(added[i as int]));
        assert(rows.deep_view() =~= before + added.take(i + 1));
        i = i + 1;
    }
    assert(added.take(i as int) =~= added);
}

/// The rows of the table of voices. `custom` holds the custom voices, where
/// they were fetched.
pub fn voices_list(args: &VoicesListArgs, custom: &Vec<XaiVoice>) -> (r: Vec<VoiceRow>)
    ensures
        r.deep_view() == voice_rows(*args, custom@),
{
    let mut rows: Vec<VoiceRow> = Vec::new();
    assert(rows.deep_view() =~= Seq::empty());
    if !args.custom_only && !matches!(args.provider, VoiceProviderFilter::Xai) {
        push_local_rows(&mut rows);
    }
    let ghost r0 = rows.deep_view();
    assert(r0 =~= if lists_local(*args) {
        Seq::new(9, |i: int| local_row(i))
    } else {
        Seq::empty()
    });
    if !args.custom_only && !matches!(args.provider, VoiceProviderFilter::Local) {
        push_built_in_rows(&mut rows);
    }
    let ghost r1 = rows.deep_view();
    assert(r1 =~= r0 + (if lists_built_in(*args) {
        Seq::new(5, |i: int| built_in_row(i))
    } else {
        Seq::empty()
    }));
    if wants_custom_voices(args) {
        push_custom_rows(&mut rows, custom);
    }
    assert(rows.deep_view() =~= r1 + (if lists_custom(*args) {
        Seq::new(custom@.len(), |i: int| custom_row(custom@[i]))
    } else {
        Seq::empty()
    }));
    rows
}

/// A line of the table of voices.
pub open spec fn table_line(
    provider: Seq<char>,
    kind: Seq<char>,
    id: Seq<char>,
    name: Seq<char>,
    description: Seq<char>,
) -> Seq<char> {
    text::pad_right(provider, 14) + " "@ + text::pad_right(kind, 12) + " "@ + text::pad_right(
        id,
        10,
    ) + " "@ + text::pad_right(name, 18) + " "@ + description
}

fn make_table_line(provider: &str, kind: &str, id: &str, name: &str, description: &str) -> (r:
    String)
    ensures
        r@ == table_line(provider@, kind@, id@, name@, description@),
{
    let mut line = text::padded_right(provider, 14);
    line.append(" ");
    line.append(&text::padded_right(kind, 12));
    line.append(" ");
    line.append(&text::padded_right(id, 10));
    line.append(" ");
    line.append(&text::padded_right(name, 18));
    line.append(" ");
    line.append(description);
    line
}

/// The table of voices, as lines under a heading.
pub fn voice_table(rows: &Vec<VoiceRow>) -> (r: Vec<String>)
    ensures
        r@.len() == rows@.len() + 1,
        r@[0]@ == table_line("PROVIDER"@, "KIND"@, "ID"@, "NAME"@, "DESCRIPTION"@),
        forall|i: int|
            0 <= i < rows@.len() ==> #[trigger] r.deep_view()[i + 1] == table_line(
                rows@[i].provider@,
                rows@[i].kind@,
                rows@[i].id@,
                rows@[i].name@,
                rows@[i].description@,
            ),
{
    let mut r: Vec<String> = Vec::new();
    r.push(make_table_line("PROVIDER", "KIND", "ID", "NAME", "DESCRIPTION"));
    let mut i: usize = 0;
    while i < rows.len()
        invariant
            i <= rows@.len(),
            r@.len() == i + 1,
            r@[0]@ == table_line("PROVIDER"@, "KIND"@, "ID"@, "NAME"@, "DESCRIPTION"@),
            forall|j: int|
                0 <= j < i ==> #[trigger] r.deep_view()[j + 1] == table_line(
                    rows@[j].provider@,
                    rows@[j].kind@,
                    rows@[j].id@,
                    rows@[j].name@,
                    rows@[j].description@,
                ),
        decreases rows@.len() - i,
    {
        let row = &rows[i];
        let line = make_table_line(
            &row.provider,
            &row.kind,
            &row.id,
            &row.name,
            &row.description,
        );
        let ghost before = r.deep_view();
        r.push(line);
        assert(r.deep_view() =~= before.push(line@));
        i = i + 1;
    }
    r
}

#[derive(Debug, Clone)]
pub struct VoiceCloneArgs {
    /// Reference audio file.
    pub file: String,
    /// Display name for the custom voice.
    pub name: String,
    pub description: Option<String>,
    pub gender: Option<String>,
    pub accent: Option<String>,
    pub age: Option<String>,
    pub language: Option<String>,
    pub use_case: Option<String>,
    pub tone: Option<String>,
}

#[derive(Debug, Clone)]
pub struct VoiceUpdateArgs {
    pub id: String,
    pub name: Option<String>,
    pub description: Option<String>,
    pub gender: Option<String>,
    pub accent: Option<String>,
    pub age: Option<String>,
    pub language: Option<String>,
    pub use_case: Option<String>,
    pub tone: Option<String>,
}

/// The request that clones a voice from a file that is there, or what is said
/// where it is not.
pub fn clone_request(args: &VoiceCloneArgs, is_file: bool) -> (r: Result<
    CustomVoiceCreateRequest,
    String,
>)
    ensures
        match r {
            Ok(q) => is_file && q.file.deep_view() == SourceView::File(args.file@) && q.name@
                == args.name@ && q.description.deep_view() == args.description.deep_view()
                && q.gender.deep_view() == args.gender.deep_view() && q.accent.deep_view()
                == args.accent.deep_view() && q.age.deep_view() == args.age.deep_view()
                && q.language.deep_view() == args.language.deep_view() && q.use_case.deep_view()
                == args.use_case.deep_view() && q.tone.deep_view() == args.tone.deep_view(),
            Err(e) => !is_file && e@ == "reference audio '"@ + args.file@ + "' is not readable"@,
        },
{
    if !is_file {
        return Err(two(&two("reference audio '", &args.file), "' is not readable"));
    }
    Ok(
        CustomVoiceCreateRequest {
            file: AudioSource::File(args.file.clone()),
            name: args.name.clone(),
            description: text::copied(&args.description),
            gender: text::copied(&args.gender),
            accent: text::copied(&args.accent),
            age: text::copied(&args.age),
            language: text::copied(&args.language),
            use_case: text::copied(&args.use_case),
            tone: text::copied(&args.tone),
        },
    )
}

/// The change that the arguments ask for.
pub fn update_request(args: &VoiceUpdateArgs) -> (r: CustomVoiceUpdateRequest)
    ensures
        r.name.deep_view() == args.name.deep_view(),
        r.description.deep_view() == args.description.deep_view(),
        r.gender.deep_view() == args.gender.deep_view(),
        r.accent.deep_view() == args.accent.deep_view(),
        r.age.deep_view() == args.age.deep_view(),
        r.language.deep_view() == args.language.deep_view(),
        r.use_case.deep_view() == args.use_case.deep_view(),
        r.tone.deep_view() == args.tone.deep_view(),
{
    CustomVoiceUpdateRequest {
        name: text::copied(&args.name),
        description: text::copied(&args.description),
        gender: text::copied(&args.gender),
        accent: text::copied(&args.accent),
        age: text::copied(&args.age),
        language: text::copied(&args.language),
        use_case: text::copied(&args.use_case),
        tone: text::copied(&args.tone),
    }
}

/// What is said of a deletion that was not confirmed.
pub fn delete_refusal(id: &str) -> (r: String)
    ensures
        r@ == "refusing to delete custom voice '"@ + id@ + "' without --yes"@,
{
    two(&two("refusing to delete custom voice '", id), "' without --yes")
}

/// The report of a deletion.
pub fn deletion_report(id: &str, deleted: bool) -> (r: String)
    ensures
        r@ == json::json_written(
            Json::empty().with("voice_id"@, Json::Text(id@)).with("deleted"@, Json::Bool(deleted)),
        ),
{
    let mut v = json::object();
    json::put_text(&mut v, "voice_id", id);
    json::put(&mut v, "deleted", json::boolean(deleted));
    json::write(&v)
}

// ---------------------------------------------------------------------------
// Smoke checks
// ---------------------------------------------------------------------------

/// What a smoke check exercises.
#[derive(Debug, Clone, Copy, PartialEq, Eq, Structural)]
pub enum SmokeTarget {
    Local,
    Xai,
}

/// The language of a smoke check.
pub open spec fn smoke_language(target: SmokeTarget) -> Seq<char> {
    match target {
        SmokeTarget::Local => "es"@,
        SmokeTarget::Xai => "en"@,
    }
}

/// The providers that speak and transcribe in a smoke check.
pub fn smoke_providers(target: SmokeTarget) -> (r: (ProviderId, ProviderId))
    ensures
        r == match target {
            SmokeTarget::Local => (ProviderId::LocalQwen3, ProviderId::LocalCanary),
            SmokeTarget::Xai => (ProviderId::Xai, ProviderId::Xai),
        },
{
    match target {
        SmokeTarget::Local => (ProviderId::LocalQwen3, ProviderId::LocalCanary),
        SmokeTarget::Xai => (ProviderId::Xai, ProviderId::Xai),
    }
}

fn language(target: SmokeTarget) -> (r: Language)
    ensures
        r.deep_view() == smoke_language(target),
{
    match target {
        SmokeTarget::Local => {
            proof {
                reveal_strlit("es");
                text::lemma_trim_solid("es"@);
            }
            Language::new("es")
        },
        SmokeTarget::Xai => {
            proof {
                reveal_strlit("en");
                text::lemma_trim_solid("en"@);
            }
            Language::new("en")
        },
    }
}

/// The speech that a smoke check asks for.
pub fn smoke_speech(target: SmokeTarget) -> (r: SpeechRequest)
    ensures
        r.text@ == match target {
            SmokeTarget::Local => "Hola, esta es una prueba local de open voice."@,
            SmokeTarget::Xai => "Open voice xAI smoke test."@,
        },
        r.language.deep_view() == Some(smoke_language(target)),
        r.codec == match target {
            SmokeTarget::Local => AudioCodec::Wav,
            SmokeTarget::Xai => AudioCodec::Mp3,
        },
        r.voice is None,
        r.model is None,
        r.sample_rate is None,
        r.bit_rate is None,
        r.speed is None,
        r.optimize_streaming_latency is None,
        r.text_normalization is None,
        !r.with_timestamps,
        r.instructions is None,
{
    let mut speech = match target {
        SmokeTarget::Local => SpeechRequest::new("Hola, esta es una prueba local de open voice."),
        SmokeTarget::Xai => SpeechRequest::new("Open voice xAI smoke test."),
    };
    speech.language = Some(language(target));
    speech.codec = match target {
        SmokeTarget::Local => AudioCodec::Wav,
        SmokeTarget::Xai => AudioCodec::Mp3,
    };
    speech
}

/// The transcription that a smoke check asks for, of the speech.
pub fn smoke_transcription(target: SmokeTarget, source: AudioSource) -> (r: TranscribeRequest)
    ensures
        r.source == source,
        r.language.deep_view() == Some(smoke_language(target)),
        r.model is None,
        !r.diarize,
        r.word_timestamps,
        r.keyterms@.len() == 0,
        r.prompt is None,
{
    let mut request = TranscribeRequest::new(source);
    request.language = Some(language(target));
    request
}

/// The report of a smoke check that went through.
pub fn smoke_report(target: SmokeTarget, transcript: &str) -> (r: String)
    ensures
        r@ == (match target {
            SmokeTarget::Local => "local smoke ok: "@,
            SmokeTarget::Xai => "xai smoke ok: "@,
        }) + text::trim(transcript@),
{
    match target {
        SmokeTarget::Local => two("local smoke ok: ", text::trimmed(transcript)),
        SmokeTarget::Xai => two("xai smoke ok: ", text::trimmed(transcript)),
    }
}

/// What is said where the key of the xAI service is missing.
pub fn missing_key(variable: &str) -> (r: String)
    ensures
        r@ == "xAI API key missing (export "@ + variable@ + "=...)"@,
{
    two(&two("xAI API key missing (export ", variable), "=...)")
}

// ---------------------------------------------------------------------------
// Laws
// ---------------------------------------------------------------------------

/// A provider is ready exactly where it is configured; a remote one that is not lacks
/// its key, and a local one its model, or this build cannot run it.
pub proof fn law_status(id: ProviderId, configured: bool, compiled: Compiled)
    ensures
        configured ==> status_text(id, configured, compiled) == "ready"@,
        !configured && id == ProviderId::LocalCanary ==> status_text(id, configured, compiled)
            == if compiled.canary {
            "no model"@
        } else {
            "not compiled"@
        },
        !configured && id == ProviderId::LocalQwen3 ==> status_text(id, configured, compiled)
            == if compiled.qwen3 {
            "no model"@
        } else {
            "not compiled"@
        },
        !configured && id != ProviderId::LocalCanary && id != ProviderId::LocalQwen3
            ==> status_text(id, configured, compiled) == "no api key"@,
{
}

proof fn lemma_word_if(list: Seq<Seq<char>>, applies: bool, word: Seq<char>)
    ensures
        forall|w: Seq<char>| #[trigger]
            (list + word_if(applies, word)).contains(w) <==> list.contains(w) || (applies && w
                == word),
{
    let all = list + word_if(applies, word);
    assert forall|w: Seq<char>| #[trigger] all.contains(w) <==> list.contains(w) || (applies && w
        == word) by {
        if list.contains(w) {
            assert(all[list.index_of(w)] == w);
        }
        if applies && w == word {
            assert(all[list.len() as int] == w);
        }
    }
}

/// Capabilities are summed up by a word for each that is there, and none that is not.
pub proof fn law_ability_words(caps: CapabilitiesView)
    ensures
        ability_words(caps).contains("stt"@) <==> caps.batch_stt,
        ability_words(caps).contains("tts"@) <==> caps.batch_tts,
        ability_words(caps).contains("streaming"@) <==> caps.streaming_stt || caps.streaming_tts,
        ability_words(caps).contains("diarization"@) <==> caps.diarization,
        ability_words(caps).contains("word-timestamps"@) <==> caps.word_timestamps,
        ability_words(caps).contains("keyterms"@) <==> caps.keyterms,
{
    lemma_ability_names();
    let none = Seq::<Seq<char>>::empty();
    let w1 = word_if(caps.batch_stt, "stt"@);
    let w2 = w1 + word_if(caps.batch_tts, "tts"@);
    let w3 = w2 + word_if(caps.streaming_stt || caps.streaming_tts, "streaming"@);
    let w4 = w3 + word_if(caps.diarization, "diarization"@);
    let w5 = w4 + word_if(caps.word_timestamps, "word-timestamps"@);
    lemma_word_if(none, caps.batch_stt, "stt"@);
    assert(none + w1 =~= w1);
    lemma_word_if(w1, caps.batch_tts, "tts"@);
    lemma_word_if(w2, caps.streaming_stt || caps.streaming_tts, "streaming"@);
    lemma_word_if(w3, caps.diarization, "diarization"@);
    lemma_word_if(w4, caps.word_timestamps, "word-timestamps"@);
    lemma_word_if(w5, caps.keyterms, "keyterms"@);
}

proof fn lemma_ability_names()
    ensures
        "stt"@ != "tts"@,
        "stt"@ != "streaming"@,
        "stt"@ != "diarization"@,
        "stt"@ != "word-timestamps"@,
        "stt"@ != "keyterms"@,
        "tts"@ != "streaming"@,
        "tts"@ != "diarization"@,
        "tts"@ != "word-timestamps"@,
        "tts"@ != "keyterms"@,
        "streaming"@ != "diarization"@,
        "streaming"@ != "word-timestamps"@,
        "streaming"@ != "keyterms"@,
        "diarization"@ != "word-timestamps"@,
        "diarization"@ != "keyterms"@,
        "word-timestamps"@ != "keyterms"@,
{
    reveal_strlit("stt");
    reveal_strlit("tts");
    reveal_strlit("streaming");
    reveal_strlit("diarization");
    reveal_strlit("word-timestamps");
    reveal_strlit("keyterms");
    assert("stt"@.len() == 3);
    assert("tts"@.len() == 3);
    assert("streaming"@.len() == 9);
    assert("diarization"@.len() == 11);
    assert("word-timestamps"@.len() == 15);
    assert("keyterms"@.len() == 8);
    assert("stt"@[0] == 's');
    assert("tts"@[0] == 't');
}

/// The table of providers has a line for each of the six under its heading: its name,
/// its status and what it can do.
pub proof fn law_table_of_providers(configured: Seq<ProviderId>, compiled: Compiled)
    ensures
        provider_table(configured, compiled).len() == 7,
        forall|i: int|
            0 <= i < 6 ==> (#[trigger] provider_table(configured, compiled)[i + 1])
                == text::pad_right(ProviderId::ALL@[i].name(), 14) + seq![' '] + text::pad_right(
                status_text(
                    ProviderId::ALL@[i],
                    configured.contains(ProviderId::ALL@[i]),
                    compiled,
                ),
                12,
            ) + seq![' '] + summary_text(ProviderId::ALL@[i]),
        ProviderId::ALL@.contains(ProviderId::LocalCanary),
        ProviderId::ALL@.contains(ProviderId::LocalQwen3),
        ProviderId::ALL@.contains(ProviderId::Openai),
        ProviderId::ALL@.contains(ProviderId::Elevenlabs),
        ProviderId::ALL@.contains(ProviderId::Cartesia),
        ProviderId::ALL@.contains(ProviderId::Xai),
{
    reveal_strlit(" ");
    assert(" "@ =~= seq![' ']);
    assert(ProviderId::ALL@[0] == ProviderId::LocalCanary);
    assert(ProviderId::ALL@[1] == ProviderId::LocalQwen3);
    assert(ProviderId::ALL@[2] == ProviderId::Openai);
    assert(ProviderId::ALL@[3] == ProviderId::Elevenlabs);
    assert(ProviderId::ALL@[4] == ProviderId::Cartesia);
    assert(ProviderId::ALL@[5] == ProviderId::Xai);
}

/// Of each remote provider the diagnosis says whether its key was found and, where it
/// was not, which variable to set.
pub proof fn law_diagnosis_of_a_key(id: ProviderId, variable: Seq<char>, present: bool)
    ensures
        key_lines(id, variable, present).len() == 2,
        key_lines(id, variable, present)[0] == id.name() + seq![':'],
        present ==> key_lines(id, variable, present)[1] == "  api key: present"@,
        !present ==> key_lines(id, variable, present)[1] == "  api key: missing (export "@
            + variable + "=...)"@,
{
    reveal_strlit(":");
    assert(":"@ =~= seq![':']);
    reveal_strlit("  api key: ");
    reveal_strlit("present");
    reveal_strlit("  api key: present");
    assert("  api key: "@ + "present"@ =~= "  api key: present"@);
    reveal_strlit("missing (export ");
    reveal_strlit("  api key: missing (export ");
    assert("  api key: "@ + "missing (export "@ =~= "  api key: missing (export "@);
    if !present {
        assert(key_lines(id, variable, present)[1] =~= "  api key: missing (export "@ + variable
            + "=...)"@);
    }
}

/// The diagnosis has the lines of every remote provider, each with its own variable and
/// its own key.
pub proof fn law_diagnosis_covers_every_provider(
    config: Config,
    findings: Findings,
    configured: Seq<ProviderId>,
)
    ensures
        ({
            let lines = doctor_lines(config, findings, configured);
            &&& lines.len() == 17
            &&& lines.subrange(9, 11) == key_lines(
                ProviderId::Openai,
                config.providers.openai.api_key_env@,
                configured.contains(ProviderId::Openai),
            )
            &&& lines.subrange(11, 13) == key_lines(
                ProviderId::Elevenlabs,
                config.providers.elevenlabs.api_key_env@,
                configured.contains(ProviderId::Elevenlabs),
            )
            &&& lines.subrange(13, 15) == key_lines(
                ProviderId::Cartesia,
                config.providers.cartesia.api_key_env@,
                configured.contains(ProviderId::Cartesia),
            )
            &&& lines.subrange(15, 17) == key_lines(
                ProviderId::Xai,
                config.providers.xai.api_key_env@,
                configured.contains(ProviderId::Xai),
            )
        }),
{
    let lines = doctor_lines(config, findings, configured);
    assert(lines.subrange(9, 11) =~= key_lines(
        ProviderId::Openai,
        config.providers.openai.api_key_env@,
        configured.contains(ProviderId::Openai),
    ));
    assert(lines.subrange(11, 13) =~= key_lines(
        ProviderId::Elevenlabs,
        config.providers.elevenlabs.api_key_env@,
        configured.contains(ProviderId::Elevenlabs),
    ));
    assert(lines.subrange(13, 15) =~= key_lines(
        ProviderId::Cartesia,
        config.providers.cartesia.api_key_env@,
        configured.contains(ProviderId::Cartesia),
    ));
    assert(lines.subrange(15, 17) =~= key_lines(
        ProviderId::Xai,
        config.providers.xai.api_key_env@,
        configured.contains(ProviderId::Xai),
    ));
}

/// Local voices are listed unless only xAI's or only custom ones are asked for, xAI's
/// built-in ones unless only local or only custom ones are, and custom ones unless only
/// local ones are: first the local, then the built-in, then every custom one in order.
pub proof fn law_listed_voices(args: VoicesListArgs, custom: Seq<XaiVoice>)
    ensures
        ({
            let local = if args.custom_only || args.provider == VoiceProviderFilter::Xai {
                0int
            } else {
                9
            };
            let built_in = if args.custom_only || args.provider == VoiceProviderFilter::Local {
                0int
            } else {
                5
            };
            let mine = if args.provider == VoiceProviderFilter::Local {
                0int
            } else {
                custom.len() as int
            };
            let rows = voice_rows(args, custom);
            &&& rows.len() == local + built_in + mine
            &&& forall|i: int|
                0 <= i < local ==> (#[trigger] rows[i]).provider == "local-qwen3"@ && rows[i].kind
                    == "built-in"@ && rows[i].id == QWEN3_TTS_VOICES@[i]@
            &&& forall|i: int|
                0 <= i < built_in ==> (#[trigger] rows[local + i]).provider == "xai"@ && rows[local
                    + i].kind == "built-in"@ && rows[local + i].id == XAI_BUILT_IN_VOICES@[i].0@
                    && rows[local + i].name == XAI_BUILT_IN_VOICES@[i].1@
            &&& forall|i: int|
                0 <= i < mine ==> is_row_of(#[trigger] rows[local + built_in + i], custom[i])
        }),
{
}

/// Whether a row is that of a custom voice: its id, its name where it has one, and what
/// describes it: its description, else its tone, else its use case.
pub open spec fn is_row_of(row: RowView, voice: XaiVoice) -> bool {
    &&& row.provider == "xai"@
    &&& row.kind == "custom"@
    &&& row.id == voice.voice_id@
    &&& row.name == match voice.name {
        Some(n) => n@,
        None => Seq::empty(),
    }
    &&& row.description == match (voice.description, voice.tone, voice.use_case) {
        (Some(d), _, _) => d@,
        (None, Some(t), _) => t@,
        (None, None, Some(u)) => u@,
        (None, None, None) => Seq::empty(),
    }
}

/// A line of the table of voices shows all five columns, in order.
pub proof fn law_voice_lines(
    provider: Seq<char>,
    kind: Seq<char>,
    id: Seq<char>,
    name: Seq<char>,
    description: Seq<char>,
)
    ensures
        table_line(provider, kind, id, name, description) == text::pad_right(provider, 14) + seq![
            ' ',
        ] + text::pad_right(kind, 12) + seq![' '] + text::pad_right(id, 10) + seq![' ']
            + text::pad_right(name, 18) + seq![' '] + description,
{
    reveal_strlit(" ");
    assert(" "@ =~= seq![' ']);
}

/// What is listed of a remote provider is what its adapter with default settings says
/// that it can do.
pub proof fn law_summaries_are_abilities(
    o: OpenAiProvider,
    e: ElevenLabsProvider,
    c: CartesiaProvider,
    x: XaiProvider,
)
    requires
        o.settings.stt_model@ == "whisper-1"@,
    ensures
        summary_text(ProviderId::Openai) == text::join(ability_words(o.abilities()), ", "@),
        summary_text(ProviderId::Elevenlabs) == text::join(ability_words(e.abilities()), ", "@),
        summary_text(ProviderId::Cartesia) == text::join(ability_words(c.abilities()), ", "@),
        summary_text(ProviderId::Xai) == text::join(ability_words(x.abilities()), ", "@),
{
    reveal_strlit("whisper-1");
    reveal_strlit("whisper");
    assert("whisper-1"@.take(7) =~= "whisper"@);
    assert(ability_words(o.abilities()) =~= seq!["stt"@, "tts"@, "word-timestamps"@]);
    assert(ability_words(e.abilities()) =~= seq![
        "stt"@,
        "tts"@,
        "diarization"@,
        "word-timestamps"@,
        "keyterms"@,
    ]);
    assert(ability_words(c.abilities()) =~= seq!["stt"@, "tts"@, "word-timestamps"@]);
    assert(ability_words(x.abilities()) =~= seq![
        "stt"@,
        "tts"@,
        "streaming"@,
        "diarization"@,
        "word-timestamps"@,
        "keyterms"@,
    ]);
}

/// What the diagnosis says of the machine: whether ffmpeg was found, which local engines
/// are compiled in, where models are kept and which are there.
pub proof fn law_diagnosis_of_the_machine(
    config: Config,
    findings: Findings,
    configured: Seq<ProviderId>,
)
    ensures
        ({
            let lines = doctor_lines(config, findings, configured);
            &&& lines[0] == if findings.ffmpeg {
                "ffmpeg: ok"@
            } else {
                "ffmpeg: MISSING (transcoding and local/streaming decode will fail)"@
            }
            &&& lines[3] == if findings.compiled.canary {
                "  compiled: true"@
            } else {
                "  compiled: false"@
            }
            &&& lines[4] == "  models dir: "@ + findings.models_dir@
            &&& lines[5] == if findings.canary_installed {
                "  model: installed"@
            } else {
                "  model: missing (run: openvoice models fetch canary-1b-v2)"@
            }
            &&& lines[7] == if findings.compiled.qwen3 {
                "  compiled: true"@
            } else {
                "  compiled: false"@
            }
            &&& match findings.qwen3 {
                Some(Qwen3Source::Dir(d)) => lines[8] == "  model: dir: "@ + d@,
                Some(Qwen3Source::HfCache) => lines[8] == "  model: huggingface cache (shared)"@,
                None => lines[8] == "  model: missing (run: openvoice models fetch qwen3-tts)"@,
            }
        }),
{
    lemma_diagnosis_words();
    if let Some(Qwen3Source::Dir(d)) = findings.qwen3 {
        assert("  model: "@ + ("dir: "@ + d@) =~= "  model: dir: "@ + d@);
    }
}

proof fn lemma_diagnosis_words()
    ensures
        "ffmpeg: "@ + "ok"@ == "ffmpeg: ok"@,
        "ffmpeg: "@ + "MISSING (transcoding and local/streaming decode will fail)"@
            == "ffmpeg: MISSING (transcoding and local/streaming decode will fail)"@,
        "  compiled: "@ + "true"@ == "  compiled: true"@,
        "  compiled: "@ + "false"@ == "  compiled: false"@,
        "  model: "@ + "installed"@ == "  model: installed"@,
        "  model: "@ + "missing (run: openvoice models fetch canary-1b-v2)"@
            == "  model: missing (run: openvoice models fetch canary-1b-v2)"@,
        "  model: "@ + "huggingface cache (shared)"@ == "  model: huggingface cache (shared)"@,
        "  model: "@ + "missing (run: openvoice models fetch qwen3-tts)"@
            == "  model: missing (run: openvoice models fetch qwen3-tts)"@,
        "  model: "@ + "dir: "@ == "  model: dir: "@,
{
    reveal_strlit("ffmpeg: ");
    reveal_strlit("ok");
    reveal_strlit("ffmpeg: ok");
    reveal_strlit("MISSING (transcoding and local/streaming decode will fail)");
    reveal_strlit("ffmpeg: MISSING (transcoding and local/streaming decode will fail)");
    reveal_strlit("  compiled: ");
    reveal_strlit("true");
    reveal_strlit("false");
    reveal_strlit("  compiled: true");
    reveal_strlit("  compiled: false");
    reveal_strlit("  model: ");
    reveal_strlit("installed");
    reveal_strlit("  model: installed");
    reveal_strlit("missing (run: openvoice models fetch canary-1b-v2)");
    reveal_strlit("  model: missing (run: openvoice models fetch canary-1b-v2)");
    reveal_strlit("huggingface cache (shared)");
    reveal_strlit("  model: huggingface cache (shared)");
    reveal_strlit("missing (run: openvoice models fetch qwen3-tts)");
    reveal_strlit("  model: missing (run: openvoice models fetch qwen3-tts)");
    reveal_strlit("dir: ");
    reveal_strlit("  model: dir: ");
    assert("ffmpeg: "@ + "ok"@ =~= "ffmpeg: ok"@);
    assert("ffmpeg: "@ + "MISSING (transcoding and local/streaming decode will fail)"@ =~= "ffmpeg: MISSING (transcoding and local/streaming decode will fail)"@);
    assert("  compiled: "@ + "true"@ =~= "  compiled: true"@);
    assert("  compiled: "@ + "false"@ =~= "  compiled: false"@);
    assert("  model: "@ + "installed"@ =~= "  model: installed"@);
    assert("  model: "@ + "missing (run: openvoice models fetch canary-1b-v2)"@ =~= "  model: missing (run: openvoice models fetch canary-1b-v2)"@);
    assert("  model: "@ + "huggingface cache (shared)"@ =~= "  model: huggingface cache (shared)"@);
    assert("  model: "@ + "missing (run: openvoice models fetch qwen3-tts)"@ =~= "  model: missing (run: openvoice models fetch qwen3-tts)"@);
    assert("  model: "@ + "dir: "@ =~= "  model: dir: "@);
}

/// Smoke checks speak Spanish to the local engines and English to xAI.
pub proof fn law_language_of_a_smoke_check(target: SmokeTarget)
    ensures
        target == SmokeTarget::Local ==> smoke_language(target) == seq!['e', 's'],
        target == SmokeTarget::Xai ==> smoke_language(target) == seq!['e', 'n'],
{
    reveal_strlit("es");
    reveal_strlit("en");
    assert("es"@ =~= seq!['e', 's']);
    assert("en"@ =~= seq!['e', 'n']);
}

/// The local engine has nine voices and xAI five that are built in.
pub proof fn law_built_in_voices()
    ensures
        QWEN3_TTS_VOICES@[0]@ == "ryan"@,
        QWEN3_TTS_VOICES@[1]@ == "serena"@,
        QWEN3_TTS_VOICES@[2]@ == "vivian"@,
        QWEN3_TTS_VOICES@[3]@ == "uncle_fu"@,
        QWEN3_TTS_VOICES@[4]@ == "aiden"@,
        QWEN3_TTS_VOICES@[5]@ == "ono_anna"@,
        QWEN3_TTS_VOICES@[6]@ == "sohee"@,
        QWEN3_TTS_VOICES@[7]@ == "eric"@,
        QWEN3_TTS_VOICES@[8]@ == "dylan"@,
        XAI_BUILT_IN_VOICES@[0].0@ == "eve"@ && XAI_BUILT_IN_VOICES@[0].1@ == "Eve"@,
        XAI_BUILT_IN_VOICES@[0].2@ == "Energetic, upbeat"@,
        XAI_BUILT_IN_VOICES@[1].0@ == "ara"@ && XAI_BUILT_IN_VOICES@[1].1@ == "Ara"@,
        XAI_BUILT_IN_VOICES@[1].2@ == "Warm, friendly"@,
        XAI_BUILT_IN_VOICES@[2].0@ == "rex"@ && XAI_BUILT_IN_VOICES@[2].1@ == "Rex"@,
        XAI_BUILT_IN_VOICES@[2].2@ == "Confident, clear"@,
        XAI_BUILT_IN_VOICES@[3].0@ == "sal"@ && XAI_BUILT_IN_VOICES@[3].1@ == "Sal"@,
        XAI_BUILT_IN_VOICES@[3].2@ == "Smooth, balanced"@,
        XAI_BUILT_IN_VOICES@[4].0@ == "leo"@ && XAI_BUILT_IN_VOICES@[4].1@ == "Leo"@,
        XAI_BUILT_IN_VOICES@[4].2@ == "Authoritative, strong"@,
        crate::qwen3_tts::DEFAULT_VOICE@ == "ryan"@,
        crate::config::CONFIG_ENV@ == "OPENVOICE_CONFIG"@,
{
}

} // verus!
