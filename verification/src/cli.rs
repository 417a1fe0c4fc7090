//! What the commands of the command line decide and say: how arguments become
//! requests, where outputs go, and the reports that are printed.

use crate::decimal::Decimal;
use crate::domain::{
    AudioCodec, AudioSource, Language, SpeechRequest, TranscribeRequest, Transcript,
};
use crate::json;
use crate::json::Json;
use crate::path;
use crate::path::Style;
use crate::ports::{
    AudioEvent, AudioEventView, PcmChunk, StreamTranscribeRequest, TranscriptEvent,
};
use crate::provider::ProviderId;
use crate::text;
use crate::xai_realtime::{RealtimeAgentRequest, RealtimeAgentTurn};
use serde_json::Value;
use vstd::prelude::*;

verus! {

// ---------------------------------------------------------------------------
// Providers and languages
// ---------------------------------------------------------------------------

/// The provider that is asked for: none in particular where the text is blank
/// or `auto`.
pub open spec fn wanted(raw: Seq<char>) -> Result<Option<ProviderId>, Seq<char>> {
    let t = text::trim(raw);
    if t.len() == 0 || text::lower(t) == text::lower("auto"@) {
        Ok(None)
    } else {
        match ProviderId::named(text::lower(text::trim(t))) {
            Some(id) => Ok(Some(id)),
            None => Err(ProviderId::unknown(text::lower(text::trim(t)))),
        }
    }
}

/// The provider that an argument, or else the configuration, asks for.
pub fn parse_provider(value: Option<&str>, config_default: &str) -> (r: Result<
    Option<ProviderId>,
    String,
>)
    ensures
        match (r, wanted(text::or(value.deep_view(), config_default@))) {
            (Ok(id), Ok(w)) => id == w,
            (Err(e), Err(m)) => e@ == m,
            _ => false,
        },
{
    let raw = match value {
        Some(v) => text::trimmed(v),
        None => text::trimmed(config_default),
    };
    if raw.is_empty() || text::same_ignoring_case(raw, "auto") {
        return Ok(None);
    }
    match ProviderId::parse(raw) {
        Ok(id) => Ok(Some(id)),
        Err(e) => Err(e),
    }
}

/// The code of the language that an argument, or else the configuration, asks
/// for.
pub open spec fn language_code(
    cli: Option<Seq<char>>,
    config_default: Seq<char>,
) -> Option<Seq<char>> {
    match cli {
        Some(c) => Some(text::trim(c)),
        None => if config_default.len() == 0 {
            None
        } else {
            Some(text::trim(config_default))
        },
    }
}

pub fn parse_language(cli: Option<&str>, config_default: &str) -> (r: Option<Language>)
    ensures
        r.deep_view() == language_code(cli.deep_view(), config_default@),
{
    match cli {
        Some(c) => Some(Language::new(c)),
        None => if config_default.is_empty() {
            None
        } else {
            Some(Language::new(config_default))
        },
    }
}

fn as_text(s: &Option<String>) -> (r: Option<&str>)
    ensures
        r.deep_view() == s.deep_view(),
{
    match s {
        Some(t) => Some(t.as_str()),
        None => None,
    }
}

// ---------------------------------------------------------------------------
// Transcription
// ---------------------------------------------------------------------------

#[derive(Debug, Clone)]
pub struct TranscribeArgs {
    /// Input audio files.
    pub files: Vec<String>,
    /// Source language hint (ISO 639-1, e.g. es).
    pub lang: Option<String>,
    /// Provider: auto, local-canary, openai, elevenlabs, cartesia, xai.
    pub provider: Option<String>,
    /// Provider-specific model override.
    pub model: Option<String>,
    /// Comma-separated output formats: txt,srt,vtt,json.
    pub format: Option<String>,
    /// Write outputs here instead of next to each input.
    pub output_dir: Option<String>,
    /// Enable speaker diarization (providers that support it).
    pub diarize: bool,
    /// Bias transcription toward a term (repeatable).
    pub keyterms: Vec<String>,
    /// Context prompt (providers that support it).
    pub prompt: Option<String>,
}

/// The request that transcribes one of the files.
pub fn transcribe_request(args: &TranscribeArgs, file: &str, default_language: &str) -> (r:
    TranscribeRequest)
    ensures
        r.source.deep_view() == crate::domain::SourceView::File(file@),
        r.language.deep_view() == language_code(args.lang.deep_view(), default_language@),
        r.model.deep_view() == args.model.deep_view(),
        r.diarize == args.diarize,
        r.word_timestamps,
        r.keyterms.deep_view() == args.keyterms.deep_view(),
        r.prompt.deep_view() == args.prompt.deep_view(),
{
    let mut request = TranscribeRequest::new(AudioSource::File(file.to_owned()));
    request.language = parse_language(as_text(&args.lang), default_language);
    request.model = text::copied(&args.model);
    request.diarize = args.diarize;
    request.keyterms = text::copied_list(&args.keyterms);
    request.prompt = text::copied(&args.prompt);
    request
}

/// What is said of a file that is not there.
pub fn unreadable(file: &str) -> (r: String)
    ensures
        r@ == "warn: cannot read '"@ + file@ + "', skipping"@,
{
    let mut m = "warn: cannot read '".to_owned();
    m.append(file);
    m.append("', skipping");
    m
}

/// What is said at the end when files could not be transcribed.
pub fn failure_summary(failures: usize) -> (r: Option<String>)
    ensures
        r.deep_view() == if failures > 0 {
            Some(text::decimal(failures as nat) + " file(s) failed"@)
        } else {
            None
        },
{
    if failures == 0 {
        return None;
    }
    let mut m = text::decimal_text(failures as u128);
    m.append(" file(s) failed");
    Some(m)
}

// ---------------------------------------------------------------------------
// Speech
// ---------------------------------------------------------------------------

#[derive(Debug, Clone)]
pub struct SpeakArgs {
    /// Text to speak.
    pub text: Option<String>,
    /// Read the text from a file instead.
    pub file: Option<String>,
    /// Language (BCP-47, e.g. es, en, pt-BR).
    pub lang: Option<String>,
    /// Voice id or name (provider-specific).
    pub voice: Option<String>,
    /// Provider: auto, local-qwen3, openai, elevenlabs, cartesia, xai.
    pub provider: Option<String>,
    /// Provider-specific model override.
    pub model: Option<String>,
    /// Output audio file.
    pub out: Option<String>,
    /// Output codec: mp3, wav, pcm, mulaw, alaw, opus, flac, aac.
    pub codec: String,
    /// Output sample rate in Hz.
    pub sample_rate: Option<u32>,
    /// Output bitrate in bits per second.
    pub bit_rate: Option<u32>,
    /// Speech speed multiplier.
    pub speed: Option<Decimal>,
    /// Optimize streaming latency, provider-specific.
    pub optimize_streaming_latency: Option<u8>,
    /// Ask provider to normalize numbers, abbreviations, and symbols.
    pub text_normalization: bool,
    /// Request timestamp metadata when the provider supports it.
    pub with_timestamps: bool,
    /// Style instructions (providers that support it).
    pub instructions: Option<String>,
    /// Split long text into chunks, synthesize each chunk, and stitch audio.
    pub long: bool,
    /// Approximate max characters per long-form chunk.
    pub chunk_chars: usize,
    /// Write long-form chunk metadata to this JSON file.
    pub manifest: Option<String>,
}

pub fn speech_request_from_args(
    args: &SpeakArgs,
    default_language: &str,
    text: &str,
    codec: AudioCodec,
) -> (r: SpeechRequest)
    ensures
        r.text@ == text@,
        r.language.deep_view() == language_code(args.lang.deep_view(), default_language@),
        r.voice.deep_view() == args.voice.deep_view(),
        r.model.deep_view() == args.model.deep_view(),
        r.codec == codec,
        r.sample_rate == args.sample_rate,
        r.bit_rate == args.bit_rate,
        r.speed == args.speed,
        r.optimize_streaming_latency == args.optimize_streaming_latency,
        r.text_normalization == if args.text_normalization {
            Some(true)
        } else {
            None
        },
        r.with_timestamps == args.with_timestamps,
        r.instructions.deep_view() == args.instructions.deep_view(),
{
    let mut request = SpeechRequest::new(text);
    request.language = parse_language(as_text(&args.lang), default_language);
    request.voice = text::copied(&args.voice);
    request.model = text::copied(&args.model);
    request.codec = codec;
    request.sample_rate = args.sample_rate;
    request.bit_rate = args.bit_rate;
    request.speed = args.speed;
    request.optimize_streaming_latency = args.optimize_streaming_latency;
    request.text_normalization = if args.text_normalization {
        Some(true)
    } else {
        None
    };
    request.with_timestamps = args.with_timestamps;
    request.instructions = text::copied(&args.instructions);
    request
}

/// The text to speak: the one that is given, else the contents of the file that
/// is given.
pub fn speech_text(text: Option<String>, contents: Option<String>) -> (r: Result<String, String>)
    ensures
        match r {
            Ok(t) => text == Some(t) || (text is None && contents == Some(t)),
            Err(e) => text is None && contents is None && e@ == "provide TEXT or --file"@,
        },
{
    match text {
        Some(t) => Ok(t),
        None => match contents {
            Some(c) => Ok(c),
            None => Err("provide TEXT or --file".to_owned()),
        },
    }
}

/// Where speech is written: the given file, or `speech` with the codec's
/// extension.
pub fn speech_path(out: &Option<String>, codec: AudioCodec) -> (r: String)
    ensures
        r@ == text::or(out.deep_view(), "speech."@ + codec.name()),
{
    match out {
        Some(p) => p.clone(),
        None => {
            let mut p = "speech.".to_owned();
            p.append(codec.extension());
            p
        },
    }
}

/// The extension of the name that a path ends in.
pub open spec fn extension_of_path(p: Seq<char>, style: Style) -> Option<Seq<char>> {
    match path::file_name(p, style) {
        Some(n) => path::extension(n),
        None => None,
    }
}

/// Where the metadata of a speech file is written: beside it, with `.json`
/// after its extension.
pub fn sidecar_path(out: &str, codec: AudioCodec, style: Style) -> (r: String)
    ensures
        r@ == path::with_extension(
            out@,
            text::or(extension_of_path(out@, style), codec.name()) + ".json"@,
            style,
        ),
{
    let found = match path::name_of(out, style) {
        Some(n) => path::extension_of(&n),
        None => None,
    };
    let mut ext = text::text_or(&found, codec.extension());
    ext.append(".json");
    path::extended(out, &ext, style)
}

/// The report of a speech file.
pub fn speech_report(out: &str, bytes: usize, mime: &str, provider: ProviderId) -> (r: String)
    ensures
        r@ == "wrote "@ + out@ + " ("@ + text::decimal(bytes as nat) + " bytes, "@ + mime@
            + ", via "@ + provider.name() + ")"@,
{
    let mut m = "wrote ".to_owned();
    m.append(out);
    m.append(" (");
    m.append(&text::decimal_text(bytes as u128));
    m.append(" bytes, ");
    m.append(mime);
    m.append(", via ");
    m.append(provider.as_str());
    m.append(")");
    m
}

/// The least that a chunk of a long text may be limited to.
pub const MIN_CHUNK_CHARS: usize = 200;

/// The limit of the chunks of a long text.
pub fn chunk_limit(chunk_chars: usize) -> (r: usize)
    ensures
        r == if chunk_chars < MIN_CHUNK_CHARS {
            MIN_CHUNK_CHARS
        } else {
            chunk_chars
        },
        chunk_chars < 200 ==> r == 200,
        chunk_chars >= 200 ==> r == chunk_chars,
{
    if chunk_chars < MIN_CHUNK_CHARS {
        MIN_CHUNK_CHARS
    } else {
        chunk_chars
    }
}

/// The name of the file of a chunk.
pub fn chunk_name(index: usize, codec: AudioCodec) -> (r: String)
    ensures
        r@ == "chunk-"@ + text::pad_left(text::decimal(index as nat), '0', 4) + "."@ + codec.name(),
{
    let mut name = "chunk-".to_owned();
    name.append(&text::zero_padded(index as u128, 4));
    name.append(".");
    name.append(codec.extension());
    name
}

/// The report of a chunk.
pub fn chunk_report(
    index: usize,
    count: usize,
    chunk: &str,
    bytes: usize,
    provider: ProviderId,
) -> (r: String)
    requires
        index < count,
    ensures
        r@ == "chunk "@ + text::decimal((index + 1) as nat) + "/"@ + text::decimal(count as nat)
            + ": "@ + text::decimal(chunk@.len()) + " chars, "@ + text::decimal(bytes as nat)
            + " bytes via "@ + provider.name(),
{
    let mut m = "chunk ".to_owned();
    m.append(&text::decimal_text(index as u128 + 1));
    m.append("/");
    m.append(&text::decimal_text(count as u128));
    m.append(": ");
    m.append(&text::decimal_text(text::char_count(chunk) as u128));
    m.append(" chars, ");
    m.append(&text::decimal_text(bytes as u128));
    m.append(" bytes via ");
    m.append(provider.as_str());
    m
}

/// The entry of a chunk in the manifest.
pub open spec fn manifest_json(
    index: nat,
    chars: nat,
    bytes: nat,
    provider: ProviderId,
    codec: AudioCodec,
    metadata: Option<Json>,
) -> Json {
    Json::empty().with("index"@, Json::integer(index)).with("chars"@, Json::integer(chars)).with(
        "bytes"@,
        Json::integer(bytes),
    ).with("provider"@, Json::Text(provider.name())).with(
        "codec"@,
        Json::Text(codec.name()),
    ).with(
        "metadata"@,
        match metadata {
            Some(j) => j,
            None => Json::Null,
        },
    )
}

pub fn manifest_entry(
    index: usize,
    chunk: &str,
    bytes: usize,
    provider: ProviderId,
    codec: AudioCodec,
    metadata: Option<Value>,
) -> (r: Value)
    ensures
        json::json_of(r) == manifest_json(
            index as nat,
            chunk@.len(),
            bytes as nat,
            provider,
            codec,
            match metadata {
                Some(v) => Some(json::json_of(v)),
                None => None,
            },
        ),
{
    let mut entry = json::object();
    json::put(&mut entry, "index", json::integer(index as u64));
    json::put(&mut entry, "chars", json::integer(text::char_count(chunk) as u64));
    json::put(&mut entry, "bytes", json::integer(bytes as u64));
    json::put_text(&mut entry, "provider", provider.as_str());
    json::put_text(&mut entry, "codec", codec.as_str());
    let metadata = match metadata {
        Some(v) => v,
        None => json::null(),
    };
    json::put(&mut entry, "metadata", metadata);
    entry
}

/// What writing a document over several lines brings, with a line end.
pub open spec fn pretty(j: Json) -> Result<Seq<char>, Seq<char>> {
    match json::json_written_pretty(j) {
        Ok(s) => Ok(s.push('\n')),
        Err(e) => Err(e),
    }
}

/// A document over several lines, with a line end.
pub fn pretty_text(value: &Value) -> (r: Result<String, String>)
    ensures
        match (r, pretty(json::json_of(*value))) {
            (Ok(s), Ok(t)) => s@ == t,
            (Err(e), Err(m)) => e@ == m,
            _ => false,
        },
{
    match json::write_pretty(value) {
        Ok(s) => {
            let mut s = s;
            s.push('\n');
            Ok(s)
        },
        Err(e) => Err(e),
    }
}

/// The manifest of a long text, from its entries.
pub fn manifest_text(entries: Vec<Value>) -> (r: Result<String, String>)
    ensures
        match (r, pretty(Json::Array(json::jsons_of(entries@)))) {
            (Ok(s), Ok(t)) => s@ == t,
            (Err(e), Err(m)) => e@ == m,
            _ => false,
        },
{
    pretty_text(&json::array(entries))
}

// ---------------------------------------------------------------------------
// Streaming
// ---------------------------------------------------------------------------

/// The bytes of 100 ms of 16-bit mono audio at 16 kHz.
pub const PCM_CHUNK: usize = 3200;

/// How many chunks `len` bytes make.
pub open spec fn chunk_count(len: nat) -> nat {
    (len + PCM_CHUNK - 1) as nat / PCM_CHUNK as nat
}

/// The bytes of chunk `i`.
pub open spec fn chunk_bytes(pcm: Seq<u8>, i: int) -> Seq<u8> {
    pcm.subrange(
        i * PCM_CHUNK,
        if (i + 1) * PCM_CHUNK < pcm.len() {
            (i + 1) * PCM_CHUNK
        } else {
            pcm.len() as int
        },
    )
}

/// Cuts audio into chunks of 100 ms, the last one as long as what is left.
pub fn pcm_chunks(pcm: &Vec<u8>) -> (r: Vec<PcmChunk>)
    ensures
        r@.len() == chunk_count(pcm@.len()),
        forall|i: int| 0 <= i < r@.len() ==> (#[trigger] r@[i]).0@ == chunk_bytes(pcm@, i),
{
    let mut r: Vec<PcmChunk> = Vec::new();
    let mut at: usize = 0;
    while at < pcm.len()
        invariant
            at <= pcm.len(),
            at == r@.len() * PCM_CHUNK || (at == pcm@.len() && r@.len() == chunk_count(pcm@.len())),
            forall|i: int| 0 <= i < r@.len() ==> (#[trigger] r@[i]).0@ == chunk_bytes(pcm@, i),
        decreases pcm@.len() - at,
    {
        let end: usize = if pcm.len() - at > PCM_CHUNK {
            at + PCM_CHUNK
        } else {
            pcm.len()
        };
        let mut chunk: Vec<u8> = Vec::new();
        let mut i: usize = at;
        while i < end
            invariant
                at <= i <= end <= pcm@.len(),
                chunk@ == pcm@.subrange(at as int, i as int),
            decreases end - i,
        {
            chunk.push(pcm[i]);
            i = i + 1;
        }
        assert(chunk@ =~= chunk_bytes(pcm@, r@.len() as int));
        r.push(PcmChunk(chunk));
        at = end;
    }
    r
}

/// The first `n` chunks, one after another.
pub open spec fn glued(pcm: Seq<u8>, n: nat) -> Seq<u8>
    decreases n,
{
    if n == 0 {
        Seq::empty()
    } else {
        glued(pcm, (n - 1) as nat) + chunk_bytes(pcm, n - 1)
    }
}

proof fn lemma_glued(pcm: Seq<u8>, n: nat)
    requires
        n <= chunk_count(pcm.len()),
    ensures
        glued(pcm, n) == pcm.take(
            if n * PCM_CHUNK < pcm.len() {
                (n * PCM_CHUNK) as int
            } else {
                pcm.len() as int
            },
        ),
    decreases n,
{
    if n == 0 {
        assert(glued(pcm, n) =~= pcm.take(0));
    } else {
        lemma_glued(pcm, (n - 1) as nat);
        let end = if n * PCM_CHUNK < pcm.len() {
            (n * PCM_CHUNK) as int
        } else {
            pcm.len() as int
        };
        assert(glued(pcm, n) =~= pcm.take(end));
    }
}

/// The chunks of audio, one after another, are the audio; and no chunk is
/// empty or longer than 100 ms.
pub proof fn law_chunks_make_the_audio(pcm: Seq<u8>)
    ensures
        glued(pcm, chunk_count(pcm.len())) == pcm,
        forall|i: int|
            0 <= i < chunk_count(pcm.len()) ==> 0 < (#[trigger] chunk_bytes(pcm, i)).len()
                <= PCM_CHUNK,
{
    lemma_glued(pcm, chunk_count(pcm.len()));
    assert(pcm.take(pcm.len() as int) =~= pcm);
}

#[derive(Debug, Clone)]
pub struct StreamSttArgs {
    /// Input audio file (decoded to 16 kHz PCM and streamed).
    pub file: String,
    pub lang: Option<String>,
    pub provider: Option<String>,
    pub diarize: bool,
    pub keyterms: Vec<String>,
    /// Also emit interim (non-final) hypotheses.
    pub interim: bool,
    /// Enable end-of-turn detection.
    pub smart_turn: bool,
    /// Maximum wait of end-of-turn detection in milliseconds.
    pub smart_turn_timeout_ms: Option<u64>,
    /// Write final transcript outputs (txt,srt,vtt,json).
    pub format: Option<String>,
    pub output_dir: Option<String>,
}

/// The session that streams a file.
pub fn stream_request(args: &StreamSttArgs, default_language: &str) -> (r: StreamTranscribeRequest)
    ensures
        r.sample_rate == 16_000,
        r.language.deep_view() == language_code(args.lang.deep_view(), default_language@),
        r.diarize == args.diarize,
        r.keyterms.deep_view() == args.keyterms.deep_view(),
        r.interim_results == args.interim,
        r.smart_turn == args.smart_turn,
        r.smart_turn_timeout_ms == args.smart_turn_timeout_ms,
{
    StreamTranscribeRequest {
        sample_rate: 16_000,
        language: parse_language(as_text(&args.lang), default_language),
        diarize: args.diarize,
        keyterms: text::copied_list(&args.keyterms),
        interim_results: args.interim,
        smart_turn: args.smart_turn,
        smart_turn_timeout_ms: args.smart_turn_timeout_ms,
    }
}

/// The report of a partial transcript.
pub fn partial_line(partial: &str, is_final: bool) -> (r: String)
    ensures
        r@ == (if is_final {
            "[final] "@
        } else {
            "[partial] "@
        }) + partial@,
{
    let mut m = if is_final {
        "[final] ".to_owned()
    } else {
        "[partial] ".to_owned()
    };
    m.append(partial);
    m
}

/// Takes an event of a transcription session: keeps the final transcript, and
/// says what is printed of a partial one.
pub fn follow(kept: &mut Option<Transcript>, event: TranscriptEvent) -> (r: Option<String>)
    ensures
        match event {
            TranscriptEvent::Partial { text, is_final, .. } => *final(kept) == *old(kept)
                && r.deep_view() == Some(
                (if is_final {
                    "[final] "@
                } else {
                    "[partial] "@
                }) + text@,
            ),
            TranscriptEvent::Done(t) => *final(kept) == Some(t) && r is None,
        },
{
    match event {
        TranscriptEvent::Partial { text, is_final, .. } => Some(partial_line(&text, is_final)),
        TranscriptEvent::Done(t) => {
            *kept = Some(t);
            None
        },
    }
}

#[derive(Debug, Clone)]
pub struct StreamTtsArgs {
    /// Text to speak.
    pub text: String,
    pub lang: Option<String>,
    pub voice: Option<String>,
    pub provider: Option<String>,
    /// Output audio file.
    pub out: String,
    /// Output codec: mp3, wav, pcm, mulaw, alaw.
    pub codec: String,
    pub sample_rate: Option<u32>,
    pub bit_rate: Option<u32>,
    pub optimize_streaming_latency: Option<u8>,
}

/// The request that streams speech.
pub fn stream_speech_request(args: &StreamTtsArgs, default_language: &str, codec: AudioCodec) -> (r:
    SpeechRequest)
    ensures
        r.text@ == args.text@,
        r.language.deep_view() == language_code(args.lang.deep_view(), default_language@),
        r.voice.deep_view() == args.voice.deep_view(),
        r.model is None,
        r.codec == codec,
        r.sample_rate == args.sample_rate,
        r.bit_rate == args.bit_rate,
        r.speed is None,
        r.optimize_streaming_latency == args.optimize_streaming_latency,
        r.text_normalization is None,
        !r.with_timestamps,
        r.instructions is None,
{
    let mut request = SpeechRequest::new(&args.text);
    request.language = parse_language(as_text(&args.lang), default_language);
    request.voice = text::copied(&args.voice);
    request.codec = codec;
    request.sample_rate = args.sample_rate;
    request.bit_rate = args.bit_rate;
    request.optimize_streaming_latency = args.optimize_streaming_latency;
    request
}

/// Takes an event of a speech session. Says whether it was the last.
pub fn collect_audio(bytes: &mut Vec<u8>, event: &AudioEvent) -> (done: bool)
    ensures
        match event.deep_view() {
            AudioEventView::Chunk(c) => !done && final(bytes)@ == old(bytes)@ + c,
            AudioEventView::Done => done && final(bytes)@ == old(bytes)@,
        },
{
    match event {
        AudioEvent::Chunk(c) => {
            bytes.extend_from_slice(c.as_slice());
            assert(bytes@ =~= old(bytes)@ + c@);
            false
        },
        AudioEvent::Done => true,
    }
}

// ---------------------------------------------------------------------------
// The realtime agent
// ---------------------------------------------------------------------------

#[derive(Debug, Clone)]
pub struct AgentArgs {
    /// User text turn to send to the realtime voice agent.
    pub text: String,
    pub voice: Option<String>,
    pub model: Option<String>,
    /// Session instructions.
    pub instructions: Option<String>,
    /// Reasoning effort: high or none.
    pub reasoning_effort: Option<String>,
    /// Output audio file.
    pub out: Option<String>,
    /// Output codec: pcm, mulaw, alaw.
    pub codec: String,
    /// Output audio sample rate.
    pub sample_rate: u32,
    /// Request text only, no audio modality.
    pub text_only: bool,
    /// Configure manual turn mode instead of server detection.
    pub manual_turn: bool,
    pub vad_threshold: Option<Decimal>,
    pub vad_silence_ms: Option<u64>,
    pub vad_prefix_padding_ms: Option<u64>,
    /// Enable input transcription with this language hint.
    pub language_hint: Option<String>,
    /// Emit the whole turn as JSON.
    pub json: bool,
}

/// The turn that the arguments ask for.
pub fn agent_request(args: &AgentArgs, codec: AudioCodec) -> (r: RealtimeAgentRequest)
    ensures
        r.text@ == args.text@,
        r.model.deep_view() == args.model.deep_view(),
        r.instructions.deep_view() == args.instructions.deep_view(),
        r.voice.deep_view() == args.voice.deep_view(),
        r.reasoning_effort.deep_view() == args.reasoning_effort.deep_view(),
        r.output_codec == codec,
        r.output_sample_rate == args.sample_rate,
        r.input_sample_rate == args.sample_rate,
        r.text_only == args.text_only,
        r.manual_turn == args.manual_turn,
        r.vad_threshold == args.vad_threshold,
        r.vad_silence_duration_ms == args.vad_silence_ms,
        r.vad_prefix_padding_ms == args.vad_prefix_padding_ms,
        r.transcription_model is None,
        r.language_hint.deep_view() == args.language_hint.deep_view(),
{
    let mut request = RealtimeAgentRequest::text(&args.text);
    request.voice = text::copied(&args.voice);
    request.model = text::copied(&args.model);
    request.instructions = text::copied(&args.instructions);
    request.reasoning_effort = text::copied(&args.reasoning_effort);
    request.output_codec = codec;
    request.output_sample_rate = args.sample_rate;
    request.input_sample_rate = args.sample_rate;
    request.text_only = args.text_only;
    request.manual_turn = args.manual_turn;
    request.vad_threshold = args.vad_threshold;
    request.vad_silence_duration_ms = args.vad_silence_ms;
    request.vad_prefix_padding_ms = args.vad_prefix_padding_ms;
    request.language_hint = text::copied(&args.language_hint);
    request
}

/// What is said of the audio of a turn: that it was written to `out`, or that
/// it was not kept; nothing where there is none.
pub fn agent_report(turn: &RealtimeAgentTurn, out: Option<&str>) -> (r: Option<String>)
    ensures
        r.deep_view() == if turn.audio@.len() == 0 {
            None
        } else {
            Some(
                match out {
                    Some(p) => "wrote "@ + p@ + " ("@ + text::decimal(turn.audio@.len())
                        + " bytes, "@ + turn.audio_mime@ + ", "@ + text::decimal(
                        turn.output_sample_rate as nat,
                    ) + " Hz)"@,
                    None => "received "@ + text::decimal(turn.audio@.len()) + " bytes of "@
                        + turn.audio_mime@ + "; pass --out to save raw realtime audio"@,
                },
            )
        },
{
    if turn.audio.len() == 0 {
        return None;
    }
    match out {
        Some(p) => {
            let mut m = "wrote ".to_owned();
            m.append(p);
            m.append(" (");
            m.append(&text::decimal_text(turn.audio.len() as u128));
            m.append(" bytes, ");
            m.append(&turn.audio_mime);
            m.append(", ");
            m.append(&text::decimal_text(turn.output_sample_rate as u128));
            m.append(" Hz)");
            Some(m)
        },
        None => {
            let mut m = "received ".to_owned();
            m.append(&text::decimal_text(turn.audio.len() as u128));
            m.append(" bytes of ");
            m.append(&turn.audio_mime);
            m.append("; pass --out to save raw realtime audio");
            Some(m)
        },
    }
}

// ---------------------------------------------------------------------------
// Laws
// ---------------------------------------------------------------------------

/// No provider in particular is asked for by a blank text or by `auto` in any case; by
/// any other text the one that it names, whatever its case and the white space round
/// it, and a text that names none is refused.
pub proof fn law_wanted_provider(raw: Seq<char>)
    ensures
        ({
            let name = text::lower(text::trim(raw));
            match wanted(raw) {
                Ok(None) => text::is_white(raw) || name == seq!['a', 'u', 't', 'o'],
                Ok(Some(id)) => !text::is_white(raw) && name != seq!['a', 'u', 't', 'o']
                    && ProviderId::named(name) == Some(id),
                Err(_) => !text::is_white(raw) && name != seq!['a', 'u', 't', 'o']
                    && ProviderId::named(name) is None,
            }
        }),
{
    text::law_blank_text(raw);
    text::law_trimmed_text(raw);
    if text::trim(raw).len() > 0 {
        text::lemma_trim_solid(text::trim(raw));
    }
    reveal_strlit("auto");
    assert("auto"@ =~= seq!['a', 'u', 't', 'o']);
    assert(text::lower("auto"@) =~= seq!['a', 'u', 't', 'o']);
}

/// The language is the one that the argument gives, else the configured one where it
/// is not empty, else none, trimmed.
pub proof fn law_language(cli: Option<Seq<char>>, config_default: Seq<char>)
    ensures
        cli matches Some(c) ==> language_code(cli, config_default) == Some(text::trim(c)),
        cli is None && config_default.len() > 0 ==> language_code(cli, config_default) == Some(
            text::trim(config_default),
        ),
        cli is None && config_default.len() == 0 ==> language_code(cli, config_default) is None,
{
}

/// Audio is cut into pieces of 3200 bytes, 100 ms each at 16 kHz, of which only the
/// last may be shorter; piece `i` begins at byte `3200 * i`.
pub proof fn law_chunks_of_audio(pcm: Seq<u8>, i: int)
    requires
        0 <= i < chunk_count(pcm.len()),
    ensures
        i < chunk_count(pcm.len()) - 1 ==> chunk_bytes(pcm, i).len() == 3200,
        0 < chunk_bytes(pcm, i).len() <= 3200,
        3200 * i + chunk_bytes(pcm, i).len() <= pcm.len(),
        chunk_bytes(pcm, i) == pcm.subrange(3200 * i, 3200 * i + chunk_bytes(pcm, i).len()),
        i == chunk_count(pcm.len()) - 1 ==> 3200 * i + chunk_bytes(pcm, i).len() == pcm.len(),
{
    law_chunks_make_the_audio(pcm);
}

/// An entry of the manifest tells of its chunk: its place, how many characters it has,
/// how many bytes of audio it became, by whom and in what codec, and the metadata where
/// there is any.
pub proof fn law_manifest_entries(
    index: nat,
    chars: nat,
    bytes: nat,
    provider: ProviderId,
    codec: AudioCodec,
    metadata: Option<Json>,
)
    ensures
        ({
            let j = manifest_json(index, chars, bytes, provider, codec, metadata);
            &&& j.entry("index"@) == Some(Json::Number(text::decimal(index)))
            &&& j.entry("chars"@) == Some(Json::Number(text::decimal(chars)))
            &&& j.entry("bytes"@) == Some(Json::Number(text::decimal(bytes)))
            &&& j.text_at("provider"@) == Some(provider.name())
            &&& j.text_at("codec"@) == Some(codec.name())
            &&& j.entry("metadata"@) == match metadata {
                Some(m) => Some(m),
                None => Some(Json::Null),
            }
        }),
{
    lemma_manifest_keys();
}

proof fn lemma_manifest_keys()
    ensures
        "index"@ != "chars"@,
        "index"@ != "bytes"@,
        "index"@ != "provider"@,
        "index"@ != "codec"@,
        "index"@ != "metadata"@,
        "chars"@ != "bytes"@,
        "chars"@ != "provider"@,
        "chars"@ != "codec"@,
        "chars"@ != "metadata"@,
        "bytes"@ != "provider"@,
        "bytes"@ != "codec"@,
        "bytes"@ != "metadata"@,
        "provider"@ != "codec"@,
        "provider"@ != "metadata"@,
        "codec"@ != "metadata"@,
{
    reveal_strlit("index");
    reveal_strlit("chars");
    reveal_strlit("bytes");
    reveal_strlit("provider");
    reveal_strlit("codec");
    reveal_strlit("metadata");
    assert("index"@.len() == 5);
    assert("chars"@.len() == 5);
    assert("bytes"@.len() == 5);
    assert("provider"@.len() == 8);
    assert("codec"@.len() == 5);
    assert("metadata"@.len() == 8);
    assert("index"@[0] == 'i');
    assert("chars"@[0] == 'c');
    assert("bytes"@[0] == 'b');
    assert("codec"@[0] == 'c');
    assert("chars"@[1] == 'h');
    assert("codec"@[1] == 'o');
    assert("provider"@[0] == 'p');
    assert("metadata"@[0] == 'm');
}

/// The extension of a path is that of the name it ends in.
pub proof fn law_extension_of_a_path(p: Seq<char>, style: Style)
    ensures
        match path::file_name(p, style) {
            Some(n) => extension_of_path(p, style) == path::extension(n),
            None => extension_of_path(p, style) is None,
        },
{
}

/// A document over several lines ends in a line end.
pub proof fn law_pretty_documents(j: Json)
    ensures
        match json::json_written_pretty(j) {
            Ok(s) => pretty(j) == Ok::<Seq<char>, Seq<char>>(s.push('\n')),
            Err(e) => pretty(j) == Err::<Seq<char>, Seq<char>>(e),
        },
{
}

} // verus!
