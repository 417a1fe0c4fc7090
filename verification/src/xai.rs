//! xAI (Grok Voice) adapter, the most capable remote provider:
//!
//! * Batch speech-to-text: `POST /v1/stt` (multipart; **the `file` field must
//!   be the last multipart field**).
//! * Batch text-to-speech: `POST /v1/tts` (JSON in, audio bytes out).
//! * Custom voices: `/v1/custom-voices`.
//!
//! The streaming sessions and the realtime agent stand in modules of their
//! own.

use crate::capabilities::{CapabilitiesView, ProviderCapabilities};
use crate::decimal::Decimal;
use crate::domain::{
    AudioCodec, SpeechRequest, TranscribeRequest, Transcript, TranscriptView, Word, WordView,
};
use crate::error::{CoreError, CoreResult, Failure};
use crate::http;
use crate::http::{
    Body, BodyView, HttpRequest, HttpView, Method, Part, PartView, Upload, UploadView,
};
use crate::json;
use crate::json::Json;
use crate::ports::Provider;
use crate::provider::ProviderId;
use crate::text;
use serde_json::Value;
use vstd::prelude::*;

verus! {

pub const MAX_UPLOAD_BYTES: u64 = 524_288_000;

#[derive(Debug, Clone)]
pub struct XaiSettings {
    pub base_url: String,
    /// WebSocket base, e.g. `wss://api.x.ai`.
    pub ws_url: String,
    pub tts_voice: String,
}

impl Default for XaiSettings {
    fn default() -> (r: XaiSettings)
        ensures
            r.base_url@ == "https://api.x.ai"@,
            r.ws_url@ == "wss://api.x.ai"@,
            r.tts_voice@ == "eve"@,
    {
        XaiSettings {
            base_url: "https://api.x.ai".to_owned(),
            ws_url: "wss://api.x.ai".to_owned(),
            tts_voice: "eve".to_owned(),
        }
    }
}

#[derive(Debug, Clone)]
pub struct XaiProvider {
    pub api_key: String,
    pub settings: XaiSettings,
}

impl XaiProvider {
    pub fn new(api_key: &str, settings: XaiSettings) -> (r: XaiProvider)
        ensures
            r.api_key@ == api_key@,
            r.settings == settings,
    {
        XaiProvider { api_key: api_key.to_owned(), settings }
    }

    /// The address of `path` on the service.
    pub open spec fn address(self, path: Seq<char>) -> Seq<char> {
        self.settings.base_url@ + path
    }

    fn url(&self, path: &str) -> (r: String)
        ensures
            r@ == self.address(path@),
    {
        let mut url = self.settings.base_url.clone();
        url.append(path);
        url
    }
}

// ---------------------------------------------------------------------------
// Speech to text
// ---------------------------------------------------------------------------

/// The answer to a batch speech-to-text request.
#[derive(Debug, Clone)]
pub struct SttResponse {
    pub text: String,
    pub language: Option<String>,
    pub duration: Option<Decimal>,
    pub words: Vec<SttWord>,
}

#[derive(Debug, Clone)]
pub struct SttWord {
    pub text: String,
    pub start: Decimal,
    pub end: Decimal,
    pub speaker: Option<u32>,
}

/// What an [`SttWord`] says.
pub struct SttWordView {
    pub text: Seq<char>,
    pub start: Decimal,
    pub end: Decimal,
    pub speaker: Option<u32>,
}

impl DeepView for SttWord {
    type V = SttWordView;

    open spec fn deep_view(&self) -> SttWordView {
        SttWordView { text: self.text@, start: self.start, end: self.end, speaker: self.speaker }
    }
}

impl SttWordView {
    /// The word in the normalized model: speaker `n` is called `speaker_n`.
    pub open spec fn normalized(self) -> WordView {
        WordView {
            text: self.text,
            start: self.start,
            end: self.end,
            speaker: match self.speaker {
                Some(n) => Some("speaker_"@ + text::decimal(n as nat)),
                None => None,
            },
            channel: None,
            confidence: None,
        }
    }
}

/// The words in the normalized model.
pub open spec fn mapped(words: Seq<SttWordView>) -> Seq<WordView> {
    Seq::new(words.len(), |i: int| words[i].normalized())
}

pub fn map_words(words: &Vec<SttWord>) -> (out: Vec<Word>)
    ensures
        out.deep_view() == mapped(words.deep_view()),
{
    let mut out: Vec<Word> = Vec::new();
    let mut i: usize = 0;
    while i < words.len()
        invariant
            i <= words@.len(),
            out@.len() == i,
            forall|j: int|
                0 <= j < i ==> (#[trigger] out@[j]).deep_view()
                    == words@[j].deep_view().normalized(),
        decreases words@.len() - i,
    {
        let w = &words[i];
        let mut word = Word::new(&w.text, w.start, w.end);
        if let Some(n) = w.speaker {
            let mut name = "speaker_".to_owned();
            name.append(&text::decimal_text(n as u128));
            word.speaker = Some(name);
        }
        assert(word.deep_view() == w.deep_view().normalized());
        out.push(word);
        i = i + 1;
    }
    assert(out.deep_view() =~= mapped(words.deep_view()));
    out
}

/// The transcript of a recognized text with its words.
pub open spec fn transcript_of(
    text: Seq<char>,
    language: Option<Seq<char>>,
    duration: Option<Decimal>,
    words: Seq<SttWordView>,
) -> TranscriptView {
    TranscriptView {
        text,
        language,
        duration,
        provider: ProviderId::Xai,
        model: Some("grok-stt"@),
        segments: crate::domain::segments_from(mapped(words)),
        words: mapped(words),
    }
}

/// The transcript of a recognized text with its words, which are also grouped
/// into segments.
pub fn make_transcript(
    text: String,
    language: Option<String>,
    duration: Option<Decimal>,
    words: &Vec<SttWord>,
) -> (r: Transcript)
    ensures
        r.deep_view() == transcript_of(
            text@,
            language.deep_view(),
            duration,
            words.deep_view(),
        ),
{
    let words = map_words(words);
    let segments = crate::domain::segments_from_words(words.as_slice());
    Transcript {
        text,
        language,
        duration,
        provider: ProviderId::Xai,
        model: Some("grok-stt".to_owned()),
        segments,
        words,
    }
}

/// The form fields that come before the file.
pub open spec fn keyterm_parts(terms: Seq<Seq<char>>) -> Seq<PartView> {
    Seq::new(terms.len(), |i: int| http::text_part("keyterm"@, terms[i]))
}

/// The form of a batch speech-to-text request: language and formatting, then
/// diarization, then the key terms, and the file last.
pub open spec fn stt_form(request: TranscribeRequest, upload: UploadView) -> Seq<PartView> {
    let language = match request.language {
        Some(l) => seq![
            http::text_part("language"@, crate::domain::primary_subtag(l.0@)),
            http::text_part("format"@, "true"@),
        ],
        None => Seq::empty(),
    };
    let diarize = if request.diarize {
        seq![http::text_part("diarize"@, "true"@)]
    } else {
        Seq::empty()
    };
    (language + diarize + keyterm_parts(request.keyterms.deep_view())).push(
        PartView::File { name: "file"@, upload },
    )
}

/// Appends one field for each key term.
fn push_keyterms(form: &mut Vec<Part>, terms: &Vec<String>)
    ensures
        final(form).deep_view() == old(form).deep_view() + keyterm_parts(terms.deep_view()),
{
    let mut i: usize = 0;
    let ghost before = form.deep_view();
    assert(before =~= before + keyterm_parts(terms.deep_view().take(0)));
    while i < terms.len()
        invariant
            i <= terms@.len(),
            form.deep_view() == before + keyterm_parts(terms.deep_view().take(i as int)),
        decreases terms@.len() - i,
    {
        http::push_text(form, "keyterm", &terms[i]);
        assert(form.deep_view() =~= before + keyterm_parts(terms.deep_view().take(i + 1)));
        i = i + 1;
    }
    assert(terms.deep_view().take(i as int) =~= terms.deep_view());
}

impl XaiProvider {
    /// The request that transcribes an upload.
    pub fn transcribe(&self, request: &TranscribeRequest, upload: Upload) -> (r: HttpRequest)
        ensures
            r.deep_view() == (HttpView {
                method: Method::Post,
                url: self.address("/v1/stt"@),
                headers: seq![http::bearer(self.api_key@)],
                query: Seq::empty(),
                body: BodyView::Form(stt_form(*request, upload.deep_view())),
            }),
    {
        let mut form = http::empty_form();
        if let Some(language) = &request.language {
            http::push_text(&mut form, "language", &language.primary());
            http::push_text(&mut form, "format", "true");
        }
        if request.diarize {
            http::push_text(&mut form, "diarize", "true");
        }
        push_keyterms(&mut form, &request.keyterms);
        http::push_file(&mut form, "file", upload);
        assert(form.deep_view() =~= stt_form(*request, upload.deep_view()));
        HttpRequest {
            method: Method::Post,
            url: self.url("/v1/stt"),
            headers: http::one_field(http::bearer_header(&self.api_key)),
            query: http::no_fields(),
            body: Body::Form(form),
        }
    }

    /// The transcript that an answer holds, or the failure to read it.
    pub fn transcript(&self, answer: Result<SttResponse, String>) -> (r: CoreResult<Transcript>)
        ensures
            crate::error::outcome(r) == match answer {
                Ok(a) => Ok::<TranscriptView, Failure>(
                    transcript_of(
                        a.text@,
                        a.language.deep_view(),
                        a.duration,
                        a.words.deep_view(),
                    ),
                ),
                Err(e) => Err(
                    Failure::Provider { provider: "xai"@, message: "decoding response: "@ + e@ },
                ),
            },
    {
        match answer {
            Ok(a) => Ok(make_transcript(a.text, a.language, a.duration, &a.words)),
            Err(e) => Err(http::provider_error("xai", "decoding response: ", &e)),
        }
    }
}

/// The service takes the fields of a transcription form only before the file:
/// the file is the last part, and no part before it is a file.
pub proof fn law_file_is_the_last_part(request: TranscribeRequest, upload: UploadView)
    ensures
        stt_form(request, upload).last() == (PartView::File { name: "file"@, upload }),
        forall|i: int|
            0 <= i < stt_form(request, upload).len() - 1 ==> #[trigger] stt_form(
                request,
                upload,
            )[i] is Text,
{
}

// ---------------------------------------------------------------------------
// Text to speech
// ---------------------------------------------------------------------------

/// The sample rate that the service uses where none is asked for.
pub const DEFAULT_SAMPLE_RATE: u32 = 24_000;

pub open spec fn rate_or_default(sample_rate: Option<u32>) -> u32 {
    match sample_rate {
        Some(r) => r,
        None => DEFAULT_SAMPLE_RATE,
    }
}

/// Whether the service can send audio in this codec.
pub open spec fn can_send(codec: AudioCodec) -> bool {
    codec == AudioCodec::Mp3 || codec == AudioCodec::Wav || codec == AudioCodec::Pcm || codec
        == AudioCodec::Mulaw || codec == AudioCodec::Alaw
}

/// What is said of a codec that the service cannot send.
pub open spec fn codec_refusal(codec: AudioCodec) -> Failure {
    Failure::Unsupported {
        provider: "xai"@,
        message: "output codec '"@ + codec.name() + "' (use mp3, wav, pcm, mulaw, or alaw)"@,
    }
}

/// The service's name of a codec and the sample rate to ask for.
pub fn codec_fields(codec: AudioCodec, sample_rate: Option<u32>) -> (r: CoreResult<(String, u32)>)
    ensures
        match r {
            Ok((name, rate)) => can_send(codec) && name@ == codec.name() && rate == rate_or_default(
                sample_rate,
            ),
            Err(e) => !can_send(codec) && e.deep_view() == codec_refusal(codec),
        },
{
    match codec {
        AudioCodec::Mp3 | AudioCodec::Wav | AudioCodec::Pcm | AudioCodec::Mulaw
        | AudioCodec::Alaw => {
            let rate: u32 = match sample_rate {
                Some(r) => r,
                None => DEFAULT_SAMPLE_RATE,
            };
            Ok((codec.as_str().to_owned(), rate))
        },
        _ => {
            let mut message = "output codec '".to_owned();
            message.append(codec.as_str());
            message.append("' (use mp3, wav, pcm, mulaw, or alaw)");
            Err(CoreError::Unsupported { provider: "xai".to_owned(), message })
        },
    }
}

/// The media type of a codec.
pub open spec fn codec_mime(codec: AudioCodec) -> Seq<char> {
    match codec {
        AudioCodec::Mp3 => "audio/mpeg"@,
        AudioCodec::Wav => "audio/wav"@,
        AudioCodec::Pcm => "audio/pcm"@,
        AudioCodec::Mulaw => "audio/basic"@,
        AudioCodec::Alaw => "audio/alaw"@,
        AudioCodec::Opus => "audio/opus"@,
        AudioCodec::Flac => "audio/flac"@,
        AudioCodec::Aac => "audio/aac"@,
    }
}

pub fn mime_for_codec(codec: AudioCodec) -> (r: &'static str)
    ensures
        r@ == codec_mime(codec),
{
    match codec {
        AudioCodec::Mp3 => "audio/mpeg",
        AudioCodec::Wav => "audio/wav",
        AudioCodec::Pcm => "audio/pcm",
        AudioCodec::Mulaw => "audio/basic",
        AudioCodec::Alaw => "audio/alaw",
        AudioCodec::Opus => "audio/opus",
        AudioCodec::Flac => "audio/flac",
        AudioCodec::Aac => "audio/aac",
    }
}

/// The language code of a speech request, or `auto`.
pub open spec fn language_or_auto(request: SpeechRequest) -> Seq<char> {
    match request.language {
        Some(l) => l.0@,
        None => "auto"@,
    }
}

pub fn language_code(request: &SpeechRequest) -> (r: &str)
    ensures
        r@ == language_or_auto(*request),
{
    match &request.language {
        Some(l) => l.code(),
        None => "auto",
    }
}

/// An integer as a document, where there is one.
pub open spec fn integer_option(n: Option<u32>) -> Option<Json> {
    match n {
        Some(n) => Some(Json::integer(n as nat)),
        None => None,
    }
}

/// The body of a batch text-to-speech request.
pub open spec fn speech_body(request: SpeechRequest, default_voice: Seq<char>) -> Json {
    let format = Json::empty().with("codec"@, Json::Text(request.codec.name())).with(
        "sample_rate"@,
        Json::integer(rate_or_default(request.sample_rate) as nat),
    ).with_option("bit_rate"@, integer_option(request.bit_rate));
    Json::empty().with("text"@, Json::Text(request.text@)).with(
        "language"@,
        Json::Text(language_or_auto(request)),
    ).with("voice_id"@, Json::Text(text::or(request.voice.deep_view(), default_voice))).with(
        "output_format"@,
        format,
    ).with_option("model"@, Json::text_option(request.model.deep_view())).with_option(
        "speed"@,
        match request.speed {
            Some(d) => Some(Json::decimal(d)),
            None => None,
        },
    ).with_option(
        "optimize_streaming_latency"@,
        match request.optimize_streaming_latency {
            Some(n) => Some(Json::integer(n as nat)),
            None => None,
        },
    ).with_option(
        "text_normalization"@,
        match request.text_normalization {
            Some(b) => Some(Json::Bool(b)),
            None => None,
        },
    ).with_option(
        "with_timestamps"@,
        if request.with_timestamps {
            Some(Json::Bool(true))
        } else {
            None
        },
    )
}

fn make_speech_body(request: &SpeechRequest, default_voice: &str, codec: &str, rate: u32) -> (r:
    Value)
    requires
        codec@ == request.codec.name(),
        rate == rate_or_default(request.sample_rate),
    ensures
        json::json_of(r) == speech_body(*request, default_voice@),
{
    let mut format = json::object();
    json::put_text(&mut format, "codec", codec);
    json::put(&mut format, "sample_rate", json::integer(rate as u64));
    if let Some(n) = request.bit_rate {
        json::put(&mut format, "bit_rate", json::integer(n as u64));
    }
    let mut body = json::object();
    json::put_text(&mut body, "text", &request.text);
    json::put_text(&mut body, "language", language_code(request));
    json::put_text(&mut body, "voice_id", &text::text_or(&request.voice, default_voice));
    json::put(&mut body, "output_format", format);
    json::put_text_option(&mut body, "model", &request.model);
    if let Some(d) = &request.speed {
        json::put(&mut body, "speed", json::decimal(d));
    }
    if let Some(n) = request.optimize_streaming_latency {
        json::put(&mut body, "optimize_streaming_latency", json::integer(n as u64));
    }
    if let Some(b) = request.text_normalization {
        json::put(&mut body, "text_normalization", json::boolean(b));
    }
    if request.with_timestamps {
        json::put(&mut body, "with_timestamps", json::boolean(true));
    }
    body
}

impl XaiProvider {
    /// The request that synthesizes speech, or the refusal of a codec that the
    /// service cannot send.
    pub fn synthesize(&self, request: &SpeechRequest) -> (r: CoreResult<HttpRequest>)
        ensures
            crate::error::outcome(r) == if can_send(request.codec) {
                Ok::<HttpView, Failure>(
                    HttpView {
                        method: Method::Post,
                        url: self.address("/v1/tts"@),
                        headers: seq![http::bearer(self.api_key@)],
                        query: Seq::empty(),
                        body: BodyView::Json(speech_body(*request, self.settings.tts_voice@)),
                    },
                )
            } else {
                Err(codec_refusal(request.codec))
            },
    {
        match codec_fields(request.codec, request.sample_rate) {
            Ok((codec, rate)) => {
                let body = make_speech_body(request, &self.settings.tts_voice, &codec, rate);
                Ok(
                    HttpRequest {
                        method: Method::Post,
                        url: self.url("/v1/tts"),
                        headers: http::one_field(http::bearer_header(&self.api_key)),
                        query: http::no_fields(),
                        body: Body::Json(body),
                    },
                )
            },
            Err(e) => Err(e),
        }
    }
}

// ---------------------------------------------------------------------------
// Capabilities
// ---------------------------------------------------------------------------

/// The extensions that the service takes.
pub open spec fn input_extensions() -> Seq<Seq<char>> {
    seq![
        "wav"@,
        "mp3"@,
        "ogg"@,
        "opus"@,
        "flac"@,
        "aac"@,
        "mp4"@,
        "m4a"@,
        "mkv"@,
    ]
}

impl Provider for XaiProvider {
    open spec fn identity(&self) -> ProviderId {
        ProviderId::Xai
    }

    open spec fn abilities(&self) -> CapabilitiesView {
        CapabilitiesView {
            batch_stt: true,
            batch_tts: true,
            streaming_stt: true,
            streaming_tts: true,
            word_timestamps: true,
            segment_timestamps: true,
            diarization: true,
            multichannel: true,
            keyterms: true,
            max_upload_bytes: Some(MAX_UPLOAD_BYTES),
            stt_input_extensions: input_extensions(),
            ..CapabilitiesView::none()
        }
    }

    fn id(&self) -> ProviderId {
        ProviderId::Xai
    }

    fn capabilities(&self) -> ProviderCapabilities {
        let r = ProviderCapabilities {
            batch_stt: true,
            batch_tts: true,
            streaming_stt: true,
            streaming_tts: true,
            word_timestamps: true,
            segment_timestamps: true,
            diarization: true,
            multichannel: true,
            keyterms: true,
            prompt: false,
            max_upload_bytes: Some(MAX_UPLOAD_BYTES),
            stt_input_extensions: text::list(
                &["wav", "mp3", "ogg", "opus", "flac", "aac", "mp4", "m4a", "mkv"],
            ),
        };
        assert(r.deep_view().stt_input_extensions =~= input_extensions());
        r
    }
}

// ---------------------------------------------------------------------------
// Laws of transcripts
// ---------------------------------------------------------------------------

/// Each word of a transcript is the word of the answer in its place: its text, its
/// start and its end, and its speaker by number. None is left out, added or moved.
pub proof fn law_words_are_those_of_the_answer(
    text: Seq<char>,
    language: Option<Seq<char>>,
    duration: Option<Decimal>,
    words: Seq<SttWordView>,
)
    ensures
        transcript_of(text, language, duration, words).words.len() == words.len(),
        forall|i: int|
            0 <= i < words.len() ==> {
                let w = #[trigger] transcript_of(text, language, duration, words).words[i];
                &&& w.text == words[i].text
                &&& w.start == words[i].start
                &&& w.end == words[i].end
                &&& match (w.speaker, words[i].speaker) {
                    (Some(name), Some(n)) => name == seq![
                        's',
                        'p',
                        'e',
                        'a',
                        'k',
                        'e',
                        'r',
                        '_',
                    ] + text::decimal(n as nat),
                    (None, None) => true,
                    _ => false,
                }
                &&& w.channel is None
                &&& w.confidence is None
            },
{
    reveal_strlit("speaker_");
    assert("speaker_"@ =~= seq!['s', 'p', 'e', 'a', 'k', 'e', 'r', '_']);
}

/// A transcript holds the text, the language and the duration of the answer, names
/// the service and its model, and its segments are made from its words.
pub proof fn law_transcript_is_the_answer(
    text: Seq<char>,
    language: Option<Seq<char>>,
    duration: Option<Decimal>,
    words: Seq<SttWordView>,
)
    ensures
        ({
            let t = transcript_of(text, language, duration, words);
            &&& t.text == text
            &&& t.language == language
            &&& t.duration == duration
            &&& t.provider == ProviderId::Xai
            &&& t.model == Some("grok-stt"@)
            &&& t.segments == crate::domain::segments_from(t.words)
        }),
{
}

/// Words whose times are in order stay in order, and a word that does not end
/// before it starts still does not.
pub proof fn law_times_stay_in_order(words: Seq<SttWordView>)
    ensures
        forall|i: int|
            0 <= i < words.len() && words[i].start.atto <= words[i].end.atto
                ==> (#[trigger] mapped(words)[i]).start.atto <= mapped(words)[i].end.atto,
        forall|i: int, j: int|
            0 <= i < j < words.len() && words[i].end.atto <= words[j].start.atto
                ==> (#[trigger] mapped(words)[i]).end.atto <= (#[trigger] mapped(
                words,
            )[j]).start.atto,
{
}

// ---------------------------------------------------------------------------
// Laws of requests
// ---------------------------------------------------------------------------

/// The form of a transcription says all that was asked: the language by its
/// primary subtag, with formatting, where one is given; diarization where it is
/// asked for; every key term in order; and the upload as its only file.
pub proof fn law_form_says_what_was_asked(request: TranscribeRequest, upload: UploadView)
    ensures
        http::values_of(stt_form(request, upload), "language"@) == match request.language {
            Some(l) => seq![crate::domain::primary_subtag(l.0@)],
            None => Seq::empty(),
        },
        http::values_of(stt_form(request, upload), "format"@) == match request.language {
            Some(l) => seq!["true"@],
            None => Seq::empty(),
        },
        http::values_of(stt_form(request, upload), "diarize"@) == if request.diarize {
            seq!["true"@]
        } else {
            Seq::empty()
        },
        http::values_of(stt_form(request, upload), "keyterm"@) == request.keyterms.deep_view(),
        http::files_of(stt_form(request, upload)) == seq![("file"@, upload)],
{
    lemma_form_values(request, upload, "language"@);
    lemma_form_values(request, upload, "format"@);
    lemma_form_values(request, upload, "diarize"@);
    lemma_form_values(request, upload, "keyterm"@);
    lemma_field_names();
}

proof fn lemma_form_values(request: TranscribeRequest, upload: UploadView, name: Seq<char>)
    ensures
        http::values_of(stt_form(request, upload), name) == (match request.language {
            Some(l) => (if name == "language"@ {
                seq![crate::domain::primary_subtag(l.0@)]
            } else {
                Seq::empty()
            }) + (if name == "format"@ {
                seq!["true"@]
            } else {
                Seq::empty()
            }),
            None => Seq::empty(),
        }) + (if request.diarize && name == "diarize"@ {
            seq!["true"@]
        } else {
            Seq::empty()
        }) + (if name == "keyterm"@ {
            request.keyterms.deep_view()
        } else {
            Seq::empty()
        }),
        http::files_of(stt_form(request, upload)) == seq![("file"@, upload)],
{
    lemma_field_names();
    let language = match request.language {
        Some(l) => seq![
            http::text_part("language"@, crate::domain::primary_subtag(l.0@)),
            http::text_part("format"@, "true"@),
        ],
        None => Seq::empty(),
    };
    let diarize = if request.diarize {
        seq![http::text_part("diarize"@, "true"@)]
    } else {
        Seq::empty()
    };
    let terms = keyterm_parts(request.keyterms.deep_view());
    if let Some(l) = request.language {
        let a = http::text_part("language"@, crate::domain::primary_subtag(l.0@));
        let b = http::text_part("format"@, "true"@);
        http::lemma_values_one(a, name);
        http::lemma_values_push(seq![a], b, name);
        assert(language =~= seq![a].push(b));
    }
    http::lemma_values_one(http::text_part("diarize"@, "true"@), name);
    http::lemma_values_of_list(terms, "keyterm"@, request.keyterms.deep_view(), name);
    http::lemma_values_add(language, diarize, name);
    http::lemma_values_add(language + diarize, terms, name);
    let file = PartView::File { name: "file"@, upload };
    http::lemma_values_push(language + diarize + terms, file, name);
    assert(http::values_of(stt_form(request, upload), name) =~= (match request.language {
        Some(l) => (if name == "language"@ {
            seq![crate::domain::primary_subtag(l.0@)]
        } else {
            Seq::empty()
        }) + (if name == "format"@ {
            seq!["true"@]
        } else {
            Seq::empty()
        }),
        None => Seq::empty(),
    }) + (if request.diarize && name == "diarize"@ {
        seq!["true"@]
    } else {
        Seq::empty()
    }) + (if name == "keyterm"@ {
        request.keyterms.deep_view()
    } else {
        Seq::empty()
    }));
    assert(http::files_of(stt_form(request, upload)) =~= seq![("file"@, upload)]);
}

proof fn lemma_field_names()
    ensures
        "language"@ != "format"@,
        "language"@ != "diarize"@,
        "language"@ != "keyterm"@,
        "language"@ != "file"@,
        "format"@ != "diarize"@,
        "format"@ != "keyterm"@,
        "format"@ != "file"@,
        "diarize"@ != "keyterm"@,
        "diarize"@ != "file"@,
        "keyterm"@ != "file"@,
{
    reveal_strlit("language");
    reveal_strlit("format");
    reveal_strlit("diarize");
    reveal_strlit("keyterm");
    reveal_strlit("file");
    assert("language"@.len() == 8);
    assert("format"@.len() == 6);
    assert("diarize"@.len() == 7);
    assert("keyterm"@.len() == 7);
    assert("file"@.len() == 4);
    assert("diarize"@[0] == 'd');
    assert("keyterm"@[0] == 'k');
}

/// The body of a speech request says all that was asked: the text, the voice or
/// the configured one, the language or `auto`, the codec with the sample rate asked
/// for or 24 kHz, and every option that is given and no other.
pub proof fn law_speech_body_says_what_was_asked(request: SpeechRequest, default_voice: Seq<char>)
    ensures
        ({
            let body = speech_body(request, default_voice);
            &&& body.entry("text"@) == Some(Json::Text(request.text@))
            &&& body.entry("voice_id"@) == Some(
                Json::Text(
                    match request.voice {
                        Some(v) => v@,
                        None => default_voice,
                    },
                ),
            )
            &&& body.entry("language"@) == Some(
                Json::Text(
                    match request.language {
                        Some(l) => l.0@,
                        None => seq!['a', 'u', 't', 'o'],
                    },
                ),
            )
            &&& match request.model {
                Some(m) => body.entry("model"@) == Some(Json::Text(m@)),
                None => body.entry("model"@) is None,
            }
            &&& match request.speed {
                Some(d) => body.entry("speed"@) == Some(Json::decimal(d)),
                None => body.entry("speed"@) is None,
            }
            &&& match request.optimize_streaming_latency {
                Some(n) => body.entry("optimize_streaming_latency"@) == Some(
                    Json::Number(text::decimal(n as nat)),
                ),
                None => body.entry("optimize_streaming_latency"@) is None,
            }
            &&& match request.text_normalization {
                Some(b) => body.entry("text_normalization"@) == Some(Json::Bool(b)),
                None => body.entry("text_normalization"@) is None,
            }
            &&& if request.with_timestamps {
                body.entry("with_timestamps"@) == Some(Json::Bool(true))
            } else {
                body.entry("with_timestamps"@) is None
            }
            &&& match body.entry("output_format"@) {
                Some(format) => {
                    &&& format.entry("codec"@) == Some(Json::Text(request.codec.name()))
                    &&& format.entry("sample_rate"@) == Some(
                        Json::Number(
                            text::decimal(
                                match request.sample_rate {
                                    Some(r) => r as nat,
                                    None => 24_000,
                                },
                            ),
                        ),
                    )
                    &&& match request.bit_rate {
                        Some(n) => format.entry("bit_rate"@) == Some(
                            Json::Number(text::decimal(n as nat)),
                        ),
                        None => format.entry("bit_rate"@) is None,
                    }
                },
                None => false,
            }
        }),
{
    lemma_body_keys();
    reveal_strlit("auto");
    assert("auto"@ =~= seq!['a', 'u', 't', 'o']);
}

proof fn lemma_body_keys()
    ensures
        "text"@ != "language"@,
        "text"@ != "voice_id"@,
        "text"@ != "output_format"@,
        "text"@ != "model"@,
        "text"@ != "speed"@,
        "text"@ != "optimize_streaming_latency"@,
        "text"@ != "text_normalization"@,
        "text"@ != "with_timestamps"@,
        "text"@ != "codec"@,
        "text"@ != "sample_rate"@,
        "text"@ != "bit_rate"@,
        "language"@ != "voice_id"@,
        "language"@ != "output_format"@,
        "language"@ != "model"@,
        "language"@ != "speed"@,
        "language"@ != "optimize_streaming_latency"@,
        "language"@ != "text_normalization"@,
        "language"@ != "with_timestamps"@,
        "language"@ != "codec"@,
        "language"@ != "sample_rate"@,
        "language"@ != "bit_rate"@,
        "voice_id"@ != "output_format"@,
        "voice_id"@ != "model"@,
        "voice_id"@ != "speed"@,
        "voice_id"@ != "optimize_streaming_latency"@,
        "voice_id"@ != "text_normalization"@,
        "voice_id"@ != "with_timestamps"@,
        "voice_id"@ != "codec"@,
        "voice_id"@ != "sample_rate"@,
        "voice_id"@ != "bit_rate"@,
        "output_format"@ != "model"@,
        "output_format"@ != "speed"@,
        "output_format"@ != "optimize_streaming_latency"@,
        "output_format"@ != "text_normalization"@,
        "output_format"@ != "with_timestamps"@,
        "output_format"@ != "codec"@,
        "output_format"@ != "sample_rate"@,
        "output_format"@ != "bit_rate"@,
        "model"@ != "speed"@,
        "model"@ != "optimize_streaming_latency"@,
        "model"@ != "text_normalization"@,
        "model"@ != "with_timestamps"@,
        "model"@ != "codec"@,
        "model"@ != "sample_rate"@,
        "model"@ != "bit_rate"@,
        "speed"@ != "optimize_streaming_latency"@,
        "speed"@ != "text_normalization"@,
        "speed"@ != "with_timestamps"@,
        "speed"@ != "codec"@,
        "speed"@ != "sample_rate"@,
        "speed"@ != "bit_rate"@,
        "optimize_streaming_latency"@ != "text_normalization"@,
        "optimize_streaming_latency"@ != "with_timestamps"@,
        "optimize_streaming_latency"@ != "codec"@,
        "optimize_streaming_latency"@ != "sample_rate"@,
        "optimize_streaming_latency"@ != "bit_rate"@,
        "text_normalization"@ != "with_timestamps"@,
        "text_normalization"@ != "codec"@,
        "text_normalization"@ != "sample_rate"@,
        "text_normalization"@ != "bit_rate"@,
        "with_timestamps"@ != "codec"@,
        "with_timestamps"@ != "sample_rate"@,
        "with_timestamps"@ != "bit_rate"@,
        "codec"@ != "sample_rate"@,
        "codec"@ != "bit_rate"@,
        "sample_rate"@ != "bit_rate"@,
{
    reveal_strlit("text");
    reveal_strlit("language");
    reveal_strlit("voice_id");
    reveal_strlit("output_format");
    reveal_strlit("model");
    reveal_strlit("speed");
    reveal_strlit("optimize_streaming_latency");
    reveal_strlit("text_normalization");
    reveal_strlit("with_timestamps");
    reveal_strlit("codec");
    reveal_strlit("sample_rate");
    reveal_strlit("bit_rate");
    assert("text"@.len() == 4);
    assert("language"@.len() == 8);
    assert("voice_id"@.len() == 8);
    assert("output_format"@.len() == 13);
    assert("model"@.len() == 5);
    assert("speed"@.len() == 5);
    assert("optimize_streaming_latency"@.len() == 26);
    assert("text_normalization"@.len() == 18);
    assert("with_timestamps"@.len() == 15);
    assert("codec"@.len() == 5);
    assert("sample_rate"@.len() == 11);
    assert("bit_rate"@.len() == 8);
    assert("language"@[0] == 'l');
    assert("voice_id"@[0] == 'v');
    assert("bit_rate"@[0] == 'b');
    assert("model"@[0] == 'm');
    assert("speed"@[0] == 's');
    assert("codec"@[0] == 'c');
}

/// The service sends every codec but Opus, FLAC and AAC; each codec has its own
/// media type.
pub proof fn law_codecs_of_the_service(codec: AudioCodec)
    ensures
        can_send(codec) <==> codec != AudioCodec::Opus && codec != AudioCodec::Flac && codec
            != AudioCodec::Aac,
        codec_mime(codec) == match codec {
            AudioCodec::Mp3 => "audio/mpeg"@,
            AudioCodec::Wav => "audio/wav"@,
            AudioCodec::Pcm => "audio/pcm"@,
            AudioCodec::Mulaw => "audio/basic"@,
            AudioCodec::Alaw => "audio/alaw"@,
            AudioCodec::Opus => "audio/opus"@,
            AudioCodec::Flac => "audio/flac"@,
            AudioCodec::Aac => "audio/aac"@,
        },
        codec_refusal(codec) is Unsupported,
{
}

/// What the service takes: WAV, MP3, Ogg, Opus, FLAC, AAC, MP4, M4A and MKV files of
/// at most 500 MiB, with diarization and key terms, and no prompt.
pub proof fn law_abilities(p: XaiProvider)
    ensures
        p.identity() == ProviderId::Xai,
        p.abilities().batch_stt && p.abilities().batch_tts,
        p.abilities().streaming_stt && p.abilities().streaming_tts,
        p.abilities().word_timestamps && p.abilities().segment_timestamps,
        p.abilities().diarization && p.abilities().multichannel && p.abilities().keyterms,
        !p.abilities().prompt,
        p.abilities().max_upload_bytes == Some(524_288_000u64),
        forall|e: Seq<char>|
            p.abilities().stt_input_extensions.contains(e) <==> e == "wav"@ || e == "mp3"@ || e
                == "ogg"@ || e == "opus"@ || e == "flac"@ || e == "aac"@ || e == "mp4"@ || e
                == "m4a"@ || e == "mkv"@,
{
    let list = p.abilities().stt_input_extensions;
    assert(list[0] == "wav"@ && list[1] == "mp3"@ && list[2] == "ogg"@ && list[3] == "opus"@
        && list[4] == "flac"@ && list[5] == "aac"@ && list[6] == "mp4"@ && list[7] == "m4a"@
        && list[8] == "mkv"@);
}

/// The view of a recognized word shows each field as it is.
pub proof fn law_view_of_a_word(w: SttWord)
    ensures
        w.deep_view().text == w.text@,
        w.deep_view().start == w.start,
        w.deep_view().end == w.end,
        w.deep_view().speaker == w.speaker,
{
}

/// An address on the service is its path after the configured base.
pub proof fn law_address(p: XaiProvider, path: Seq<char>)
    ensures
        p.address(path) == p.settings.base_url@ + path,
{
}

/// The refusal of a codec quotes its name and lists those that are sent.
pub proof fn law_refusal_of_a_codec(codec: AudioCodec)
    ensures
        codec_refusal(codec) == (Failure::Unsupported {
            provider: "xai"@,
            message: "output codec '"@ + codec.name() + "' (use mp3, wav, pcm, mulaw, or alaw)"@,
        }),
{
}

} // verus!
