//! OpenAI adapter: `/v1/audio/transcriptions` (speech-to-text) and
//! `/v1/audio/speech` (text-to-speech). Also works against OpenAI-compatible
//! bases via `base_url`.
//!
//! Only `whisper-1` supports `verbose_json` with word and segment timestamps;
//! other models return plain `json`. The adapter switches on the model name.
//! Batch uploads are capped at 25 MB and OGG/Opus is not in the documented
//! input list: the engine transcodes first when needed.

use crate::capabilities::{CapabilitiesView, ProviderCapabilities};
use crate::decimal::Decimal;
use crate::domain::{
    AudioCodec, AudioOutput, AudioOutputView, Segment, SegmentView, SpeechRequest,
    TranscribeRequest, Transcript, TranscriptView, Word, WordView,
};
use crate::error::{CoreError, CoreResult, Failure};
use crate::http;
use crate::http::{Body, BodyView, HttpRequest, HttpView, Method, PartView, Upload, UploadView};
use crate::json;
use crate::json::Json;
use crate::ports::Provider;
use crate::provider::ProviderId;
use crate::text;
use vstd::prelude::*;

verus! {

pub const MAX_UPLOAD_BYTES: u64 = 26_214_400;

#[derive(Debug, Clone)]
pub struct OpenAiSettings {
    pub base_url: String,
    pub stt_model: String,
    pub tts_model: String,
    pub tts_voice: String,
}

impl Default for OpenAiSettings {
    fn default() -> (r: OpenAiSettings)
        ensures
            r.base_url@ == "https://api.openai.com"@,
            r.stt_model@ == "whisper-1"@,
            r.tts_model@ == "gpt-4o-mini-tts"@,
            r.tts_voice@ == "marin"@,
    {
        OpenAiSettings {
            base_url: "https://api.openai.com".to_owned(),
            stt_model: "whisper-1".to_owned(),
            tts_model: "gpt-4o-mini-tts".to_owned(),
            tts_voice: "marin".to_owned(),
        }
    }
}

#[derive(Debug, Clone)]
pub struct OpenAiProvider {
    pub api_key: String,
    pub settings: OpenAiSettings,
}

/// Whether a model gives timestamps.
pub open spec fn is_whisper(model: Seq<char>) -> bool {
    text::starts_with(model, "whisper"@)
}

/// The extensions that the service takes.
pub open spec fn input_extensions() -> Seq<Seq<char>> {
    seq!["flac"@, "mp3"@, "mp4"@, "mpeg"@, "mpga"@, "m4a"@, "wav"@, "webm"@]
}

impl Provider for OpenAiProvider {
    open spec fn identity(&self) -> ProviderId {
        ProviderId::Openai
    }

    open spec fn abilities(&self) -> CapabilitiesView {
        CapabilitiesView {
            batch_stt: true,
            batch_tts: true,
            word_timestamps: is_whisper(self.settings.stt_model@),
            segment_timestamps: is_whisper(self.settings.stt_model@),
            prompt: true,
            max_upload_bytes: Some(MAX_UPLOAD_BYTES),
            stt_input_extensions: input_extensions(),
            ..CapabilitiesView::none()
        }
    }

    fn id(&self) -> ProviderId {
        ProviderId::Openai
    }

    fn capabilities(&self) -> ProviderCapabilities {
        let whisper = text::has_prefix(&self.settings.stt_model, "whisper");
        let r = ProviderCapabilities {
            batch_stt: true,
            batch_tts: true,
            streaming_stt: false,
            streaming_tts: false,
            word_timestamps: whisper,
            segment_timestamps: whisper,
            diarization: false,
            multichannel: false,
            keyterms: false,
            prompt: true,
            max_upload_bytes: Some(MAX_UPLOAD_BYTES),
            stt_input_extensions: text::list(
                &["flac", "mp3", "mp4", "mpeg", "mpga", "m4a", "wav", "webm"],
            ),
        };
        assert(r.deep_view().stt_input_extensions =~= input_extensions());
        r
    }
}

// ---------------------------------------------------------------------------
// Speech to text
// ---------------------------------------------------------------------------

/// The answer to a transcription request; what a model does not give is empty.
#[derive(Debug, Clone)]
pub struct VerboseResponse {
    pub text: String,
    pub language: Option<String>,
    pub duration: Option<Decimal>,
    pub segments: Vec<VerboseSegment>,
    pub words: Vec<VerboseWord>,
}

#[derive(Debug, Clone)]
pub struct VerboseSegment {
    pub start: Decimal,
    pub end: Decimal,
    pub text: String,
}

#[derive(Debug, Clone)]
pub struct VerboseWord {
    pub word: String,
    pub start: Decimal,
    pub end: Decimal,
}

impl VerboseSegment {
    /// The segment in the normalized model.
    pub open spec fn normalized(self) -> SegmentView {
        SegmentView {
            start: self.start,
            end: self.end,
            text: text::trim(self.text@),
            speaker: None,
            channel: None,
        }
    }
}

impl VerboseWord {
    /// The word in the normalized model.
    pub open spec fn normalized(self) -> WordView {
        WordView {
            text: self.word@,
            start: self.start,
            end: self.end,
            speaker: None,
            channel: None,
            confidence: None,
        }
    }
}

/// The model of a transcription: the one asked for, or the configured one.
pub open spec fn stt_model_of(request: TranscribeRequest, settings: OpenAiSettings) -> Seq<char> {
    text::or(request.model.deep_view(), settings.stt_model@)
}

/// The form field of a text, where there is one.
pub open spec fn optional_part(name: Seq<char>, value: Option<Seq<char>>) -> Seq<PartView> {
    match value {
        Some(v) => seq![http::text_part(name, v)],
        None => Seq::empty(),
    }
}

/// The form of a transcription request.
pub open spec fn stt_form(
    request: TranscribeRequest,
    model: Seq<char>,
    upload: UploadView,
) -> Seq<PartView> {
    let format = if is_whisper(model) {
        seq![
            http::text_part("response_format"@, "verbose_json"@),
            http::text_part("timestamp_granularities[]"@, "word"@),
            http::text_part("timestamp_granularities[]"@, "segment"@),
        ]
    } else {
        seq![http::text_part("response_format"@, "json"@)]
    };
    seq![PartView::File { name: "file"@, upload }, http::text_part("model"@, model)]
        + optional_part(
        "language"@,
        match request.language {
            Some(l) => Some(crate::domain::primary_subtag(l.0@)),
            None => None,
        },
    ) + optional_part("prompt"@, request.prompt.deep_view()) + format
}

/// The transcript that an answer holds.
pub open spec fn transcript_of(answer: VerboseResponse, model: Seq<char>) -> TranscriptView {
    TranscriptView {
        text: answer.text@,
        language: answer.language.deep_view(),
        duration: answer.duration,
        provider: ProviderId::Openai,
        model: Some(model),
        segments: Seq::new(answer.segments@.len(), |i: int| answer.segments@[i].normalized()),
        words: Seq::new(answer.words@.len(), |i: int| answer.words@[i].normalized()),
    }
}

fn map_segments(segments: &Vec<VerboseSegment>) -> (out: Vec<Segment>)
    ensures
        out.deep_view() == Seq::new(segments@.len(), |i: int| segments@[i].normalized()),
{
    let mut out: Vec<Segment> = Vec::new();
    let mut i: usize = 0;
    while i < segments.len()
        invariant
            i <= segments@.len(),
            out@.len() == i,
            forall|j: int|
                0 <= j < i ==> (#[trigger] out@[j]).deep_view() == segments@[j].normalized(),
        decreases segments@.len() - i,
    {
        let s = &segments[i];
        out.push(Segment::new(s.start, s.end, text::trimmed(&s.text)));
        i = i + 1;
    }
    assert(out.deep_view() =~= Seq::new(segments@.len(), |i: int| segments@[i].normalized()));
    out
}

fn map_words(words: &Vec<VerboseWord>) -> (out: Vec<Word>)
    ensures
        out.deep_view() == Seq::new(words@.len(), |i: int| words@[i].normalized()),
{
    let mut out: Vec<Word> = Vec::new();
    let mut i: usize = 0;
    while i < words.len()
        invariant
            i <= words@.len(),
            out@.len() == i,
            forall|j: int|
                0 <= j < i ==> (#[trigger] out@[j]).deep_view() == words@[j].normalized(),
        decreases words@.len() - i,
    {
        let w = &words[i];
        out.push(Word::new(&w.word, w.start, w.end));
        i = i + 1;
    }
    assert(out.deep_view() =~= Seq::new(words@.len(), |i: int| words@[i].normalized()));
    out
}

impl OpenAiProvider {
    pub fn new(api_key: &str, settings: OpenAiSettings) -> (r: OpenAiProvider)
        ensures
            r.api_key@ == api_key@,
            r.settings == settings,
    {
        OpenAiProvider { api_key: api_key.to_owned(), settings }
    }

    fn url(&self, path: &str) -> (r: String)
        ensures
            r@ == self.settings.base_url@ + path@,
    {
        let mut url = self.settings.base_url.clone();
        url.append(path);
        url
    }

    /// The request that transcribes an upload.
    pub fn transcribe(&self, request: &TranscribeRequest, upload: Upload) -> (r: HttpRequest)
        ensures
            r.deep_view() == (HttpView {
                method: Method::Post,
                url: self.settings.base_url@ + "/v1/audio/transcriptions"@,
                headers: seq![http::bearer(self.api_key@)],
                query: Seq::empty(),
                body: BodyView::Form(
                    stt_form(*request, stt_model_of(*request, self.settings), upload.deep_view()),
                ),
            }),
    {
        let model = text::text_or(&request.model, &self.settings.stt_model);
        let mut form = http::empty_form();
        http::push_file(&mut form, "file", upload);
        http::push_text(&mut form, "model", &model);
        let ghost head = form.deep_view();
        assert(head =~= seq![
            PartView::File { name: "file"@, upload: upload.deep_view() },
            http::text_part("model"@, model@),
        ]);
        if let Some(language) = &request.language {
            http::push_text(&mut form, "language", &language.primary());
        }
        if let Some(prompt) = &request.prompt {
            http::push_text(&mut form, "prompt", prompt);
        }
        if text::has_prefix(&model, "whisper") {
            http::push_text(&mut form, "response_format", "verbose_json");
            http::push_text(&mut form, "timestamp_granularities[]", "word");
            http::push_text(&mut form, "timestamp_granularities[]", "segment");
        } else {
            http::push_text(&mut form, "response_format", "json");
        }
        assert(form.deep_view() =~= stt_form(
            *request,
            stt_model_of(*request, self.settings),
            upload.deep_view(),
        ));
        HttpRequest {
            method: Method::Post,
            url: self.url("/v1/audio/transcriptions"),
            headers: http::one_field(http::bearer_header(&self.api_key)),
            query: http::no_fields(),
            body: Body::Form(form),
        }
    }

    /// The transcript that an answer to `request` holds, or the failure to
    /// read it.
    pub fn transcript(
        &self,
        request: &TranscribeRequest,
        answer: Result<VerboseResponse, String>,
    ) -> (r: CoreResult<Transcript>)
        ensures
            crate::error::outcome(r) == match answer {
                Ok(a) => Ok::<TranscriptView, Failure>(
                    transcript_of(a, stt_model_of(*request, self.settings)),
                ),
                Err(e) => Err(
                    Failure::Provider {
                        provider: "openai"@,
                        message: "decoding response: "@ + e@,
                    },
                ),
            },
    {
        match answer {
            Ok(a) => {
                let segments = map_segments(&a.segments);
                let words = map_words(&a.words);
                Ok(
                    Transcript {
                        text: a.text,
                        language: a.language,
                        duration: a.duration,
                        provider: ProviderId::Openai,
                        model: Some(text::text_or(&request.model, &self.settings.stt_model)),
                        segments,
                        words,
                    },
                )
            },
            Err(e) => Err(http::provider_error("openai", "decoding response: ", &e)),
        }
    }
}

// ---------------------------------------------------------------------------
// Text to speech
// ---------------------------------------------------------------------------

/// Whether the service can send audio in this codec.
pub open spec fn can_send(codec: AudioCodec) -> bool {
    codec != AudioCodec::Mulaw && codec != AudioCodec::Alaw
}

/// What is said of a codec that the service cannot send.
pub open spec fn codec_refusal(codec: AudioCodec) -> Failure {
    Failure::Unsupported {
        provider: "openai"@,
        message: "output codec '"@ + codec.name() + "'"@,
    }
}

/// The service's name of a codec.
pub fn response_format(codec: AudioCodec) -> (r: CoreResult<&'static str>)
    ensures
        match r {
            Ok(name) => can_send(codec) && name@ == codec.name(),
            Err(e) => !can_send(codec) && e.deep_view() == codec_refusal(codec),
        },
{
    match codec {
        AudioCodec::Mulaw | AudioCodec::Alaw => {
            let mut message = "output codec '".to_owned();
            message.append(codec.as_str());
            message.append("'");
            Err(CoreError::Unsupported { provider: "openai".to_owned(), message })
        },
        _ => Ok(codec.as_str()),
    }
}

/// The body of a speech request.
pub open spec fn speech_body(request: SpeechRequest, settings: OpenAiSettings) -> Json {
    Json::empty().with(
        "model"@,
        Json::Text(text::or(request.model.deep_view(), settings.tts_model@)),
    ).with("input"@, Json::Text(request.text@)).with(
        "voice"@,
        Json::Text(text::or(request.voice.deep_view(), settings.tts_voice@)),
    ).with("response_format"@, Json::Text(request.codec.name())).with_option(
        "speed"@,
        match request.speed {
            Some(d) => Some(Json::decimal(d)),
            None => None,
        },
    ).with_option("instructions"@, Json::text_option(request.instructions.deep_view()))
}

impl OpenAiProvider {
    /// The request that synthesizes speech, or the refusal of a codec that the
    /// service cannot send.
    pub fn synthesize(&self, request: &SpeechRequest) -> (r: CoreResult<HttpRequest>)
        ensures
            crate::error::outcome(r) == if can_send(request.codec) {
                Ok::<HttpView, Failure>(
                    HttpView {
                        method: Method::Post,
                        url: self.settings.base_url@ + "/v1/audio/speech"@,
                        headers: seq![http::bearer(self.api_key@)],
                        query: Seq::empty(),
                        body: BodyView::Json(speech_body(*request, self.settings)),
                    },
                )
            } else {
                Err(codec_refusal(request.codec))
            },
    {
        let format = match response_format(request.codec) {
            Ok(f) => f,
            Err(e) => {
                return Err(e);
            },
        };
        let mut body = json::object();
        json::put_text(
            &mut body,
            "model",
            &text::text_or(&request.model, &self.settings.tts_model),
        );
        json::put_text(&mut body, "input", &request.text);
        json::put_text(
            &mut body,
            "voice",
            &text::text_or(&request.voice, &self.settings.tts_voice),
        );
        json::put_text(&mut body, "response_format", format);
        if let Some(d) = &request.speed {
            json::put(&mut body, "speed", json::decimal(d));
        }
        json::put_text_option(&mut body, "instructions", &request.instructions);
        Ok(
            HttpRequest {
                method: Method::Post,
                url: self.url("/v1/audio/speech"),
                headers: http::one_field(http::bearer_header(&self.api_key)),
                query: http::no_fields(),
                body: Body::Json(body),
            },
        )
    }

    /// The speech that an answer with these bytes brings.
    pub fn speech(&self, request: &SpeechRequest, bytes: Vec<u8>) -> (r: AudioOutput)
        ensures
            r.deep_view() == AudioOutputView::plain(
                bytes@,
                crate::xai::codec_mime(request.codec),
                request.codec,
                ProviderId::Openai,
            ),
    {
        AudioOutput::plain(
            bytes,
            crate::xai::mime_for_codec(request.codec),
            request.codec,
            ProviderId::Openai,
        )
    }
}

// ---------------------------------------------------------------------------
// Laws of transcripts
// ---------------------------------------------------------------------------

/// A transcript is the answer, field by field: its text, language and duration, each
/// word and each segment in its place with its times and its text, the text of a
/// segment trimmed; it names the service and the model that was asked.
pub proof fn law_transcript_is_the_answer(answer: VerboseResponse, model: Seq<char>)
    ensures
        ({
            let t = transcript_of(answer, model);
            &&& t.text == answer.text@
            &&& t.language == answer.language.deep_view()
            &&& t.duration == answer.duration
            &&& t.provider == ProviderId::Openai
            &&& t.model == Some(model)
            &&& t.words.len() == answer.words@.len()
            &&& forall|i: int|
                0 <= i < t.words.len() ==> {
                    let w = #[trigger] t.words[i];
                    &&& w.text == answer.words@[i].word@
                    &&& w.start == answer.words@[i].start
                    &&& w.end == answer.words@[i].end
                    &&& w.speaker is None && w.channel is None && w.confidence is None
                }
            &&& t.segments.len() == answer.segments@.len()
            &&& forall|i: int|
                0 <= i < t.segments.len() ==> {
                    let s = #[trigger] t.segments[i];
                    &&& s.text == text::trim(answer.segments@[i].text@)
                    &&& s.start == answer.segments@[i].start
                    &&& s.end == answer.segments@[i].end
                    &&& s.speaker is None && s.channel is None
                }
        }),
{
}

// ---------------------------------------------------------------------------
// Laws of requests
// ---------------------------------------------------------------------------

/// The model is the one asked for, and the configured one where none is.
pub proof fn law_model_of_a_transcription(request: TranscribeRequest, settings: OpenAiSettings)
    ensures
        stt_model_of(request, settings) == match request.model {
            Some(m) => m@,
            None => settings.stt_model@,
        },
{
}

/// A field that there may be stands in the form exactly where it is there.
pub proof fn lemma_optional_part(field: Seq<char>, value: Option<Seq<char>>, name: Seq<char>)
    ensures
        http::values_of(optional_part(field, value), name) == match value {
            Some(v) => if field == name {
                seq![v]
            } else {
                Seq::empty()
            },
            None => Seq::empty(),
        },
        http::files_of(optional_part(field, value)) == Seq::<(Seq<char>, UploadView)>::empty(),
{
    http::lemma_values_one(http::text_part(field, text::or(value, Seq::empty())), name);
}

/// The form of a transcription says all that was asked: the model, the language by
/// its primary subtag and the prompt where they are given, and the upload as its
/// only file. A whisper model is asked for the times of words and segments, any
/// other for the text alone.
pub proof fn law_form_says_what_was_asked(
    request: TranscribeRequest,
    model: Seq<char>,
    upload: UploadView,
)
    ensures
        ({
            let form = stt_form(request, model, upload);
            &&& http::files_of(form) == seq![("file"@, upload)]
            &&& http::values_of(form, "model"@) == seq![model]
            &&& http::values_of(form, "language"@) == match request.language {
                Some(l) => seq![crate::domain::primary_subtag(l.0@)],
                None => Seq::empty(),
            }
            &&& http::values_of(form, "prompt"@) == match request.prompt {
                Some(p) => seq![p@],
                None => Seq::empty(),
            }
            &&& http::values_of(form, "response_format"@) == if is_whisper(model) {
                seq!["verbose_json"@]
            } else {
                seq!["json"@]
            }
            &&& http::values_of(form, "timestamp_granularities[]"@) == if is_whisper(model) {
                seq!["word"@, "segment"@]
            } else {
                Seq::empty()
            }
        }),
{
    lemma_field_names();
    lemma_form_values(request, model, upload, "model"@);
    lemma_form_values(request, model, upload, "language"@);
    lemma_form_values(request, model, upload, "prompt"@);
    lemma_form_values(request, model, upload, "response_format"@);
    lemma_form_values(request, model, upload, "timestamp_granularities[]"@);
}

spec fn field_values(
    request: TranscribeRequest,
    model: Seq<char>,
    name: Seq<char>,
) -> Seq<Seq<char>> {
    (if name == "model"@ {
        seq![model]
    } else {
        Seq::empty()
    }) + (match request.language {
        Some(l) if name == "language"@ => seq![crate::domain::primary_subtag(l.0@)],
        _ => Seq::empty(),
    }) + (match request.prompt {
        Some(p) if name == "prompt"@ => seq![p@],
        _ => Seq::empty(),
    }) + (if name == "response_format"@ {
        if is_whisper(model) {
            seq!["verbose_json"@]
        } else {
            seq!["json"@]
        }
    } else if name == "timestamp_granularities[]"@ && is_whisper(model) {
        seq!["word"@, "segment"@]
    } else {
        Seq::empty()
    })
}

proof fn lemma_form_values(
    request: TranscribeRequest,
    model: Seq<char>,
    upload: UploadView,
    name: Seq<char>,
)
    ensures
        http::values_of(stt_form(request, model, upload), name) == field_values(
            request,
            model,
            name,
        ),
        http::files_of(stt_form(request, model, upload)) == seq![("file"@, upload)],
{
    lemma_field_names();
    let file = PartView::File { name: "file"@, upload };
    let asked = http::text_part("model"@, model);
    http::lemma_values_one(file, name);
    http::lemma_values_push(seq![file], asked, name);
    let start = seq![file, asked];
    assert(start =~= seq![file].push(asked));
    let language = match request.language {
        Some(l) => Some(crate::domain::primary_subtag(l.0@)),
        None => None,
    };
    lemma_optional_part("language"@, language, name);
    lemma_optional_part("prompt"@, request.prompt.deep_view(), name);
    let a = http::text_part("response_format"@, "verbose_json"@);
    let b = http::text_part("timestamp_granularities[]"@, "word"@);
    let c = http::text_part("timestamp_granularities[]"@, "segment"@);
    let d = http::text_part("response_format"@, "json"@);
    let format = if is_whisper(model) {
        seq![a, b, c]
    } else {
        seq![d]
    };
    http::lemma_values_one(a, name);
    http::lemma_values_one(d, name);
    http::lemma_values_push(seq![a], b, name);
    http::lemma_values_push(seq![a].push(b), c, name);
    assert(seq![a, b, c] =~= seq![a].push(b).push(c));
    let two = start + optional_part("language"@, language);
    let three = two + optional_part("prompt"@, request.prompt.deep_view());
    http::lemma_values_add(start, optional_part("language"@, language), name);
    http::lemma_values_add(two, optional_part("prompt"@, request.prompt.deep_view()), name);
    http::lemma_values_add(three, format, name);
    assert(stt_form(request, model, upload) == three + format);
    assert(http::values_of(stt_form(request, model, upload), name) =~= field_values(
        request,
        model,
        name,
    ));
    assert(http::files_of(stt_form(request, model, upload)) =~= seq![("file"@, upload)]);
}

proof fn lemma_field_names()
    ensures
        "file"@ != "model"@,
        "file"@ != "language"@,
        "file"@ != "prompt"@,
        "file"@ != "response_format"@,
        "file"@ != "timestamp_granularities[]"@,
        "model"@ != "language"@,
        "model"@ != "prompt"@,
        "model"@ != "response_format"@,
        "model"@ != "timestamp_granularities[]"@,
        "language"@ != "prompt"@,
        "language"@ != "response_format"@,
        "language"@ != "timestamp_granularities[]"@,
        "prompt"@ != "response_format"@,
        "prompt"@ != "timestamp_granularities[]"@,
        "response_format"@ != "timestamp_granularities[]"@,
{
    reveal_strlit("file");
    reveal_strlit("model");
    reveal_strlit("language");
    reveal_strlit("prompt");
    reveal_strlit("response_format");
    reveal_strlit("timestamp_granularities[]");
    assert("file"@.len() == 4);
    assert("model"@.len() == 5);
    assert("language"@.len() == 8);
    assert("prompt"@.len() == 6);
    assert("response_format"@.len() == 15);
    assert("timestamp_granularities[]"@.len() == 25);
}

/// A whisper model is one whose name begins so.
pub proof fn law_whisper_models(model: Seq<char>)
    ensures
        is_whisper(model) <==> model.len() >= 7 && model[0] == 'w' && model[1] == 'h' && model[2]
            == 'i' && model[3] == 's' && model[4] == 'p' && model[5] == 'e' && model[6] == 'r',
{
    reveal_strlit("whisper");
    if is_whisper(model) {
        assert(model.take(7)[0] == model[0]);
        assert(model.take(7)[1] == model[1]);
        assert(model.take(7)[2] == model[2]);
        assert(model.take(7)[3] == model[3]);
        assert(model.take(7)[4] == model[4]);
        assert(model.take(7)[5] == model[5]);
        assert(model.take(7)[6] == model[6]);
    } else if model.len() >= 7 && model[0] == 'w' && model[1] == 'h' && model[2] == 'i' && model[3]
        == 's' && model[4] == 'p' && model[5] == 'e' && model[6] == 'r' {
        assert(model.take(7) =~= "whisper"@);
    }
}

/// The body of a speech request says all that was asked: the text, the model and the
/// voice or the configured ones, the codec, and the speed and the instructions where
/// they are given.
pub proof fn law_speech_body_says_what_was_asked(request: SpeechRequest, settings: OpenAiSettings)
    ensures
        ({
            let body = speech_body(request, settings);
            &&& body.entry("input"@) == Some(Json::Text(request.text@))
            &&& body.entry("model"@) == Some(
                Json::Text(
                    match request.model {
                        Some(m) => m@,
                        None => settings.tts_model@,
                    },
                ),
            )
            &&& body.entry("voice"@) == Some(
                Json::Text(
                    match request.voice {
                        Some(v) => v@,
                        None => settings.tts_voice@,
                    },
                ),
            )
            &&& body.entry("response_format"@) == Some(Json::Text(request.codec.name()))
            &&& match request.speed {
                Some(d) => body.entry("speed"@) == Some(Json::decimal(d)),
                None => body.entry("speed"@) is None,
            }
            &&& match request.instructions {
                Some(s) => body.entry("instructions"@) == Some(Json::Text(s@)),
                None => body.entry("instructions"@) is None,
            }
        }),
{
    lemma_body_keys();
}

proof fn lemma_body_keys()
    ensures
        "model"@ != "input"@,
        "model"@ != "voice"@,
        "model"@ != "response_format"@,
        "model"@ != "speed"@,
        "model"@ != "instructions"@,
        "input"@ != "voice"@,
        "input"@ != "response_format"@,
        "input"@ != "speed"@,
        "input"@ != "instructions"@,
        "voice"@ != "response_format"@,
        "voice"@ != "speed"@,
        "voice"@ != "instructions"@,
        "response_format"@ != "speed"@,
        "response_format"@ != "instructions"@,
        "speed"@ != "instructions"@,
{
    reveal_strlit("model");
    reveal_strlit("input");
    reveal_strlit("voice");
    reveal_strlit("response_format");
    reveal_strlit("speed");
    reveal_strlit("instructions");
    assert("model"@.len() == 5);
    assert("input"@.len() == 5);
    assert("voice"@.len() == 5);
    assert("response_format"@.len() == 15);
    assert("speed"@.len() == 5);
    assert("instructions"@.len() == 12);
    assert("model"@[0] == 'm');
    assert("input"@[0] == 'i');
    assert("voice"@[0] == 'v');
    assert("speed"@[0] == 's');
}

/// The service sends every codec but the two of telephony.
pub proof fn law_codecs_of_the_service(codec: AudioCodec)
    ensures
        can_send(codec) <==> codec == AudioCodec::Mp3 || codec == AudioCodec::Wav || codec
            == AudioCodec::Pcm || codec == AudioCodec::Opus || codec == AudioCodec::Flac || codec
            == AudioCodec::Aac,
        codec_refusal(codec) is Unsupported,
{
}

/// What the service takes: FLAC, MP3, MP4, MPEG, M4A, WAV and WebM files of at most
/// 25 MiB, with a prompt, and neither diarization nor key terms; times only from
/// whisper models.
pub proof fn law_abilities(p: OpenAiProvider)
    ensures
        p.identity() == ProviderId::Openai,
        p.abilities().batch_stt && p.abilities().batch_tts,
        !p.abilities().streaming_stt && !p.abilities().streaming_tts,
        p.abilities().word_timestamps == is_whisper(p.settings.stt_model@),
        p.abilities().segment_timestamps == is_whisper(p.settings.stt_model@),
        !p.abilities().diarization && !p.abilities().multichannel && !p.abilities().keyterms,
        p.abilities().prompt,
        p.abilities().max_upload_bytes == Some(26_214_400u64),
        forall|e: Seq<char>|
            p.abilities().stt_input_extensions.contains(e) <==> e == "flac"@ || e == "mp3"@ || e
                == "mp4"@ || e == "mpeg"@ || e == "mpga"@ || e == "m4a"@ || e == "wav"@ || e
                == "webm"@,
{
    let list = p.abilities().stt_input_extensions;
    assert(list[0] == "flac"@ && list[1] == "mp3"@ && list[2] == "mp4"@ && list[3] == "mpeg"@
        && list[4] == "mpga"@ && list[5] == "m4a"@ && list[6] == "wav"@ && list[7] == "webm"@);
}

/// The refusal of a codec quotes its name.
pub proof fn law_refusal_of_a_codec(codec: AudioCodec)
    ensures
        codec_refusal(codec) == (Failure::Unsupported {
            provider: "openai"@,
            message: "output codec '"@ + codec.name() + "'"@,
        }),
{
}

} // verus!
