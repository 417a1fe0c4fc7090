//! Cartesia adapter: batch speech-to-text (`/stt`, `ink-whisper`) and
//! text-to-speech (`/tts/bytes`, `sonic`). Every request carries the mandatory
//! `Cartesia-Version` header.
//!
//! Cartesia text-to-speech has no default voice: a voice id must come from the
//! request or the settings, otherwise the adapter fails fast.

use crate::capabilities::{CapabilitiesView, ProviderCapabilities};
use crate::decimal::Decimal;
use crate::domain::{
    AudioCodec, AudioOutput, AudioOutputView, SpeechRequest, TranscribeRequest, Transcript,
    TranscriptView, Word, WordView,
};
use crate::error::{CoreError, CoreResult, Failure};
use crate::http;
use crate::http::{
    Body, BodyView, Field, FieldView, HttpRequest, HttpView, Method, PartView, Upload, UploadView,
};
use crate::json;
use crate::json::Json;
use crate::openai;
use crate::ports::Provider;
use crate::provider::ProviderId;
use crate::text;
use serde_json::Value;
use vstd::prelude::*;

verus! {

#[derive(Debug, Clone)]
pub struct CartesiaSettings {
    pub base_url: String,
    /// `Cartesia-Version` header value.
    pub version: String,
    pub stt_model: String,
    pub tts_model: String,
    /// Cartesia requires an explicit voice id; empty = unset.
    pub tts_voice: String,
}

impl Default for CartesiaSettings {
    fn default() -> (r: CartesiaSettings)
        ensures
            r.base_url@ == "https://api.cartesia.ai"@,
            r.version@ == "2026-03-01"@,
            r.stt_model@ == "ink-whisper"@,
            r.tts_model@ == "sonic-3.5"@,
            r.tts_voice@ == Seq::<char>::empty(),
    {
        CartesiaSettings {
            base_url: "https://api.cartesia.ai".to_owned(),
            version: "2026-03-01".to_owned(),
            stt_model: "ink-whisper".to_owned(),
            tts_model: "sonic-3.5".to_owned(),
            tts_voice: String::new(),
        }
    }
}

#[derive(Debug, Clone)]
pub struct CartesiaProvider {
    pub api_key: String,
    pub settings: CartesiaSettings,
}

/// The extensions that the service takes.
pub open spec fn input_extensions() -> Seq<Seq<char>> {
    seq![
        "flac"@,
        "m4a"@,
        "mp3"@,
        "mp4"@,
        "mpeg"@,
        "mpga"@,
        "oga"@,
        "ogg"@,
        "wav"@,
        "webm"@,
    ]
}

impl Provider for CartesiaProvider {
    open spec fn identity(&self) -> ProviderId {
        ProviderId::Cartesia
    }

    open spec fn abilities(&self) -> CapabilitiesView {
        CapabilitiesView {
            batch_stt: true,
            batch_tts: true,
            word_timestamps: true,
            segment_timestamps: true,
            stt_input_extensions: input_extensions(),
            ..CapabilitiesView::none()
        }
    }

    fn id(&self) -> ProviderId {
        ProviderId::Cartesia
    }

    fn capabilities(&self) -> ProviderCapabilities {
        let r = ProviderCapabilities {
            batch_stt: true,
            batch_tts: true,
            streaming_stt: false,
            streaming_tts: false,
            word_timestamps: true,
            segment_timestamps: true,
            diarization: false,
            multichannel: false,
            keyterms: false,
            prompt: false,
            max_upload_bytes: None,
            stt_input_extensions: text::list(
                &["flac", "m4a", "mp3", "mp4", "mpeg", "mpga", "oga", "ogg", "wav", "webm"],
            ),
        };
        assert(r.deep_view().stt_input_extensions =~= input_extensions());
        r
    }
}

// ---------------------------------------------------------------------------
// Speech to text
// ---------------------------------------------------------------------------

/// The answer to a transcription request.
#[derive(Debug, Clone)]
pub struct SttResponse {
    pub text: String,
    pub language: Option<String>,
    pub duration: Option<Decimal>,
    pub words: Vec<SttWord>,
}

#[derive(Debug, Clone)]
pub struct SttWord {
    pub word: String,
    pub start: Decimal,
    pub end: Decimal,
}

impl SttWord {
    /// The word in the normalized model.
    pub open spec fn normalized(self) -> WordView {
        WordView {
            text: self.word@,
            start: self.start,
            end: self.end,
            speaker: None,
            channel: None,
            confidence: None,
        }
    }
}

/// The words in the normalized model.
pub open spec fn mapped(words: Seq<SttWord>) -> Seq<WordView> {
    Seq::new(words.len(), |i: int| words[i].normalized())
}

fn map_words(words: &Vec<SttWord>) -> (out: Vec<Word>)
    ensures
        out.deep_view() == mapped(words@),
{
    let mut out: Vec<Word> = Vec::new();
    let mut i: usize = 0;
    while i < words.len()
        invariant
            i <= words@.len(),
            out@.len() == i,
            forall|j: int|
                0 <= j < i ==> (#[trigger] out@[j]).deep_view() == words@[j].normalized(),
        decreases words@.len() - i,
    {
        let w = &words[i];
        out.push(Word::new(&w.word, w.start, w.end));
        i = i + 1;
    }
    assert(out.deep_view() =~= mapped(words@));
    out
}

/// The transcript that an answer holds.
pub open spec fn transcript_of(answer: SttResponse, model: Seq<char>) -> TranscriptView {
    TranscriptView {
        text: answer.text@,
        language: answer.language.deep_view(),
        duration: answer.duration,
        provider: ProviderId::Cartesia,
        model: Some(model),
        segments: crate::domain::segments_from(mapped(answer.words@)),
        words: mapped(answer.words@),
    }
}

/// The model of a transcription: the one asked for, or the configured one.
pub open spec fn stt_model_of(request: TranscribeRequest, settings: CartesiaSettings) -> Seq<char> {
    text::or(request.model.deep_view(), settings.stt_model@)
}

/// The form of a transcription request.
pub open spec fn stt_form(
    request: TranscribeRequest,
    model: Seq<char>,
    upload: UploadView,
) -> Seq<PartView> {
    seq![
        PartView::File { name: "file"@, upload },
        http::text_part("model"@, model),
        http::text_part("timestamp_granularities[]"@, "word"@),
    ] + openai::optional_part(
        "language"@,
        match request.language {
            Some(l) => Some(crate::domain::primary_subtag(l.0@)),
            None => None,
        },
    )
}

impl CartesiaProvider {
    pub fn new(api_key: &str, settings: CartesiaSettings) -> (r: CartesiaProvider)
        ensures
            r.api_key@ == api_key@,
            r.settings == settings,
    {
        CartesiaProvider { api_key: api_key.to_owned(), settings }
    }

    /// The headers of every request: the token and the version.
    pub open spec fn headers(self) -> Seq<FieldView> {
        seq![
            http::bearer(self.api_key@),
            FieldView { name: "Cartesia-Version"@, value: self.settings.version@ },
        ]
    }

    fn make_headers(&self) -> (r: Vec<Field>)
        ensures
            r.deep_view() == self.headers(),
    {
        let mut r = http::one_field(http::bearer_header(&self.api_key));
        let ghost first = r.deep_view();
        let version = http::field("Cartesia-Version", &self.settings.version);
        r.push(version);
        assert(r.deep_view() =~= first.push(version.deep_view()));
        assert(r.deep_view() =~= self.headers());
        r
    }

    /// The request that transcribes an upload.
    pub fn transcribe(&self, request: &TranscribeRequest, upload: Upload) -> (r: HttpRequest)
        ensures
            r.deep_view() == (HttpView {
                method: Method::Post,
                url: self.settings.base_url@ + "/stt"@,
                headers: self.headers(),
                query: Seq::empty(),
                body: BodyView::Form(
                    stt_form(*request, stt_model_of(*request, self.settings), upload.deep_view()),
                ),
            }),
    {
        let model = text::text_or(&request.model, &self.settings.stt_model);
        let mut form = http::empty_form();
        http::push_file(&mut form, "file", upload);
        http::push_text(&mut form, "model", &model);
        http::push_text(&mut form, "timestamp_granularities[]", "word");
        if let Some(language) = &request.language {
            http::push_text(&mut form, "language", &language.primary());
        }
        assert(form.deep_view() =~= stt_form(
            *request,
            stt_model_of(*request, self.settings),
            upload.deep_view(),
        ));
        let mut url = self.settings.base_url.clone();
        url.append("/stt");
        HttpRequest {
            method: Method::Post,
            url,
            headers: self.make_headers(),
            query: http::no_fields(),
            body: Body::Form(form),
        }
    }

    /// The transcript that an answer to `request` holds, or the failure to
    /// read it.
    pub fn transcript(
        &self,
        request: &TranscribeRequest,
        answer: Result<SttResponse, String>,
    ) -> (r: CoreResult<Transcript>)
        ensures
            crate::error::outcome(r) == match answer {
                Ok(a) => Ok::<TranscriptView, Failure>(
                    transcript_of(a, stt_model_of(*request, self.settings)),
                ),
                Err(e) => Err(
                    Failure::Provider {
                        provider: "cartesia"@,
                        message: "decoding response: "@ + e@,
                    },
                ),
            },
    {
        match answer {
            Ok(a) => {
                let words = map_words(&a.words);
                let segments = crate::domain::segments_from_words(words.as_slice());
                Ok(
                    Transcript {
                        text: a.text,
                        language: a.language,
                        duration: a.duration,
                        provider: ProviderId::Cartesia,
                        model: Some(text::text_or(&request.model, &self.settings.stt_model)),
                        segments,
                        words,
                    },
                )
            },
            Err(e) => Err(http::provider_error("cartesia", "decoding response: ", &e)),
        }
    }
}

// ---------------------------------------------------------------------------
// Text to speech
// ---------------------------------------------------------------------------

pub open spec fn rate_json(sample_rate: Option<u32>, default: u32) -> Json {
    Json::integer(
        match sample_rate {
            Some(r) => r as nat,
            None => default as nat,
        },
    )
}

/// The description of an output format, where the service can send one.
pub open spec fn format_json(codec: AudioCodec, sample_rate: Option<u32>) -> Option<Json> {
    match codec {
        AudioCodec::Mp3 => Some(
            Json::empty().with("container"@, Json::Text("mp3"@)).with(
                "sample_rate"@,
                rate_json(sample_rate, 44_100),
            ).with("bit_rate"@, Json::integer(128_000)),
        ),
        AudioCodec::Wav => Some(
            Json::empty().with("container"@, Json::Text("wav"@)).with(
                "encoding"@,
                Json::Text("pcm_s16le"@),
            ).with("sample_rate"@, rate_json(sample_rate, 44_100)),
        ),
        AudioCodec::Pcm => Some(
            Json::empty().with("container"@, Json::Text("raw"@)).with(
                "encoding"@,
                Json::Text("pcm_s16le"@),
            ).with("sample_rate"@, rate_json(sample_rate, 24_000)),
        ),
        _ => None,
    }
}

/// What is said of a codec that the service cannot send.
pub open spec fn codec_refusal(codec: AudioCodec) -> Failure {
    Failure::Unsupported {
        provider: "cartesia"@,
        message: "output codec '"@ + codec.name() + "' (use mp3, wav, or pcm)"@,
    }
}

fn rate_value(sample_rate: Option<u32>, default: u32) -> (r: Value)
    ensures
        json::json_of(r) == rate_json(sample_rate, default),
{
    match sample_rate {
        Some(r) => json::integer(r as u64),
        None => json::integer(default as u64),
    }
}

/// The description of an output format.
pub fn output_format(codec: AudioCodec, sample_rate: Option<u32>) -> (r: CoreResult<Value>)
    ensures
        match r {
            Ok(v) => format_json(codec, sample_rate) == Some(json::json_of(v)),
            Err(e) => format_json(codec, sample_rate) is None && e.deep_view() == codec_refusal(
                codec,
            ),
        },
{
    let mut format = json::object();
    match codec {
        AudioCodec::Mp3 => {
            json::put_text(&mut format, "container", "mp3");
            json::put(&mut format, "sample_rate", rate_value(sample_rate, 44_100));
            json::put(&mut format, "bit_rate", json::integer(128_000));
            Ok(format)
        },
        AudioCodec::Wav => {
            json::put_text(&mut format, "container", "wav");
            json::put_text(&mut format, "encoding", "pcm_s16le");
            json::put(&mut format, "sample_rate", rate_value(sample_rate, 44_100));
            Ok(format)
        },
        AudioCodec::Pcm => {
            json::put_text(&mut format, "container", "raw");
            json::put_text(&mut format, "encoding", "pcm_s16le");
            json::put(&mut format, "sample_rate", rate_value(sample_rate, 24_000));
            Ok(format)
        },
        _ => {
            let mut message = "output codec '".to_owned();
            message.append(codec.as_str());
            message.append("' (use mp3, wav, or pcm)");
            Err(CoreError::Unsupported { provider: "cartesia".to_owned(), message })
        },
    }
}

/// The voice of a speech request: the one asked for, or the configured one,
/// where either is not empty.
pub open spec fn voice_of(request: SpeechRequest, settings: CartesiaSettings) -> Option<Seq<char>> {
    match request.voice {
        Some(v) if v@.len() > 0 => Some(v@),
        _ => if settings.tts_voice@.len() > 0 {
            Some(settings.tts_voice@)
        } else {
            None
        },
    }
}

/// The body of a speech request.
pub open spec fn speech_body(
    request: SpeechRequest,
    model: Seq<char>,
    voice: Seq<char>,
    format: Json,
) -> Json {
    Json::empty().with("model_id"@, Json::Text(model)).with(
        "transcript"@,
        Json::Text(request.text@),
    ).with(
        "voice"@,
        Json::empty().with("mode"@, Json::Text("id"@)).with("id"@, Json::Text(voice)),
    ).with("output_format"@, format).with_option(
        "language"@,
        match request.language {
            Some(l) => Some(Json::Text(crate::domain::primary_subtag(l.0@))),
            None => None,
        },
    ).with_option(
        "generation_config"@,
        match request.speed {
            Some(d) => Some(Json::empty().with("speed"@, Json::decimal(d))),
            None => None,
        },
    )
}

/// The media type of a codec.
pub open spec fn codec_mime(codec: AudioCodec) -> Seq<char> {
    match codec {
        AudioCodec::Mp3 => "audio/mpeg"@,
        AudioCodec::Wav => "audio/wav"@,
        AudioCodec::Pcm => "audio/pcm"@,
        _ => "application/octet-stream"@,
    }
}

fn pick_voice(request: &SpeechRequest, settings: &CartesiaSettings) -> (r: Option<String>)
    ensures
        r.deep_view() == voice_of(*request, *settings),
{
    if let Some(v) = &request.voice {
        if !v.as_str().is_empty() {
            return Some(v.clone());
        }
    }
    if settings.tts_voice.as_str().is_empty() {
        None
    } else {
        Some(settings.tts_voice.clone())
    }
}

impl CartesiaProvider {
    /// The request that synthesizes speech. It needs a voice, and a codec that
    /// the service can send.
    pub fn synthesize(&self, request: &SpeechRequest) -> (r: CoreResult<HttpRequest>)
        ensures
            crate::error::outcome(r) == match (
                voice_of(*request, self.settings),
                format_json(request.codec, request.sample_rate),
            ) {
                (None, _) => Err::<HttpView, Failure>(
                    Failure::NotConfigured {
                        provider: "cartesia"@,
                        message: "no voice id (pass --voice or set providers.cartesia.tts_voice)"@,
                    },
                ),
                (Some(_), None) => Err(codec_refusal(request.codec)),
                (Some(voice), Some(format)) => Ok(
                    HttpView {
                        method: Method::Post,
                        url: self.settings.base_url@ + "/tts/bytes"@,
                        headers: self.headers(),
                        query: Seq::empty(),
                        body: BodyView::Json(
                            speech_body(
                                *request,
                                text::or(request.model.deep_view(), self.settings.tts_model@),
                                voice,
                                format,
                            ),
                        ),
                    },
                ),
            },
    {
        let model = text::text_or(&request.model, &self.settings.tts_model);
        let voice = match pick_voice(request, &self.settings) {
            Some(v) => v,
            None => {
                return Err(
                    CoreError::NotConfigured {
                        provider: "cartesia".to_owned(),
                        message:
                            "no voice id (pass --voice or set providers.cartesia.tts_voice)".to_owned(),
                    },
                );
            },
        };
        let format = match output_format(request.codec, request.sample_rate) {
            Ok(f) => f,
            Err(e) => {
                return Err(e);
            },
        };
        let mut voice_field = json::object();
        json::put_text(&mut voice_field, "mode", "id");
        json::put_text(&mut voice_field, "id", &voice);
        let mut body = json::object();
        json::put_text(&mut body, "model_id", &model);
        json::put_text(&mut body, "transcript", &request.text);
        json::put(&mut body, "voice", voice_field);
        json::put(&mut body, "output_format", format);
        if let Some(language) = &request.language {
            json::put_text(&mut body, "language", &language.primary());
        }
        if let Some(d) = &request.speed {
            let mut config = json::object();
            json::put(&mut config, "speed", json::decimal(d));
            json::put(&mut body, "generation_config", config);
        }
        let mut url = self.settings.base_url.clone();
        url.append("/tts/bytes");
        Ok(
            HttpRequest {
                method: Method::Post,
                url,
                headers: self.make_headers(),
                query: http::no_fields(),
                body: Body::Json(body),
            },
        )
    }

    /// The speech that an answer with these bytes brings.
    pub fn speech(&self, request: &SpeechRequest, bytes: Vec<u8>) -> (r: AudioOutput)
        ensures
            r.deep_view() == AudioOutputView::plain(
                bytes@,
                codec_mime(request.codec),
                request.codec,
                ProviderId::Cartesia,
            ),
    {
        let mime = match request.codec {
            AudioCodec::Mp3 => "audio/mpeg",
            AudioCodec::Wav => "audio/wav",
            AudioCodec::Pcm => "audio/pcm",
            _ => "application/octet-stream",
        };
        AudioOutput::plain(bytes, mime, request.codec, ProviderId::Cartesia)
    }
}

// ---------------------------------------------------------------------------
// Laws of transcripts
// ---------------------------------------------------------------------------

/// A transcript is the answer, field by field: its text, language and duration, and
/// each word in its place with its times; it names the service and the model that
/// was asked, and its segments are made from its words.
pub proof fn law_transcript_is_the_answer(answer: SttResponse, model: Seq<char>)
    ensures
        ({
            let t = transcript_of(answer, model);
            &&& t.text == answer.text@
            &&& t.language == answer.language.deep_view()
            &&& t.duration == answer.duration
            &&& t.provider == ProviderId::Cartesia
            &&& t.model == Some(model)
            &&& t.segments == crate::domain::segments_from(t.words)
            &&& t.words.len() == answer.words@.len()
            &&& forall|i: int|
                0 <= i < t.words.len() ==> {
                    let w = #[trigger] t.words[i];
                    &&& w.text == answer.words@[i].word@
                    &&& w.start == answer.words@[i].start
                    &&& w.end == answer.words@[i].end
                    &&& w.speaker is None && w.channel is None && w.confidence is None
                }
        }),
{
}

// ---------------------------------------------------------------------------
// Laws of requests
// ---------------------------------------------------------------------------

/// The form of a transcription says all that was asked: the model asked for or the
/// configured one, the language by its primary subtag where it is given, the times of
/// words, and the upload as its only file.
pub proof fn law_form_says_what_was_asked(
    request: TranscribeRequest,
    settings: CartesiaSettings,
    upload: UploadView,
)
    ensures
        ({
            let form = stt_form(request, stt_model_of(request, settings), upload);
            &&& http::files_of(form) == seq![("file"@, upload)]
            &&& http::values_of(form, "model"@) == seq![
                match request.model {
                    Some(m) => m@,
                    None => settings.stt_model@,
                },
            ]
            &&& http::values_of(form, "timestamp_granularities[]"@) == seq!["word"@]
            &&& http::values_of(form, "language"@) == match request.language {
                Some(l) => seq![crate::domain::primary_subtag(l.0@)],
                None => Seq::empty(),
            }
        }),
{
    let model = stt_model_of(request, settings);
    lemma_form_values(request, model, upload, "model"@);
    lemma_form_values(request, model, upload, "language"@);
    lemma_form_values(request, model, upload, "timestamp_granularities[]"@);
    lemma_field_names();
}

proof fn lemma_form_values(
    request: TranscribeRequest,
    model: Seq<char>,
    upload: UploadView,
    name: Seq<char>,
)
    ensures
        http::values_of(stt_form(request, model, upload), name) == (if name == "model"@ {
            seq![model]
        } else if name == "timestamp_granularities[]"@ {
            seq!["word"@]
        } else {
            Seq::empty()
        }) + (match request.language {
            Some(l) if name == "language"@ => seq![crate::domain::primary_subtag(l.0@)],
            _ => Seq::empty(),
        }),
        http::files_of(stt_form(request, model, upload)) == seq![("file"@, upload)],
{
    lemma_field_names();
    let file = PartView::File { name: "file"@, upload };
    let asked = http::text_part("model"@, model);
    let times = http::text_part("timestamp_granularities[]"@, "word"@);
    http::lemma_values_one(file, name);
    http::lemma_values_push(seq![file], asked, name);
    http::lemma_values_push(seq![file].push(asked), times, name);
    let start = seq![file, asked, times];
    assert(start =~= seq![file].push(asked).push(times));
    let language = match request.language {
        Some(l) => Some(crate::domain::primary_subtag(l.0@)),
        None => None,
    };
    openai::lemma_optional_part("language"@, language, name);
    http::lemma_values_add(start, openai::optional_part("language"@, language), name);
    assert(http::values_of(stt_form(request, model, upload), name) =~= (if name == "model"@ {
        seq![model]
    } else if name == "timestamp_granularities[]"@ {
        seq!["word"@]
    } else {
        Seq::empty()
    }) + (match request.language {
        Some(l) if name == "language"@ => seq![crate::domain::primary_subtag(l.0@)],
        _ => Seq::empty(),
    }));
    assert(http::files_of(stt_form(request, model, upload)) =~= seq![("file"@, upload)]);
}

proof fn lemma_field_names()
    ensures
        "file"@ != "model"@,
        "file"@ != "language"@,
        "file"@ != "timestamp_granularities[]"@,
        "model"@ != "language"@,
        "model"@ != "timestamp_granularities[]"@,
        "language"@ != "timestamp_granularities[]"@,
{
    reveal_strlit("file");
    reveal_strlit("model");
    reveal_strlit("language");
    reveal_strlit("timestamp_granularities[]");
    assert("file"@.len() == 4);
    assert("model"@.len() == 5);
    assert("language"@.len() == 8);
    assert("timestamp_granularities[]"@.len() == 25);
}

/// Every request carries the token and the version.
pub proof fn law_headers(p: CartesiaProvider)
    ensures
        p.headers().len() == 2,
        p.headers()[0] == http::bearer(p.api_key@),
        p.headers()[1].name == "Cartesia-Version"@,
        p.headers()[1].value == p.settings.version@,
{
}

/// The voice is the one asked for where it is not empty, else the configured one
/// where that is not empty, and else none.
pub proof fn law_voice(request: SpeechRequest, settings: CartesiaSettings)
    ensures
        request.voice matches Some(v) ==> v@.len() > 0 ==> voice_of(request, settings) == Some(v@),
        (request.voice is None || request.voice->Some_0@.len() == 0) && settings.tts_voice@.len()
            > 0 ==> voice_of(request, settings) == Some(settings.tts_voice@),
        (request.voice is None || request.voice->Some_0@.len() == 0) && settings.tts_voice@.len()
            == 0 ==> voice_of(request, settings) is None,
{
}

/// The body of a speech request says all that was asked: the text, the model, the
/// voice by its id, the format, the language by its primary subtag and the speed
/// where they are given.
pub proof fn law_speech_body_says_what_was_asked(
    request: SpeechRequest,
    model: Seq<char>,
    voice: Seq<char>,
    format: Json,
)
    ensures
        ({
            let body = speech_body(request, model, voice, format);
            &&& body.entry("model_id"@) == Some(Json::Text(model))
            &&& body.entry("transcript"@) == Some(Json::Text(request.text@))
            &&& body.entry("output_format"@) == Some(format)
            &&& body.text_within("voice"@, "mode"@) == Some("id"@)
            &&& body.text_within("voice"@, "id"@) == Some(voice)
            &&& match request.language {
                Some(l) => body.entry("language"@) == Some(
                    Json::Text(crate::domain::primary_subtag(l.0@)),
                ),
                None => body.entry("language"@) is None,
            }
            &&& match (request.speed, body.entry("generation_config"@)) {
                (Some(d), Some(j)) => j.entry("speed"@) == Some(Json::decimal(d)),
                (None, None) => true,
                _ => false,
            }
        }),
{
    lemma_body_keys();
}

proof fn lemma_body_keys()
    ensures
        "model_id"@ != "transcript"@,
        "model_id"@ != "voice"@,
        "model_id"@ != "output_format"@,
        "model_id"@ != "language"@,
        "model_id"@ != "generation_config"@,
        "model_id"@ != "speed"@,
        "model_id"@ != "mode"@,
        "model_id"@ != "id"@,
        "transcript"@ != "voice"@,
        "transcript"@ != "output_format"@,
        "transcript"@ != "language"@,
        "transcript"@ != "generation_config"@,
        "transcript"@ != "speed"@,
        "transcript"@ != "mode"@,
        "transcript"@ != "id"@,
        "voice"@ != "output_format"@,
        "voice"@ != "language"@,
        "voice"@ != "generation_config"@,
        "voice"@ != "speed"@,
        "voice"@ != "mode"@,
        "voice"@ != "id"@,
        "output_format"@ != "language"@,
        "output_format"@ != "generation_config"@,
        "output_format"@ != "speed"@,
        "output_format"@ != "mode"@,
        "output_format"@ != "id"@,
        "language"@ != "generation_config"@,
        "language"@ != "speed"@,
        "language"@ != "mode"@,
        "language"@ != "id"@,
        "generation_config"@ != "speed"@,
        "generation_config"@ != "mode"@,
        "generation_config"@ != "id"@,
        "speed"@ != "mode"@,
        "speed"@ != "id"@,
        "mode"@ != "id"@,
{
    reveal_strlit("model_id");
    reveal_strlit("transcript");
    reveal_strlit("voice");
    reveal_strlit("output_format");
    reveal_strlit("language");
    reveal_strlit("generation_config");
    reveal_strlit("speed");
    reveal_strlit("mode");
    reveal_strlit("id");
    assert("model_id"@.len() == 8);
    assert("transcript"@.len() == 10);
    assert("voice"@.len() == 5);
    assert("output_format"@.len() == 13);
    assert("language"@.len() == 8);
    assert("generation_config"@.len() == 17);
    assert("speed"@.len() == 5);
    assert("mode"@.len() == 4);
    assert("id"@.len() == 2);
    assert("model_id"@[0] == 'm');
    assert("language"@[0] == 'l');
    assert("voice"@[0] == 'v');
    assert("speed"@[0] == 's');
}

/// MP3, WAV and raw PCM can be sent, each in its container and at the sample rate
/// asked for, else at 44.1 kHz and PCM at 24 kHz; no other codec can.
pub proof fn law_output_formats(codec: AudioCodec, sample_rate: Option<u32>)
    ensures
        format_json(codec, sample_rate) is Some <==> codec == AudioCodec::Mp3 || codec
            == AudioCodec::Wav || codec == AudioCodec::Pcm,
        match format_json(codec, sample_rate) {
            Some(j) => {
                &&& j.text_at("container"@) == Some(
                    match codec {
                        AudioCodec::Mp3 => "mp3"@,
                        AudioCodec::Wav => "wav"@,
                        _ => "raw"@,
                    },
                )
                &&& j.text_at("encoding"@) == match codec {
                    AudioCodec::Mp3 => None,
                    _ => Some("pcm_s16le"@),
                }
                &&& j.entry("sample_rate"@) == Some(
                    Json::Number(
                        text::decimal(
                            match sample_rate {
                                Some(r) => r as nat,
                                None => if codec == AudioCodec::Pcm {
                                    24_000
                                } else {
                                    44_100
                                },
                            },
                        ),
                    ),
                )
                &&& codec == AudioCodec::Mp3 ==> j.entry("bit_rate"@) == Some(
                    Json::Number(text::decimal(128_000)),
                )
            },
            None => true,
        },
        codec_refusal(codec) is Unsupported,
        codec == AudioCodec::Mp3 ==> codec_mime(codec) == "audio/mpeg"@,
        codec == AudioCodec::Wav ==> codec_mime(codec) == "audio/wav"@,
        codec == AudioCodec::Pcm ==> codec_mime(codec) == "audio/pcm"@,
{
    lemma_format_keys();
}

proof fn lemma_format_keys()
    ensures
        "container"@ != "encoding"@,
        "container"@ != "sample_rate"@,
        "container"@ != "bit_rate"@,
        "encoding"@ != "sample_rate"@,
        "encoding"@ != "bit_rate"@,
        "sample_rate"@ != "bit_rate"@,
{
    reveal_strlit("container");
    reveal_strlit("encoding");
    reveal_strlit("sample_rate");
    reveal_strlit("bit_rate");
    assert("container"@.len() == 9);
    assert("encoding"@.len() == 8);
    assert("sample_rate"@.len() == 11);
    assert("bit_rate"@.len() == 8);
    assert("encoding"@[0] == 'e');
    assert("bit_rate"@[0] == 'b');
}

/// What the service takes: FLAC, M4A, MP3, MP4, MPEG, Ogg, WAV and WebM files of any
/// size, with the times of words, and neither diarization, key terms nor a prompt.
pub proof fn law_abilities(p: CartesiaProvider)
    ensures
        p.identity() == ProviderId::Cartesia,
        p.abilities().batch_stt && p.abilities().batch_tts,
        !p.abilities().streaming_stt && !p.abilities().streaming_tts,
        p.abilities().word_timestamps && p.abilities().segment_timestamps,
        !p.abilities().diarization && !p.abilities().multichannel && !p.abilities().keyterms
            && !p.abilities().prompt,
        p.abilities().max_upload_bytes is None,
        forall|e: Seq<char>|
            p.abilities().stt_input_extensions.contains(e) <==> e == "flac"@ || e == "m4a"@ || e
                == "mp3"@ || e == "mp4"@ || e == "mpeg"@ || e == "mpga"@ || e == "oga"@ || e
                == "ogg"@ || e == "wav"@ || e == "webm"@,
{
    let list = p.abilities().stt_input_extensions;
    assert(list[0] == "flac"@ && list[1] == "m4a"@ && list[2] == "mp3"@ && list[3] == "mp4"@
        && list[4] == "mpeg"@ && list[5] == "mpga"@ && list[6] == "oga"@ && list[7] == "ogg"@
        && list[8] == "wav"@ && list[9] == "webm"@);
}

/// The refusal of a codec quotes its name and lists those that are sent.
pub proof fn law_refusal_of_a_codec(codec: AudioCodec)
    ensures
        codec_refusal(codec) == (Failure::Unsupported {
            provider: "cartesia"@,
            message: "output codec '"@ + codec.name() + "' (use mp3, wav, or pcm)"@,
        }),
{
}

} // verus!
