//! ElevenLabs adapter: Scribe speech-to-text (`/v1/speech-to-text`) and
//! text-to-speech (`/v1/text-to-speech/{voice_id}`). Authentication is the
//! `xi-api-key` header.
//!
//! Speech-to-text returns a word list where entries are typed `word`,
//! `spacing` or `audio_event`; only `word` entries with both times become
//! words of the transcript. Segments are made from the word timings.

use crate::capabilities::{CapabilitiesView, ProviderCapabilities};
use crate::decimal::Decimal;
use crate::domain::{
    AudioCodec, AudioOutput, AudioOutputView, SpeechRequest, TranscribeRequest, Transcript,
    TranscriptView, Word, WordView,
};
use crate::error::{CoreError, CoreResult, Failure};
use crate::http;
use crate::http::{
    Body, BodyView, FieldView, HttpRequest, HttpView, Method, Part, PartView, Upload, UploadView,
};
use crate::json;
use crate::json::Json;
use crate::openai;
use crate::ports::Provider;
use crate::provider::ProviderId;
use crate::text;
use vstd::prelude::*;

verus! {

/// Documented cap for direct uploads (5.0 GB).
pub const MAX_UPLOAD_BYTES: u64 = 5_368_709_120;

#[derive(Debug, Clone)]
pub struct ElevenLabsSettings {
    pub base_url: String,
    pub stt_model: String,
    pub tts_model: String,
    pub tts_voice: String,
}

impl Default for ElevenLabsSettings {
    fn default() -> (r: ElevenLabsSettings)
        ensures
            r.base_url@ == "https://api.elevenlabs.io"@,
            r.stt_model@ == "scribe_v2"@,
            r.tts_model@ == "eleven_multilingual_v2"@,
            r.tts_voice@ == "21m00Tcm4TlvDq8ikWAM"@,
    {
        ElevenLabsSettings {
            base_url: "https://api.elevenlabs.io".to_owned(),
            stt_model: "scribe_v2".to_owned(),
            tts_model: "eleven_multilingual_v2".to_owned(),
            // "Rachel", the stock ElevenLabs voice.
            tts_voice: "21m00Tcm4TlvDq8ikWAM".to_owned(),
        }
    }
}

#[derive(Debug, Clone)]
pub struct ElevenLabsProvider {
    pub api_key: String,
    pub settings: ElevenLabsSettings,
}

impl Provider for ElevenLabsProvider {
    open spec fn identity(&self) -> ProviderId {
        ProviderId::Elevenlabs
    }

    open spec fn abilities(&self) -> CapabilitiesView {
        CapabilitiesView {
            batch_stt: true,
            batch_tts: true,
            word_timestamps: true,
            segment_timestamps: true,
            diarization: true,
            multichannel: true,
            keyterms: true,
            max_upload_bytes: Some(MAX_UPLOAD_BYTES),
            ..CapabilitiesView::none()
        }
    }

    fn id(&self) -> ProviderId {
        ProviderId::Elevenlabs
    }

    fn capabilities(&self) -> ProviderCapabilities {
        let r = ProviderCapabilities {
            batch_stt: true,
            batch_tts: true,
            streaming_stt: false,
            streaming_tts: false,
            word_timestamps: true,
            segment_timestamps: true,
            diarization: true,
            multichannel: true,
            keyterms: true,
            prompt: false,
            max_upload_bytes: Some(MAX_UPLOAD_BYTES),
            stt_input_extensions: Vec::new(),
        };
        assert(r.deep_view().stt_input_extensions =~= Seq::empty());
        r
    }
}

// ---------------------------------------------------------------------------
// Speech to text
// ---------------------------------------------------------------------------

/// The answer to a transcription request.
#[derive(Debug, Clone)]
pub struct SttResponse {
    pub language_code: Option<String>,
    pub text: String,
    pub words: Vec<SttWord>,
}

#[derive(Debug, Clone)]
pub struct SttWord {
    pub text: String,
    pub kind: Option<String>,
    pub start: Option<Decimal>,
    pub end: Option<Decimal>,
    pub speaker_id: Option<String>,
}

impl SttWord {
    /// The word in the normalized model, where the entry is a word with both
    /// times.
    pub open spec fn normalized(self) -> Option<WordView> {
        if text::or(self.kind.deep_view(), "word"@) != "word"@ {
            None
        } else {
            match (self.start, self.end) {
                (Some(start), Some(end)) => Some(
                    WordView {
                        text: self.text@,
                        start,
                        end,
                        speaker: self.speaker_id.deep_view(),
                        channel: None,
                        confidence: None,
                    },
                ),
                _ => None,
            }
        }
    }
}

/// The words among the entries, in order.
pub open spec fn timed_words(entries: Seq<SttWord>) -> Seq<WordView>
    decreases entries.len(),
{
    if entries.len() == 0 {
        Seq::empty()
    } else {
        match entries.last().normalized() {
            Some(w) => timed_words(entries.drop_last()).push(w),
            None => timed_words(entries.drop_last()),
        }
    }
}

/// The transcript that an answer holds: it lasts until its last word ends.
pub open spec fn transcript_of(answer: SttResponse, model: Seq<char>) -> TranscriptView {
    let words = timed_words(answer.words@);
    TranscriptView {
        text: answer.text@,
        language: answer.language_code.deep_view(),
        duration: if words.len() > 0 {
            Some(words.last().end)
        } else {
            None
        },
        provider: ProviderId::Elevenlabs,
        model: Some(model),
        segments: crate::domain::segments_from(words),
        words,
    }
}

fn map_words(entries: &Vec<SttWord>) -> (out: Vec<Word>)
    ensures
        out.deep_view() == timed_words(entries@),
{
    let mut out: Vec<Word> = Vec::new();
    let mut i: usize = 0;
    assert(out.deep_view() =~= timed_words(entries@.take(0)));
    while i < entries.len()
        invariant
            i <= entries@.len(),
            out.deep_view() == timed_words(entries@.take(i as int)),
        decreases entries@.len() - i,
    {
        assert(entries@.take(i + 1).drop_last() =~= entries@.take(i as int));
        let w = &entries[i];
        if text::same(&text::text_or(&w.kind, "word"), "word") {
            if let (Some(start), Some(end)) = (w.start, w.end) {
                let mut word = Word::new(&w.text, start, end);
                word.speaker = text::copied(&w.speaker_id);
                let ghost before = out.deep_view();
                assert(w.normalized() == Some(word.deep_view()));
                out.push(word);
                assert(out.deep_view() =~= before.push(word.deep_view()));
            }
        }
        i = i + 1;
    }
    assert(entries@.take(i as int) =~= entries@);
    out
}

/// The model of a transcription: the one asked for, or the configured one.
pub open spec fn stt_model_of(
    request: TranscribeRequest,
    settings: ElevenLabsSettings,
) -> Seq<char> {
    text::or(request.model.deep_view(), settings.stt_model@)
}

/// The form fields of the key terms.
pub open spec fn keyterm_parts(terms: Seq<Seq<char>>) -> Seq<PartView> {
    Seq::new(terms.len(), |i: int| http::text_part("keyterms"@, terms[i]))
}

/// The form of a transcription request.
pub open spec fn stt_form(
    request: TranscribeRequest,
    model: Seq<char>,
    upload: UploadView,
) -> Seq<PartView> {
    seq![
        http::text_part("model_id"@, model),
        PartView::File { name: "file"@, upload },
        http::text_part("timestamps_granularity"@, "word"@),
        http::text_part(
            "diarize"@,
            if request.diarize {
                "true"@
            } else {
                "false"@
            },
        ),
    ] + openai::optional_part(
        "language_code"@,
        match request.language {
            Some(l) => Some(crate::domain::primary_subtag(l.0@)),
            None => None,
        },
    ) + keyterm_parts(request.keyterms.deep_view())
}

fn push_keyterms(form: &mut Vec<Part>, terms: &Vec<String>)
    ensures
        final(form).deep_view() == old(form).deep_view() + keyterm_parts(terms.deep_view()),
{
    let mut i: usize = 0;
    let ghost before = form.deep_view();
    assert(before =~= before + keyterm_parts(terms.deep_view().take(0)));
    while i < terms.len()
        invariant
            i <= terms@.len(),
            form.deep_view() == before + keyterm_parts(terms.deep_view().take(i as int)),
        decreases terms@.len() - i,
    {
        http::push_text(form, "keyterms", &terms[i]);
        assert(form.deep_view() =~= before + keyterm_parts(terms.deep_view().take(i + 1)));
        i = i + 1;
    }
    assert(terms.deep_view().take(i as int) =~= terms.deep_view());
}

/// The header that carries the API key.
pub open spec fn key_header(api_key: Seq<char>) -> FieldView {
    FieldView { name: "xi-api-key"@, value: api_key }
}

impl ElevenLabsProvider {
    pub fn new(api_key: &str, settings: ElevenLabsSettings) -> (r: ElevenLabsProvider)
        ensures
            r.api_key@ == api_key@,
            r.settings == settings,
    {
        ElevenLabsProvider { api_key: api_key.to_owned(), settings }
    }

    /// The request that transcribes an upload.
    pub fn transcribe(&self, request: &TranscribeRequest, upload: Upload) -> (r: HttpRequest)
        ensures
            r.deep_view() == (HttpView {
                method: Method::Post,
                url: self.settings.base_url@ + "/v1/speech-to-text"@,
                headers: seq![key_header(self.api_key@)],
                query: Seq::empty(),
                body: BodyView::Form(
                    stt_form(*request, stt_model_of(*request, self.settings), upload.deep_view()),
                ),
            }),
    {
        let model = text::text_or(&request.model, &self.settings.stt_model);
        let mut form = http::empty_form();
        http::push_text(&mut form, "model_id", &model);
        http::push_file(&mut form, "file", upload);
        http::push_text(&mut form, "timestamps_granularity", "word");
        http::push_text(
            &mut form,
            "diarize",
            if request.diarize {
                "true"
            } else {
                "false"
            },
        );
        if let Some(language) = &request.language {
            http::push_text(&mut form, "language_code", &language.primary());
        }
        push_keyterms(&mut form, &request.keyterms);
        assert(form.deep_view() =~= stt_form(
            *request,
            stt_model_of(*request, self.settings),
            upload.deep_view(),
        ));
        let mut url = self.settings.base_url.clone();
        url.append("/v1/speech-to-text");
        HttpRequest {
            method: Method::Post,
            url,
            headers: http::one_field(http::field("xi-api-key", &self.api_key)),
            query: http::no_fields(),
            body: Body::Form(form),
        }
    }

    /// The transcript that an answer to `request` holds, or the failure to
    /// read it.
    pub fn transcript(
        &self,
        request: &TranscribeRequest,
        answer: Result<SttResponse, String>,
    ) -> (r: CoreResult<Transcript>)
        ensures
            crate::error::outcome(r) == match answer {
                Ok(a) => Ok::<TranscriptView, Failure>(
                    transcript_of(a, stt_model_of(*request, self.settings)),
                ),
                Err(e) => Err(
                    Failure::Provider {
                        provider: "elevenlabs"@,
                        message: "decoding response: "@ + e@,
                    },
                ),
            },
    {
        match answer {
            Ok(a) => {
                let words = map_words(&a.words);
                let segments = crate::domain::segments_from_words(words.as_slice());
                let duration = if words.len() > 0 {
                    assert(words.deep_view().last() == words@[words@.len() - 1].deep_view());
                    Some(words[words.len() - 1].end)
                } else {
                    None
                };
                Ok(
                    Transcript {
                        text: a.text,
                        language: a.language_code,
                        duration,
                        provider: ProviderId::Elevenlabs,
                        model: Some(text::text_or(&request.model, &self.settings.stt_model)),
                        segments,
                        words,
                    },
                )
            },
            Err(e) => Err(http::provider_error("elevenlabs", "decoding response: ", &e)),
        }
    }
}

// ---------------------------------------------------------------------------
// Text to speech
// ---------------------------------------------------------------------------

/// The sample rate that is asked for, in digits.
pub open spec fn rate_text(sample_rate: Option<u32>, default: u32) -> Seq<char> {
    text::decimal(
        match sample_rate {
            Some(r) => r as nat,
            None => default as nat,
        },
    )
}

/// The service's name of an output format, where it can send one.
pub open spec fn format_name(codec: AudioCodec, sample_rate: Option<u32>) -> Option<Seq<char>> {
    match codec {
        AudioCodec::Mp3 => Some("mp3_"@ + rate_text(sample_rate, 44_100) + "_128"@),
        AudioCodec::Pcm => Some("pcm_"@ + rate_text(sample_rate, 24_000)),
        AudioCodec::Opus => Some("opus_"@ + rate_text(sample_rate, 48_000) + "_128"@),
        _ => None,
    }
}

/// What is said of a codec that the service cannot send.
pub open spec fn codec_refusal(codec: AudioCodec) -> Failure {
    Failure::Unsupported {
        provider: "elevenlabs"@,
        message: "output codec '"@ + codec.name() + "' (use mp3, pcm, or opus)"@,
    }
}

fn rate_digits(sample_rate: Option<u32>, default: u32) -> (r: String)
    ensures
        r@ == rate_text(sample_rate, default),
{
    match sample_rate {
        Some(r) => text::decimal_text(r as u128),
        None => text::decimal_text(default as u128),
    }
}

/// The service's name of an output format.
pub fn output_format(codec: AudioCodec, sample_rate: Option<u32>) -> (r: CoreResult<String>)
    ensures
        match r {
            Ok(name) => format_name(codec, sample_rate) == Some(name@),
            Err(e) => format_name(codec, sample_rate) is None && e.deep_view() == codec_refusal(
                codec,
            ),
        },
{
    match codec {
        AudioCodec::Mp3 => {
            let mut name = "mp3_".to_owned();
            name.append(&rate_digits(sample_rate, 44_100));
            name.append("_128");
            Ok(name)
        },
        AudioCodec::Pcm => {
            let mut name = "pcm_".to_owned();
            name.append(&rate_digits(sample_rate, 24_000));
            Ok(name)
        },
        AudioCodec::Opus => {
            let mut name = "opus_".to_owned();
            name.append(&rate_digits(sample_rate, 48_000));
            name.append("_128");
            Ok(name)
        },
        _ => {
            let mut message = "output codec '".to_owned();
            message.append(codec.as_str());
            message.append("' (use mp3, pcm, or opus)");
            Err(CoreError::Unsupported { provider: "elevenlabs".to_owned(), message })
        },
    }
}

/// The model of a speech request: the one asked for, or the configured one.
pub open spec fn tts_model_of(request: SpeechRequest, settings: ElevenLabsSettings) -> Seq<char> {
    text::or(request.model.deep_view(), settings.tts_model@)
}

/// The body of a speech request. The language is sent only to models that can
/// enforce one.
pub open spec fn speech_body(request: SpeechRequest, model: Seq<char>) -> Json {
    Json::empty().with("text"@, Json::Text(request.text@)).with(
        "model_id"@,
        Json::Text(model),
    ).with_option(
        "language_code"@,
        match request.language {
            Some(l) => if text::contains(model, "multilingual_v2"@) {
                None
            } else {
                Some(Json::Text(crate::domain::primary_subtag(l.0@)))
            },
            None => None,
        },
    ).with_option(
        "voice_settings"@,
        match request.speed {
            Some(d) => Some(Json::empty().with("speed"@, Json::decimal(d))),
            None => None,
        },
    )
}

/// The media type of a codec.
pub open spec fn codec_mime(codec: AudioCodec) -> Seq<char> {
    match codec {
        AudioCodec::Mp3 => "audio/mpeg"@,
        AudioCodec::Pcm => "audio/pcm"@,
        AudioCodec::Opus => "audio/opus"@,
        _ => "application/octet-stream"@,
    }
}

impl ElevenLabsProvider {
    /// The request that synthesizes speech, or the refusal of a codec that the
    /// service cannot send.
    pub fn synthesize(&self, request: &SpeechRequest) -> (r: CoreResult<HttpRequest>)
        ensures
            crate::error::outcome(r) == match format_name(request.codec, request.sample_rate) {
                Some(format) => Ok::<HttpView, Failure>(
                    HttpView {
                        method: Method::Post,
                        url: self.settings.base_url@ + "/v1/text-to-speech/"@ + text::or(
                            request.voice.deep_view(),
                            self.settings.tts_voice@,
                        ),
                        headers: seq![key_header(self.api_key@)],
                        query: seq![FieldView { name: "output_format"@, value: format }],
                        body: BodyView::Json(
                            speech_body(*request, tts_model_of(*request, self.settings)),
                        ),
                    },
                ),
                None => Err(codec_refusal(request.codec)),
            },
    {
        let model = text::text_or(&request.model, &self.settings.tts_model);
        let voice = text::text_or(&request.voice, &self.settings.tts_voice);
        let format = match output_format(request.codec, request.sample_rate) {
            Ok(f) => f,
            Err(e) => {
                return Err(e);
            },
        };
        let mut body = json::object();
        json::put_text(&mut body, "text", &request.text);
        json::put_text(&mut body, "model_id", &model);
        if let Some(language) = &request.language {
            // multilingual_v2 rejects language_code; only send it for models
            // that support enforcement (flash/turbo v2.5+).
            if !text::has_part(&model, "multilingual_v2") {
                json::put_text(&mut body, "language_code", &language.primary());
            }
        }
        if let Some(d) = &request.speed {
            let mut voice_settings = json::object();
            json::put(&mut voice_settings, "speed", json::decimal(d));
            json::put(&mut body, "voice_settings", voice_settings);
        }
        let mut url = self.settings.base_url.clone();
        url.append("/v1/text-to-speech/");
        url.append(&voice);
        Ok(
            HttpRequest {
                method: Method::Post,
                url,
                headers: http::one_field(http::field("xi-api-key", &self.api_key)),
                query: http::one_field(http::field("output_format", &format)),
                body: Body::Json(body),
            },
        )
    }

    /// The speech that an answer with these bytes brings.
    pub fn speech(&self, request: &SpeechRequest, bytes: Vec<u8>) -> (r: AudioOutput)
        ensures
            r.deep_view() == AudioOutputView::plain(
                bytes@,
                codec_mime(request.codec),
                request.codec,
                ProviderId::Elevenlabs,
            ),
    {
        let mime = match request.codec {
            AudioCodec::Mp3 => "audio/mpeg",
            AudioCodec::Pcm => "audio/pcm",
            AudioCodec::Opus => "audio/opus",
            _ => "application/octet-stream",
        };
        AudioOutput::plain(bytes, mime, request.codec, ProviderId::Elevenlabs)
    }
}

// ---------------------------------------------------------------------------
// Laws of transcripts
// ---------------------------------------------------------------------------

/// Whether an entry is a word with both times: of the kind `word` or of none.
pub open spec fn is_timed_word() -> spec_fn(SttWord) -> bool {
    |e: SttWord|
        {
            &&& e.kind is None || e.kind->Some_0@ == seq!['w', 'o', 'r', 'd']
            &&& e.start is Some
            &&& e.end is Some
        }
}

proof fn lemma_timed_words(entries: Seq<SttWord>)
    ensures
        timed_words(entries).len() == entries.filter(is_timed_word()).len(),
        forall|i: int|
            0 <= i < timed_words(entries).len() ==> is_word_of(
                #[trigger] timed_words(entries)[i],
                entries.filter(is_timed_word())[i],
            ),
    decreases entries.len(),
{
    reveal(Seq::filter);
    reveal_strlit("word");
    assert("word"@ =~= seq!['w', 'o', 'r', 'd']);
    if entries.len() > 0 {
        let before = entries.drop_last();
        lemma_timed_words(before);
        assert forall|i: int| 0 <= i < timed_words(entries).len() implies is_word_of(
            #[trigger] timed_words(entries)[i],
            entries.filter(is_timed_word())[i],
        ) by {
            if i < timed_words(before).len() {
                assert(timed_words(entries)[i] == timed_words(before)[i]);
                assert(entries.filter(is_timed_word())[i] == before.filter(is_timed_word())[i]);
            }
        }
    }
}

/// Whether a word is that of an entry: its text, its start and end, its speaker.
pub open spec fn is_word_of(word: WordView, entry: SttWord) -> bool {
    &&& word.text == entry.text@
    &&& entry.start == Some(word.start)
    &&& entry.end == Some(word.end)
    &&& word.speaker == entry.speaker_id.deep_view()
    &&& word.channel is None
    &&& word.confidence is None
}

/// A transcript is the answer: its text and language, and of its entries the words
/// with both times, in order, each with its text, its times and its speaker. It lasts
/// until its last word ends, names the service and the model that was asked, and its
/// segments are made from its words.
pub proof fn law_transcript_is_the_answer(answer: SttResponse, model: Seq<char>)
    ensures
        ({
            let t = transcript_of(answer, model);
            let entries = answer.words@.filter(is_timed_word());
            &&& t.text == answer.text@
            &&& t.language == answer.language_code.deep_view()
            &&& t.provider == ProviderId::Elevenlabs
            &&& t.model == Some(model)
            &&& t.segments == crate::domain::segments_from(t.words)
            &&& t.words.len() == entries.len()
            &&& forall|i: int|
                0 <= i < t.words.len() ==> is_word_of(#[trigger] t.words[i], entries[i])
            &&& t.duration == if t.words.len() == 0 {
                None
            } else {
                entries[entries.len() - 1].end
            }
        }),
{
    lemma_timed_words(answer.words@);
    let t = transcript_of(answer, model);
    if t.words.len() > 0 {
        assert(is_word_of(
            t.words[t.words.len() - 1],
            answer.words@.filter(is_timed_word())[t.words.len() - 1],
        ));
    }
}

// ---------------------------------------------------------------------------
// Laws of requests
// ---------------------------------------------------------------------------

/// The form of a transcription says all that was asked: the model asked for or the
/// configured one, whether to diarize, the language by its primary subtag where it is
/// given, every key term in order, the times of words, and the upload as its only
/// file.
pub proof fn law_form_says_what_was_asked(
    request: TranscribeRequest,
    settings: ElevenLabsSettings,
    upload: UploadView,
)
    ensures
        ({
            let form = stt_form(request, stt_model_of(request, settings), upload);
            &&& http::files_of(form) == seq![("file"@, upload)]
            &&& http::values_of(form, "model_id"@) == seq![
                match request.model {
                    Some(m) => m@,
                    None => settings.stt_model@,
                },
            ]
            &&& http::values_of(form, "timestamps_granularity"@) == seq!["word"@]
            &&& http::values_of(form, "diarize"@) == seq![
                if request.diarize {
                    "true"@
                } else {
                    "false"@
                },
            ]
            &&& http::values_of(form, "language_code"@) == match request.language {
                Some(l) => seq![crate::domain::primary_subtag(l.0@)],
                None => Seq::empty(),
            }
            &&& http::values_of(form, "keyterms"@) == request.keyterms.deep_view()
        }),
{
    let model = stt_model_of(request, settings);
    lemma_form_values(request, model, upload, "model_id"@);
    lemma_form_values(request, model, upload, "timestamps_granularity"@);
    lemma_form_values(request, model, upload, "diarize"@);
    lemma_form_values(request, model, upload, "language_code"@);
    lemma_form_values(request, model, upload, "keyterms"@);
    lemma_field_names();
}

spec fn field_values(request: TranscribeRequest, model: Seq<char>, name: Seq<char>) -> Seq<
    Seq<char>,
> {
    (if name == "model_id"@ {
        seq![model]
    } else if name == "timestamps_granularity"@ {
        seq!["word"@]
    } else if name == "diarize"@ {
        seq![
            if request.diarize {
                "true"@
            } else {
                "false"@
            },
        ]
    } else {
        Seq::empty()
    }) + (match request.language {
        Some(l) if name == "language_code"@ => seq![crate::domain::primary_subtag(l.0@)],
        _ => Seq::empty(),
    }) + (if name == "keyterms"@ {
        request.keyterms.deep_view()
    } else {
        Seq::empty()
    })
}

proof fn lemma_form_values(
    request: TranscribeRequest,
    model: Seq<char>,
    upload: UploadView,
    name: Seq<char>,
)
    ensures
        http::values_of(stt_form(request, model, upload), name) == field_values(
            request,
            model,
            name,
        ),
        http::files_of(stt_form(request, model, upload)) == seq![("file"@, upload)],
{
    lemma_field_names();
    let asked = http::text_part("model_id"@, model);
    let file = PartView::File { name: "file"@, upload };
    let times = http::text_part("timestamps_granularity"@, "word"@);
    let diarize = http::text_part(
        "diarize"@,
        if request.diarize {
            "true"@
        } else {
            "false"@
        },
    );
    http::lemma_values_one(asked, name);
    http::lemma_values_push(seq![asked], file, name);
    http::lemma_values_push(seq![asked].push(file), times, name);
    http::lemma_values_push(seq![asked].push(file).push(times), diarize, name);
    let start = seq![asked, file, times, diarize];
    assert(start =~= seq![asked].push(file).push(times).push(diarize));
    let language = match request.language {
        Some(l) => Some(crate::domain::primary_subtag(l.0@)),
        None => None,
    };
    let terms = keyterm_parts(request.keyterms.deep_view());
    openai::lemma_optional_part("language_code"@, language, name);
    http::lemma_values_of_list(terms, "keyterms"@, request.keyterms.deep_view(), name);
    let two = start + openai::optional_part("language_code"@, language);
    http::lemma_values_add(start, openai::optional_part("language_code"@, language), name);
    http::lemma_values_add(two, terms, name);
    assert(stt_form(request, model, upload) == two + terms);
    assert(http::values_of(stt_form(request, model, upload), name) =~= field_values(
        request,
        model,
        name,
    ));
    assert(http::files_of(stt_form(request, model, upload)) =~= seq![("file"@, upload)]);
}

proof fn lemma_field_names()
    ensures
        "model_id"@ != "file"@,
        "model_id"@ != "timestamps_granularity"@,
        "model_id"@ != "diarize"@,
        "model_id"@ != "language_code"@,
        "model_id"@ != "keyterms"@,
        "file"@ != "timestamps_granularity"@,
        "file"@ != "diarize"@,
        "file"@ != "language_code"@,
        "file"@ != "keyterms"@,
        "timestamps_granularity"@ != "diarize"@,
        "timestamps_granularity"@ != "language_code"@,
        "timestamps_granularity"@ != "keyterms"@,
        "diarize"@ != "language_code"@,
        "diarize"@ != "keyterms"@,
        "language_code"@ != "keyterms"@,
{
    reveal_strlit("model_id");
    reveal_strlit("file");
    reveal_strlit("timestamps_granularity");
    reveal_strlit("diarize");
    reveal_strlit("language_code");
    reveal_strlit("keyterms");
    assert("model_id"@.len() == 8);
    assert("file"@.len() == 4);
    assert("timestamps_granularity"@.len() == 22);
    assert("diarize"@.len() == 7);
    assert("language_code"@.len() == 13);
    assert("keyterms"@.len() == 8);
    assert("model_id"@[0] == 'm');
    assert("keyterms"@[0] == 'k');
}

/// The API key is sent as it is, in the header of the service.
pub proof fn law_key_header(api_key: Seq<char>)
    ensures
        key_header(api_key).name == "xi-api-key"@,
        key_header(api_key).value == api_key,
{
}

/// The body of a speech request says all that was asked: the text, the model, the
/// speed where it is given, and the language by its primary subtag where it is given
/// and the model can enforce one.
pub proof fn law_speech_body_says_what_was_asked(
    request: SpeechRequest,
    settings: ElevenLabsSettings,
)
    ensures
        ({
            let model = match request.model {
                Some(m) => m@,
                None => settings.tts_model@,
            };
            let body = speech_body(request, tts_model_of(request, settings));
            &&& body.entry("text"@) == Some(Json::Text(request.text@))
            &&& body.entry("model_id"@) == Some(Json::Text(model))
            &&& body.entry("language_code"@) == match request.language {
                Some(l) if !text::contains(model, "multilingual_v2"@) => Some(
                    Json::Text(crate::domain::primary_subtag(l.0@)),
                ),
                _ => None,
            }
            &&& match (request.speed, body.entry("voice_settings"@)) {
                (Some(d), Some(j)) => j.entry("speed"@) == Some(Json::decimal(d)),
                (None, None) => true,
                _ => false,
            }
        }),
{
    lemma_body_keys();
}

proof fn lemma_body_keys()
    ensures
        "text"@ != "model_id"@,
        "text"@ != "language_code"@,
        "text"@ != "voice_settings"@,
        "text"@ != "speed"@,
        "model_id"@ != "language_code"@,
        "model_id"@ != "voice_settings"@,
        "model_id"@ != "speed"@,
        "language_code"@ != "voice_settings"@,
        "language_code"@ != "speed"@,
        "voice_settings"@ != "speed"@,
{
    reveal_strlit("text");
    reveal_strlit("model_id");
    reveal_strlit("language_code");
    reveal_strlit("voice_settings");
    reveal_strlit("speed");
    assert("text"@.len() == 4);
    assert("model_id"@.len() == 8);
    assert("language_code"@.len() == 13);
    assert("voice_settings"@.len() == 14);
    assert("speed"@.len() == 5);
}

/// MP3, raw PCM and Opus can be sent, at the sample rate asked for, else at 44.1, 24
/// and 48 kHz; no other codec can.
pub proof fn law_output_formats(codec: AudioCodec, sample_rate: Option<u32>)
    ensures
        match codec {
            AudioCodec::Mp3 => format_name(codec, sample_rate) == Some(
                seq!['m', 'p', '3', '_'] + text::decimal(
                    match sample_rate {
                        Some(r) => r as nat,
                        None => 44_100,
                    },
                ) + seq!['_', '1', '2', '8'],
            ),
            AudioCodec::Pcm => format_name(codec, sample_rate) == Some(
                seq!['p', 'c', 'm', '_'] + text::decimal(
                    match sample_rate {
                        Some(r) => r as nat,
                        None => 24_000,
                    },
                ),
            ),
            AudioCodec::Opus => format_name(codec, sample_rate) == Some(
                seq!['o', 'p', 'u', 's', '_'] + text::decimal(
                    match sample_rate {
                        Some(r) => r as nat,
                        None => 48_000,
                    },
                ) + seq!['_', '1', '2', '8'],
            ),
            _ => format_name(codec, sample_rate) is None,
        },
        codec_refusal(codec) is Unsupported,
        codec == AudioCodec::Mp3 ==> codec_mime(codec) == "audio/mpeg"@,
        codec == AudioCodec::Pcm ==> codec_mime(codec) == "audio/pcm"@,
        codec == AudioCodec::Opus ==> codec_mime(codec) == "audio/opus"@,
{
    reveal_strlit("mp3_");
    reveal_strlit("pcm_");
    reveal_strlit("opus_");
    reveal_strlit("_128");
    assert("mp3_"@ =~= seq!['m', 'p', '3', '_']);
    assert("pcm_"@ =~= seq!['p', 'c', 'm', '_']);
    assert("opus_"@ =~= seq!['o', 'p', 'u', 's', '_']);
    assert("_128"@ =~= seq!['_', '1', '2', '8']);
}

/// What the service takes: files of any kind of at most 5 GiB, with diarization and
/// key terms, and no prompt.
pub proof fn law_abilities(p: ElevenLabsProvider)
    ensures
        p.identity() == ProviderId::Elevenlabs,
        p.abilities().batch_stt && p.abilities().batch_tts,
        !p.abilities().streaming_stt && !p.abilities().streaming_tts,
        p.abilities().word_timestamps && p.abilities().segment_timestamps,
        p.abilities().diarization && p.abilities().multichannel && p.abilities().keyterms,
        !p.abilities().prompt,
        p.abilities().max_upload_bytes == Some(5_368_709_120u64),
        p.abilities().stt_input_extensions.len() == 0,
{
}

/// The refusal of a codec quotes its name and lists those that are sent.
pub proof fn law_refusal_of_a_codec(codec: AudioCodec)
    ensures
        codec_refusal(codec) == (Failure::Unsupported {
            provider: "elevenlabs"@,
            message: "output codec '"@ + codec.name() + "' (use mp3, pcm, or opus)"@,
        }),
{
}

} // verus!
