//! One text turn with the xAI realtime voice agent: the address and the
//! messages that open the turn, and the state that the answered events build
//! up.

use crate::decimal::Decimal;
use crate::domain::AudioCodec;
use crate::encoding;
use crate::error::{CoreError, CoreResult, Failure};
use crate::http;
use crate::json;
use crate::json::Json;
use crate::text;
use crate::xai::XaiProvider;
use crate::xai_timestamps;
use serde_json::Value;
use vstd::prelude::*;

verus! {

#[derive(Debug, Clone)]
pub struct RealtimeAgentRequest {
    pub text: String,
    pub model: Option<String>,
    pub instructions: Option<String>,
    pub voice: Option<String>,
    pub reasoning_effort: Option<String>,
    pub output_codec: AudioCodec,
    pub output_sample_rate: u32,
    pub input_sample_rate: u32,
    pub text_only: bool,
    pub manual_turn: bool,
    pub vad_threshold: Option<Decimal>,
    pub vad_silence_duration_ms: Option<u64>,
    pub vad_prefix_padding_ms: Option<u64>,
    pub transcription_model: Option<String>,
    pub language_hint: Option<String>,
}

impl RealtimeAgentRequest {
    /// A turn that says `text`, with nothing else asked for.
    pub fn text(text: &str) -> (r: RealtimeAgentRequest)
        ensures
            r.text@ == text@,
            r.model is None,
            r.instructions is None,
            r.voice is None,
            r.reasoning_effort is None,
            r.output_codec == AudioCodec::Pcm,
            r.output_sample_rate == 24_000,
            r.input_sample_rate == 24_000,
            !r.text_only,
            !r.manual_turn,
            r.vad_threshold is None,
            r.vad_silence_duration_ms is None,
            r.vad_prefix_padding_ms is None,
            r.transcription_model is None,
            r.language_hint is None,
    {
        RealtimeAgentRequest {
            text: text.to_owned(),
            model: None,
            instructions: None,
            voice: None,
            reasoning_effort: None,
            output_codec: AudioCodec::Pcm,
            output_sample_rate: 24_000,
            input_sample_rate: 24_000,
            text_only: false,
            manual_turn: false,
            vad_threshold: None,
            vad_silence_duration_ms: None,
            vad_prefix_padding_ms: None,
            transcription_model: None,
            language_hint: None,
        }
    }
}

/// What a turn brought.
#[derive(Debug, Clone)]
pub struct RealtimeAgentTurn {
    pub text: String,
    pub audio: Vec<u8>,
    pub audio_mime: String,
    pub audio_codec: AudioCodec,
    pub output_sample_rate: u32,
    pub input_transcript: Option<String>,
    pub conversation_id: Option<String>,
    pub response_id: Option<String>,
    pub response_status: Option<String>,
}

/// What a [`RealtimeAgentTurn`] holds.
pub struct TurnView {
    pub text: Seq<char>,
    pub audio: Seq<u8>,
    pub audio_mime: Seq<char>,
    pub audio_codec: AudioCodec,
    pub output_sample_rate: u32,
    pub input_transcript: Option<Seq<char>>,
    pub conversation_id: Option<Seq<char>>,
    pub response_id: Option<Seq<char>>,
    pub response_status: Option<Seq<char>>,
}

impl DeepView for RealtimeAgentTurn {
    type V = TurnView;

    open spec fn deep_view(&self) -> TurnView {
        TurnView {
            text: self.text@,
            audio: self.audio@,
            audio_mime: self.audio_mime@,
            audio_codec: self.audio_codec,
            output_sample_rate: self.output_sample_rate,
            input_transcript: self.input_transcript.deep_view(),
            conversation_id: self.conversation_id.deep_view(),
            response_id: self.response_id.deep_view(),
            response_status: self.response_status.deep_view(),
        }
    }
}

// ---------------------------------------------------------------------------
// Opening a turn
// ---------------------------------------------------------------------------

/// The media type of a codec that the agent speaks, where it speaks it.
pub open spec fn realtime_mime(codec: AudioCodec) -> Option<Seq<char>> {
    match codec {
        AudioCodec::Pcm => Some("audio/pcm"@),
        AudioCodec::Mulaw => Some("audio/pcmu"@),
        AudioCodec::Alaw => Some("audio/pcma"@),
        _ => None,
    }
}

/// What is said of a codec that the agent does not speak.
pub open spec fn realtime_codec_refusal(codec: AudioCodec) -> Failure {
    Failure::Unsupported {
        provider: "xai"@,
        message: "realtime codec '"@ + codec.name() + "' (use pcm, mulaw, or alaw)"@,
    }
}

/// The media type and sample rate of audio in the agent's session.
pub fn realtime_audio_format(codec: AudioCodec, sample_rate: Option<u32>) -> (r: CoreResult<
    (String, u32),
>)
    ensures
        match r {
            Ok((mime, rate)) => realtime_mime(codec) == Some(mime@) && rate
                == crate::xai::rate_or_default(sample_rate),
            Err(e) => realtime_mime(codec) is None && e.deep_view() == realtime_codec_refusal(
                codec,
            ),
        },
{
    let name = match codec {
        AudioCodec::Pcm => "audio/pcm",
        AudioCodec::Mulaw => "audio/pcmu",
        AudioCodec::Alaw => "audio/pcma",
        _ => {
            let mut message = "realtime codec '".to_owned();
            message.append(codec.as_str());
            message.append("' (use pcm, mulaw, or alaw)");
            return Err(CoreError::Unsupported { provider: "xai".to_owned(), message });
        },
    };
    let rate: u32 = match sample_rate {
        Some(r) => r,
        None => crate::xai::DEFAULT_SAMPLE_RATE,
    };
    Ok((name.to_owned(), rate))
}

/// The model of a turn.
pub open spec fn model_of(request: RealtimeAgentRequest) -> Seq<char> {
    text::or(request.model.deep_view(), "grok-voice-latest"@)
}

/// The address of a turn.
pub open spec fn realtime_url(ws_url: Seq<char>, request: RealtimeAgentRequest) -> Seq<char> {
    let url = ws_url + "/v1/realtime?model="@ + encoding::percent_encoded(model_of(request));
    match request.reasoning_effort {
        Some(effort) => url + "&reasoning.effort="@ + encoding::percent_encoded(effort@),
        None => url,
    }
}

/// The description of an audio format.
pub open spec fn format_json(mime: Seq<char>, rate: u32) -> Json {
    Json::empty().with("type"@, Json::Text(mime)).with("rate"@, Json::integer(rate as nat))
}

/// An integer as a document, where there is one.
pub open spec fn long_option(n: Option<u64>) -> Option<Json> {
    match n {
        Some(n) => Some(Json::integer(n as nat)),
        None => None,
    }
}

/// How the end of the user's turn is detected: not at all where turns are
/// manual.
pub open spec fn turn_detection(request: RealtimeAgentRequest) -> Json {
    if request.manual_turn {
        Json::Null
    } else {
        Json::empty().with("type"@, Json::Text("server_vad"@)).with_option(
            "threshold"@,
            match request.vad_threshold {
                Some(d) => Some(Json::decimal(d)),
                None => None,
            },
        ).with_option("silence_duration_ms"@, long_option(request.vad_silence_duration_ms)).with_option(
            "prefix_padding_ms"@,
            long_option(request.vad_prefix_padding_ms),
        )
    }
}

/// How the user's speech is transcribed, where that is asked for.
pub open spec fn transcription(request: RealtimeAgentRequest) -> Option<Json> {
    if request.transcription_model is Some || request.language_hint is Some {
        Some(
            Json::empty().with(
                "model"@,
                Json::Text(text::or(request.transcription_model.deep_view(), "grok-transcribe"@)),
            ).with_option(
                "language_hint"@,
                Json::text_option(request.language_hint.deep_view()),
            ),
        )
    } else {
        None
    }
}

/// The session that a turn runs in.
pub open spec fn session_json(
    request: RealtimeAgentRequest,
    default_voice: Seq<char>,
    output_mime: Seq<char>,
) -> Json {
    let input = Json::empty().with(
        "format"@,
        format_json("audio/pcm"@, request.input_sample_rate),
    ).with_option("transcription"@, transcription(request));
    let output = Json::empty().with(
        "format"@,
        format_json(output_mime, request.output_sample_rate),
    );
    Json::empty().with("model"@, Json::Text(model_of(request))).with(
        "voice"@,
        Json::Text(text::or(request.voice.deep_view(), default_voice)),
    ).with("audio"@, Json::empty().with("input"@, input).with("output"@, output)).with(
        "turn_detection"@,
        turn_detection(request),
    ).with_option("instructions"@, Json::text_option(request.instructions.deep_view())).with_option(
        "reasoning"@,
        match request.reasoning_effort {
            Some(effort) => Some(Json::empty().with("effort"@, Json::Text(effort@))),
            None => None,
        },
    )
}

/// The message that sets up the session.
pub open spec fn session_update(
    request: RealtimeAgentRequest,
    default_voice: Seq<char>,
    output_mime: Seq<char>,
) -> Json {
    Json::empty().with("type"@, Json::Text("session.update"@)).with(
        "session"@,
        session_json(request, default_voice, output_mime),
    )
}

/// The message that says the user's text.
pub open spec fn item_create(words: Seq<char>) -> Json {
    let content = Json::empty().with("type"@, Json::Text("input_text"@)).with(
        "text"@,
        Json::Text(words),
    );
    let item = Json::empty().with("type"@, Json::Text("message"@)).with(
        "role"@,
        Json::Text("user"@),
    ).with("content"@, Json::Array(seq![content]));
    Json::empty().with("type"@, Json::Text("conversation.item.create"@)).with("item"@, item)
}

/// The message that asks for the answer.
pub open spec fn response_create(text_only: bool) -> Json {
    let modalities = if text_only {
        seq![Json::Text("text"@)]
    } else {
        seq![Json::Text("audio"@), Json::Text("text"@)]
    };
    Json::empty().with("type"@, Json::Text("response.create"@)).with(
        "response"@,
        Json::empty().with("modalities"@, Json::Array(modalities)),
    )
}

fn make_turn_detection(request: &RealtimeAgentRequest) -> (r: Value)
    ensures
        json::json_of(r) == turn_detection(*request),
{
    if request.manual_turn {
        return json::null();
    }
    let mut turn = json::object();
    json::put_text(&mut turn, "type", "server_vad");
    if let Some(d) = &request.vad_threshold {
        json::put(&mut turn, "threshold", json::decimal(d));
    }
    if let Some(n) = request.vad_silence_duration_ms {
        json::put(&mut turn, "silence_duration_ms", json::integer(n));
    }
    if let Some(n) = request.vad_prefix_padding_ms {
        json::put(&mut turn, "prefix_padding_ms", json::integer(n));
    }
    turn
}

fn make_format(mime: &str, rate: u32) -> (r: Value)
    ensures
        json::json_of(r) == format_json(mime@, rate),
{
    let mut format = json::object();
    json::put_text(&mut format, "type", mime);
    json::put(&mut format, "rate", json::integer(rate as u64));
    format
}

fn make_session(
    request: &RealtimeAgentRequest,
    model: &str,
    default_voice: &str,
    input_mime: &str,
    output_mime: &str,
) -> (r: Value)
    requires
        model@ == model_of(*request),
        input_mime@ == "audio/pcm"@,
    ensures
        json::json_of(r) == session_json(*request, default_voice@, output_mime@),
{
    let mut input = json::object();
    json::put(&mut input, "format", make_format(input_mime, request.input_sample_rate));
    if request.transcription_model.is_some() || request.language_hint.is_some() {
        let mut transcription = json::object();
        json::put_text(
            &mut transcription,
            "model",
            &text::text_or(&request.transcription_model, "grok-transcribe"),
        );
        json::put_text_option(&mut transcription, "language_hint", &request.language_hint);
        json::put(&mut input, "transcription", transcription);
    }
    let mut output = json::object();
    json::put(&mut output, "format", make_format(output_mime, request.output_sample_rate));
    let mut audio = json::object();
    json::put(&mut audio, "input", input);
    json::put(&mut audio, "output", output);
    let mut session = json::object();
    json::put_text(&mut session, "model", model);
    json::put_text(&mut session, "voice", &text::text_or(&request.voice, default_voice));
    json::put(&mut session, "audio", audio);
    json::put(&mut session, "turn_detection", make_turn_detection(request));
    json::put_text_option(&mut session, "instructions", &request.instructions);
    if let Some(effort) = &request.reasoning_effort {
        let mut reasoning = json::object();
        json::put_text(&mut reasoning, "effort", effort);
        json::put(&mut session, "reasoning", reasoning);
    }
    session
}

fn make_item(words: &str) -> (r: Value)
    ensures
        json::json_of(r) == item_create(words@),
{
    let mut content = json::object();
    json::put_text(&mut content, "type", "input_text");
    json::put_text(&mut content, "text", words);
    let ghost said = json::json_of(content);
    let mut contents: Vec<Value> = Vec::new();
    contents.push(content);
    assert(json::jsons_of(contents@) =~= seq![said]);
    let mut item = json::object();
    json::put_text(&mut item, "type", "message");
    json::put_text(&mut item, "role", "user");
    json::put(&mut item, "content", json::array(contents));
    let mut message = json::object();
    json::put_text(&mut message, "type", "conversation.item.create");
    json::put(&mut message, "item", item);
    message
}

fn make_response(text_only: bool) -> (r: Value)
    ensures
        json::json_of(r) == response_create(text_only),
{
    let mut modalities: Vec<Value> = Vec::new();
    if !text_only {
        modalities.push(json::text("audio"));
    }
    modalities.push(json::text("text"));
    assert(json::jsons_of(modalities@) =~= if text_only {
        seq![Json::Text("text"@)]
    } else {
        seq![Json::Text("audio"@), Json::Text("text"@)]
    });
    let mut response = json::object();
    json::put(&mut response, "modalities", json::array(modalities));
    let mut message = json::object();
    json::put_text(&mut message, "type", "response.create");
    json::put(&mut message, "response", response);
    message
}

/// What opens a turn: the address to connect to and the messages to send, in
/// order.
#[derive(Debug)]
pub struct RealtimeOpening {
    pub url: String,
    pub messages: Vec<String>,
    pub turn: RealtimeTurn,
}

/// The messages that open a turn.
pub open spec fn opening_messages(
    request: RealtimeAgentRequest,
    default_voice: Seq<char>,
    output_mime: Seq<char>,
) -> Seq<Seq<char>> {
    seq![
        json::json_written(session_update(request, default_voice, output_mime)),
        json::json_written(item_create(request.text@)),
        json::json_written(response_create(request.text_only)),
    ]
}

impl XaiProvider {
    /// Opens a text turn with the agent, or refuses an output codec that the
    /// agent does not speak.
    pub fn realtime_text_turn(&self, request: &RealtimeAgentRequest) -> (r: CoreResult<
        RealtimeOpening,
    >)
        ensures
            match (r, realtime_mime(request.output_codec)) {
                (Ok(o), Some(mime)) => {
                    &&& o.url@ == realtime_url(self.settings.ws_url@, *request)
                    &&& o.messages.deep_view() == opening_messages(
                        *request,
                        self.settings.tts_voice@,
                        mime,
                    )
                    &&& o.turn.deep_view() == TurnState::start(
                        mime,
                        request.output_codec,
                        request.output_sample_rate,
                    )
                },
                (Err(e), None) => e.deep_view() == realtime_codec_refusal(request.output_codec),
                _ => false,
            },
    {
        let (output_mime, output_rate) = match realtime_audio_format(
            request.output_codec,
            Some(request.output_sample_rate),
        ) {
            Ok(f) => f,
            Err(e) => {
                return Err(e);
            },
        };
        let (input_mime, _) = match realtime_audio_format(
            AudioCodec::Pcm,
            Some(request.input_sample_rate),
        ) {
            Ok(f) => f,
            Err(e) => {
                return Err(e);
            },
        };
        let model = text::text_or(&request.model, "grok-voice-latest");
        let mut url = self.settings.ws_url.clone();
        url.append("/v1/realtime?model=");
        url.append(&encoding::url_encode(&model));
        if let Some(effort) = &request.reasoning_effort {
            url.append("&reasoning.effort=");
            url.append(&encoding::url_encode(effort));
        }
        let session = make_session(
            request,
            &model,
            &self.settings.tts_voice,
            &input_mime,
            &output_mime,
        );
        let mut update = json::object();
        json::put_text(&mut update, "type", "session.update");
        json::put(&mut update, "session", session);
        let mut messages: Vec<String> = Vec::new();
        messages.push(json::write(&update));
        messages.push(json::write(&make_item(&request.text)));
        messages.push(json::write(&make_response(request.text_only)));
        assert(messages.deep_view() =~= opening_messages(
            *request,
            self.settings.tts_voice@,
            output_mime@,
        ));
        let turn = RealtimeTurn::start(&output_mime, request.output_codec, output_rate);
        Ok(RealtimeOpening { url, messages, turn })
    }
}

// ---------------------------------------------------------------------------
// Events
// ---------------------------------------------------------------------------

/// An event of the agent, by what a turn takes from it.
#[derive(Debug)]
pub enum RealtimeEvent {
    ConversationCreated(Option<String>),
    ResponseCreated(Option<String>),
    AudioDelta(Option<String>),
    TranscriptDelta(Option<String>),
    TranscriptDone(Option<String>),
    TextDelta(Option<String>),
    InputTranscript(Option<String>),
    ResponseDone { id: Option<String>, status: Option<String> },
    Failed(String),
    Other,
}

/// What a [`RealtimeEvent`] says.
pub enum EventView {
    ConversationCreated(Option<Seq<char>>),
    ResponseCreated(Option<Seq<char>>),
    AudioDelta(Option<Seq<char>>),
    TranscriptDelta(Option<Seq<char>>),
    TranscriptDone(Option<Seq<char>>),
    TextDelta(Option<Seq<char>>),
    InputTranscript(Option<Seq<char>>),
    ResponseDone { id: Option<Seq<char>>, status: Option<Seq<char>> },
    Failed(Seq<char>),
    Other,
}

impl DeepView for RealtimeEvent {
    type V = EventView;

    open spec fn deep_view(&self) -> EventView {
        match *self {
            RealtimeEvent::ConversationCreated(s) => EventView::ConversationCreated(s.deep_view()),
            RealtimeEvent::ResponseCreated(s) => EventView::ResponseCreated(s.deep_view()),
            RealtimeEvent::AudioDelta(s) => EventView::AudioDelta(s.deep_view()),
            RealtimeEvent::TranscriptDelta(s) => EventView::TranscriptDelta(s.deep_view()),
            RealtimeEvent::TranscriptDone(s) => EventView::TranscriptDone(s.deep_view()),
            RealtimeEvent::TextDelta(s) => EventView::TextDelta(s.deep_view()),
            RealtimeEvent::InputTranscript(s) => EventView::InputTranscript(s.deep_view()),
            RealtimeEvent::ResponseDone { id, status } => EventView::ResponseDone {
                id: id.deep_view(),
                status: status.deep_view(),
            },
            RealtimeEvent::Failed(s) => EventView::Failed(s@),
            RealtimeEvent::Other => EventView::Other,
        }
    }
}

/// The message of an error event: `message` within `error`, else `message`.
pub open spec fn error_message(j: Json) -> Seq<char> {
    match j.text_within("error"@, "message"@) {
        Some(m) => m,
        None => text::or(j.text_at("message"@), "realtime ws error"@),
    }
}

/// The event that a document describes.
pub open spec fn event_of(j: Json) -> EventView {
    match j.text_at("type"@) {
        None => EventView::Other,
        Some(kind) => if kind == "conversation.created"@ {
            EventView::ConversationCreated(j.text_within("conversation"@, "id"@))
        } else if kind == "response.created"@ {
            EventView::ResponseCreated(j.text_within("response"@, "id"@))
        } else if kind == "response.output_audio.delta"@ {
            EventView::AudioDelta(j.text_at("delta"@))
        } else if kind == "response.output_audio_transcript.delta"@ {
            EventView::TranscriptDelta(j.text_at("delta"@))
        } else if kind == "response.output_audio_transcript.done"@ {
            EventView::TranscriptDone(j.text_at("transcript"@))
        } else if kind == "response.text.delta"@ || kind == "response.output_text.delta"@ {
            EventView::TextDelta(j.text_at("delta"@))
        } else if kind == "conversation.item.input_audio_transcription.updated"@ || kind
            == "conversation.item.input_audio_transcription.completed"@ {
            EventView::InputTranscript(j.text_at("transcript"@))
        } else if kind == "response.done"@ {
            EventView::ResponseDone {
                id: j.text_within("response"@, "id"@),
                status: j.text_within("response"@, "status"@),
            }
        } else if kind == "error"@ {
            EventView::Failed(error_message(j))
        } else {
            EventView::Other
        },
    }
}

/// The error that an error event stands for.
pub fn realtime_error(value: &Value) -> (r: CoreError)
    ensures
        r.deep_view() == xai_timestamps::xai_failure(error_message(json::json_of(*value))),
{
    CoreError::Provider { provider: "xai".to_owned(), message: message_of_error(value) }
}

fn message_of_error(value: &Value) -> (r: String)
    ensures
        r@ == error_message(json::json_of(*value)),
{
    match json::text_within(value, "error", "message") {
        Some(m) => m,
        None => text::text_or(&json::text_at(value, "message"), "realtime ws error"),
    }
}

/// The event that a document describes.
pub fn realtime_event(value: &Value) -> (r: RealtimeEvent)
    ensures
        r.deep_view() == event_of(json::json_of(*value)),
{
    let kind = match json::text_at(value, "type") {
        Some(k) => k,
        None => {
            return RealtimeEvent::Other;
        },
    };
    if text::same(&kind, "conversation.created") {
        RealtimeEvent::ConversationCreated(json::text_within(value, "conversation", "id"))
    } else if text::same(&kind, "response.created") {
        RealtimeEvent::ResponseCreated(json::text_within(value, "response", "id"))
    } else if text::same(&kind, "response.output_audio.delta") {
        RealtimeEvent::AudioDelta(json::text_at(value, "delta"))
    } else if text::same(&kind, "response.output_audio_transcript.delta") {
        RealtimeEvent::TranscriptDelta(json::text_at(value, "delta"))
    } else if text::same(&kind, "response.output_audio_transcript.done") {
        RealtimeEvent::TranscriptDone(json::text_at(value, "transcript"))
    } else if text::same(&kind, "response.text.delta") || text::same(
        &kind,
        "response.output_text.delta",
    ) {
        RealtimeEvent::TextDelta(json::text_at(value, "delta"))
    } else if text::same(&kind, "conversation.item.input_audio_transcription.updated")
        || text::same(&kind, "conversation.item.input_audio_transcription.completed") {
        RealtimeEvent::InputTranscript(json::text_at(value, "transcript"))
    } else if text::same(&kind, "response.done") {
        RealtimeEvent::ResponseDone {
            id: json::text_within(value, "response", "id"),
            status: json::text_within(value, "response", "status"),
        }
    } else if text::same(&kind, "error") {
        RealtimeEvent::Failed(message_of_error(value))
    } else {
        RealtimeEvent::Other
    }
}

// ---------------------------------------------------------------------------
// The state of a turn
// ---------------------------------------------------------------------------

/// What the events so far have brought.
#[derive(Debug)]
pub struct RealtimeTurn {
    pub audio_mime: String,
    pub audio_codec: AudioCodec,
    pub output_sample_rate: u32,
    pub audio: Vec<u8>,
    pub transcript_delta: String,
    pub transcript_done: Option<String>,
    pub text_delta: String,
    pub input_transcript: Option<String>,
    pub conversation_id: Option<String>,
    pub response_id: Option<String>,
    pub response_status: Option<String>,
}

/// What a [`RealtimeTurn`] holds.
pub struct TurnState {
    pub audio_mime: Seq<char>,
    pub audio_codec: AudioCodec,
    pub output_sample_rate: u32,
    pub audio: Seq<u8>,
    pub transcript_delta: Seq<char>,
    pub transcript_done: Option<Seq<char>>,
    pub text_delta: Seq<char>,
    pub input_transcript: Option<Seq<char>>,
    pub conversation_id: Option<Seq<char>>,
    pub response_id: Option<Seq<char>>,
    pub response_status: Option<Seq<char>>,
}

impl DeepView for RealtimeTurn {
    type V = TurnState;

    open spec fn deep_view(&self) -> TurnState {
        TurnState {
            audio_mime: self.audio_mime@,
            audio_codec: self.audio_codec,
            output_sample_rate: self.output_sample_rate,
            audio: self.audio@,
            transcript_delta: self.transcript_delta@,
            transcript_done: self.transcript_done.deep_view(),
            text_delta: self.text_delta@,
            input_transcript: self.input_transcript.deep_view(),
            conversation_id: self.conversation_id.deep_view(),
            response_id: self.response_id.deep_view(),
            response_status: self.response_status.deep_view(),
        }
    }
}

/// How a turn goes on after an event.
pub enum Advance {
    /// More events are to come.
    More(TurnState),
    /// The answer is complete.
    Complete(TurnState),
    /// The turn has failed.
    Broken(Failure),
}

impl TurnState {
    /// A turn before the first event.
    pub open spec fn start(mime: Seq<char>, codec: AudioCodec, rate: u32) -> TurnState {
        TurnState {
            audio_mime: mime,
            audio_codec: codec,
            output_sample_rate: rate,
            audio: Seq::empty(),
            transcript_delta: Seq::empty(),
            transcript_done: None,
            text_delta: Seq::empty(),
            input_transcript: None,
            conversation_id: None,
            response_id: None,
            response_status: None,
        }
    }

    /// The turn after decoded audio, or the failure to decode it.
    pub open spec fn after_audio(self, audio: Result<Seq<u8>, Seq<char>>) -> Advance {
        match audio {
            Ok(bytes) => Advance::More(TurnState { audio: self.audio + bytes, ..self }),
            Err(e) => Advance::Broken(
                xai_timestamps::xai_failure("decoding realtime audio: "@ + e),
            ),
        }
    }

    /// The turn after an event.
    pub open spec fn after_event(self, event: EventView) -> Advance {
        match event {
            EventView::ConversationCreated(id) => Advance::More(
                TurnState { conversation_id: id, ..self },
            ),
            EventView::ResponseCreated(id) => Advance::More(TurnState { response_id: id, ..self }),
            EventView::AudioDelta(Some(s)) => self.after_audio(encoding::base64_decoded(s)),
            EventView::AudioDelta(None) => Advance::More(self),
            EventView::TranscriptDelta(Some(s)) => Advance::More(
                TurnState { transcript_delta: self.transcript_delta + s, ..self },
            ),
            EventView::TranscriptDelta(None) => Advance::More(self),
            EventView::TranscriptDone(s) => Advance::More(TurnState { transcript_done: s, ..self }),
            EventView::TextDelta(Some(s)) => Advance::More(
                TurnState { text_delta: self.text_delta + s, ..self },
            ),
            EventView::TextDelta(None) => Advance::More(self),
            EventView::InputTranscript(s) => Advance::More(
                TurnState { input_transcript: s, ..self },
            ),
            EventView::ResponseDone { id, status } => Advance::Complete(
                TurnState {
                    response_id: if id is Some {
                        id
                    } else {
                        self.response_id
                    },
                    response_status: status,
                    ..self
                },
            ),
            EventView::Failed(m) => Advance::Broken(xai_timestamps::xai_failure(m)),
            EventView::Other => Advance::More(self),
        }
    }

    /// The turn after a document has been read, or could not be.
    pub open spec fn after_reading(self, reading: Result<Json, Seq<char>>) -> Advance {
        match reading {
            Ok(j) => self.after_event(event_of(j)),
            Err(e) => Advance::Broken(
                xai_timestamps::xai_failure("decoding realtime event: "@ + e),
            ),
        }
    }

    /// The turn after the text of a message.
    pub open spec fn after_message(self, message: Seq<char>) -> Advance {
        self.after_reading(json::json_parsed(message))
    }

    /// The turn after messages, taken from first to last: those after the end
    /// of the turn are not looked at.
    pub open spec fn after_messages(self, messages: Seq<Seq<char>>) -> Advance
        decreases messages.len(),
    {
        if messages.len() == 0 {
            Advance::More(self)
        } else {
            match self.after_messages(messages.drop_last()) {
                Advance::More(state) => state.after_message(messages.last()),
                ended => ended,
            }
        }
    }

    /// What the turn has brought: its text is the finished transcript, else
    /// the transcript so far, else the text so far.
    pub open spec fn outcome(self) -> TurnView {
        TurnView {
            text: match self.transcript_done {
                Some(t) => t,
                None => if self.transcript_delta.len() == 0 {
                    self.text_delta
                } else {
                    self.transcript_delta
                },
            },
            audio: self.audio,
            audio_mime: self.audio_mime,
            audio_codec: self.audio_codec,
            output_sample_rate: self.output_sample_rate,
            input_transcript: self.input_transcript,
            conversation_id: self.conversation_id,
            response_id: self.response_id,
            response_status: self.response_status,
        }
    }
}

/// How a turn goes on, given the turn afterwards and whether it is complete.
pub open spec fn advance(turn: RealtimeTurn, r: CoreResult<bool>) -> Advance {
    match r {
        Ok(true) => Advance::Complete(turn.deep_view()),
        Ok(false) => Advance::More(turn.deep_view()),
        Err(e) => Advance::Broken(e.deep_view()),
    }
}

impl RealtimeTurn {
    /// A turn before the first event.
    pub fn start(mime: &str, codec: AudioCodec, rate: u32) -> (r: RealtimeTurn)
        ensures
            r.deep_view() == TurnState::start(mime@, codec, rate),
    {
        RealtimeTurn {
            audio_mime: mime.to_owned(),
            audio_codec: codec,
            output_sample_rate: rate,
            audio: Vec::new(),
            transcript_delta: String::new(),
            transcript_done: None,
            text_delta: String::new(),
            input_transcript: None,
            conversation_id: None,
            response_id: None,
            response_status: None,
        }
    }

    /// Takes decoded audio. Says whether the answer is complete.
    pub fn take_audio(&mut self, audio: Result<Vec<u8>, String>) -> (r: CoreResult<bool>)
        ensures
            advance(*final(self), r) == old(self).deep_view().after_audio(
                encoding::decoding(audio),
            ),
    {
        match audio {
            Ok(bytes) => {
                self.audio.extend_from_slice(bytes.as_slice());
                assert(self.audio@ =~= old(self).audio@ + bytes@);
                Ok(false)
            },
            Err(e) => Err(http::provider_error("xai", "decoding realtime audio: ", &e)),
        }
    }

    /// Takes an event. Says whether the answer is complete.
    pub fn take_event(&mut self, event: RealtimeEvent) -> (r: CoreResult<bool>)
        ensures
            advance(*final(self), r) == old(self).deep_view().after_event(event.deep_view()),
    {
        match event {
            RealtimeEvent::ConversationCreated(id) => {
                self.conversation_id = id;
                Ok(false)
            },
            RealtimeEvent::ResponseCreated(id) => {
                self.response_id = id;
                Ok(false)
            },
            RealtimeEvent::AudioDelta(Some(s)) => self.take_audio(encoding::base64_decode(&s)),
            RealtimeEvent::TranscriptDelta(Some(s)) => {
                self.transcript_delta.append(&s);
                Ok(false)
            },
            RealtimeEvent::TranscriptDone(s) => {
                self.transcript_done = s;
                Ok(false)
            },
            RealtimeEvent::TextDelta(Some(s)) => {
                self.text_delta.append(&s);
                Ok(false)
            },
            RealtimeEvent::InputTranscript(s) => {
                self.input_transcript = s;
                Ok(false)
            },
            RealtimeEvent::ResponseDone { id, status } => {
                if id.is_some() {
                    self.response_id = id;
                }
                self.response_status = status;
                Ok(true)
            },
            RealtimeEvent::Failed(message) => Err(
                CoreError::Provider { provider: "xai".to_owned(), message },
            ),
            _ => Ok(false),
        }
    }

    /// Takes what reading a message brought. Says whether the answer is
    /// complete.
    pub fn take_reading(&mut self, reading: Result<Value, String>) -> (r: CoreResult<bool>)
        ensures
            advance(*final(self), r) == old(self).deep_view().after_reading(
                json::reading(reading),
            ),
    {
        match reading {
            Ok(value) => self.take_event(realtime_event(&value)),
            Err(e) => Err(http::provider_error("xai", "decoding realtime event: ", &e)),
        }
    }

    /// Takes the text of a message. Says whether the answer is complete.
    pub fn take_message(&mut self, message: &str) -> (r: CoreResult<bool>)
        ensures
            advance(*final(self), r) == old(self).deep_view().after_message(message@),
    {
        self.take_reading(json::parse(message))
    }

    /// What the turn has brought.
    pub fn finish(self) -> (r: RealtimeAgentTurn)
        ensures
            r.deep_view() == self.deep_view().outcome(),
    {
        let text = match self.transcript_done {
            Some(t) => t,
            None => if self.transcript_delta.as_str().is_empty() {
                self.text_delta
            } else {
                self.transcript_delta
            },
        };
        RealtimeAgentTurn {
            text,
            audio: self.audio,
            audio_mime: self.audio_mime,
            audio_codec: self.audio_codec,
            output_sample_rate: self.output_sample_rate,
            input_transcript: self.input_transcript,
            conversation_id: self.conversation_id,
            response_id: self.response_id,
            response_status: self.response_status,
        }
    }
}

// ---------------------------------------------------------------------------
// Laws of a turn
// ---------------------------------------------------------------------------

/// Once a turn is complete or broken, later messages do not change it.
pub proof fn law_ended_turn_stays_as_it_is(
    state: TurnState,
    messages: Seq<Seq<char>>,
    later: Seq<Seq<char>>,
)
    requires
        state.after_messages(messages) !is More,
    ensures
        state.after_messages(messages + later) == state.after_messages(messages),
    decreases later.len(),
{
    if later.len() == 0 {
        assert(messages + later =~= messages);
    } else {
        law_ended_turn_stays_as_it_is(state, messages, later.drop_last());
        assert((messages + later).drop_last() =~= messages + later.drop_last());
    }
}

/// The state that a turn has come to, where it is not broken.
pub open spec fn reached(a: Advance) -> Option<TurnState> {
    match a {
        Advance::More(s) => Some(s),
        Advance::Complete(s) => Some(s),
        Advance::Broken(_) => None,
    }
}

/// A turn that is not broken has kept the format it was opened with, and has
/// only added to the audio and to the texts that come in pieces.
pub proof fn law_turn_only_adds(state: TurnState, messages: Seq<Seq<char>>)
    ensures
        match reached(state.after_messages(messages)) {
            Some(s) => {
                &&& s.audio_mime == state.audio_mime
                &&& s.audio_codec == state.audio_codec
                &&& s.output_sample_rate == state.output_sample_rate
                &&& state.audio.is_prefix_of(s.audio)
                &&& state.transcript_delta.is_prefix_of(s.transcript_delta)
                &&& state.text_delta.is_prefix_of(s.text_delta)
            },
            None => true,
        },
    decreases messages.len(),
{
    if messages.len() > 0 {
        law_turn_only_adds(state, messages.drop_last());
    }
}

// ---------------------------------------------------------------------------
// Laws of opening a turn
// ---------------------------------------------------------------------------

/// The session says all that was asked: the model or the usual one, the voice or the
/// configured one, the formats of input and output with their sample rates, how turns
/// are detected, and the instructions and the reasoning effort where they are given.
pub proof fn law_session_says_what_was_asked(
    request: RealtimeAgentRequest,
    default_voice: Seq<char>,
    output_mime: Seq<char>,
)
    ensures
        ({
            let s = session_json(request, default_voice, output_mime);
            &&& s.text_at("model"@) == Some(
                match request.model {
                    Some(m) => m@,
                    None => "grok-voice-latest"@,
                },
            )
            &&& s.text_at("voice"@) == Some(
                match request.voice {
                    Some(v) => v@,
                    None => default_voice,
                },
            )
            &&& s.text_at("instructions"@) == match request.instructions {
                Some(i) => Some(i@),
                None => None,
            }
            &&& s.text_within("reasoning"@, "effort"@) == match request.reasoning_effort {
                Some(e) => Some(e@),
                None => None,
            }
            &&& s.entry("turn_detection"@) == Some(turn_detection(request))
            &&& match s.entry("audio"@) {
                Some(audio) => {
                    &&& audio.entry("input"@) is Some
                    &&& has_format(
                        audio.entry("input"@)->Some_0,
                        "audio/pcm"@,
                        request.input_sample_rate,
                    )
                    &&& audio.entry("input"@)->Some_0.entry("transcription"@) == transcription(
                        request,
                    )
                    &&& audio.entry("output"@) is Some
                    &&& has_format(
                        audio.entry("output"@)->Some_0,
                        output_mime,
                        request.output_sample_rate,
                    )
                },
                None => false,
            }
        }),
{
    lemma_session_keys();
}

/// Whether a description of audio holds this format.
pub open spec fn has_format(j: Json, mime: Seq<char>, rate: u32) -> bool {
    match j.entry("format"@) {
        Some(f) => f.text_at("type"@) == Some(mime) && f.entry("rate"@) == Some(
            Json::Number(text::decimal(rate as nat)),
        ),
        None => false,
    }
}

/// Turns are not detected where they are manual; else the server detects them, with
/// the threshold, the silence and the padding that are given.
pub proof fn law_turn_detection(request: RealtimeAgentRequest)
    ensures
        request.manual_turn ==> turn_detection(request) == Json::Null,
        !request.manual_turn ==> {
            let t = turn_detection(request);
            &&& t.text_at("type"@) == Some("server_vad"@)
            &&& t.entry("threshold"@) == match request.vad_threshold {
                Some(d) => Some(Json::decimal(d)),
                None => None,
            }
            &&& t.entry("silence_duration_ms"@) == match request.vad_silence_duration_ms {
                Some(n) => Some(Json::Number(text::decimal(n as nat))),
                None => None,
            }
            &&& t.entry("prefix_padding_ms"@) == match request.vad_prefix_padding_ms {
                Some(n) => Some(Json::Number(text::decimal(n as nat))),
                None => None,
            }
        },
{
    lemma_session_keys();
}

/// The user's speech is transcribed where a model or a language is given for that: by
/// the model or the usual one, with the language where it is given.
pub proof fn law_transcription_of_input(request: RealtimeAgentRequest)
    ensures
        transcription(request) is Some <==> request.transcription_model is Some
            || request.language_hint is Some,
        transcription(request) matches Some(t) ==> {
            &&& t.text_at("model"@) == Some(
                match request.transcription_model {
                    Some(m) => m@,
                    None => "grok-transcribe"@,
                },
            )
            &&& t.text_at("language_hint"@) == match request.language_hint {
                Some(l) => Some(l@),
                None => None,
            }
        },
{
    lemma_session_keys();
}

proof fn lemma_session_keys()
    ensures
        "model"@ != "voice"@,
        "model"@ != "audio"@,
        "model"@ != "turn_detection"@,
        "model"@ != "instructions"@,
        "model"@ != "reasoning"@,
        "model"@ != "effort"@,
        "model"@ != "input"@,
        "model"@ != "output"@,
        "model"@ != "format"@,
        "model"@ != "transcription"@,
        "model"@ != "type"@,
        "model"@ != "rate"@,
        "model"@ != "threshold"@,
        "model"@ != "silence_duration_ms"@,
        "model"@ != "prefix_padding_ms"@,
        "model"@ != "language_hint"@,
        "model"@ != "session"@,
        "model"@ != "item"@,
        "model"@ != "role"@,
        "model"@ != "content"@,
        "model"@ != "text"@,
        "model"@ != "response"@,
        "model"@ != "modalities"@,
        "voice"@ != "audio"@,
        "voice"@ != "turn_detection"@,
        "voice"@ != "instructions"@,
        "voice"@ != "reasoning"@,
        "voice"@ != "effort"@,
        "voice"@ != "input"@,
        "voice"@ != "output"@,
        "voice"@ != "format"@,
        "voice"@ != "transcription"@,
        "voice"@ != "type"@,
        "voice"@ != "rate"@,
        "voice"@ != "threshold"@,
        "voice"@ != "silence_duration_ms"@,
        "voice"@ != "prefix_padding_ms"@,
        "voice"@ != "language_hint"@,
        "voice"@ != "session"@,
        "voice"@ != "item"@,
        "voice"@ != "role"@,
        "voice"@ != "content"@,
        "voice"@ != "text"@,
        "voice"@ != "response"@,
        "voice"@ != "modalities"@,
        "audio"@ != "turn_detection"@,
        "audio"@ != "instructions"@,
        "audio"@ != "reasoning"@,
        "audio"@ != "effort"@,
        "audio"@ != "input"@,
        "audio"@ != "output"@,
        "audio"@ != "format"@,
        "audio"@ != "transcription"@,
        "audio"@ != "type"@,
        "audio"@ != "rate"@,
        "audio"@ != "threshold"@,
        "audio"@ != "silence_duration_ms"@,
        "audio"@ != "prefix_padding_ms"@,
        "audio"@ != "language_hint"@,
        "audio"@ != "session"@,
        "audio"@ != "item"@,
        "audio"@ != "role"@,
        "audio"@ != "content"@,
        "audio"@ != "text"@,
        "audio"@ != "response"@,
        "audio"@ != "modalities"@,
        "turn_detection"@ != "instructions"@,
        "turn_detection"@ != "reasoning"@,
        "turn_detection"@ != "effort"@,
        "turn_detection"@ != "input"@,
        "turn_detection"@ != "output"@,
        "turn_detection"@ != "format"@,
        "turn_detection"@ != "transcription"@,
        "turn_detection"@ != "type"@,
        "turn_detection"@ != "rate"@,
        "turn_detection"@ != "threshold"@,
        "turn_detection"@ != "silence_duration_ms"@,
        "turn_detection"@ != "prefix_padding_ms"@,
        "turn_detection"@ != "language_hint"@,
        "turn_detection"@ != "session"@,
        "turn_detection"@ != "item"@,
        "turn_detection"@ != "role"@,
        "turn_detection"@ != "content"@,
        "turn_detection"@ != "text"@,
        "turn_detection"@ != "response"@,
        "turn_detection"@ != "modalities"@,
        "instructions"@ != "reasoning"@,
        "instructions"@ != "effort"@,
        "instructions"@ != "input"@,
        "instructions"@ != "output"@,
        "instructions"@ != "format"@,
        "instructions"@ != "transcription"@,
        "instructions"@ != "type"@,
        "instructions"@ != "rate"@,
        "instructions"@ != "threshold"@,
        "instructions"@ != "silence_duration_ms"@,
        "instructions"@ != "prefix_padding_ms"@,
        "instructions"@ != "language_hint"@,
        "instructions"@ != "session"@,
        "instructions"@ != "item"@,
        "instructions"@ != "role"@,
        "instructions"@ != "content"@,
        "instructions"@ != "text"@,
        "instructions"@ != "response"@,
        "instructions"@ != "modalities"@,
        "reasoning"@ != "effort"@,
        "reasoning"@ != "input"@,
        "reasoning"@ != "output"@,
        "reasoning"@ != "format"@,
        "reasoning"@ != "transcription"@,
        "reasoning"@ != "type"@,
        "reasoning"@ != "rate"@,
        "reasoning"@ != "threshold"@,
        "reasoning"@ != "silence_duration_ms"@,
        "reasoning"@ != "prefix_padding_ms"@,
        "reasoning"@ != "language_hint"@,
        "reasoning"@ != "session"@,
        "reasoning"@ != "item"@,
        "reasoning"@ != "role"@,
        "reasoning"@ != "content"@,
        "reasoning"@ != "text"@,
        "reasoning"@ != "response"@,
        "reasoning"@ != "modalities"@,
        "effort"@ != "input"@,
        "effort"@ != "output"@,
        "effort"@ != "format"@,
        "effort"@ != "transcription"@,
        "effort"@ != "type"@,
        "effort"@ != "rate"@,
        "effort"@ != "threshold"@,
        "effort"@ != "silence_duration_ms"@,
        "effort"@ != "prefix_padding_ms"@,
        "effort"@ != "language_hint"@,
        "effort"@ != "session"@,
        "effort"@ != "item"@,
        "effort"@ != "role"@,
        "effort"@ != "content"@,
        "effort"@ != "text"@,
        "effort"@ != "response"@,
        "effort"@ != "modalities"@,
        "input"@ != "output"@,
        "input"@ != "format"@,
        "input"@ != "transcription"@,
        "input"@ != "type"@,
        "input"@ != "rate"@,
        "input"@ != "threshold"@,
        "input"@ != "silence_duration_ms"@,
        "input"@ != "prefix_padding_ms"@,
        "input"@ != "language_hint"@,
        "input"@ != "session"@,
        "input"@ != "item"@,
        "input"@ != "role"@,
        "input"@ != "content"@,
        "input"@ != "text"@,
        "input"@ != "response"@,
        "input"@ != "modalities"@,
        "output"@ != "format"@,
        "output"@ != "transcription"@,
        "output"@ != "type"@,
        "output"@ != "rate"@,
        "output"@ != "threshold"@,
        "output"@ != "silence_duration_ms"@,
        "output"@ != "prefix_padding_ms"@,
        "output"@ != "language_hint"@,
        "output"@ != "session"@,
        "output"@ != "item"@,
        "output"@ != "role"@,
        "output"@ != "content"@,
        "output"@ != "text"@,
        "output"@ != "response"@,
        "output"@ != "modalities"@,
        "format"@ != "transcription"@,
        "format"@ != "type"@,
        "format"@ != "rate"@,
        "format"@ != "threshold"@,
        "format"@ != "silence_duration_ms"@,
        "format"@ != "prefix_padding_ms"@,
        "format"@ != "language_hint"@,
        "format"@ != "session"@,
        "format"@ != "item"@,
        "format"@ != "role"@,
        "format"@ != "content"@,
        "format"@ != "text"@,
        "format"@ != "response"@,
        "format"@ != "modalities"@,
        "transcription"@ != "type"@,
        "transcription"@ != "rate"@,
        "transcription"@ != "threshold"@,
        "transcription"@ != "silence_duration_ms"@,
        "transcription"@ != "prefix_padding_ms"@,
        "transcription"@ != "language_hint"@,
        "transcription"@ != "session"@,
        "transcription"@ != "item"@,
        "transcription"@ != "role"@,
        "transcription"@ != "content"@,
        "transcription"@ != "text"@,
        "transcription"@ != "response"@,
        "transcription"@ != "modalities"@,
        "type"@ != "rate"@,
        "type"@ != "threshold"@,
        "type"@ != "silence_duration_ms"@,
        "type"@ != "prefix_padding_ms"@,
        "type"@ != "language_hint"@,
        "type"@ != "session"@,
        "type"@ != "item"@,
        "type"@ != "role"@,
        "type"@ != "content"@,
        "type"@ != "text"@,
        "type"@ != "response"@,
        "type"@ != "modalities"@,
        "rate"@ != "threshold"@,
        "rate"@ != "silence_duration_ms"@,
        "rate"@ != "prefix_padding_ms"@,
        "rate"@ != "language_hint"@,
        "rate"@ != "session"@,
        "rate"@ != "item"@,
        "rate"@ != "role"@,
        "rate"@ != "content"@,
        "rate"@ != "text"@,
        "rate"@ != "response"@,
        "rate"@ != "modalities"@,
        "threshold"@ != "silence_duration_ms"@,
        "threshold"@ != "prefix_padding_ms"@,
        "threshold"@ != "language_hint"@,
        "threshold"@ != "session"@,
        "threshold"@ != "item"@,
        "threshold"@ != "role"@,
        "threshold"@ != "content"@,
        "threshold"@ != "text"@,
        "threshold"@ != "response"@,
        "threshold"@ != "modalities"@,
        "silence_duration_ms"@ != "prefix_padding_ms"@,
        "silence_duration_ms"@ != "language_hint"@,
        "silence_duration_ms"@ != "session"@,
        "silence_duration_ms"@ != "item"@,
        "silence_duration_ms"@ != "role"@,
        "silence_duration_ms"@ != "content"@,
        "silence_duration_ms"@ != "text"@,
        "silence_duration_ms"@ != "response"@,
        "silence_duration_ms"@ != "modalities"@,
        "prefix_padding_ms"@ != "language_hint"@,
        "prefix_padding_ms"@ != "session"@,
        "prefix_padding_ms"@ != "item"@,
        "prefix_padding_ms"@ != "role"@,
        "prefix_padding_ms"@ != "content"@,
        "prefix_padding_ms"@ != "text"@,
        "prefix_padding_ms"@ != "response"@,
        "prefix_padding_ms"@ != "modalities"@,
        "language_hint"@ != "session"@,
        "language_hint"@ != "item"@,
        "language_hint"@ != "role"@,
        "language_hint"@ != "content"@,
        "language_hint"@ != "text"@,
        "language_hint"@ != "response"@,
        "language_hint"@ != "modalities"@,
        "session"@ != "item"@,
        "session"@ != "role"@,
        "session"@ != "content"@,
        "session"@ != "text"@,
        "session"@ != "response"@,
        "session"@ != "modalities"@,
        "item"@ != "role"@,
        "item"@ != "content"@,
        "item"@ != "text"@,
        "item"@ != "response"@,
        "item"@ != "modalities"@,
        "role"@ != "content"@,
        "role"@ != "text"@,
        "role"@ != "response"@,
        "role"@ != "modalities"@,
        "content"@ != "text"@,
        "content"@ != "response"@,
        "content"@ != "modalities"@,
        "text"@ != "response"@,
        "text"@ != "modalities"@,
        "response"@ != "modalities"@,
{
    reveal_strlit("model");
    reveal_strlit("voice");
    reveal_strlit("audio");
    reveal_strlit("turn_detection");
    reveal_strlit("instructions");
    reveal_strlit("reasoning");
    reveal_strlit("effort");
    reveal_strlit("input");
    reveal_strlit("output");
    reveal_strlit("format");
    reveal_strlit("transcription");
    reveal_strlit("type");
    reveal_strlit("rate");
    reveal_strlit("threshold");
    reveal_strlit("silence_duration_ms");
    reveal_strlit("prefix_padding_ms");
    reveal_strlit("language_hint");
    reveal_strlit("session");
    reveal_strlit("item");
    reveal_strlit("role");
    reveal_strlit("content");
    reveal_strlit("text");
    reveal_strlit("response");
    reveal_strlit("modalities");
    assert("model"@.len() == 5);
    assert("voice"@.len() == 5);
    assert("audio"@.len() == 5);
    assert("turn_detection"@.len() == 14);
    assert("instructions"@.len() == 12);
    assert("reasoning"@.len() == 9);
    assert("effort"@.len() == 6);
    assert("input"@.len() == 5);
    assert("output"@.len() == 6);
    assert("format"@.len() == 6);
    assert("transcription"@.len() == 13);
    assert("type"@.len() == 4);
    assert("rate"@.len() == 4);
    assert("threshold"@.len() == 9);
    assert("silence_duration_ms"@.len() == 19);
    assert("prefix_padding_ms"@.len() == 17);
    assert("language_hint"@.len() == 13);
    assert("session"@.len() == 7);
    assert("item"@.len() == 4);
    assert("role"@.len() == 4);
    assert("content"@.len() == 7);
    assert("text"@.len() == 4);
    assert("response"@.len() == 8);
    assert("modalities"@.len() == 10);
    assert("model"@[0] == 'm');
    assert("voice"@[0] == 'v');
    assert("audio"@[0] == 'a');
    assert("input"@[0] == 'i');
    assert("reasoning"@[0] == 'r');
    assert("threshold"@[0] == 't');
    assert("effort"@[0] == 'e');
    assert("output"@[0] == 'o');
    assert("format"@[0] == 'f');
    assert("transcription"@[0] == 't');
    assert("language_hint"@[0] == 'l');
    assert("type"@[0] == 't');
    assert("rate"@[0] == 'r');
    assert("item"@[0] == 'i');
    assert("role"@[0] == 'r');
    assert("type"@[1] == 'y');
    assert("text"@[1] == 'e');
    assert("rate"@[1] == 'a');
    assert("role"@[1] == 'o');
    assert("text"@[0] == 't');
    assert("session"@[0] == 's');
    assert("content"@[0] == 'c');
}

/// A turn is opened by setting up the session, saying the user's text and asking for
/// the answer, as text alone or as audio and text.
pub proof fn law_opening_messages(
    request: RealtimeAgentRequest,
    default_voice: Seq<char>,
    output_mime: Seq<char>,
)
    ensures
        opening_messages(request, default_voice, output_mime).len() == 3,
        ({
            let m = session_update(request, default_voice, output_mime);
            &&& opening_messages(request, default_voice, output_mime)[0] == json::json_written(m)
            &&& m.text_at("type"@) == Some("session.update"@)
            &&& m.entry("session"@) == Some(session_json(request, default_voice, output_mime))
        }),
        ({
            let m = item_create(request.text@);
            &&& opening_messages(request, default_voice, output_mime)[1] == json::json_written(m)
            &&& m.text_at("type"@) == Some("conversation.item.create"@)
            &&& m.text_within("item"@, "type"@) == Some("message"@)
            &&& m.text_within("item"@, "role"@) == Some("user"@)
            &&& match m.entry("item"@)->Some_0.entry("content"@) {
                Some(Json::Array(list)) => list.len() == 1 && list[0].text_at("type"@) == Some(
                    "input_text"@,
                ) && list[0].text_at("text"@) == Some(request.text@),
                _ => false,
            }
        }),
        ({
            let m = response_create(request.text_only);
            &&& opening_messages(request, default_voice, output_mime)[2] == json::json_written(m)
            &&& m.text_at("type"@) == Some("response.create"@)
            &&& match m.entry("response"@)->Some_0.entry("modalities"@) {
                Some(Json::Array(list)) => if request.text_only {
                    list == seq![Json::Text("text"@)]
                } else {
                    list == seq![Json::Text("audio"@), Json::Text("text"@)]
                },
                _ => false,
            }
        }),
{
    lemma_session_keys();
}

/// The agent speaks raw PCM and the two codecs of telephony, each by its own media
/// type, and no other.
pub proof fn law_codecs_of_the_agent(codec: AudioCodec)
    ensures
        realtime_mime(codec) == match codec {
            AudioCodec::Pcm => Some("audio/pcm"@),
            AudioCodec::Mulaw => Some("audio/pcmu"@),
            AudioCodec::Alaw => Some("audio/pcma"@),
            _ => None,
        },
        realtime_codec_refusal(codec) is Unsupported,
{
}

/// The address of a turn names the model and, where one is given, the reasoning
/// effort, both encoded.
pub proof fn law_turn_address(ws_url: Seq<char>, request: RealtimeAgentRequest)
    ensures
        ({
            let model = match request.model {
                Some(m) => m@,
                None => "grok-voice-latest"@,
            };
            let start = ws_url + "/v1/realtime?model="@ + encoding::percent_encoded(model);
            match request.reasoning_effort {
                Some(e) => realtime_url(ws_url, request) == start + "&reasoning.effort="@
                    + encoding::percent_encoded(e@),
                None => realtime_url(ws_url, request) == start,
            }
        }),
{
}

// ---------------------------------------------------------------------------
// Laws of events
// ---------------------------------------------------------------------------

/// An event is told by its type, and brings what stands at its own place in the
/// document.
pub proof fn law_events_are_told_by_type(j: Json)
    ensures
        match j.text_at("type"@) {
            None => event_of(j) is Other,
            Some(kind) => {
                &&& kind == "conversation.created"@ ==> event_of(j)
                    == EventView::ConversationCreated(j.text_within("conversation"@, "id"@))
                &&& kind == "response.created"@ ==> event_of(j) == EventView::ResponseCreated(
                    j.text_within("response"@, "id"@),
                )
                &&& kind == "response.output_audio.delta"@ ==> event_of(j)
                    == EventView::AudioDelta(j.text_at("delta"@))
                &&& kind == "response.output_audio_transcript.delta"@ ==> event_of(j)
                    == EventView::TranscriptDelta(j.text_at("delta"@))
                &&& kind == "response.output_audio_transcript.done"@ ==> event_of(j)
                    == EventView::TranscriptDone(j.text_at("transcript"@))
                &&& kind == "response.text.delta"@ || kind == "response.output_text.delta"@
                    ==> event_of(j) == EventView::TextDelta(j.text_at("delta"@))
                &&& kind == "conversation.item.input_audio_transcription.updated"@ || kind
                    == "conversation.item.input_audio_transcription.completed"@ ==> event_of(j)
                    == EventView::InputTranscript(j.text_at("transcript"@))
                &&& kind == "response.done"@ ==> event_of(j) == (EventView::ResponseDone {
                    id: j.text_within("response"@, "id"@),
                    status: j.text_within("response"@, "status"@),
                })
                &&& kind == "error"@ ==> event_of(j) is Failed
            },
        },
{
    lemma_kinds();
}

proof fn lemma_kinds()
    ensures
        "conversation.created"@ != "response.created"@,
        "conversation.created"@ != "response.output_audio.delta"@,
        "conversation.created"@ != "response.output_audio_transcript.delta"@,
        "conversation.created"@ != "response.output_audio_transcript.done"@,
        "conversation.created"@ != "response.text.delta"@,
        "conversation.created"@ != "response.output_text.delta"@,
        "conversation.created"@ != "conversation.item.input_audio_transcription.updated"@,
        "conversation.created"@ != "conversation.item.input_audio_transcription.completed"@,
        "conversation.created"@ != "response.done"@,
        "conversation.created"@ != "error"@,
        "response.created"@ != "response.output_audio.delta"@,
        "response.created"@ != "response.output_audio_transcript.delta"@,
        "response.created"@ != "response.output_audio_transcript.done"@,
        "response.created"@ != "response.text.delta"@,
        "response.created"@ != "response.output_text.delta"@,
        "response.created"@ != "conversation.item.input_audio_transcription.updated"@,
        "response.created"@ != "conversation.item.input_audio_transcription.completed"@,
        "response.created"@ != "response.done"@,
        "response.created"@ != "error"@,
        "response.output_audio.delta"@ != "response.output_audio_transcript.delta"@,
        "response.output_audio.delta"@ != "response.output_audio_transcript.done"@,
        "response.output_audio.delta"@ != "response.text.delta"@,
        "response.output_audio.delta"@ != "response.output_text.delta"@,
        "response.output_audio.delta"@ != "conversation.item.input_audio_transcription.updated"@,
        "response.output_audio.delta"@ != "conversation.item.input_audio_transcription.completed"@,
        "response.output_audio.delta"@ != "response.done"@,
        "response.output_audio.delta"@ != "error"@,
        "response.output_audio_transcript.delta"@ != "response.output_audio_transcript.done"@,
        "response.output_audio_transcript.delta"@ != "response.text.delta"@,
        "response.output_audio_transcript.delta"@ != "response.output_text.delta"@,
        "response.output_audio_transcript.delta"@ != "conversation.item.input_audio_transcription.updated"@,
        "response.output_audio_transcript.delta"@ != "conversation.item.input_audio_transcription.completed"@,
        "response.output_audio_transcript.delta"@ != "response.done"@,
        "response.output_audio_transcript.delta"@ != "error"@,
        "response.output_audio_transcript.done"@ != "response.text.delta"@,
        "response.output_audio_transcript.done"@ != "response.output_text.delta"@,
        "response.output_audio_transcript.done"@ != "conversation.item.input_audio_transcription.updated"@,
        "response.output_audio_transcript.done"@ != "conversation.item.input_audio_transcription.completed"@,
        "response.output_audio_transcript.done"@ != "response.done"@,
        "response.output_audio_transcript.done"@ != "error"@,
        "response.text.delta"@ != "response.output_text.delta"@,
        "response.text.delta"@ != "conversation.item.input_audio_transcription.updated"@,
        "response.text.delta"@ != "conversation.item.input_audio_transcription.completed"@,
        "response.text.delta"@ != "response.done"@,
        "response.text.delta"@ != "error"@,
        "response.output_text.delta"@ != "conversation.item.input_audio_transcription.updated"@,
        "response.output_text.delta"@ != "conversation.item.input_audio_transcription.completed"@,
        "response.output_text.delta"@ != "response.done"@,
        "response.output_text.delta"@ != "error"@,
        "conversation.item.input_audio_transcription.updated"@ != "conversation.item.input_audio_transcription.completed"@,
        "conversation.item.input_audio_transcription.updated"@ != "response.done"@,
        "conversation.item.input_audio_transcription.updated"@ != "error"@,
        "conversation.item.input_audio_transcription.completed"@ != "response.done"@,
        "conversation.item.input_audio_transcription.completed"@ != "error"@,
        "response.done"@ != "error"@,
{
    reveal_strlit("conversation.created");
    reveal_strlit("response.created");
    reveal_strlit("response.output_audio.delta");
    reveal_strlit("response.output_audio_transcript.delta");
    reveal_strlit("response.output_audio_transcript.done");
    reveal_strlit("response.text.delta");
    reveal_strlit("response.output_text.delta");
    reveal_strlit("conversation.item.input_audio_transcription.updated");
    reveal_strlit("conversation.item.input_audio_transcription.completed");
    reveal_strlit("response.done");
    reveal_strlit("error");
    assert("conversation.created"@.len() == 20);
    assert("response.created"@.len() == 16);
    assert("response.output_audio.delta"@.len() == 27);
    assert("response.output_audio_transcript.delta"@.len() == 38);
    assert("response.output_audio_transcript.done"@.len() == 37);
    assert("response.text.delta"@.len() == 19);
    assert("response.output_text.delta"@.len() == 26);
    assert("conversation.item.input_audio_transcription.updated"@.len() == 51);
    assert("conversation.item.input_audio_transcription.completed"@.len() == 53);
    assert("response.done"@.len() == 13);
    assert("error"@.len() == 5);
}

/// The message of an error is the one inside `error`, else the one beside it.
pub proof fn law_error_messages(j: Json)
    ensures
        j.text_within("error"@, "message"@) matches Some(m) ==> error_message(j) == m,
        j.text_within("error"@, "message"@) is None ==> (j.text_at("message"@) matches Some(m)
            ==> error_message(j) == m),
{
}

/// An event changes only what it is about: pieces of audio and text are appended, what
/// comes whole is taken over, the answer is complete with its last event, and an error
/// breaks the turn.
pub proof fn law_events_change_what_they_are_about(state: TurnState, event: EventView)
    ensures
        match state.after_event(event) {
            Advance::More(s) => {
                &&& !(event is ResponseDone) && !(event is Failed)
                &&& s.audio_mime == state.audio_mime && s.audio_codec == state.audio_codec
                    && s.output_sample_rate == state.output_sample_rate
                &&& s.response_status == state.response_status
                &&& s.audio == match event {
                    EventView::AudioDelta(Some(e)) => match encoding::base64_decoded(e) {
                        Ok(b) => state.audio + b,
                        Err(_) => state.audio,
                    },
                    _ => state.audio,
                }
                &&& s.transcript_delta == match event {
                    EventView::TranscriptDelta(Some(t)) => state.transcript_delta + t,
                    _ => state.transcript_delta,
                }
                &&& s.text_delta == match event {
                    EventView::TextDelta(Some(t)) => state.text_delta + t,
                    _ => state.text_delta,
                }
                &&& s.transcript_done == match event {
                    EventView::TranscriptDone(t) => t,
                    _ => state.transcript_done,
                }
                &&& s.input_transcript == match event {
                    EventView::InputTranscript(t) => t,
                    _ => state.input_transcript,
                }
                &&& s.conversation_id == match event {
                    EventView::ConversationCreated(id) => id,
                    _ => state.conversation_id,
                }
                &&& s.response_id == match event {
                    EventView::ResponseCreated(id) => id,
                    _ => state.response_id,
                }
            },
            Advance::Complete(s) => match event {
                EventView::ResponseDone { id, status } => {
                    &&& s.response_status == status
                    &&& s.response_id == match id {
                        Some(_) => id,
                        None => state.response_id,
                    }
                    &&& s.audio == state.audio
                    &&& s.transcript_delta == state.transcript_delta
                    &&& s.text_delta == state.text_delta
                    &&& s.transcript_done == state.transcript_done
                    &&& s.input_transcript == state.input_transcript
                    &&& s.conversation_id == state.conversation_id
                },
                _ => false,
            },
            Advance::Broken(f) => f is Provider && (event is Failed || match event {
                EventView::AudioDelta(Some(e)) => encoding::base64_decoded(e) is Err,
                _ => false,
            }),
        },
{
}

/// What a turn has brought is what its state holds; its text is the finished
/// transcript, else the pieces of the transcript, else the pieces of the text.
pub proof fn law_outcome_of_a_turn(state: TurnState)
    ensures
        state.transcript_done matches Some(t) ==> state.outcome().text == t,
        state.transcript_done is None && state.transcript_delta.len() > 0 ==> state.outcome().text
            == state.transcript_delta,
        state.transcript_done is None && state.transcript_delta.len() == 0 ==> state.outcome().text
            == state.text_delta,
        state.outcome().audio == state.audio,
        state.outcome().audio_mime == state.audio_mime,
        state.outcome().audio_codec == state.audio_codec,
        state.outcome().output_sample_rate == state.output_sample_rate,
        state.outcome().input_transcript == state.input_transcript,
        state.outcome().conversation_id == state.conversation_id,
        state.outcome().response_id == state.response_id,
        state.outcome().response_status == state.response_status,
{
}

/// A turn begins with nothing brought, in the format that it was opened with.
pub proof fn law_start_of_a_turn(mime: Seq<char>, codec: AudioCodec, rate: u32)
    ensures
        ({
            let s = TurnState::start(mime, codec, rate);
            &&& s.audio_mime == mime && s.audio_codec == codec && s.output_sample_rate == rate
            &&& s.audio.len() == 0 && s.transcript_delta.len() == 0 && s.text_delta.len() == 0
            &&& s.transcript_done is None && s.input_transcript is None && s.conversation_id is None
            &&& s.response_id is None && s.response_status is None
        }),
{
}

/// The views of a turn show each field as it is.
pub proof fn law_views_of_a_turn(a: RealtimeAgentTurn, t: RealtimeTurn)
    ensures
        a.deep_view().text == a.text@,
        a.deep_view().audio == a.audio@,
        a.deep_view().audio_mime == a.audio_mime@,
        a.deep_view().audio_codec == a.audio_codec,
        a.deep_view().output_sample_rate == a.output_sample_rate,
        a.deep_view().input_transcript == a.input_transcript.deep_view(),
        a.deep_view().conversation_id == a.conversation_id.deep_view(),
        a.deep_view().response_id == a.response_id.deep_view(),
        a.deep_view().response_status == a.response_status.deep_view(),
        t.deep_view().audio_mime == t.audio_mime@,
        t.deep_view().audio_codec == t.audio_codec,
        t.deep_view().output_sample_rate == t.output_sample_rate,
        t.deep_view().audio == t.audio@,
        t.deep_view().transcript_delta == t.transcript_delta@,
        t.deep_view().transcript_done == t.transcript_done.deep_view(),
        t.deep_view().text_delta == t.text_delta@,
        t.deep_view().input_transcript == t.input_transcript.deep_view(),
        t.deep_view().conversation_id == t.conversation_id.deep_view(),
        t.deep_view().response_id == t.response_id.deep_view(),
        t.deep_view().response_status == t.response_status.deep_view(),
{
}

/// An event of any other type, and one without a type, changes nothing; a message that
/// cannot be read breaks the turn.
pub proof fn law_other_events_change_nothing(state: TurnState, j: Json, e: Seq<char>)
    requires
        j.text_at("type"@) matches Some(kind) ==> kind
            != "conversation.created"@ && kind
            != "response.created"@ && kind
            != "response.output_audio.delta"@ && kind
            != "response.output_audio_transcript.delta"@ && kind
            != "response.output_audio_transcript.done"@ && kind
            != "response.text.delta"@ && kind
            != "response.output_text.delta"@ && kind
            != "conversation.item.input_audio_transcription.updated"@ && kind
            != "conversation.item.input_audio_transcription.completed"@ && kind
            != "response.done"@ && kind
            != "error"@,
    ensures
        state.after_reading(Ok(j)) == Advance::More(state),
        state.after_reading(Err(e)) matches Advance::Broken(f) && f is Provider,
{
}

/// A message is read, and the event that it describes is taken.
pub proof fn law_message_is_taken(state: TurnState, message: Seq<char>)
    ensures
        match json::json_parsed(message) {
            Ok(j) => state.after_message(message) == state.after_event(event_of(j)),
            Err(_) => state.after_message(message) is Broken,
        },
{
}

/// A turn is complete where taking a message says so, goes on where it says not, and is
/// broken where it fails.
pub proof fn law_how_a_turn_goes_on(turn: RealtimeTurn, r: CoreResult<bool>)
    ensures
        r == Ok::<bool, CoreError>(true) ==> advance(turn, r) == Advance::Complete(
            turn.deep_view(),
        ),
        r == Ok::<bool, CoreError>(false) ==> advance(turn, r) == Advance::More(turn.deep_view()),
        r matches Err(e) ==> advance(turn, r) == Advance::Broken(e.deep_view()),
{
}

/// The refusal of a codec quotes its name and lists those that are sent.
pub proof fn law_refusal_of_a_codec(codec: AudioCodec)
    ensures
        realtime_codec_refusal(codec) == (Failure::Unsupported {
            provider: "xai"@,
            message: "realtime codec '"@ + codec.name() + "' (use pcm, mulaw, or alaw)"@,
        }),
{
}

/// Audio is appended to what came before; audio or an event that cannot be read breaks
/// the turn and is told as that.
pub proof fn law_unreadable_events(state: TurnState, bytes: Seq<u8>, e: Seq<char>)
    ensures
        state.after_audio(Ok(bytes)) == Advance::More(
            TurnState { audio: state.audio + bytes, ..state },
        ),
        state.after_audio(Err(e)) == Advance::Broken(
            Failure::Provider { provider: "xai"@, message: "decoding realtime audio: "@ + e },
        ),
        state.after_reading(Err(e)) == Advance::Broken(
            Failure::Provider { provider: "xai"@, message: "decoding realtime event: "@ + e },
        ),
{
}

/// An error that does not say what it is about has a message all the same.
pub proof fn law_error_without_a_message(j: Json)
    requires
        j.text_within("error"@, "message"@) is None,
        j.text_at("message"@) is None,
    ensures
        error_message(j) == "realtime ws error"@,
{
}

} // verus!
