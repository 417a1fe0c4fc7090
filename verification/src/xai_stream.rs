//! Streaming sessions of the xAI service over a WebSocket:
//!
//! * Speech-to-text: `/v1/stt` (binary PCM frames in, JSON transcript events
//!   out).
//! * Text-to-speech: `/v1/tts` (`text.delta`/`text.done` in, base64
//!   `audio.delta` out).

use crate::decimal::Decimal;
use crate::domain::SpeechRequest;
use crate::encoding;
use crate::error::{CoreError, CoreResult, Failure};
use crate::http;
use crate::json;
use crate::json::Json;
use crate::ports::{
    AudioEvent, AudioEventView, StreamTranscribeRequest, TranscriptEvent, TranscriptEventView,
};
use crate::text;
use crate::xai;
use crate::xai::{SttWord, SttWordView, XaiProvider};
use crate::xai_timestamps;
use vstd::prelude::*;

verus! {

/// An event of a streaming session.
#[derive(Debug, Clone)]
pub struct WsEvent {
    pub kind: String,
    pub text: Option<String>,
    pub words: Option<Vec<SttWord>>,
    pub is_final: Option<bool>,
    pub speech_final: Option<bool>,
    pub duration: Option<Decimal>,
    pub audio: Option<String>,
    pub message: Option<String>,
}

impl WsEvent {
    pub open spec fn spec_text(self) -> Seq<char> {
        text::or(self.text.deep_view(), Seq::empty())
    }

    pub open spec fn spec_words(self) -> Seq<SttWordView> {
        match self.words {
            Some(w) => w.deep_view(),
            None => Seq::empty(),
        }
    }
}

/// A truth that counts as false where it is not given.
pub open spec fn or_false(b: Option<bool>) -> bool {
    b == Some(true)
}

/// The failure that an error event of a session stands for.
pub open spec fn session_failure(message: Option<Seq<char>>) -> Failure {
    xai_timestamps::xai_failure(text::or(message, "ws error"@))
}

/// The failure to read an event.
pub open spec fn unreadable(e: Seq<char>) -> Failure {
    xai_timestamps::xai_failure("decoding ws event: "@ + e)
}

fn session_error(message: &Option<String>) -> (r: CoreError)
    ensures
        r.deep_view() == session_failure(message.deep_view()),
{
    CoreError::Provider { provider: "xai".to_owned(), message: text::text_or(message, "ws error") }
}

fn unreadable_event(e: &str) -> (r: CoreError)
    ensures
        r.deep_view() == unreadable(e@),
{
    http::provider_error("xai", "decoding ws event: ", e)
}

/// A failure of the connection: while it `what`.
pub fn connection_error(what: &str, e: &str) -> (r: CoreError)
    ensures
        r.deep_view() == Failure::Network(what@ + ": "@ + e@),
{
    let mut m = what.to_owned();
    m.append(": ");
    m.append(e);
    CoreError::Network(m)
}

// ---------------------------------------------------------------------------
// Streaming speech-to-text
// ---------------------------------------------------------------------------

/// The query of the key terms.
pub open spec fn keyterm_query(terms: Seq<Seq<char>>) -> Seq<char>
    decreases terms.len(),
{
    if terms.len() == 0 {
        Seq::empty()
    } else {
        keyterm_query(terms.drop_last()) + "&keyterm="@ + encoding::percent_encoded(terms.last())
    }
}

/// `part` where it is wanted.
pub open spec fn only_if(wanted: bool, part: Seq<char>) -> Seq<char> {
    if wanted {
        part
    } else {
        Seq::empty()
    }
}

/// The address of a streaming speech-to-text session.
pub open spec fn stt_url(ws_url: Seq<char>, request: StreamTranscribeRequest) -> Seq<char> {
    ws_url + "/v1/stt?sample_rate="@ + text::decimal(request.sample_rate as nat)
        + "&encoding=pcm"@ + only_if(request.interim_results, "&interim_results=true"@) + only_if(
        request.smart_turn,
        "&smart_turn=true"@,
    ) + (match request.smart_turn_timeout_ms {
        Some(ms) => "&smart_turn_timeout_ms="@ + text::decimal(ms as nat),
        None => Seq::empty(),
    }) + (match request.language {
        Some(l) => "&language="@ + encoding::percent_encoded(crate::domain::primary_subtag(l.0@)),
        None => Seq::empty(),
    }) + only_if(request.diarize, "&diarize=true"@) + keyterm_query(request.keyterms.deep_view())
}

/// The message that ends the audio of a session.
pub fn audio_done_message() -> (r: &'static str)
    ensures
        r@ == "{\"type\":\"audio.done\"}"@,
{
    "{\"type\":\"audio.done\"}"
}

fn push_keyterm_query(url: &mut String, terms: &Vec<String>)
    ensures
        final(url)@ == old(url)@ + keyterm_query(terms.deep_view()),
{
    let mut i: usize = 0;
    let ghost before = url@;
    assert(url@ =~= before + keyterm_query(terms.deep_view().take(0)));
    while i < terms.len()
        invariant
            i <= terms@.len(),
            url@ == before + keyterm_query(terms.deep_view().take(i as int)),
        decreases terms@.len() - i,
    {
        assert(terms.deep_view().take(i + 1).drop_last() =~= terms.deep_view().take(i as int));
        url.append("&keyterm=");
        url.append(&encoding::url_encode(&terms[i]));
        assert(url@ =~= before + keyterm_query(terms.deep_view().take(i + 1)));
        i = i + 1;
    }
    assert(terms.deep_view().take(i as int) =~= terms.deep_view());
}

impl XaiProvider {
    /// The address of a streaming speech-to-text session.
    pub fn stream_transcribe(&self, request: &StreamTranscribeRequest) -> (r: String)
        ensures
            r@ == stt_url(self.settings.ws_url@, *request),
    {
        let mut url = self.settings.ws_url.clone();
        url.append("/v1/stt?sample_rate=");
        url.append(&text::decimal_text(request.sample_rate as u128));
        url.append("&encoding=pcm");
        let ghost u0 = url@;
        if request.interim_results {
            url.append("&interim_results=true");
        }
        assert(url@ =~= u0 + only_if(request.interim_results, "&interim_results=true"@));
        let ghost u1 = url@;
        if request.smart_turn {
            url.append("&smart_turn=true");
        }
        assert(url@ =~= u1 + only_if(request.smart_turn, "&smart_turn=true"@));
        let ghost u2 = url@;
        if let Some(ms) = request.smart_turn_timeout_ms {
            url.append("&smart_turn_timeout_ms=");
            url.append(&text::decimal_text(ms as u128));
        }
        assert(url@ =~= u2 + (match request.smart_turn_timeout_ms {
            Some(ms) => "&smart_turn_timeout_ms="@ + text::decimal(ms as nat),
            None => Seq::empty(),
        }));
        let ghost u3 = url@;
        if let Some(language) = &request.language {
            url.append("&language=");
            url.append(&encoding::url_encode(&language.primary()));
        }
        assert(url@ =~= u3 + (match request.language {
            Some(l) => "&language="@ + encoding::percent_encoded(
                crate::domain::primary_subtag(l.0@),
            ),
            None => Seq::empty(),
        }));
        let ghost u4 = url@;
        if request.diarize {
            url.append("&diarize=true");
        }
        assert(url@ =~= u4 + only_if(request.diarize, "&diarize=true"@));
        push_keyterm_query(&mut url, &request.keyterms);
        url
    }
}

/// Whether a session takes audio after an event: it does once the transcript
/// has been created, and not before.
pub open spec fn is_ready(event: Result<WsEvent, String>) -> Result<bool, Failure> {
    match event {
        Ok(e) => if e.kind@ == "transcript.created"@ {
            Ok(true)
        } else if e.kind@ == "error"@ {
            Err(session_failure(e.message.deep_view()))
        } else {
            Ok(false)
        },
        Err(m) => Err(unreadable(m@)),
    }
}

/// The server signals readiness before it will accept audio: whether this
/// event is that signal.
pub fn session_ready(event: &Result<WsEvent, String>) -> (r: CoreResult<bool>)
    ensures
        crate::error::outcome(r) == is_ready(*event),
{
    match event {
        Ok(e) => if text::same(&e.kind, "transcript.created") {
            Ok(true)
        } else if text::same(&e.kind, "error") {
            Err(session_error(&e.message))
        } else {
            Ok(false)
        },
        Err(m) => Err(unreadable_event(m)),
    }
}

/// The error of a session that is closed before it is ready.
pub fn closed_before_ready() -> (r: CoreError)
    ensures
        r.deep_view() == Failure::Network("websocket closed before transcript.created"@),
{
    CoreError::Network("websocket closed before transcript.created".to_owned())
}

/// What an event of a running speech-to-text session brings, if anything.
pub open spec fn transcript_step(event: Result<WsEvent, String>) -> Option<
    Result<TranscriptEventView, Failure>,
> {
    match event {
        Ok(e) => if e.kind@ == "transcript.partial"@ {
            Some(
                Ok(
                    TranscriptEventView::Partial {
                        text: e.spec_text(),
                        words: xai::mapped(e.spec_words()),
                        is_final: or_false(e.is_final),
                        speech_final: or_false(e.speech_final),
                    },
                ),
            )
        } else if e.kind@ == "transcript.done"@ {
            Some(
                Ok(
                    TranscriptEventView::Done(
                        xai::transcript_of(e.spec_text(), None, e.duration, e.spec_words()),
                    ),
                ),
            )
        } else if e.kind@ == "error"@ {
            Some(Err(session_failure(e.message.deep_view())))
        } else {
            None
        },
        Err(m) => Some(Err(unreadable(m@))),
    }
}

/// Whether the session ends with an event: it does with the final transcript,
/// and not with an error.
pub open spec fn ends_transcript(event: Result<WsEvent, String>) -> bool {
    transcript_step(event) matches Some(Ok(TranscriptEventView::Done(_)))
}

fn event_text(event: &WsEvent) -> (r: String)
    ensures
        r@ == event.spec_text(),
{
    match &event.text {
        Some(t) => t.clone(),
        None => String::new(),
    }
}

/// What an event of a running speech-to-text session brings, if anything, and
/// whether the session ends with it.
pub fn transcript_event(event: &Result<WsEvent, String>) -> (r: (
    Option<CoreResult<TranscriptEvent>>,
    bool,
))
    ensures
        match r.0 {
            Some(x) => transcript_step(*event) == Some(crate::error::outcome(x)),
            None => transcript_step(*event) is None,
        },
        r.1 == ends_transcript(*event),
{
    let step = transcript_emitted(event);
    let last = matches!(&step, Some(Ok(TranscriptEvent::Done(_))));
    (step, last)
}

fn transcript_emitted(event: &Result<WsEvent, String>) -> (r: Option<CoreResult<TranscriptEvent>>)
    ensures
        match r {
            Some(x) => transcript_step(*event) == Some(crate::error::outcome(x)),
            None => transcript_step(*event) is None,
        },
{
    match event {
        Ok(e) => {
            let none: Vec<SttWord> = Vec::new();
            assert(none.deep_view() =~= Seq::empty());
            let words = match &e.words {
                Some(w) => w,
                None => &none,
            };
            assert(words.deep_view() == e.spec_words());
            if text::same(&e.kind, "transcript.partial") {
                Some(
                    Ok(
                        TranscriptEvent::Partial {
                            text: event_text(e),
                            words: xai::map_words(words),
                            is_final: matches!(e.is_final, Some(true)),
                            speech_final: matches!(e.speech_final, Some(true)),
                        },
                    ),
                )
            } else if text::same(&e.kind, "transcript.done") {
                Some(
                    Ok(
                        TranscriptEvent::Done(
                            xai::make_transcript(event_text(e), None, e.duration, words),
                        ),
                    ),
                )
            } else if text::same(&e.kind, "error") {
                Some(Err(session_error(&e.message)))
            } else {
                None
            }
        },
        Err(m) => Some(Err(unreadable_event(m))),
    }
}

// ---------------------------------------------------------------------------
// Streaming text-to-speech
// ---------------------------------------------------------------------------

/// The address of a streaming text-to-speech session.
pub open spec fn tts_url(
    ws_url: Seq<char>,
    request: SpeechRequest,
    default_voice: Seq<char>,
) -> Seq<char> {
    ws_url + "/v1/tts?voice="@ + encoding::percent_encoded(
        text::or(request.voice.deep_view(), default_voice),
    ) + "&language="@ + encoding::percent_encoded(xai::language_or_auto(request)) + "&codec="@
        + request.codec.name() + "&sample_rate="@ + text::decimal(
        xai::rate_or_default(request.sample_rate) as nat,
    ) + (match request.bit_rate {
        Some(n) => "&bit_rate="@ + text::decimal(n as nat),
        None => Seq::empty(),
    }) + (match request.optimize_streaming_latency {
        Some(n) => "&optimize_streaming_latency="@ + text::decimal(n as nat),
        None => Seq::empty(),
    })
}

/// The message that feeds the text of a session.
pub open spec fn text_delta(words: Seq<char>) -> Json {
    Json::empty().with("type"@, Json::Text("text.delta"@)).with("delta"@, Json::Text(words))
}

/// What opens a text-to-speech session: the address to connect to and the
/// messages to send, in order.
#[derive(Debug)]
pub struct SpeechOpening {
    pub url: String,
    pub messages: Vec<String>,
}

impl XaiProvider {
    /// Opens a streaming text-to-speech session, or refuses a codec that the
    /// service cannot send.
    pub fn stream_synthesize(&self, request: &SpeechRequest) -> (r: CoreResult<SpeechOpening>)
        ensures
            match r {
                Ok(o) => {
                    &&& xai::can_send(request.codec)
                    &&& o.url@ == tts_url(
                        self.settings.ws_url@,
                        *request,
                        self.settings.tts_voice@,
                    )
                    &&& o.messages.deep_view() == seq![
                        json::json_written(text_delta(request.text@)),
                        "{\"type\":\"text.done\"}"@,
                    ]
                },
                Err(e) => !xai::can_send(request.codec) && e.deep_view() == xai::codec_refusal(
                    request.codec,
                ),
            },
    {
        let (codec, rate) = match xai::codec_fields(request.codec, request.sample_rate) {
            Ok(f) => f,
            Err(e) => {
                return Err(e);
            },
        };
        let mut url = self.settings.ws_url.clone();
        url.append("/v1/tts?voice=");
        url.append(
            &encoding::url_encode(&text::text_or(&request.voice, &self.settings.tts_voice)),
        );
        url.append("&language=");
        url.append(&encoding::url_encode(xai::language_code(request)));
        url.append("&codec=");
        url.append(&codec);
        url.append("&sample_rate=");
        url.append(&text::decimal_text(rate as u128));
        let ghost u0 = url@;
        if let Some(n) = request.bit_rate {
            url.append("&bit_rate=");
            url.append(&text::decimal_text(n as u128));
        }
        assert(url@ =~= u0 + (match request.bit_rate {
            Some(n) => "&bit_rate="@ + text::decimal(n as nat),
            None => Seq::empty(),
        }));
        let ghost u1 = url@;
        if let Some(n) = request.optimize_streaming_latency {
            url.append("&optimize_streaming_latency=");
            url.append(&text::decimal_text(n as u128));
        }
        assert(url@ =~= u1 + (match request.optimize_streaming_latency {
            Some(n) => "&optimize_streaming_latency="@ + text::decimal(n as nat),
            None => Seq::empty(),
        }));
        let mut delta = json::object();
        json::put_text(&mut delta, "type", "text.delta");
        json::put_text(&mut delta, "delta", &request.text);
        let mut messages: Vec<String> = Vec::new();
        messages.push(json::write(&delta));
        messages.push("{\"type\":\"text.done\"}".to_owned());
        assert(messages.deep_view() =~= seq![
            json::json_written(text_delta(request.text@)),
            "{\"type\":\"text.done\"}"@,
        ]);
        Ok(SpeechOpening { url, messages })
    }
}

/// The audio of an event, given what decoding it brought.
pub open spec fn chunk_of(audio: Result<Seq<u8>, Seq<char>>) -> Result<AudioEventView, Failure> {
    match audio {
        Ok(b) => Ok(AudioEventView::Chunk(b)),
        Err(e) => Err(xai_timestamps::xai_failure("decoding audio chunk: "@ + e)),
    }
}

pub fn audio_chunk(audio: Result<Vec<u8>, String>) -> (r: CoreResult<AudioEvent>)
    ensures
        crate::error::outcome(r) == chunk_of(encoding::decoding(audio)),
{
    match audio {
        Ok(b) => Ok(AudioEvent::Chunk(b)),
        Err(e) => Err(http::provider_error("xai", "decoding audio chunk: ", &e)),
    }
}

/// What an event of a text-to-speech session brings, if anything.
pub open spec fn audio_step(event: Result<WsEvent, String>) -> Option<
    Result<AudioEventView, Failure>,
> {
    match event {
        Ok(e) => if e.kind@ == "audio.delta"@ {
            Some(chunk_of(encoding::base64_decoded(text::or(e.audio.deep_view(), Seq::empty()))))
        } else if e.kind@ == "audio.done"@ {
            Some(Ok(AudioEventView::Done))
        } else if e.kind@ == "error"@ {
            Some(Err(session_failure(e.message.deep_view())))
        } else {
            None
        },
        Err(m) => Some(Err(unreadable(m@))),
    }
}

/// Whether the session ends with an event.
pub open spec fn ends_audio(event: Result<WsEvent, String>) -> bool {
    audio_step(event) matches Some(Ok(AudioEventView::Done))
}

/// What an event of a text-to-speech session brings, if anything, and whether
/// the session ends with it.
pub fn audio_event(event: &Result<WsEvent, String>) -> (r: (Option<CoreResult<AudioEvent>>, bool))
    ensures
        match r.0 {
            Some(x) => audio_step(*event) == Some(crate::error::outcome(x)),
            None => audio_step(*event) is None,
        },
        r.1 == ends_audio(*event),
{
    let step = audio_emitted(event);
    let last = matches!(&step, Some(Ok(AudioEvent::Done)));
    (step, last)
}

fn audio_emitted(event: &Result<WsEvent, String>) -> (r: Option<CoreResult<AudioEvent>>)
    ensures
        match r {
            Some(x) => audio_step(*event) == Some(crate::error::outcome(x)),
            None => audio_step(*event) is None,
        },
{
    match event {
        Ok(e) => if text::same(&e.kind, "audio.delta") {
            let empty = String::new();
            let encoded = match &e.audio {
                Some(s) => s,
                None => &empty,
            };
            assert(encoded@ =~= text::or(e.audio.deep_view(), Seq::empty()));
            Some(audio_chunk(encoding::base64_decode(encoded)))
        } else if text::same(&e.kind, "audio.done") {
            Some(Ok(AudioEvent::Done))
        } else if text::same(&e.kind, "error") {
            Some(Err(session_error(&e.message)))
        } else {
            None
        },
        Err(m) => Some(Err(unreadable_event(m))),
    }
}

// ---------------------------------------------------------------------------
// Laws of a session
// ---------------------------------------------------------------------------

/// What a speech-to-text session has brought after events, taken from first to
/// last, and whether it has ended.
pub open spec fn transcript_run(events: Seq<Result<WsEvent, String>>) -> (
    Seq<Result<TranscriptEventView, Failure>>,
    bool,
)
    decreases events.len(),
{
    if events.len() == 0 {
        (Seq::empty(), false)
    } else {
        let (brought, ended) = transcript_run(events.drop_last());
        if ended {
            (brought, true)
        } else {
            match transcript_step(events.last()) {
                Some(x) => (brought.push(x), ends_transcript(events.last())),
                None => (brought, false),
            }
        }
    }
}

/// What a text-to-speech session has brought after events, taken from first to
/// last, and whether it has ended.
pub open spec fn audio_run(events: Seq<Result<WsEvent, String>>) -> (
    Seq<Result<AudioEventView, Failure>>,
    bool,
)
    decreases events.len(),
{
    if events.len() == 0 {
        (Seq::empty(), false)
    } else {
        let (brought, ended) = audio_run(events.drop_last());
        if ended {
            (brought, true)
        } else {
            match audio_step(events.last()) {
                Some(x) => (brought.push(x), ends_audio(events.last())),
                None => (brought, false),
            }
        }
    }
}

/// A speech-to-text session brings the final transcript at most once, as the
/// last thing it brings, and has ended exactly when it has brought it.
pub proof fn law_final_transcript_comes_last(events: Seq<Result<WsEvent, String>>)
    ensures
        ({
            let (brought, ended) = transcript_run(events);
            &&& ended <==> brought.len() > 0 && (brought.last() matches Ok(
                TranscriptEventView::Done(_),
            ))
            &&& forall|i: int|
                0 <= i < brought.len() - 1 ==> !((#[trigger] brought[i]) matches Ok(
                    TranscriptEventView::Done(_),
                ))
        }),
    decreases events.len(),
{
    if events.len() > 0 {
        law_final_transcript_comes_last(events.drop_last());
    }
}

/// A text-to-speech session brings its end at most once, as the last thing it
/// brings, and has ended exactly when it has brought it.
pub proof fn law_end_of_audio_comes_last(events: Seq<Result<WsEvent, String>>)
    ensures
        ({
            let (brought, ended) = audio_run(events);
            &&& ended <==> brought.len() > 0 && brought.last() == Ok::<AudioEventView, Failure>(
                AudioEventView::Done,
            )
            &&& forall|i: int|
                0 <= i < brought.len() - 1 ==> (#[trigger] brought[i]) != Ok::<
                    AudioEventView,
                    Failure,
                >(AudioEventView::Done)
        }),
    decreases events.len(),
{
    if events.len() > 0 {
        law_end_of_audio_comes_last(events.drop_last());
    }
}

// ---------------------------------------------------------------------------
// Laws of events
// ---------------------------------------------------------------------------

/// A partial transcript is brought as it came: its text, each word with its text and
/// its times, and whether it is final; what is not said is empty and false. The final
/// transcript holds the text, the words and the duration of its event.
pub proof fn law_transcript_events_are_brought(event: WsEvent)
    ensures
        event.kind@ == "transcript.partial"@ ==> match transcript_step(Ok(event)) {
            Some(Ok(TranscriptEventView::Partial { text, words, is_final, speech_final })) => {
                &&& event.text matches Some(s) ==> text == s@
                &&& event.text is None ==> text.len() == 0
                &&& is_final == (event.is_final == Some(true))
                &&& speech_final == (event.speech_final == Some(true))
                &&& event.words is None ==> words.len() == 0
                &&& event.words matches Some(list) ==> {
                    &&& words.len() == list@.len()
                    &&& forall|i: int|
                        0 <= i < words.len() ==> {
                            &&& (#[trigger] words[i]).text == list@[i].text@
                            &&& words[i].start == list@[i].start
                            &&& words[i].end == list@[i].end
                        }
                }
            },
            _ => false,
        },
        event.kind@ == "transcript.done"@ ==> match transcript_step(Ok(event)) {
            Some(Ok(TranscriptEventView::Done(t))) => {
                &&& event.text matches Some(s) ==> t.text == s@
                &&& event.text is None ==> t.text.len() == 0
                &&& t.duration == event.duration
                &&& t.provider == crate::provider::ProviderId::Xai
                &&& event.words is None ==> t.words.len() == 0
                &&& event.words matches Some(list) ==> {
                    &&& t.words.len() == list@.len()
                    &&& forall|i: int|
                        0 <= i < t.words.len() ==> {
                            &&& (#[trigger] t.words[i]).text == list@[i].text@
                            &&& t.words[i].start == list@[i].start
                            &&& t.words[i].end == list@[i].end
                        }
                }
            },
            _ => false,
        },
        event.kind@ == "error"@ ==> (transcript_step(Ok(event)) matches Some(Err(f)) && f
            is Provider),
        event.kind@ != "transcript.partial"@ && event.kind@ != "transcript.done"@ && event.kind@
            != "error"@ ==> transcript_step(Ok(event)) is None,
{
    lemma_kinds();
    if let Some(list) = event.words {
        assert forall|i: int| 0 <= i < list@.len() implies (#[trigger] list.deep_view()[i])
            == list@[i].deep_view() by {}
    }
}

/// Audio may be sent once the transcript has been created, and not before; an error
/// event ends the wait.
pub proof fn law_session_is_ready_once_created(event: WsEvent)
    ensures
        is_ready(Ok(event)) == Ok::<bool, Failure>(true) <==> event.kind@ == "transcript.created"@,
        is_ready(Ok(event)) is Err <==> event.kind@ == "error"@,
{
    lemma_kinds();
}

/// A piece of audio is brought decoded, the end as the end, an error as a failure, and
/// of any other event nothing.
pub proof fn law_audio_events_are_brought(event: WsEvent)
    ensures
        event.kind@ == "audio.delta"@ ==> match (
            audio_step(Ok(event)),
            encoding::base64_decoded(
                match event.audio {
                    Some(s) => s@,
                    None => Seq::empty(),
                },
            ),
        ) {
            (Some(Ok(AudioEventView::Chunk(b))), Ok(bytes)) => b == bytes,
            (Some(Err(f)), Err(_)) => f is Provider,
            _ => false,
        },
        event.kind@ == "audio.done"@ ==> audio_step(Ok(event)) == Some(
            Ok::<AudioEventView, Failure>(AudioEventView::Done),
        ),
        event.kind@ == "error"@ ==> (audio_step(Ok(event)) matches Some(Err(f)) && f is Provider),
        event.kind@ != "audio.delta"@ && event.kind@ != "audio.done"@ && event.kind@ != "error"@
            ==> audio_step(Ok(event)) is None,
{
    lemma_kinds();
}

proof fn lemma_kinds()
    ensures
        "transcript.partial"@ != "transcript.done"@,
        "transcript.partial"@ != "transcript.created"@,
        "transcript.partial"@ != "error"@,
        "transcript.partial"@ != "audio.delta"@,
        "transcript.partial"@ != "audio.done"@,
        "transcript.done"@ != "transcript.created"@,
        "transcript.done"@ != "error"@,
        "transcript.done"@ != "audio.delta"@,
        "transcript.done"@ != "audio.done"@,
        "transcript.created"@ != "error"@,
        "transcript.created"@ != "audio.delta"@,
        "transcript.created"@ != "audio.done"@,
        "error"@ != "audio.delta"@,
        "error"@ != "audio.done"@,
        "audio.delta"@ != "audio.done"@,
{
    reveal_strlit("transcript.partial");
    reveal_strlit("transcript.done");
    reveal_strlit("transcript.created");
    reveal_strlit("error");
    reveal_strlit("audio.delta");
    reveal_strlit("audio.done");
    assert("transcript.partial"@.len() == 18);
    assert("transcript.done"@.len() == 15);
    assert("transcript.created"@.len() == 18);
    assert("error"@.len() == 5);
    assert("audio.delta"@.len() == 11);
    assert("audio.done"@.len() == 10);
    assert("transcript.partial"@[11] == 'p');
    assert("transcript.created"@[11] == 'c');
}

// ---------------------------------------------------------------------------
// Laws of addresses
// ---------------------------------------------------------------------------

/// The parameters of a speech-to-text session, in order: a name and its value.
pub open spec fn stt_parameters(request: StreamTranscribeRequest) -> Seq<Seq<char>> {
    seq!["sample_rate="@ + text::decimal(request.sample_rate as nat), "encoding=pcm"@]
        + (if request.interim_results {
        seq!["interim_results=true"@]
    } else {
        Seq::empty()
    }) + (if request.smart_turn {
        seq!["smart_turn=true"@]
    } else {
        Seq::empty()
    }) + (match request.smart_turn_timeout_ms {
        Some(ms) => seq!["smart_turn_timeout_ms="@ + text::decimal(ms as nat)],
        None => Seq::empty(),
    }) + (match request.language {
        Some(l) => seq![
            "language="@ + encoding::percent_encoded(crate::domain::primary_subtag(l.0@)),
        ],
        None => Seq::empty(),
    }) + (if request.diarize {
        seq!["diarize=true"@]
    } else {
        Seq::empty()
    }) + request.keyterms.deep_view().map_values(
        |t: Seq<char>| "keyterm="@ + encoding::percent_encoded(t),
    )
}

proof fn lemma_join_more(parts: Seq<Seq<char>>, part: Seq<char>)
    requires
        parts.len() > 0,
    ensures
        text::join(parts.push(part), seq!['&']) == text::join(parts, seq!['&']) + seq!['&'] + part,
{
    assert(parts.push(part).drop_last() =~= parts);
}

proof fn lemma_keyterm_parameters(parts: Seq<Seq<char>>, terms: Seq<Seq<char>>)
    requires
        parts.len() > 0,
    ensures
        text::join(
            parts + terms.map_values(|t: Seq<char>| "keyterm="@ + encoding::percent_encoded(t)),
            seq!['&'],
        ) == text::join(parts, seq!['&']) + keyterm_query(terms),
    decreases terms.len(),
{
    let f = |t: Seq<char>| "keyterm="@ + encoding::percent_encoded(t);
    if terms.len() == 0 {
        assert(parts + terms.map_values(f) =~= parts);
        assert(text::join(parts, seq!['&']) + keyterm_query(terms) =~= text::join(
            parts,
            seq!['&'],
        ));
    } else {
        let head = terms.drop_last();
        lemma_keyterm_parameters(parts, head);
        assert(parts + terms.map_values(f) =~= (parts + head.map_values(f)).push(f(terms.last())));
        lemma_join_more(parts + head.map_values(f), f(terms.last()));
        reveal_strlit("&keyterm=");
        reveal_strlit("keyterm=");
        assert("&keyterm="@ =~= seq!['&'] + "keyterm="@);
        assert(text::join(parts + terms.map_values(f), seq!['&']) =~= text::join(parts, seq!['&'])
            + keyterm_query(terms));
    }
}

/// The address of a speech-to-text session says all that was asked, each as a
/// parameter after the path: the sample rate, the options that are on, the language
/// by its primary subtag and every key term, encoded, and nothing that was not asked.
pub proof fn law_stt_address_says_what_was_asked(
    ws_url: Seq<char>,
    request: StreamTranscribeRequest,
)
    ensures
        stt_url(ws_url, request) == ws_url + "/v1/stt?"@ + text::join(
            stt_parameters(request),
            seq!['&'],
        ),
{
    lemma_stt_letters();
    let a = "sample_rate="@ + text::decimal(request.sample_rate as nat);
    let p0 = seq![a, "encoding=pcm"@];
    assert(p0.drop_last() =~= seq![a]);
    let i = "interim_results=true"@;
    let p1 = p0 + (if request.interim_results {
        seq![i]
    } else {
        Seq::empty()
    });
    let s = "smart_turn=true"@;
    let p2 = p1 + (if request.smart_turn {
        seq![s]
    } else {
        Seq::empty()
    });
    let p3 = p2 + (match request.smart_turn_timeout_ms {
        Some(ms) => seq!["smart_turn_timeout_ms="@ + text::decimal(ms as nat)],
        None => Seq::empty(),
    });
    let p4 = p3 + (match request.language {
        Some(l) => seq![
            "language="@ + encoding::percent_encoded(crate::domain::primary_subtag(l.0@)),
        ],
        None => Seq::empty(),
    });
    let d = "diarize=true"@;
    let p5 = p4 + (if request.diarize {
        seq![d]
    } else {
        Seq::empty()
    });
    let amp = seq!['&'];
    let base = ws_url + "/v1/stt?"@;
    let rate = text::decimal(request.sample_rate as nat);
    lemma_first_two(ws_url, "/v1/stt?"@, "sample_rate="@, rate, amp, "encoding=pcm"@);
    assert(text::join(seq![a], amp) == a);
    assert(text::join(p0, amp) == a + amp + "encoding=pcm"@);
    let u0 = ws_url + "/v1/stt?sample_rate="@ + rate + "&encoding=pcm"@;
    assert(u0 == base + text::join(p0, amp));
    lemma_optional_parameter(p0, request.interim_results, i);
    lemma_optional_parameter(p1, request.smart_turn, s);
    match request.smart_turn_timeout_ms {
        Some(ms) => lemma_optional_parameter(
            p2,
            true,
            "smart_turn_timeout_ms="@ + text::decimal(ms as nat),
        ),
        None => lemma_optional_parameter(p2, false, Seq::empty()),
    }
    match request.language {
        Some(l) => lemma_optional_parameter(
            p3,
            true,
            "language="@ + encoding::percent_encoded(crate::domain::primary_subtag(l.0@)),
        ),
        None => lemma_optional_parameter(p3, false, Seq::empty()),
    }
    lemma_optional_parameter(p4, request.diarize, d);
    lemma_keyterm_parameters(p5, request.keyterms.deep_view());
    assert(stt_parameters(request) =~= p5 + request.keyterms.deep_view().map_values(
        |t: Seq<char>| "keyterm="@ + encoding::percent_encoded(t),
    ));
    let o1 = only_if(request.interim_results, "&interim_results=true"@);
    let o2 = only_if(request.smart_turn, "&smart_turn=true"@);
    let o3 = match request.smart_turn_timeout_ms {
        Some(ms) => "&smart_turn_timeout_ms="@ + text::decimal(ms as nat),
        None => Seq::empty(),
    };
    let o4 = match request.language {
        Some(l) => "&language="@ + encoding::percent_encoded(crate::domain::primary_subtag(l.0@)),
        None => Seq::empty(),
    };
    let o5 = only_if(request.diarize, "&diarize=true"@);
    let o6 = keyterm_query(request.keyterms.deep_view());
    if let Some(ms) = request.smart_turn_timeout_ms {
        lemma_grouped_left(amp, "smart_turn_timeout_ms="@, text::decimal(ms as nat));
    }
    if let Some(l) = request.language {
        lemma_grouped_left(
            amp,
            "language="@,
            encoding::percent_encoded(crate::domain::primary_subtag(l.0@)),
        );
    }
    assert(text::join(p1, amp) == text::join(p0, amp) + o1);
    assert(text::join(p2, amp) == text::join(p1, amp) + o2);
    assert(text::join(p3, amp) == text::join(p2, amp) + o3);
    assert(text::join(p4, amp) == text::join(p3, amp) + o4);
    assert(text::join(p5, amp) == text::join(p4, amp) + o5);
    lemma_grouped_left(base, text::join(p0, amp), o1);
    lemma_grouped_left(base, text::join(p1, amp), o2);
    lemma_grouped_left(base, text::join(p2, amp), o3);
    lemma_grouped_left(base, text::join(p3, amp), o4);
    lemma_grouped_left(base, text::join(p4, amp), o5);
    lemma_grouped_left(base, text::join(p5, amp), o6);
    assert(stt_url(ws_url, request) == u0 + o1 + o2 + o3 + o4 + o5 + o6);
}

proof fn lemma_grouped_left(a: Seq<char>, b: Seq<char>, c: Seq<char>)
    ensures
        (a + b) + c == a + (b + c),
{
    assert((a + b) + c =~= a + (b + c));
}

proof fn lemma_first_two(
    url: Seq<char>,
    path: Seq<char>,
    name: Seq<char>,
    value: Seq<char>,
    amp: Seq<char>,
    next: Seq<char>,
)
    ensures
        url + (path + name) + value + (amp + next) == url + path + ((name + value) + amp + next),
{
    assert(url + (path + name) + value + (amp + next) =~= url + path + ((name + value) + amp
        + next));
}

proof fn lemma_optional_parameter(parts: Seq<Seq<char>>, wanted: bool, part: Seq<char>)
    requires
        parts.len() > 0,
    ensures
        text::join(
            parts + (if wanted {
                seq![part]
            } else {
                Seq::empty()
            }),
            seq!['&'],
        ) == text::join(parts, seq!['&']) + (if wanted {
            seq!['&'] + part
        } else {
            Seq::empty()
        }),
{
    if wanted {
        lemma_join_more(parts, part);
        assert(parts + seq![part] =~= parts.push(part));
        assert(text::join(parts, seq!['&']) + seq!['&'] + part =~= text::join(parts, seq!['&']) + (
        seq!['&'] + part));
    } else {
        assert(parts + Seq::<Seq<char>>::empty() =~= parts);
        assert(text::join(parts, seq!['&']) + Seq::<char>::empty() =~= text::join(
            parts,
            seq!['&'],
        ));
    }
}

proof fn lemma_stt_letters()
    ensures
        "/v1/stt?sample_rate="@ == "/v1/stt?"@ + "sample_rate="@,
        "&encoding=pcm"@ == seq!['&'] + "encoding=pcm"@,
        "&interim_results=true"@ == seq!['&'] + "interim_results=true"@,
        "&smart_turn=true"@ == seq!['&'] + "smart_turn=true"@,
        "&smart_turn_timeout_ms="@ == seq!['&'] + "smart_turn_timeout_ms="@,
        "&language="@ == seq!['&'] + "language="@,
        "&diarize=true"@ == seq!['&'] + "diarize=true"@,
{
    reveal_strlit("/v1/stt?sample_rate=");
    reveal_strlit("/v1/stt?");
    reveal_strlit("sample_rate=");
    reveal_strlit("&encoding=pcm");
    reveal_strlit("encoding=pcm");
    reveal_strlit("&interim_results=true");
    reveal_strlit("interim_results=true");
    reveal_strlit("&smart_turn=true");
    reveal_strlit("smart_turn=true");
    reveal_strlit("&smart_turn_timeout_ms=");
    reveal_strlit("smart_turn_timeout_ms=");
    reveal_strlit("&language=");
    reveal_strlit("language=");
    reveal_strlit("&diarize=true");
    reveal_strlit("diarize=true");
    assert("/v1/stt?sample_rate="@ =~= "/v1/stt?"@ + "sample_rate="@);
    assert("&encoding=pcm"@ =~= seq!['&'] + "encoding=pcm"@);
    assert("&interim_results=true"@ =~= seq!['&'] + "interim_results=true"@);
    assert("&smart_turn=true"@ =~= seq!['&'] + "smart_turn=true"@);
    assert("&smart_turn_timeout_ms="@ =~= seq!['&'] + "smart_turn_timeout_ms="@);
    assert("&language="@ =~= seq!['&'] + "language="@);
    assert("&diarize=true"@ =~= seq!['&'] + "diarize=true"@);
}

/// The parameters of a text-to-speech session, in order: a name and its value.
pub open spec fn tts_parameters(request: SpeechRequest, default_voice: Seq<char>) -> Seq<Seq<char>> {
    seq![
        "voice="@ + encoding::percent_encoded(
            match request.voice {
                Some(v) => v@,
                None => default_voice,
            },
        ),
        "language="@ + encoding::percent_encoded(
            match request.language {
                Some(l) => l.0@,
                None => "auto"@,
            },
        ),
        "codec="@ + request.codec.name(),
        "sample_rate="@ + text::decimal(
            match request.sample_rate {
                Some(r) => r as nat,
                None => 24_000,
            },
        ),
    ] + (match request.bit_rate {
        Some(n) => seq!["bit_rate="@ + text::decimal(n as nat)],
        None => Seq::empty(),
    }) + (match request.optimize_streaming_latency {
        Some(n) => seq!["optimize_streaming_latency="@ + text::decimal(n as nat)],
        None => Seq::empty(),
    })
}

/// The address of a text-to-speech session says all that was asked, each as a
/// parameter after the path: the voice or the configured one, the language or `auto`,
/// the codec, the sample rate or 24 kHz, and the bit rate and the latency where they
/// are given.
pub proof fn law_tts_address_says_what_was_asked(
    ws_url: Seq<char>,
    request: SpeechRequest,
    default_voice: Seq<char>,
)
    ensures
        tts_url(ws_url, request, default_voice) == ws_url + "/v1/tts?"@ + text::join(
            tts_parameters(request, default_voice),
            seq!['&'],
        ),
{
    lemma_tts_letters();
    let voice = "voice="@ + encoding::percent_encoded(
        match request.voice {
            Some(v) => v@,
            None => default_voice,
        },
    );
    let language = "language="@ + encoding::percent_encoded(
        match request.language {
            Some(l) => l.0@,
            None => "auto"@,
        },
    );
    let codec = "codec="@ + request.codec.name();
    let rate = "sample_rate="@ + text::decimal(
        match request.sample_rate {
            Some(r) => r as nat,
            None => 24_000,
        },
    );
    let p0 = seq![voice];
    lemma_join_more(p0, language);
    lemma_join_more(p0.push(language), codec);
    lemma_join_more(p0.push(language).push(codec), rate);
    let p3 = seq![voice, language, codec, rate];
    assert(p3 =~= p0.push(language).push(codec).push(rate));
    let p4 = p3 + (match request.bit_rate {
        Some(n) => seq!["bit_rate="@ + text::decimal(n as nat)],
        None => Seq::empty(),
    });
    match request.bit_rate {
        Some(n) => lemma_optional_parameter(p3, true, "bit_rate="@ + text::decimal(n as nat)),
        None => lemma_optional_parameter(p3, false, Seq::empty()),
    }
    match request.optimize_streaming_latency {
        Some(n) => lemma_optional_parameter(
            p4,
            true,
            "optimize_streaming_latency="@ + text::decimal(n as nat),
        ),
        None => lemma_optional_parameter(p4, false, Seq::empty()),
    }
    let amp = seq!['&'];
    let base = ws_url + "/v1/tts?"@;
    let v = encoding::percent_encoded(text::or(request.voice.deep_view(), default_voice));
    let l = encoding::percent_encoded(xai::language_or_auto(request));
    let r = text::decimal(xai::rate_or_default(request.sample_rate) as nat);
    let o4 = match request.bit_rate {
        Some(n) => "&bit_rate="@ + text::decimal(n as nat),
        None => Seq::empty(),
    };
    let o5 = match request.optimize_streaming_latency {
        Some(n) => "&optimize_streaming_latency="@ + text::decimal(n as nat),
        None => Seq::empty(),
    };
    if let Some(n) = request.bit_rate {
        lemma_grouped_left(amp, "bit_rate="@, text::decimal(n as nat));
    }
    if let Some(n) = request.optimize_streaming_latency {
        lemma_grouped_left(amp, "optimize_streaming_latency="@, text::decimal(n as nat));
    }
    let p1 = p0.push(language);
    let p2 = p1.push(codec);
    let u0 = ws_url + "/v1/tts?voice="@ + v;
    assert(u0 =~= base + voice);
    let u1 = u0 + "&language="@ + l;
    let u2 = u1 + "&codec="@ + request.codec.name();
    let u3 = u2 + "&sample_rate="@ + r;
    lemma_next(base, text::join(p0, amp), amp, "language="@, l);
    lemma_next(base, text::join(p1, amp), amp, "codec="@, request.codec.name());
    lemma_next(base, text::join(p2, amp), amp, "sample_rate="@, r);
    assert(u3 == base + text::join(p3, amp));
    assert(text::join(p4, amp) == text::join(p3, amp) + o4);
    let p5 = p4 + (match request.optimize_streaming_latency {
        Some(n) => seq!["optimize_streaming_latency="@ + text::decimal(n as nat)],
        None => Seq::empty(),
    });
    assert(tts_parameters(request, default_voice) =~= p5);
    assert(text::join(p5, amp) == text::join(p4, amp) + o5);
    lemma_grouped_left(base, text::join(p3, amp), o4);
    lemma_grouped_left(base, text::join(p4, amp), o5);
    assert(tts_url(ws_url, request, default_voice) == u3 + o4 + o5);
}

proof fn lemma_next(
    base: Seq<char>,
    joined: Seq<char>,
    amp: Seq<char>,
    name: Seq<char>,
    value: Seq<char>,
)
    ensures
        (base + joined) + (amp + name) + value == base + (joined + amp + (name + value)),
{
    assert((base + joined) + (amp + name) + value =~= base + (joined + amp + (name + value)));
}

proof fn lemma_tts_letters()
    ensures
        "/v1/tts?voice="@ == "/v1/tts?"@ + "voice="@,
        "&language="@ == seq!['&'] + "language="@,
        "&codec="@ == seq!['&'] + "codec="@,
        "&sample_rate="@ == seq!['&'] + "sample_rate="@,
        "&bit_rate="@ == seq!['&'] + "bit_rate="@,
        "&optimize_streaming_latency="@ == seq!['&'] + "optimize_streaming_latency="@,
{
    reveal_strlit("/v1/tts?voice=");
    reveal_strlit("/v1/tts?");
    reveal_strlit("voice=");
    reveal_strlit("&language=");
    reveal_strlit("language=");
    reveal_strlit("&codec=");
    reveal_strlit("codec=");
    reveal_strlit("&sample_rate=");
    reveal_strlit("sample_rate=");
    reveal_strlit("&bit_rate=");
    reveal_strlit("bit_rate=");
    reveal_strlit("&optimize_streaming_latency=");
    reveal_strlit("optimize_streaming_latency=");
    assert("/v1/tts?voice="@ =~= "/v1/tts?"@ + "voice="@);
    assert("&language="@ =~= seq!['&'] + "language="@);
    assert("&codec="@ =~= seq!['&'] + "codec="@);
    assert("&sample_rate="@ =~= seq!['&'] + "sample_rate="@);
    assert("&bit_rate="@ =~= seq!['&'] + "bit_rate="@);
    assert("&optimize_streaming_latency="@ =~= seq!['&'] + "optimize_streaming_latency="@);
}

/// The message that feeds a session holds the whole text.
pub proof fn law_text_message(words: Seq<char>)
    ensures
        text_delta(words).text_at("type"@) == Some("text.delta"@),
        text_delta(words).text_at("delta"@) == Some(words),
{
    reveal_strlit("type");
    reveal_strlit("delta");
    assert("type"@.len() == 4 && "delta"@.len() == 5);
}

/// An error of a session is told as the service told it, and an event that cannot be
/// read as that.
pub proof fn law_failures_of_a_session(message: Option<Seq<char>>, e: Seq<char>)
    ensures
        session_failure(message) == (Failure::Provider {
            provider: "xai"@,
            message: match message {
                Some(m) => m,
                None => "ws error"@,
            },
        }),
        unreadable(e) == (Failure::Provider {
            provider: "xai"@,
            message: "decoding ws event: "@ + e,
        }),
{
}

/// A piece of audio is its bytes, or why they could not be decoded.
pub proof fn law_piece_of_audio(audio: Result<Seq<u8>, Seq<char>>)
    ensures
        match audio {
            Ok(b) => chunk_of(audio) == Ok::<AudioEventView, Failure>(AudioEventView::Chunk(b)),
            Err(e) => chunk_of(audio) == Err::<AudioEventView, Failure>(
                Failure::Provider { provider: "xai"@, message: "decoding audio chunk: "@ + e },
            ),
        },
{
}

} // verus!
