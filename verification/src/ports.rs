//! What adapters have in common: identity and capabilities, the events of
//! streaming sessions, and the shapes of raw audio.

use crate::capabilities::{CapabilitiesView, ProviderCapabilities};
use crate::domain::{Language, Transcript, TranscriptView, Word, WordView};
use crate::provider::ProviderId;
use vstd::prelude::*;

verus! {

/// Identity and advertised capabilities. Implemented by every adapter.
pub trait Provider {
    /// Which provider this is.
    spec fn identity(&self) -> ProviderId;

    /// What this provider can do.
    spec fn abilities(&self) -> CapabilitiesView;

    fn id(&self) -> (r: ProviderId)
        ensures
            r == self.identity(),
    ;

    fn capabilities(&self) -> (r: ProviderCapabilities)
        ensures
            r.deep_view() == self.abilities(),
    ;
}

/// An incremental transcription event from a streaming session.
#[derive(Debug, Clone)]
pub enum TranscriptEvent {
    /// Interim or chunk-final text. `is_final` locks the text; `speech_final`
    /// marks the end of an utterance.
    Partial { text: String, words: Vec<Word>, is_final: bool, speech_final: bool },
    /// The stitched, final transcript. The stream ends after this.
    Done(Transcript),
}

/// What a [`TranscriptEvent`] says.
pub enum TranscriptEventView {
    Partial { text: Seq<char>, words: Seq<WordView>, is_final: bool, speech_final: bool },
    Done(TranscriptView),
}

impl DeepView for TranscriptEvent {
    type V = TranscriptEventView;

    open spec fn deep_view(&self) -> TranscriptEventView {
        match *self {
            TranscriptEvent::Partial { text, words, is_final, speech_final } =>
                TranscriptEventView::Partial {
                text: text@,
                words: words.deep_view(),
                is_final,
                speech_final,
            },
            TranscriptEvent::Done(t) => TranscriptEventView::Done(t.deep_view()),
        }
    }
}

/// Raw PCM audio pushed into a streaming speech-to-text session.
#[derive(Debug, Clone)]
pub struct PcmChunk(pub Vec<u8>);

/// Streaming speech-to-text session parameters (raw PCM in, transcript events
/// out).
#[derive(Debug, Clone)]
pub struct StreamTranscribeRequest {
    pub sample_rate: u32,
    pub language: Option<Language>,
    pub diarize: bool,
    pub keyterms: Vec<String>,
    pub interim_results: bool,
    pub smart_turn: bool,
    pub smart_turn_timeout_ms: Option<u64>,
}

/// An audio chunk from a streaming text-to-speech session.
#[derive(Debug, Clone)]
pub enum AudioEvent {
    Chunk(Vec<u8>),
    Done,
}

/// What an [`AudioEvent`] holds.
pub enum AudioEventView {
    Chunk(Seq<u8>),
    Done,
}

impl DeepView for AudioEvent {
    type V = AudioEventView;

    open spec fn deep_view(&self) -> AudioEventView {
        match *self {
            AudioEvent::Chunk(b) => AudioEventView::Chunk(b@),
            AudioEvent::Done => AudioEventView::Done,
        }
    }
}

/// Target PCM/WAV spec for local decode.
#[derive(Debug, Clone, Copy, PartialEq, Eq, Structural)]
pub struct AudioSpec {
    pub sample_rate: u32,
    pub channels: u16,
}

impl AudioSpec {
    /// The spec every local speech-to-text engine consumes: 16 kHz mono.
    pub fn stt_16k_mono() -> (r: AudioSpec)
        ensures
            r == (AudioSpec { sample_rate: 16_000, channels: 1 }),
    {
        AudioSpec { sample_rate: 16_000, channels: 1 }
    }
}

/// The views of events show what they hold as it is.
pub proof fn law_views_of_events(t: TranscriptEvent, a: AudioEvent)
    ensures
        match (t, t.deep_view()) {
            (
                TranscriptEvent::Partial { text, words, is_final, speech_final },
                TranscriptEventView::Partial {
                    text: s,
                    words: w,
                    is_final: f,
                    speech_final: e,
                },
            ) => s == text@ && w == words.deep_view() && f == is_final && e == speech_final,
            (TranscriptEvent::Done(d), TranscriptEventView::Done(v)) => v == d.deep_view(),
            _ => false,
        },
        match (a, a.deep_view()) {
            (AudioEvent::Chunk(b), AudioEventView::Chunk(c)) => c == b@,
            (AudioEvent::Done, AudioEventView::Done) => true,
            _ => false,
        },
{
}

} // verus!
