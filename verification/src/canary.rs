//! Local Canary 1B v2: NVIDIA's multilingual speech-to-text model, run on the
//! device. What it is asked and what its result means; inference itself is
//! performed elsewhere.

use crate::capabilities::{CapabilitiesView, ProviderCapabilities};
use crate::decimal::Decimal;
use crate::domain::{
    AudioSource, Segment, SegmentView, TranscribeRequest, Transcript, TranscriptView,
};
use crate::error::{CoreError, CoreResult, Failure};
use crate::ports::Provider;
use crate::provider::ProviderId;
use crate::text;
use vstd::prelude::*;

verus! {

#[derive(Debug, Clone)]
pub struct CanaryLocalProvider {
    pub model_dir: String,
}

impl Provider for CanaryLocalProvider {
    open spec fn identity(&self) -> ProviderId {
        ProviderId::LocalCanary
    }

    open spec fn abilities(&self) -> CapabilitiesView {
        CapabilitiesView {
            batch_stt: true,
            segment_timestamps: true,
            ..CapabilitiesView::none()
        }
    }

    fn id(&self) -> ProviderId {
        ProviderId::LocalCanary
    }

    fn capabilities(&self) -> ProviderCapabilities {
        let r = ProviderCapabilities {
            batch_stt: true,
            batch_tts: false,
            streaming_stt: false,
            streaming_tts: false,
            word_timestamps: false,
            segment_timestamps: true,
            diarization: false,
            multichannel: false,
            keyterms: false,
            prompt: false,
            max_upload_bytes: None,
            // Everything that can be decoded locally is accepted.
            stt_input_extensions: Vec::new(),
        };
        assert(r.deep_view().stt_input_extensions =~= Seq::empty());
        r
    }
}

/// What inference is asked: the file to decode, and the language.
#[derive(Debug)]
pub struct CanaryCall {
    pub input: String,
    pub language: Option<String>,
}

/// A segment as inference gives it.
#[derive(Debug, Clone)]
pub struct CanarySegment {
    pub start: Decimal,
    pub end: Decimal,
    pub text: String,
}

/// The language of a request by its primary subtag, where there is one.
pub open spec fn language_of(request: TranscribeRequest) -> Option<Seq<char>> {
    match request.language {
        Some(l) => Some(crate::domain::primary_subtag(l.0@)),
        None => None,
    }
}

/// The segments that say anything, trimmed.
pub open spec fn spoken(segments: Seq<CanarySegment>) -> Seq<SegmentView>
    decreases segments.len(),
{
    if segments.len() == 0 {
        Seq::empty()
    } else if text::is_blank(segments.last().text@) {
        spoken(segments.drop_last())
    } else {
        spoken(segments.drop_last()).push(
            SegmentView {
                start: segments.last().start,
                end: segments.last().end,
                text: text::trim(segments.last().text@),
                speaker: None,
                channel: None,
            },
        )
    }
}

fn map_segments(segments: &Vec<CanarySegment>) -> (out: Vec<Segment>)
    ensures
        out.deep_view() == spoken(segments@),
{
    let mut out: Vec<Segment> = Vec::new();
    let mut i: usize = 0;
    assert(out.deep_view() =~= spoken(segments@.take(0)));
    while i < segments.len()
        invariant
            i <= segments@.len(),
            out.deep_view() == spoken(segments@.take(i as int)),
        decreases segments@.len() - i,
    {
        assert(segments@.take(i + 1).drop_last() =~= segments@.take(i as int));
        let s = &segments[i];
        let t = text::trimmed(&s.text);
        if !t.is_empty() {
            let ghost before = out.deep_view();
            let segment = Segment::new(s.start, s.end, t);
            out.push(segment);
            assert(out.deep_view() =~= before.push(segment.deep_view()));
        }
        i = i + 1;
    }
    assert(segments@.take(i as int) =~= segments@);
    out
}

fn request_language(request: &TranscribeRequest) -> (r: Option<String>)
    ensures
        r.deep_view() == language_of(*request),
{
    match &request.language {
        Some(l) => Some(l.primary()),
        None => None,
    }
}

impl CanaryLocalProvider {
    pub fn new(model_dir: &str) -> (r: CanaryLocalProvider)
        ensures
            r.model_dir@ == model_dir@,
    {
        CanaryLocalProvider { model_dir: model_dir.to_owned() }
    }

    /// What inference is asked for a request. Only files can be transcribed.
    pub fn transcribe(&self, request: &TranscribeRequest) -> (r: CoreResult<CanaryCall>)
        ensures
            match (r, request.source) {
                (Ok(call), AudioSource::File(path)) => call.input@ == path@
                    && call.language.deep_view() == language_of(*request),
                (Err(e), AudioSource::Bytes { .. }) => e.deep_view() == (Failure::Unsupported {
                    provider: "local-canary"@,
                    message: "in-memory sources are not supported; pass a file"@,
                }),
                _ => false,
            },
    {
        match &request.source {
            AudioSource::File(path) => Ok(
                CanaryCall { input: path.clone(), language: request_language(request) },
            ),
            AudioSource::Bytes { .. } => Err(
                CoreError::Unsupported {
                    provider: "local-canary".to_owned(),
                    message: "in-memory sources are not supported; pass a file".to_owned(),
                },
            ),
        }
    }

    /// The transcript of a result of inference.
    pub fn transcript(
        &self,
        request: &TranscribeRequest,
        text: &str,
        segments: &Option<Vec<CanarySegment>>,
        duration: Option<Decimal>,
    ) -> (r: Transcript)
        ensures
            r.deep_view() == (TranscriptView {
                text: text::trim(text@),
                language: language_of(*request),
                duration,
                provider: ProviderId::LocalCanary,
                model: Some("canary-1b-v2"@),
                segments: match *segments {
                    Some(s) => spoken(s@),
                    None => Seq::empty(),
                },
                words: Seq::empty(),
            }),
    {
        let mut transcript = Transcript::new(ProviderId::LocalCanary, text::trimmed(text));
        transcript.model = Some("canary-1b-v2".to_owned());
        transcript.language = request_language(request);
        transcript.duration = duration;
        if let Some(s) = segments {
            transcript.segments = map_segments(s);
        }
        transcript
    }
}

// ---------------------------------------------------------------------------
// Laws
// ---------------------------------------------------------------------------

/// Whether a segment of inference says anything.
pub open spec fn says_something() -> spec_fn(CanarySegment) -> bool {
    |s: CanarySegment| !text::is_white(s.text@)
}

/// The segments of a transcript are those of inference that say anything, in order,
/// each with its times and its text trimmed.
pub proof fn law_segments_are_those_of_inference(segments: Seq<CanarySegment>)
    ensures
        spoken(segments).len() == segments.filter(says_something()).len(),
        forall|i: int|
            0 <= i < spoken(segments).len() ==> {
                let s = #[trigger] spoken(segments)[i];
                let given = segments.filter(says_something())[i];
                &&& s.start == given.start
                &&& s.end == given.end
                &&& s.text == text::trim(given.text@)
                &&& s.speaker is None
                &&& s.channel is None
            },
    decreases segments.len(),
{
    reveal(Seq::filter);
    if segments.len() > 0 {
        let before = segments.drop_last();
        law_segments_are_those_of_inference(before);
        text::law_blank_text(segments.last().text@);
        assert forall|i: int| 0 <= i < spoken(segments).len() implies {
            let s = #[trigger] spoken(segments)[i];
            let given = segments.filter(says_something())[i];
            &&& s.start == given.start
            &&& s.end == given.end
            &&& s.text == text::trim(given.text@)
            &&& s.speaker is None
            &&& s.channel is None
        } by {
            if i < spoken(before).len() {
                assert(spoken(segments)[i] == spoken(before)[i]);
                assert(segments.filter(says_something())[i] == before.filter(
                    says_something(),
                )[i]);
            }
        }
    }
}

/// The language that inference is asked for is the primary subtag of the one that was
/// asked for, and none where none was.
pub proof fn law_language(request: TranscribeRequest)
    ensures
        match (request.language, language_of(request)) {
            (Some(l), Some(s)) => s == crate::domain::primary_subtag(l.0@),
            (None, None) => true,
            _ => false,
        },
{
}

/// The local engine transcribes files of any kind and size, and gives segments, but
/// neither words, speakers, key terms nor prompts.
pub proof fn law_abilities(p: CanaryLocalProvider)
    ensures
        p.identity() == ProviderId::LocalCanary,
        p.abilities().batch_stt && p.abilities().segment_timestamps,
        !p.abilities().batch_tts && !p.abilities().streaming_stt && !p.abilities().streaming_tts,
        !p.abilities().word_timestamps && !p.abilities().diarization && !p.abilities().multichannel
            && !p.abilities().keyterms && !p.abilities().prompt,
        p.abilities().max_upload_bytes is None,
        p.abilities().stt_input_extensions.len() == 0,
{
}

} // verus!
