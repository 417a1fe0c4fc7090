//! Use-cases on top of the adapters: provider selection, capability
//! validation, automatic transcoding, and `auto` fallback chains. Adapters are
//! registered in preference order; whoever runs them performs the steps that
//! the engine asks for and hands back what came of them.

use crate::capabilities::{CapabilitiesView, ProviderCapabilities};
use crate::domain::{
    AudioOutput, AudioOutputView, AudioSource, RequestView, SourceView, SpeechRequest,
    TranscribeRequest, Transcript, TranscriptView,
};
use crate::error::{CoreError, CoreResult, Failure};
use crate::path::Style;
use crate::provider::ProviderId;
use crate::text;
use vstd::prelude::*;

verus! {

/// An adapter that can be asked: which provider it is and what it can do.
#[derive(Debug, Clone)]
pub struct Registration {
    pub id: ProviderId,
    pub capabilities: ProviderCapabilities,
}

/// What a [`Registration`] says.
pub struct RegistrationView {
    pub id: ProviderId,
    pub capabilities: CapabilitiesView,
}

impl DeepView for Registration {
    type V = RegistrationView;

    open spec fn deep_view(&self) -> RegistrationView {
        RegistrationView { id: self.id, capabilities: self.capabilities.deep_view() }
    }
}

/// The registered adapters, in preference order.
#[derive(Debug)]
pub struct Engine {
    pub stt: Vec<Registration>,
    pub tts: Vec<Registration>,
    pub streaming_stt: Vec<Registration>,
    pub streaming_tts: Vec<Registration>,
    /// Whether audio can be decoded locally.
    pub decoder: bool,
    /// How the paths of sources are written.
    pub style: Style,
}

/// What an [`Engine`] holds.
pub struct EngineView {
    pub stt: Seq<RegistrationView>,
    pub tts: Seq<RegistrationView>,
    pub streaming_stt: Seq<RegistrationView>,
    pub streaming_tts: Seq<RegistrationView>,
    pub decoder: bool,
    pub style: Style,
}

impl DeepView for Engine {
    type V = EngineView;

    open spec fn deep_view(&self) -> EngineView {
        EngineView {
            stt: self.stt.deep_view(),
            tts: self.tts.deep_view(),
            streaming_stt: self.streaming_stt.deep_view(),
            streaming_tts: self.streaming_tts.deep_view(),
            decoder: self.decoder,
            style: self.style,
        }
    }
}

impl EngineView {
    /// No adapter registered.
    pub open spec fn empty() -> EngineView {
        EngineView {
            stt: Seq::empty(),
            tts: Seq::empty(),
            streaming_stt: Seq::empty(),
            streaming_tts: Seq::empty(),
            decoder: false,
            style: Style::Unix,
        }
    }
}

// ---------------------------------------------------------------------------
// Selection
// ---------------------------------------------------------------------------

/// Whether the registration at `i` is the first one of provider `id`.
pub open spec fn is_first_of(providers: Seq<RegistrationView>, id: ProviderId, i: int) -> bool {
    0 <= i < providers.len() && providers[i].id == id && forall|j: int|
        0 <= j < i ==> (#[trigger] providers[j]).id != id
}

/// Whether provider `id` is registered.
pub open spec fn is_registered(providers: Seq<RegistrationView>, id: ProviderId) -> bool {
    exists|i: int| is_first_of(providers, id, i)
}

/// The failure to find provider `id` among those for `what`.
pub open spec fn unregistered(id: ProviderId, what: Seq<char>) -> Failure {
    Failure::NotConfigured {
        provider: id.name(),
        message: "provider is not configured for "@ + what + " (missing API key or model?)"@,
    }
}

fn not_registered(id: ProviderId, what: &str) -> (r: CoreError)
    ensures
        r.deep_view() == unregistered(id, what@),
{
    let mut message = "provider is not configured for ".to_owned();
    message.append(what);
    message.append(" (missing API key or model?)");
    CoreError::NotConfigured { provider: id.as_str().to_owned(), message }
}

fn find(providers: &Vec<Registration>, id: ProviderId) -> (r: Option<usize>)
    ensures
        match r {
            Some(i) => is_first_of(providers.deep_view(), id, i as int),
            None => !is_registered(providers.deep_view(), id),
        },
{
    let mut i: usize = 0;
    while i < providers.len()
        invariant
            i <= providers@.len(),
            forall|j: int| 0 <= j < i ==> (#[trigger] providers.deep_view()[j]).id != id,
        decreases providers@.len() - i,
    {
        assert(providers.deep_view()[i as int].id == providers@[i as int].id);
        if providers[i].id == id {
            return Some(i);
        }
        i = i + 1;
    }
    None
}

/// Whether the registration at `i` is the one to use: the wanted provider's
/// first, or the first of all.
pub open spec fn is_choice(
    providers: Seq<RegistrationView>,
    want: Option<ProviderId>,
    i: int,
) -> bool {
    match want {
        Some(id) => is_first_of(providers, id, i),
        None => i == 0 && providers.len() > 0,
    }
}

/// The failure to choose a provider for `what`.
pub open spec fn no_choice(want: Option<ProviderId>, what: Seq<char>) -> Failure {
    match want {
        Some(id) => unregistered(id, what),
        None => Failure::NotConfigured {
            provider: "auto"@,
            message: "no providers are configured for "@ + what,
        },
    }
}

/// The place of the provider to use for `what`.
pub fn pick_one(providers: &Vec<Registration>, want: Option<ProviderId>, what: &str) -> (r:
    CoreResult<usize>)
    ensures
        match r {
            Ok(i) => is_choice(providers.deep_view(), want, i as int),
            Err(e) => e.deep_view() == no_choice(want, what@) && forall|i: int|
                !is_choice(providers.deep_view(), want, i),
        },
{
    match want {
        Some(id) => match find(providers, id) {
            Some(i) => Ok(i),
            None => Err(not_registered(id, what)),
        },
        None => if providers.len() > 0 {
            Ok(0)
        } else {
            let mut message = "no providers are configured for ".to_owned();
            message.append(what);
            Err(CoreError::NotConfigured { provider: "auto".to_owned(), message })
        },
    }
}

impl Engine {
    pub fn builder() -> (r: EngineBuilder)
        ensures
            r.engine.deep_view() == EngineView::empty(),
    {
        let engine = Engine {
            stt: Vec::new(),
            tts: Vec::new(),
            streaming_stt: Vec::new(),
            streaming_tts: Vec::new(),
            decoder: false,
            style: Style::Unix,
        };
        assert(engine.stt.deep_view() =~= Seq::empty());
        assert(engine.tts.deep_view() =~= Seq::empty());
        assert(engine.streaming_stt.deep_view() =~= Seq::empty());
        assert(engine.streaming_tts.deep_view() =~= Seq::empty());
        EngineBuilder { engine }
    }

    pub fn stt_providers(&self) -> (r: &[Registration])
        ensures
            r@ == self.stt@,
    {
        self.stt.as_slice()
    }

    pub fn tts_providers(&self) -> (r: &[Registration])
        ensures
            r@ == self.tts@,
    {
        self.tts.as_slice()
    }

    /// The place of the streaming speech-to-text provider to use.
    pub fn streaming_stt_provider(&self, want: Option<ProviderId>) -> (r: CoreResult<usize>)
        ensures
            match r {
                Ok(i) => is_choice(self.deep_view().streaming_stt, want, i as int),
                Err(e) => e.deep_view() == no_choice(want, "streaming speech-to-text"@)
                    && forall|i: int| !is_choice(self.deep_view().streaming_stt, want, i),
            },
    {
        pick_one(&self.streaming_stt, want, "streaming speech-to-text")
    }

    /// The place of the streaming text-to-speech provider to use.
    pub fn streaming_tts_provider(&self, want: Option<ProviderId>) -> (r: CoreResult<usize>)
        ensures
            match r {
                Ok(i) => is_choice(self.deep_view().streaming_tts, want, i as int),
                Err(e) => e.deep_view() == no_choice(want, "streaming text-to-speech"@)
                    && forall|i: int| !is_choice(self.deep_view().streaming_tts, want, i),
            },
    {
        pick_one(&self.streaming_tts, want, "streaming text-to-speech")
    }
}

/// Registers adapters in preference order.
#[derive(Debug)]
pub struct EngineBuilder {
    pub engine: Engine,
}

impl EngineBuilder {
    pub fn stt(self, provider: Registration) -> (r: EngineBuilder)
        ensures
            r.engine.deep_view() == (EngineView {
                stt: self.engine.deep_view().stt.push(provider.deep_view()),
                ..self.engine.deep_view()
            }),
    {
        let mut engine = self.engine;
        let ghost before = engine.stt.deep_view();
        engine.stt.push(provider);
        assert(engine.stt.deep_view() =~= before.push(provider.deep_view()));
        EngineBuilder { engine }
    }

    pub fn tts(self, provider: Registration) -> (r: EngineBuilder)
        ensures
            r.engine.deep_view() == (EngineView {
                tts: self.engine.deep_view().tts.push(provider.deep_view()),
                ..self.engine.deep_view()
            }),
    {
        let mut engine = self.engine;
        let ghost before = engine.tts.deep_view();
        engine.tts.push(provider);
        assert(engine.tts.deep_view() =~= before.push(provider.deep_view()));
        EngineBuilder { engine }
    }

    pub fn streaming_stt(self, provider: Registration) -> (r: EngineBuilder)
        ensures
            r.engine.deep_view() == (EngineView {
                streaming_stt: self.engine.deep_view().streaming_stt.push(provider.deep_view()),
                ..self.engine.deep_view()
            }),
    {
        let mut engine = self.engine;
        let ghost before = engine.streaming_stt.deep_view();
        engine.streaming_stt.push(provider);
        assert(engine.streaming_stt.deep_view() =~= before.push(provider.deep_view()));
        EngineBuilder { engine }
    }

    pub fn streaming_tts(self, provider: Registration) -> (r: EngineBuilder)
        ensures
            r.engine.deep_view() == (EngineView {
                streaming_tts: self.engine.deep_view().streaming_tts.push(provider.deep_view()),
                ..self.engine.deep_view()
            }),
    {
        let mut engine = self.engine;
        let ghost before = engine.streaming_tts.deep_view();
        engine.streaming_tts.push(provider);
        assert(engine.streaming_tts.deep_view() =~= before.push(provider.deep_view()));
        EngineBuilder { engine }
    }

    /// Says that audio can be decoded locally.
    pub fn decoder(self) -> (r: EngineBuilder)
        ensures
            r.engine.deep_view() == (EngineView { decoder: true, ..self.engine.deep_view() }),
    {
        let mut engine = self.engine;
        engine.decoder = true;
        EngineBuilder { engine }
    }

    /// Says how the paths of sources are written.
    pub fn style(self, style: Style) -> (r: EngineBuilder)
        ensures
            r.engine.deep_view() == (EngineView { style, ..self.engine.deep_view() }),
    {
        let mut engine = self.engine;
        engine.style = style;
        EngineBuilder { engine }
    }

    pub fn build(self) -> (r: Engine)
        ensures
            r == self.engine,
    {
        self.engine
    }
}

// ---------------------------------------------------------------------------
// Candidates
// ---------------------------------------------------------------------------

/// Whether these are the places of the providers to try: the wanted provider's
/// first, or all in registration order.
pub open spec fn are_candidates(
    providers: Seq<RegistrationView>,
    want: Option<ProviderId>,
    candidates: Seq<usize>,
) -> bool {
    match want {
        Some(id) => candidates.len() == 1 && is_first_of(providers, id, candidates[0] as int),
        None => candidates.len() == providers.len() && forall|i: int|
            0 <= i < candidates.len() ==> (#[trigger] candidates[i]) == i,
    }
}

/// The failure to find any provider to try, where there is none.
pub open spec fn no_candidates(
    providers: Seq<RegistrationView>,
    want: Option<ProviderId>,
    what: Seq<char>,
    none: Seq<char>,
) -> Option<Failure> {
    match want {
        Some(id) => if is_registered(providers, id) {
            None
        } else {
            Some(unregistered(id, what))
        },
        None => if providers.len() == 0 {
            Some(Failure::NotConfigured { provider: "auto"@, message: none })
        } else {
            None
        },
    }
}

fn candidates(
    providers: &Vec<Registration>,
    want: Option<ProviderId>,
    what: &str,
    none: &str,
) -> (r: CoreResult<Vec<usize>>)
    ensures
        match (r, no_candidates(providers.deep_view(), want, what@, none@)) {
            (Ok(c), None) => are_candidates(providers.deep_view(), want, c@),
            (Err(e), Some(f)) => e.deep_view() == f,
            _ => false,
        },
{
    match want {
        Some(id) => match find(providers, id) {
            Some(i) => {
                let mut c: Vec<usize> = Vec::new();
                c.push(i);
                Ok(c)
            },
            None => Err(not_registered(id, what)),
        },
        None => {
            if providers.len() == 0 {
                return Err(
                    CoreError::NotConfigured {
                        provider: "auto".to_owned(),
                        message: none.to_owned(),
                    },
                );
            }
            let mut c: Vec<usize> = Vec::new();
            let mut i: usize = 0;
            while i < providers.len()
                invariant
                    i <= providers@.len(),
                    c@.len() == i,
                    forall|j: int| 0 <= j < i ==> (#[trigger] c@[j]) == j,
                decreases providers@.len() - i,
            {
                c.push(i);
                i = i + 1;
            }
            Ok(c)
        },
    }
}

/// The failure when no candidate was left to try and none had failed.
pub open spec fn nobody() -> Failure {
    Failure::NotConfigured {
        provider: "auto"@,
        message: "no provider could handle the request"@,
    }
}

/// The last failure, or that there was nobody to fail.
pub open spec fn last_or_nobody(last: Option<Failure>) -> Failure {
    match last {
        Some(f) => f,
        None => nobody(),
    }
}

fn last_error_or_nobody(last: Option<CoreError>) -> (r: CoreError)
    ensures
        r.deep_view() == last_or_nobody(last.deep_view()),
{
    match last {
        Some(e) => e,
        None => CoreError::NotConfigured {
            provider: "auto".to_owned(),
            message: "no provider could handle the request".to_owned(),
        },
    }
}

// ---------------------------------------------------------------------------
// Transcription
// ---------------------------------------------------------------------------

/// What a transcription waits for.
#[derive(Debug, Clone, Copy, PartialEq, Eq, Structural)]
pub enum Stage {
    /// The source file, decoded to WAV.
    Converting,
    /// The size of the file to upload.
    Measuring,
    /// The answer of the candidate.
    Calling,
    /// Nothing: the result is there.
    Finished,
}

/// A transcription on its way through the candidates.
#[derive(Debug)]
pub struct TranscribeRun {
    pub request: TranscribeRequest,
    pub candidates: Vec<usize>,
    /// Whether a failed candidate is followed by the next.
    pub auto: bool,
    /// The place of the current candidate among the candidates.
    pub at: usize,
    /// The file that the source was decoded to for the current candidate.
    pub converted: Option<String>,
    pub last_error: Option<CoreError>,
    /// Files made on the way, to be removed in the end.
    pub temp_files: Vec<String>,
    pub stage: Stage,
    pub result: Option<CoreResult<Transcript>>,
}

/// What a [`TranscribeRun`] holds.
pub struct RunView {
    pub request: RequestView,
    pub candidates: Seq<usize>,
    pub auto: bool,
    pub at: int,
    pub converted: Option<Seq<char>>,
    pub last_error: Option<Failure>,
    pub temp_files: Seq<Seq<char>>,
    pub stage: Stage,
    pub result: Option<Result<TranscriptView, Failure>>,
}

impl DeepView for TranscribeRun {
    type V = RunView;

    open spec fn deep_view(&self) -> RunView {
        RunView {
            request: self.request.deep_view(),
            candidates: self.candidates@,
            auto: self.auto,
            at: self.at as int,
            converted: self.converted.deep_view(),
            last_error: self.last_error.deep_view(),
            temp_files: self.temp_files.deep_view(),
            stage: self.stage,
            result: match self.result {
                Some(r) => Some(crate::error::outcome(r)),
                None => None,
            },
        }
    }
}

impl RunView {
    /// Whether the run can go on: its candidates are registered, it is at one
    /// of them where it waits, and it has a result where it does not.
    pub open spec fn is_valid(self, engine: EngineView) -> bool {
        &&& forall|i: int|
            0 <= i < self.candidates.len() ==> (#[trigger] self.candidates[i]) < engine.stt.len()
        &&& 0 <= self.at <= self.candidates.len()
        &&& self.stage != Stage::Finished ==> self.at < self.candidates.len()
        &&& self.stage == Stage::Finished <==> self.result is Some
        &&& self.stage == Stage::Converting ==> self.request.source is File
    }

    /// The current candidate.
    pub open spec fn candidate(self, engine: EngineView) -> RegistrationView {
        engine.stt[self.candidates[self.at] as int]
    }

    /// The source that the current candidate gets.
    pub open spec fn source(self) -> SourceView {
        match self.converted {
            Some(p) => SourceView::File(p),
            None => self.request.source,
        }
    }

    /// The request that the current candidate gets.
    pub open spec fn attempt(self) -> RequestView {
        RequestView { source: self.source(), ..self.request }
    }

    /// The run at its end.
    pub open spec fn finished(self, result: Result<TranscriptView, Failure>) -> RunView {
        RunView { stage: Stage::Finished, result: Some(result), ..self }
    }

    /// Whether the candidate cannot take the source as it is.
    pub open spec fn needs_conversion(self, engine: EngineView) -> bool {
        match self.request.source.extension(engine.style) {
            Some(e) => e.len() > 0 && !self.candidate(engine).capabilities.accepts(e),
            None => false,
        }
    }

    /// Why the source cannot be decoded, where it cannot.
    pub open spec fn conversion_refusal(self, engine: EngineView) -> Option<Failure> {
        if !engine.decoder {
            Some(
                Failure::Audio(
                    "input format requires transcoding but no audio decoder is available (is ffmpeg installed?)"@,
                ),
            )
        } else if self.request.source is Bytes {
            Some(Failure::Audio("transcoding in-memory sources is not supported"@))
        } else {
            None
        }
    }

    /// The run when the current candidate is turned to: its source is decoded
    /// first where it has to be. With no candidate left, the last failure is
    /// the result.
    pub open spec fn begun(self, engine: EngineView) -> RunView
        decreases self.candidates.len() - self.at, 3int,
    {
        if self.at >= self.candidates.len() {
            RunView { last_error: None, ..self }.finished(Err(last_or_nobody(self.last_error)))
        } else if self.needs_conversion(engine) {
            match self.conversion_refusal(engine) {
                Some(f) => self.passed_over(engine, f),
                None => RunView { stage: Stage::Converting, ..self },
            }
        } else {
            self.sized(engine)
        }
    }

    /// The run when the source is ready for the candidate: the size of bytes
    /// in memory is known.
    pub open spec fn sized(self, engine: EngineView) -> RunView
        decreases self.candidates.len() - self.at, 2int,
    {
        match self.source() {
            SourceView::Bytes { data, .. } => self.validated(engine, Some(data.len() as u64)),
            SourceView::File(_) => RunView { stage: Stage::Measuring, ..self },
        }
    }

    /// The run when the size of the source is known: the candidate is called
    /// where it supports what is asked.
    pub open spec fn validated(self, engine: EngineView, input_len: Option<u64>) -> RunView
        decreases self.candidates.len() - self.at, 1int,
    {
        let candidate = self.candidate(engine);
        match candidate.capabilities.refusal(candidate.id.name(), self.attempt(), input_len) {
            Some(f) => self.passed_over(engine, f),
            None => RunView { stage: Stage::Calling, ..self },
        }
    }

    /// The run when the candidate cannot be used: the next one is turned to
    /// where there may be one, else the failure is the result.
    pub open spec fn passed_over(self, engine: EngineView, f: Failure) -> RunView
        decreases self.candidates.len() - self.at, 0int,
    {
        if self.auto && self.at < self.candidates.len() {
            RunView {
                at: self.at + 1,
                converted: None,
                last_error: Some(f),
                ..self
            }.begun(engine)
        } else {
            self.finished(Err(f))
        }
    }

    /// The run when decoding has come to an end.
    pub open spec fn after_conversion(
        self,
        engine: EngineView,
        result: Result<Seq<char>, Failure>,
    ) -> RunView {
        match result {
            Ok(path) => RunView {
                temp_files: self.temp_files.push(path),
                converted: Some(path),
                ..self
            }.sized(engine),
            Err(f) => self.passed_over(engine, f),
        }
    }

    /// The run when the candidate has answered.
    pub open spec fn after_answer(
        self,
        engine: EngineView,
        answer: Result<TranscriptView, Failure>,
    ) -> RunView {
        match answer {
            Ok(t) => self.finished(Ok(t)),
            Err(f) => if f.is_fallback_worthy() {
                self.passed_over(engine, f)
            } else {
                self.finished(Err(f))
            },
        }
    }
}

impl RunView {
    /// Whether `other` is about the same request and the same candidates, at
    /// one of them that comes no earlier, and with no file forgotten.
    pub open spec fn leads_to(self, other: RunView) -> bool {
        &&& other.request == self.request
        &&& other.candidates == self.candidates
        &&& other.auto == self.auto
        &&& self.at <= other.at
        &&& self.temp_files.is_prefix_of(other.temp_files)
    }
}

pub proof fn lemma_begun_leads(run: RunView, engine: EngineView)
    ensures
        run.leads_to(run.begun(engine)),
        run.at <= run.candidates.len() ==> run.begun(engine).at <= run.candidates.len(),
    decreases run.candidates.len() - run.at, 3int,
{
    if run.at < run.candidates.len() {
        if run.needs_conversion(engine) {
            match run.conversion_refusal(engine) {
                Some(f) => lemma_passed_over_leads(run, engine, f),
                None => {},
            }
        } else {
            lemma_sized_leads(run, engine);
        }
    }
}

pub proof fn lemma_sized_leads(run: RunView, engine: EngineView)
    ensures
        run.leads_to(run.sized(engine)),
        run.at < run.candidates.len() ==> run.sized(engine).at <= run.candidates.len(),
        run.sized(engine).at > run.at || run.sized(engine).stage != Stage::Converting,
    decreases run.candidates.len() - run.at, 2int,
{
    match run.source() {
        SourceView::Bytes { data, .. } => lemma_validated_leads(
            run,
            engine,
            Some(data.len() as u64),
        ),
        SourceView::File(_) => {},
    }
}

pub proof fn lemma_validated_leads(run: RunView, engine: EngineView, input_len: Option<u64>)
    ensures
        run.leads_to(run.validated(engine, input_len)),
        run.at < run.candidates.len() ==> run.validated(engine, input_len).at
            <= run.candidates.len(),
        run.validated(engine, input_len).at > run.at || run.validated(engine, input_len).stage
            == Stage::Calling || run.validated(engine, input_len).stage == Stage::Finished,
    decreases run.candidates.len() - run.at, 1int,
{
    let candidate = run.candidate(engine);
    match candidate.capabilities.refusal(candidate.id.name(), run.attempt(), input_len) {
        Some(f) => lemma_passed_over_leads(run, engine, f),
        None => {},
    }
}

pub proof fn lemma_passed_over_leads(run: RunView, engine: EngineView, f: Failure)
    ensures
        run.leads_to(run.passed_over(engine, f)),
        run.at < run.candidates.len() ==> run.passed_over(engine, f).at <= run.candidates.len(),
        run.passed_over(engine, f).at > run.at || run.passed_over(engine, f).stage
            == Stage::Finished,
    decreases run.candidates.len() - run.at, 0int,
{
    if run.auto && run.at < run.candidates.len() {
        lemma_begun_leads(
            RunView { at: run.at + 1, converted: None, last_error: Some(f), ..run },
            engine,
        );
    }
}

impl RunView {
    /// A run before the first candidate.
    pub open spec fn started(request: RequestView, candidates: Seq<usize>, auto: bool) -> RunView {
        RunView {
            request,
            candidates,
            auto,
            at: 0,
            converted: None,
            last_error: None,
            temp_files: Seq::empty(),
            stage: Stage::Measuring,
            result: None,
        }
    }
}

/// What a transcription asks to be done next.
#[derive(Debug)]
pub enum Action {
    /// Decode this file to 16 kHz mono WAV.
    Convert(String),
    /// Find out the size of this file.
    Measure(String),
    /// Ask the provider that is registered at this place.
    Call(usize),
    /// Nothing: take the result.
    Finish,
}

/// What an [`Action`] asks.
pub enum ActionView {
    Convert(Seq<char>),
    Measure(Seq<char>),
    Call(usize),
    Finish,
}

impl DeepView for Action {
    type V = ActionView;

    open spec fn deep_view(&self) -> ActionView {
        match *self {
            Action::Convert(p) => ActionView::Convert(p@),
            Action::Measure(p) => ActionView::Measure(p@),
            Action::Call(i) => ActionView::Call(i),
            Action::Finish => ActionView::Finish,
        }
    }
}

impl RunView {
    /// What the run asks to be done next.
    pub open spec fn action(self) -> ActionView {
        match self.stage {
            Stage::Converting => match self.request.source {
                SourceView::File(p) => ActionView::Convert(p),
                SourceView::Bytes { .. } => ActionView::Finish,
            },
            Stage::Measuring => match self.source() {
                SourceView::File(p) => ActionView::Measure(p),
                SourceView::Bytes { .. } => ActionView::Finish,
            },
            Stage::Calling => ActionView::Call(self.candidates[self.at]),
            Stage::Finished => ActionView::Finish,
        }
    }
}

impl TranscribeRun {
    /// What the run asks to be done next.
    pub fn action(&self) -> (r: Action)
        requires
            self.stage != Stage::Finished ==> self.at < self.candidates@.len(),
        ensures
            r.deep_view() == self.deep_view().action(),
    {
        match self.stage {
            Stage::Converting => match &self.request.source {
                AudioSource::File(p) => Action::Convert(p.clone()),
                AudioSource::Bytes { .. } => Action::Finish,
            },
            Stage::Measuring => match &self.converted {
                Some(p) => Action::Measure(p.clone()),
                None => match &self.request.source {
                    AudioSource::File(p) => Action::Measure(p.clone()),
                    AudioSource::Bytes { .. } => Action::Finish,
                },
            },
            Stage::Calling => Action::Call(self.candidates[self.at]),
            Stage::Finished => Action::Finish,
        }
    }

    /// The request that the current candidate gets: the one that was made,
    /// with the decoded file where there is one.
    pub fn attempt(&self) -> (r: TranscribeRequest)
        ensures
            r.deep_view() == self.deep_view().attempt(),
            match (r.language, self.request.language) {
                (Some(a), Some(b)) => a.0@ == b.0@,
                (None, None) => true,
                _ => false,
            },
            r.model.deep_view() == self.request.model.deep_view(),
            r.diarize == self.request.diarize,
            r.word_timestamps == self.request.word_timestamps,
            r.keyterms.deep_view() == self.request.keyterms.deep_view(),
            r.prompt.deep_view() == self.request.prompt.deep_view(),
            match (r.source, self.converted) {
                (AudioSource::File(a), Some(b)) => a@ == b@,
                (_, Some(_)) => false,
                (_, None) => r.source.deep_view() == self.request.source.deep_view(),
            },
    {
        let mut attempt = self.request.clone();
        if let Some(p) = &self.converted {
            attempt.source = AudioSource::File(p.clone());
        }
        attempt
    }

    /// The result of a finished run, and the files to remove.
    pub fn finish(self) -> (r: (CoreResult<Transcript>, Vec<String>))
        requires
            self.result is Some,
        ensures
            Some(r.0) == self.result,
            r.1 == self.temp_files,
    {
        match self.result {
            Some(result) => (result, self.temp_files),
            None => (Err(last_error_or_nobody(None)), self.temp_files),
        }
    }

    fn finished(self, result: CoreResult<Transcript>) -> (r: TranscribeRun)
        ensures
            r.deep_view() == self.deep_view().finished(crate::error::outcome(result)),
    {
        let mut run = self;
        run.stage = Stage::Finished;
        run.result = Some(result);
        run
    }
}

impl Engine {
    /// Batch speech-to-text with validation, automatic transcoding, and
    /// fallback.
    ///
    /// * `want = Some(id)`: use exactly that provider (still transcoding input
    ///   that the provider cannot ingest).
    /// * `want = None`: try every registered provider in registration order,
    ///   moving on after provider-side failures.
    pub fn transcribe(&self, request: TranscribeRequest, want: Option<ProviderId>) -> (r:
        CoreResult<TranscribeRun>)
        ensures
            match (
                r,
                no_candidates(
                    self.deep_view().stt,
                    want,
                    "speech-to-text"@,
                    "no speech-to-text providers are configured (set an API key or install a local model)"@,
                ),
            ) {
                (Ok(run), None) => {
                    &&& are_candidates(self.deep_view().stt, want, run.candidates@)
                    &&& run.deep_view() == RunView::started(
                        request.deep_view(),
                        run.candidates@,
                        want is None,
                    ).begun(self.deep_view())
                    &&& run.deep_view().is_valid(self.deep_view())
                },
                (Err(e), Some(f)) => e.deep_view() == f,
                _ => false,
            },
    {
        let candidates = match candidates(
            &self.stt,
            want,
            "speech-to-text",
            "no speech-to-text providers are configured (set an API key or install a local model)",
        ) {
            Ok(c) => c,
            Err(e) => {
                return Err(e);
            },
        };
        let run = TranscribeRun {
            request,
            candidates,
            auto: want.is_none(),
            at: 0,
            converted: None,
            last_error: None,
            temp_files: Vec::new(),
            stage: Stage::Measuring,
            result: None,
        };
        assert(run.temp_files.deep_view() =~= Seq::empty());
        proof {
            lemma_begun_leads(run.deep_view(), self.deep_view());
        }
        Ok(self.begin(run))
    }

    fn begin(&self, run: TranscribeRun) -> (r: TranscribeRun)
        requires
            forall|i: int|
                0 <= i < run.candidates@.len() ==> (#[trigger] run.candidates@[i])
                    < self.stt@.len(),
            run.at <= run.candidates.len(),
            run.result is None,
            run.stage != Stage::Finished,
        ensures
            r.deep_view() == run.deep_view().begun(self.deep_view()),
            r.deep_view().is_valid(self.deep_view()),
        decreases run.candidates@.len() - run.at, 3int,
    {
        if run.at >= run.candidates.len() {
            let mut run = run;
            let last = run.last_error;
            run.last_error = None;
            return run.finished(Err(last_error_or_nobody(last)));
        }
        let candidate = &self.stt[run.candidates[run.at]];
        let needs = match run.request.source.extension(self.style) {
            Some(e) => !e.as_str().is_empty() && !candidate.capabilities.accepts_extension(&e),
            None => false,
        };
        if !needs {
            return self.size(run);
        }
        if !self.decoder {
            return self.pass_over(
                run,
                CoreError::Audio(
                    "input format requires transcoding but no audio decoder is available (is ffmpeg installed?)".to_owned(),
                ),
            );
        }
        if matches!(&run.request.source, AudioSource::Bytes { .. }) {
            return self.pass_over(
                run,
                CoreError::Audio("transcoding in-memory sources is not supported".to_owned()),
            );
        }
        let mut run = run;
        run.stage = Stage::Converting;
        run
    }

    fn size(&self, run: TranscribeRun) -> (r: TranscribeRun)
        requires
            forall|i: int|
                0 <= i < run.candidates@.len() ==> (#[trigger] run.candidates@[i])
                    < self.stt@.len(),
            run.at < run.candidates.len(),
            run.result is None,
            run.stage != Stage::Finished,
        ensures
            r.deep_view() == run.deep_view().sized(self.deep_view()),
            r.deep_view().is_valid(self.deep_view()),
        decreases run.candidates@.len() - run.at, 2int,
    {
        if run.converted.is_none() {
            if let AudioSource::Bytes { data, .. } = &run.request.source {
                let len: u64 = data.len() as u64;
                return self.validate(run, Some(len));
            }
        }
        let mut run = run;
        run.stage = Stage::Measuring;
        run
    }

    fn validate(&self, run: TranscribeRun, input_len: Option<u64>) -> (r: TranscribeRun)
        requires
            forall|i: int|
                0 <= i < run.candidates@.len() ==> (#[trigger] run.candidates@[i])
                    < self.stt@.len(),
            run.at < run.candidates.len(),
            run.result is None,
            run.stage != Stage::Finished,
        ensures
            r.deep_view() == run.deep_view().validated(self.deep_view(), input_len),
            r.deep_view().is_valid(self.deep_view()),
        decreases run.candidates@.len() - run.at, 1int,
    {
        let candidate = &self.stt[run.candidates[run.at]];
        let checked = candidate.capabilities.validate_transcribe(
            candidate.id.as_str(),
            &run.attempt(),
            input_len,
        );
        match checked {
            Ok(()) => {
                let mut run = run;
                run.stage = Stage::Calling;
                run
            },
            Err(e) => self.pass_over(run, e),
        }
    }

    fn pass_over(&self, run: TranscribeRun, error: CoreError) -> (r: TranscribeRun)
        requires
            forall|i: int|
                0 <= i < run.candidates@.len() ==> (#[trigger] run.candidates@[i])
                    < self.stt@.len(),
            run.at < run.candidates.len(),
            run.result is None,
            run.stage != Stage::Finished,
        ensures
            r.deep_view() == run.deep_view().passed_over(self.deep_view(), error.deep_view()),
            r.deep_view().is_valid(self.deep_view()),
        decreases run.candidates@.len() - run.at, 0int,
    {
        if run.auto {
            let mut run = run;
            run.at = run.at + 1;
            run.converted = None;
            run.last_error = Some(error);
            self.begin(run)
        } else {
            run.finished(Err(error))
        }
    }

    /// Goes on with the file that the source was decoded to, or the failure to
    /// decode it.
    pub fn converted(&self, run: TranscribeRun, result: CoreResult<String>) -> (r: TranscribeRun)
        requires
            run.deep_view().is_valid(self.deep_view()),
            run.stage == Stage::Converting,
        ensures
            r.deep_view() == run.deep_view().after_conversion(
                self.deep_view(),
                crate::error::outcome(result),
            ),
            r.deep_view().is_valid(self.deep_view()),
    {
        match result {
            Ok(path) => {
                let mut run = run;
                let ghost before = run.temp_files.deep_view();
                run.temp_files.push(path.clone());
                assert(run.temp_files.deep_view() =~= before.push(path@));
                run.converted = Some(path);
                self.size(run)
            },
            Err(e) => self.pass_over(run, e),
        }
    }

    /// Goes on with the size of the file to upload, where it is known.
    pub fn measured(&self, run: TranscribeRun, input_len: Option<u64>) -> (r: TranscribeRun)
        requires
            run.deep_view().is_valid(self.deep_view()),
            run.stage == Stage::Measuring,
        ensures
            r.deep_view() == run.deep_view().validated(self.deep_view(), input_len),
            r.deep_view().is_valid(self.deep_view()),
    {
        self.validate(run, input_len)
    }

    /// Goes on with the answer of the candidate.
    pub fn answered(&self, run: TranscribeRun, answer: CoreResult<Transcript>) -> (r: TranscribeRun)
        requires
            run.deep_view().is_valid(self.deep_view()),
            run.stage == Stage::Calling,
        ensures
            r.deep_view() == run.deep_view().after_answer(
                self.deep_view(),
                crate::error::outcome(answer),
            ),
            r.deep_view().is_valid(self.deep_view()),
    {
        match answer {
            Ok(t) => run.finished(Ok(t)),
            Err(e) => if e.is_fallback_worthy() {
                self.pass_over(run, e)
            } else {
                run.finished(Err(e))
            },
        }
    }
}

// ---------------------------------------------------------------------------
// Whole transcriptions
// ---------------------------------------------------------------------------

/// What comes of each step that a transcription asks for, by the place of the
/// candidate among the candidates.
pub struct World {
    pub convert: spec_fn(int) -> Result<Seq<char>, Failure>,
    pub length: spec_fn(int) -> Option<u64>,
    pub answer: spec_fn(int) -> Result<TranscriptView, Failure>,
}

/// How many steps a candidate may still take.
pub open spec fn steps_left(stage: Stage) -> nat {
    match stage {
        Stage::Converting => 3,
        Stage::Measuring => 2,
        Stage::Calling => 1,
        Stage::Finished => 0,
    }
}

impl RunView {
    /// The run at its end, when every step that it asks for is performed.
    pub open spec fn driven(self, engine: EngineView, world: World) -> RunView
        decreases self.candidates.len() - self.at, steps_left(self.stage),
    {
        if self.at >= self.candidates.len() {
            self
        } else {
            match self.stage {
                Stage::Finished => self,
                Stage::Converting => {
                    let next = self.after_conversion(engine, (world.convert)(self.at));
                    proof {
                        match (world.convert)(self.at) {
                            Ok(p) => lemma_sized_leads(
                                RunView {
                                    temp_files: self.temp_files.push(p),
                                    converted: Some(p),
                                    ..self
                                },
                                engine,
                            ),
                            Err(f) => lemma_passed_over_leads(self, engine, f),
                        }
                    }
                    next.driven(engine, world)
                },
                Stage::Measuring => {
                    proof {
                        lemma_validated_leads(self, engine, (world.length)(self.at));
                    }
                    self.validated(engine, (world.length)(self.at)).driven(engine, world)
                },
                Stage::Calling => {
                    proof {
                        match (world.answer)(self.at) {
                            Ok(_) => {},
                            Err(f) => lemma_passed_over_leads(self, engine, f),
                        }
                    }
                    self.after_answer(engine, (world.answer)(self.at)).driven(engine, world)
                },
            }
        }
    }
}

/// How one candidate fares.
pub enum Trial {
    /// It brings the transcript.
    Served(TranscriptView),
    /// It cannot serve the request; another may.
    PassedOver(Failure),
    /// It fails in a way that every other would.
    Refused(Failure),
}

/// How the candidate at place `k` fares when it is asked `attempt`.
pub open spec fn asked(
    candidate: RegistrationView,
    attempt: RequestView,
    world: World,
    k: int,
) -> Trial {
    let input_len = match attempt.source {
        SourceView::Bytes { data, .. } => Some(data.len() as u64),
        SourceView::File(_) => (world.length)(k),
    };
    match candidate.capabilities.refusal(candidate.id.name(), attempt, input_len) {
        Some(f) => Trial::PassedOver(f),
        None => match (world.answer)(k) {
            Ok(t) => Trial::Served(t),
            Err(f) => if f.is_fallback_worthy() {
                Trial::PassedOver(f)
            } else {
                Trial::Refused(f)
            },
        },
    }
}

/// How the candidate at place `k` fares, and the files that are made for it: a
/// source that it cannot take is decoded first.
pub open spec fn trial(
    engine: EngineView,
    request: RequestView,
    candidates: Seq<usize>,
    world: World,
    k: int,
) -> (Trial, Seq<Seq<char>>) {
    let candidate = engine.stt[candidates[k] as int];
    let takes = match request.source.extension(engine.style) {
        Some(e) => e.len() == 0 || candidate.capabilities.accepts(e),
        None => true,
    };
    if takes {
        (asked(candidate, request, world, k), Seq::empty())
    } else if !engine.decoder {
        (
            Trial::PassedOver(
                Failure::Audio(
                    "input format requires transcoding but no audio decoder is available (is ffmpeg installed?)"@,
                ),
            ),
            Seq::empty(),
        )
    } else if request.source is Bytes {
        (
            Trial::PassedOver(Failure::Audio("transcoding in-memory sources is not supported"@)),
            Seq::empty(),
        )
    } else {
        match (world.convert)(k) {
            Ok(path) => (
                asked(
                    candidate,
                    RequestView { source: SourceView::File(path), ..request },
                    world,
                    k,
                ),
                seq![path],
            ),
            Err(f) => (Trial::PassedOver(f), Seq::empty()),
        }
    }
}

/// The result of trying the candidates from place `k` on, and the files that
/// are made on the way: the first one that serves, or fails for all, decides;
/// with `auto`, one that is passed over is followed by the next.
pub open spec fn tried(
    engine: EngineView,
    request: RequestView,
    candidates: Seq<usize>,
    auto: bool,
    world: World,
    k: int,
    last: Option<Failure>,
) -> (Result<TranscriptView, Failure>, Seq<Seq<char>>)
    decreases candidates.len() - k,
{
    if k >= candidates.len() {
        (Err(last_or_nobody(last)), Seq::empty())
    } else {
        let (t, files) = trial(engine, request, candidates, world, k);
        match t {
            Trial::Served(transcript) => (Ok(transcript), files),
            Trial::Refused(f) => (Err(f), files),
            Trial::PassedOver(f) => if auto {
                let (result, more) = tried(
                    engine,
                    request,
                    candidates,
                    auto,
                    world,
                    k + 1,
                    Some(f),
                );
                (result, files + more)
            } else {
                (Err(f), files)
            },
        }
    }
}

/// Whether the run, driven to its end, has this result and these files.
spec fn ends(
    run: RunView,
    engine: EngineView,
    world: World,
    outcome: (Result<TranscriptView, Failure>, Seq<Seq<char>>),
) -> bool {
    let end = run.driven(engine, world);
    end.stage == Stage::Finished && end.result == Some(outcome.0) && end.temp_files == outcome.1
}

/// What the run comes to when its candidate fares like this.
spec fn expected(run: RunView, engine: EngineView, world: World, t: Trial) -> (
    Result<TranscriptView, Failure>,
    Seq<Seq<char>>,
) {
    match t {
        Trial::Served(transcript) => (Ok(transcript), run.temp_files),
        Trial::Refused(f) => (Err(f), run.temp_files),
        Trial::PassedOver(f) => if run.auto {
            let (result, more) = tried(
                engine,
                run.request,
                run.candidates,
                run.auto,
                world,
                run.at + 1,
                Some(f),
            );
            (result, run.temp_files + more)
        } else {
            (Err(f), run.temp_files)
        },
    }
}

/// Whether the run, from its candidate on, ends as trying the candidates says.
spec fn ends_as_tried(run: RunView, engine: EngineView, world: World) -> bool {
    let (result, files) = tried(
        engine,
        run.request,
        run.candidates,
        run.auto,
        world,
        run.at,
        run.last_error,
    );
    ends(run.begun(engine), engine, world, (result, run.temp_files + files))
}

/// Whether every run over these candidates that has come past place `k` ends as
/// trying them says.
spec fn rest_ends_as_tried(
    candidates: Seq<usize>,
    k: int,
    engine: EngineView,
    world: World,
) -> bool {
    forall|r: RunView|
        r.candidates == candidates && r.at == k + 1 && r.converted is None
            ==> #[trigger] ends_as_tried(r, engine, world)
}

proof fn lemma_passed_over_ends(run: RunView, engine: EngineView, world: World, f: Failure)
    requires
        0 <= run.at < run.candidates.len(),
        rest_ends_as_tried(run.candidates, run.at, engine, world),
    ensures
        ends(
            run.passed_over(engine, f),
            engine,
            world,
            expected(run, engine, world, Trial::PassedOver(f)),
        ),
{
    if run.auto {
        let next = RunView { at: run.at + 1, converted: None, last_error: Some(f), ..run };
        assert(ends_as_tried(next, engine, world));
        assert(run.passed_over(engine, f) == next.begun(engine));
    }
}

proof fn lemma_calling_ends(run: RunView, engine: EngineView, world: World)
    requires
        0 <= run.at < run.candidates.len(),
        rest_ends_as_tried(run.candidates, run.at, engine, world),
        run.stage == Stage::Calling,
    ensures
        ends(
            run,
            engine,
            world,
            expected(
                run,
                engine,
                world,
                match (world.answer)(run.at) {
                    Ok(t) => Trial::Served(t),
                    Err(f) => if f.is_fallback_worthy() {
                        Trial::PassedOver(f)
                    } else {
                        Trial::Refused(f)
                    },
                },
            ),
        ),
{
    let next = run.after_answer(engine, (world.answer)(run.at));
    assert(run.driven(engine, world) == next.driven(engine, world));
    match (world.answer)(run.at) {
        Ok(t) => {
            assert(next == run.finished(Ok(t)));
        },
        Err(f) => {
            if f.is_fallback_worthy() {
                lemma_passed_over_ends(run, engine, world, f);
            } else {
                assert(next == run.finished(Err(f)));
            }
        },
    }
}

/// How the candidate fares when the size of the source is known.
spec fn checked(
    candidate: RegistrationView,
    attempt: RequestView,
    input_len: Option<u64>,
    world: World,
    k: int,
) -> Trial {
    match candidate.capabilities.refusal(candidate.id.name(), attempt, input_len) {
        Some(f) => Trial::PassedOver(f),
        None => match (world.answer)(k) {
            Ok(t) => Trial::Served(t),
            Err(f) => if f.is_fallback_worthy() {
                Trial::PassedOver(f)
            } else {
                Trial::Refused(f)
            },
        },
    }
}

proof fn lemma_validated_ends(
    run: RunView,
    engine: EngineView,
    world: World,
    input_len: Option<u64>,
)
    requires
        0 <= run.at < run.candidates.len(),
        rest_ends_as_tried(run.candidates, run.at, engine, world),
    ensures
        ends(
            run.validated(engine, input_len),
            engine,
            world,
            expected(
                run,
                engine,
                world,
                checked(run.candidate(engine), run.attempt(), input_len, world, run.at),
            ),
        ),
{
    let candidate = run.candidate(engine);
    match candidate.capabilities.refusal(candidate.id.name(), run.attempt(), input_len) {
        Some(f) => lemma_passed_over_ends(run, engine, world, f),
        None => lemma_calling_ends(RunView { stage: Stage::Calling, ..run }, engine, world),
    }
}

proof fn lemma_sized_ends(run: RunView, engine: EngineView, world: World)
    requires
        0 <= run.at < run.candidates.len(),
        rest_ends_as_tried(run.candidates, run.at, engine, world),
    ensures
        ends(
            run.sized(engine),
            engine,
            world,
            expected(
                run,
                engine,
                world,
                asked(run.candidate(engine), run.attempt(), world, run.at),
            ),
        ),
{
    match run.source() {
        SourceView::Bytes { data, .. } => {
            lemma_validated_ends(run, engine, world, Some(data.len() as u64));
        },
        SourceView::File(_) => {
            let next = RunView { stage: Stage::Measuring, ..run };
            lemma_validated_ends(next, engine, world, (world.length)(run.at));
            assert(next.driven(engine, world) == next.validated(
                engine,
                (world.length)(run.at),
            ).driven(engine, world));
        },
    }
}

proof fn lemma_begun_ends(run: RunView, engine: EngineView, world: World)
    requires
        0 <= run.at < run.candidates.len(),
        rest_ends_as_tried(run.candidates, run.at, engine, world),
        run.converted is None,
    ensures
        ({
            let (t, files) = trial(engine, run.request, run.candidates, world, run.at);
            ends(
                run.begun(engine),
                engine,
                world,
                expected(
                    RunView { temp_files: run.temp_files + files, ..run },
                    engine,
                    world,
                    t,
                ),
            )
        }),
{
    assert(run.temp_files + Seq::<Seq<char>>::empty() =~= run.temp_files);
    if !run.needs_conversion(engine) {
        assert(run.attempt() == run.request);
        lemma_sized_ends(run, engine, world);
    } else {
        match run.conversion_refusal(engine) {
            Some(f) => lemma_passed_over_ends(run, engine, world, f),
            None => {
                let next = RunView { stage: Stage::Converting, ..run };
                let done = next.after_conversion(engine, (world.convert)(run.at));
                assert(next.driven(engine, world) == done.driven(engine, world));
                match (world.convert)(run.at) {
                    Ok(path) => {
                        assert(run.temp_files.push(path) =~= run.temp_files + seq![path]);
                        lemma_sized_ends(
                            RunView {
                                temp_files: run.temp_files.push(path),
                                converted: Some(path),
                                ..next
                            },
                            engine,
                            world,
                        );
                    },
                    Err(f) => lemma_passed_over_ends(next, engine, world, f),
                }
            },
        }
    }
}

proof fn lemma_driven(run: RunView, engine: EngineView, world: World)
    requires
        0 <= run.at <= run.candidates.len(),
        run.converted is None,
    ensures
        ends_as_tried(run, engine, world),
    decreases run.candidates.len() - run.at,
{
    if run.at == run.candidates.len() {
        assert(run.temp_files + Seq::<Seq<char>>::empty() =~= run.temp_files);
    } else {
        assert forall|r: RunView|
            r.candidates == run.candidates && r.at == run.at + 1 && r.converted
                is None implies #[trigger] ends_as_tried(r, engine, world) by {
            lemma_driven(r, engine, world);
        }
        lemma_begun_ends(run, engine, world);
        let (t, files) = trial(engine, run.request, run.candidates, world, run.at);
        match t {
            Trial::PassedOver(f) => {
                let more = tried(
                    engine,
                    run.request,
                    run.candidates,
                    run.auto,
                    world,
                    run.at + 1,
                    Some(f),
                ).1;
                assert(run.temp_files + (files + more) =~= (run.temp_files + files) + more);
            },
            _ => {},
        }
    }
}

/// Performing every step that a transcription asks for ends with the result of
/// trying the candidates in order, and every file that was made on the way is
/// among those to be removed.
pub proof fn law_run_tries_candidates_in_order(
    engine: EngineView,
    request: RequestView,
    candidates: Seq<usize>,
    auto: bool,
    world: World,
)
    ensures
        ({
            let end = RunView::started(request, candidates, auto).begun(engine).driven(
                engine,
                world,
            );
            let (result, files) = tried(engine, request, candidates, auto, world, 0, None);
            end.result == Some(result) && end.temp_files == files && end.stage == Stage::Finished
        }),
{
    let run = RunView::started(request, candidates, auto);
    lemma_driven(run, engine, world);
    let files = tried(engine, request, candidates, auto, world, 0, None).1;
    assert(run.temp_files + files =~= files);
}

proof fn lemma_decisive(
    engine: EngineView,
    request: RequestView,
    candidates: Seq<usize>,
    world: World,
    from: int,
    k: int,
    last: Option<Failure>,
)
    requires
        0 <= from <= k < candidates.len(),
        forall|j: int|
            from <= j < k ==> (#[trigger] trial(engine, request, candidates, world, j)).0
                is PassedOver,
        trial(engine, request, candidates, world, k).0 !is PassedOver,
    ensures
        tried(engine, request, candidates, true, world, from, last).0 == match trial(
            engine,
            request,
            candidates,
            world,
            k,
        ).0 {
            Trial::Served(t) => Ok::<TranscriptView, Failure>(t),
            Trial::Refused(f) => Err(f),
            Trial::PassedOver(f) => Err(f),
        },
    decreases k - from,
{
    let t = trial(engine, request, candidates, world, from).0;
    if from < k {
        lemma_decisive(engine, request, candidates, world, from + 1, k, Some(t->PassedOver_0));
    }
}

/// Without a wanted provider, the first candidate that is not passed over
/// decides: its transcript is the result, or its failure, which no later
/// candidate is tried after.
pub proof fn law_first_decisive_candidate_decides(
    engine: EngineView,
    request: RequestView,
    candidates: Seq<usize>,
    world: World,
    k: int,
)
    requires
        0 <= k < candidates.len(),
        forall|j: int|
            0 <= j < k ==> (#[trigger] trial(engine, request, candidates, world, j)).0
                is PassedOver,
        trial(engine, request, candidates, world, k).0 !is PassedOver,
    ensures
        tried(engine, request, candidates, true, world, 0, None).0 == match trial(
            engine,
            request,
            candidates,
            world,
            k,
        ).0 {
            Trial::Served(t) => Ok::<TranscriptView, Failure>(t),
            Trial::Refused(f) => Err(f),
            Trial::PassedOver(f) => Err(f),
        },
{
    lemma_decisive(engine, request, candidates, world, 0, k, None);
}

proof fn lemma_all_passed_over(
    engine: EngineView,
    request: RequestView,
    candidates: Seq<usize>,
    world: World,
    from: int,
    last: Option<Failure>,
)
    requires
        0 <= from <= candidates.len(),
        forall|j: int|
            from <= j < candidates.len() ==> (#[trigger] trial(
                engine,
                request,
                candidates,
                world,
                j,
            )).0 is PassedOver,
    ensures
        tried(engine, request, candidates, true, world, from, last).0 == Err::<
            TranscriptView,
            Failure,
        >(
            if from < candidates.len() {
                trial(engine, request, candidates, world, candidates.len() - 1).0->PassedOver_0
            } else {
                last_or_nobody(last)
            },
        ),
    decreases candidates.len() - from,
{
    if from < candidates.len() {
        let t = trial(engine, request, candidates, world, from).0;
        lemma_all_passed_over(
            engine,
            request,
            candidates,
            world,
            from + 1,
            Some(t->PassedOver_0),
        );
    }
}

/// Without a wanted provider, and with every candidate passed over, the last
/// candidate's failure is the result.
pub proof fn law_last_failure_is_reported(
    engine: EngineView,
    request: RequestView,
    candidates: Seq<usize>,
    world: World,
)
    requires
        candidates.len() > 0,
        forall|j: int|
            0 <= j < candidates.len() ==> (#[trigger] trial(
                engine,
                request,
                candidates,
                world,
                j,
            )).0 is PassedOver,
    ensures
        tried(engine, request, candidates, true, world, 0, None).0 == Err::<
            TranscriptView,
            Failure,
        >(trial(engine, request, candidates, world, candidates.len() - 1).0->PassedOver_0),
{
    lemma_all_passed_over(engine, request, candidates, world, 0, None);
}

/// With a wanted provider, only that provider is tried: its transcript or its
/// failure is the result.
pub proof fn law_wanted_provider_is_the_only_one(
    engine: EngineView,
    request: RequestView,
    candidates: Seq<usize>,
    id: ProviderId,
    world: World,
)
    requires
        are_candidates(engine.stt, Some(id), candidates),
    ensures
        engine.stt[candidates[0] as int].id == id,
        tried(engine, request, candidates, false, world, 0, None) == (
            match trial(engine, request, candidates, world, 0).0 {
                Trial::Served(t) => Ok::<TranscriptView, Failure>(t),
                Trial::Refused(f) => Err(f),
                Trial::PassedOver(f) => Err(f),
            },
            trial(engine, request, candidates, world, 0).1,
        ),
{
}

impl RunView {
    /// Whether the source is one that the current candidate can take: as it is,
    /// or decoded for it.
    pub open spec fn is_ingestible(self, engine: EngineView) -> bool {
        self.converted is Some || !self.needs_conversion(engine)
    }

    /// Whether what the run asks for is prepared: the size is asked for, and
    /// the provider called, only with a source that the provider can take; and
    /// the provider is called only after the request was found to be within its
    /// capabilities.
    pub open spec fn is_prepared(self, engine: EngineView) -> bool {
        &&& self.stage == Stage::Measuring ==> self.is_ingestible(engine)
        &&& self.stage == Stage::Calling ==> self.is_ingestible(engine) && exists|
            input_len: Option<u64>,
        |
            (#[trigger] self.candidate(engine).capabilities.refusal(
                self.candidate(engine).id.name(),
                self.attempt(),
                input_len,
            )) is None
    }
}

proof fn lemma_begun_prepared(run: RunView, engine: EngineView)
    requires
        run.converted is None,
    ensures
        run.begun(engine).is_prepared(engine),
    decreases run.candidates.len() - run.at, 3int,
{
    if run.at < run.candidates.len() {
        if run.needs_conversion(engine) {
            match run.conversion_refusal(engine) {
                Some(f) => lemma_passed_over_prepared(run, engine, f),
                None => {},
            }
        } else {
            lemma_sized_prepared(run, engine);
        }
    }
}

proof fn lemma_sized_prepared(run: RunView, engine: EngineView)
    requires
        run.is_ingestible(engine),
    ensures
        run.sized(engine).is_prepared(engine),
    decreases run.candidates.len() - run.at, 2int,
{
    match run.source() {
        SourceView::Bytes { data, .. } => lemma_validated_prepared(
            run,
            engine,
            Some(data.len() as u64),
        ),
        SourceView::File(_) => {
            assert(RunView { stage: Stage::Measuring, ..run }.is_ingestible(engine));
        },
    }
}

proof fn lemma_validated_prepared(run: RunView, engine: EngineView, input_len: Option<u64>)
    requires
        run.is_ingestible(engine),
    ensures
        run.validated(engine, input_len).is_prepared(engine),
    decreases run.candidates.len() - run.at, 1int,
{
    let candidate = run.candidate(engine);
    match candidate.capabilities.refusal(candidate.id.name(), run.attempt(), input_len) {
        Some(f) => lemma_passed_over_prepared(run, engine, f),
        None => {
            let calling = RunView { stage: Stage::Calling, ..run };
            assert(calling.attempt() == run.attempt());
            assert(calling.is_ingestible(engine));
            assert(calling.candidate(engine).capabilities.refusal(
                calling.candidate(engine).id.name(),
                calling.attempt(),
                input_len,
            ) is None);
        },
    }
}

proof fn lemma_passed_over_prepared(run: RunView, engine: EngineView, f: Failure)
    ensures
        run.passed_over(engine, f).is_prepared(engine),
    decreases run.candidates.len() - run.at, 0int,
{
    if run.auto && run.at < run.candidates.len() {
        lemma_begun_prepared(
            RunView { at: run.at + 1, converted: None, last_error: Some(f), ..run },
            engine,
        );
    }
}

/// Whatever the steps of a transcription bring, a provider gets a request only
/// after the request was found to be within the provider's capabilities, and
/// only with a source that the provider can take: that holds of a run at its
/// start, and every step keeps it.
pub proof fn law_calls_are_prepared(
    engine: EngineView,
    request: RequestView,
    candidates: Seq<usize>,
    auto: bool,
    run: RunView,
    decoded: Result<Seq<char>, Failure>,
    input_len: Option<u64>,
    answer: Result<TranscriptView, Failure>,
)
    requires
        run.is_prepared(engine),
    ensures
        RunView::started(request, candidates, auto).begun(engine).is_prepared(engine),
        run.stage == Stage::Converting ==> run.after_conversion(engine, decoded).is_prepared(
            engine,
        ),
        run.stage == Stage::Measuring ==> run.validated(engine, input_len).is_prepared(engine),
        run.stage == Stage::Calling ==> run.after_answer(engine, answer).is_prepared(engine),
{
    lemma_begun_prepared(RunView::started(request, candidates, auto), engine);
    if run.stage == Stage::Converting {
        match decoded {
            Ok(path) => lemma_sized_prepared(
                RunView {
                    temp_files: run.temp_files.push(path),
                    converted: Some(path),
                    ..run
                },
                engine,
            ),
            Err(f) => lemma_passed_over_prepared(run, engine, f),
        }
    }
    if run.stage == Stage::Measuring {
        lemma_validated_prepared(run, engine, input_len);
    }
    if run.stage == Stage::Calling {
        match answer {
            Ok(_) => {},
            Err(f) => lemma_passed_over_prepared(run, engine, f),
        }
    }
}

// ---------------------------------------------------------------------------
// Speech
// ---------------------------------------------------------------------------

/// A synthesis on its way through the candidates.
#[derive(Debug)]
pub struct SpeakRun {
    pub request: SpeechRequest,
    pub candidates: Vec<usize>,
    /// Whether a failed candidate is followed by the next.
    pub auto: bool,
    /// The place of the current candidate among the candidates.
    pub at: usize,
    pub result: Option<CoreResult<AudioOutput>>,
}

/// What a [`SpeakRun`] holds.
pub struct SpeakView {
    pub request: SpeechRequest,
    pub candidates: Seq<usize>,
    pub auto: bool,
    pub at: int,
    pub result: Option<Result<AudioOutputView, Failure>>,
}

impl DeepView for SpeakRun {
    type V = SpeakView;

    open spec fn deep_view(&self) -> SpeakView {
        SpeakView {
            request: self.request,
            candidates: self.candidates@,
            auto: self.auto,
            at: self.at as int,
            result: match self.result {
                Some(r) => Some(crate::error::outcome(r)),
                None => None,
            },
        }
    }
}

impl SpeakView {
    /// Whether the run is at a candidate, or has its result.
    pub open spec fn is_valid(self) -> bool {
        0 <= self.at < self.candidates.len() || self.result is Some
    }

    /// A run before the first candidate.
    pub open spec fn started(request: SpeechRequest, candidates: Seq<usize>, auto: bool) ->
        SpeakView {
        SpeakView { request, candidates, auto, at: 0, result: None }
    }

    /// The run when the candidate has answered: without a wanted provider, a
    /// failure that lies with the candidate leads to the next one, where there
    /// is one.
    pub open spec fn after_answer(self, answer: Result<AudioOutputView, Failure>) -> SpeakView {
        match answer {
            Err(f) if self.auto && f.is_fallback_worthy() && self.at + 1 < self.candidates.len() =>
                SpeakView { at: self.at + 1, ..self },
            _ => SpeakView { result: Some(answer), ..self },
        }
    }

    /// The result, when every candidate answers what it is asked.
    pub open spec fn driven(
        self,
        answers: spec_fn(SpeechRequest, int) -> Result<AudioOutputView, Failure>,
    ) -> Option<Result<AudioOutputView, Failure>>
        decreases self.candidates.len() - self.at,
    {
        if self.result is Some || self.at >= self.candidates.len() {
            self.result
        } else {
            let next = self.after_answer(answers(self.request, self.at));
            if next.result is Some {
                next.result
            } else {
                next.driven(answers)
            }
        }
    }
}

impl SpeakRun {
    /// The place of the provider to ask, where there is one to ask.
    pub fn candidate(&self) -> (r: Option<usize>)
        requires
            self.deep_view().is_valid(),
        ensures
            r == if self.result is Some {
                None
            } else {
                Some(self.candidates@[self.at as int])
            },
    {
        if self.result.is_some() {
            None
        } else {
            Some(self.candidates[self.at])
        }
    }

    /// What the current candidate is asked: what the run was started with.
    pub fn attempt(&self) -> (r: &SpeechRequest)
        ensures
            *r == self.deep_view().request,
    {
        &self.request
    }

    /// Goes on with the answer of the candidate.
    pub fn answered(self, answer: CoreResult<AudioOutput>) -> (r: SpeakRun)
        requires
            self.deep_view().is_valid(),
            self.result is None,
        ensures
            r.deep_view() == self.deep_view().after_answer(crate::error::outcome(answer)),
            r.deep_view().is_valid(),
    {
        let mut run = self;
        let next = match &answer {
            Err(e) => run.auto && e.is_fallback_worthy() && run.at < run.candidates.len() - 1,
            Ok(_) => false,
        };
        if next {
            run.at = run.at + 1;
        } else {
            run.result = Some(answer);
        }
        run
    }
}

impl Engine {
    /// Batch text-to-speech with `auto` fallback. Every candidate gets the
    /// same request.
    pub fn speak(&self, request: SpeechRequest, want: Option<ProviderId>) -> (r: CoreResult<
        SpeakRun,
    >)
        ensures
            match (
                r,
                no_candidates(
                    self.deep_view().tts,
                    want,
                    "text-to-speech"@,
                    "no text-to-speech providers are configured (set an API key or install a local TTS model)"@,
                ),
            ) {
                (Ok(run), None) => {
                    &&& are_candidates(self.deep_view().tts, want, run.candidates@)
                    &&& run.deep_view() == SpeakView::started(
                        request,
                        run.candidates@,
                        want is None,
                    )
                    &&& run.deep_view().is_valid()
                },
                (Err(e), Some(f)) => e.deep_view() == f,
                _ => false,
            },
    {
        match candidates(
            &self.tts,
            want,
            "text-to-speech",
            "no text-to-speech providers are configured (set an API key or install a local TTS model)",
        ) {
            Ok(candidates) => Ok(
                SpeakRun { request, candidates, auto: want.is_none(), at: 0, result: None },
            ),
            Err(e) => Err(e),
        }
    }
}

/// Whether an answer leads to the next candidate, where there is one.
pub open spec fn falls_back(answer: Result<AudioOutputView, Failure>) -> bool {
    match answer {
        Ok(_) => false,
        Err(f) => f.is_fallback_worthy(),
    }
}

proof fn lemma_speech_decided(
    run: SpeakView,
    answers: spec_fn(SpeechRequest, int) -> Result<AudioOutputView, Failure>,
    k: int,
)
    requires
        run.result is None,
        run.auto,
        0 <= run.at <= k < run.candidates.len(),
        forall|j: int| run.at <= j < k ==> falls_back(#[trigger] answers(run.request, j)),
        !falls_back(answers(run.request, k)) || k == run.candidates.len() - 1,
    ensures
        run.driven(answers) == Some(answers(run.request, k)),
    decreases k - run.at,
{
    let here = answers(run.request, run.at);
    if run.at < k {
        assert(falls_back(here));
        lemma_speech_decided(SpeakView { at: run.at + 1, ..run }, answers, k);
    }
}

/// Without a wanted provider, the answer to the request of the first candidate
/// that does not fail for its own reasons is the result, or else that of the
/// last candidate.
pub proof fn law_first_voice_decides(
    request: SpeechRequest,
    candidates: Seq<usize>,
    answers: spec_fn(SpeechRequest, int) -> Result<AudioOutputView, Failure>,
    k: int,
)
    requires
        0 <= k < candidates.len(),
        forall|j: int| 0 <= j < k ==> falls_back(#[trigger] answers(request, j)),
        !falls_back(answers(request, k)) || k == candidates.len() - 1,
    ensures
        SpeakView::started(request, candidates, true).driven(answers) == Some(answers(request, k)),
{
    lemma_speech_decided(SpeakView::started(request, candidates, true), answers, k);
}

/// With a wanted provider, its answer to the request is the result, whatever it
/// is.
pub proof fn law_wanted_voice_is_the_only_one(
    request: SpeechRequest,
    candidates: Seq<usize>,
    answers: spec_fn(SpeechRequest, int) -> Result<AudioOutputView, Failure>,
)
    requires
        candidates.len() > 0,
    ensures
        SpeakView::started(request, candidates, false).driven(answers) == Some(answers(request, 0)),
{
}

// ---------------------------------------------------------------------------
// Laws of what a candidate is asked
// ---------------------------------------------------------------------------

/// Whatever a transcription has come to, its candidate is asked what was asked of
/// the transcription, field by field. Only the source may be another: the decoded
/// file, exactly where one was made for the candidate.
pub proof fn law_candidate_is_asked_the_request(run: RunView)
    ensures
        run.attempt().language == run.request.language,
        run.attempt().model == run.request.model,
        run.attempt().diarize == run.request.diarize,
        run.attempt().word_timestamps == run.request.word_timestamps,
        run.attempt().keyterms == run.request.keyterms,
        run.attempt().prompt == run.request.prompt,
        match run.converted {
            Some(path) => run.attempt().source == SourceView::File(path),
            None => run.attempt().source == run.request.source,
        },
{
}

proof fn lemma_begun_unconverted(run: RunView, engine: EngineView)
    requires
        run.converted is None,
    ensures
        run.begun(engine).converted is None,
    decreases run.candidates.len() - run.at, 3int,
{
    if run.at < run.candidates.len() {
        if run.needs_conversion(engine) {
            match run.conversion_refusal(engine) {
                Some(f) => lemma_passed_over_unconverted(run, engine, f),
                None => {},
            }
        } else {
            lemma_sized_unconverted(run, engine);
        }
    }
}

proof fn lemma_sized_unconverted(run: RunView, engine: EngineView)
    ensures
        run.sized(engine).converted is None || run.sized(engine).converted == run.converted
            && run.sized(engine).at == run.at,
        run.sized(engine).at == run.at ==> run.sized(engine).converted == run.converted,
    decreases run.candidates.len() - run.at, 2int,
{
    match run.source() {
        SourceView::Bytes { data, .. } => lemma_validated_unconverted(
            run,
            engine,
            Some(data.len() as u64),
        ),
        SourceView::File(_) => {},
    }
}

proof fn lemma_validated_unconverted(run: RunView, engine: EngineView, input_len: Option<u64>)
    ensures
        run.validated(engine, input_len).converted is None || run.validated(
            engine,
            input_len,
        ).converted == run.converted && run.validated(engine, input_len).at == run.at,
        run.validated(engine, input_len).at == run.at ==> run.validated(engine, input_len).converted
            == run.converted,
    decreases run.candidates.len() - run.at, 1int,
{
    let candidate = run.candidate(engine);
    match candidate.capabilities.refusal(candidate.id.name(), run.attempt(), input_len) {
        Some(f) => lemma_passed_over_unconverted(run, engine, f),
        None => {},
    }
}

proof fn lemma_passed_over_unconverted(run: RunView, engine: EngineView, f: Failure)
    ensures
        run.passed_over(engine, f).converted is None || run.passed_over(engine, f).converted
            == run.converted && run.passed_over(engine, f).at == run.at,
        run.passed_over(engine, f).at == run.at ==> run.passed_over(engine, f).converted
            == run.converted,
    decreases run.candidates.len() - run.at, 0int,
{
    if run.auto && run.at < run.candidates.len() {
        let next = RunView { at: run.at + 1, converted: None, last_error: Some(f), ..run };
        lemma_begun_unconverted(next, engine);
        lemma_begun_leads(next, engine);
    }
}

/// Whatever the steps of a transcription bring, it stays about the request and the
/// candidates that it was started with, so that every candidate is asked the same.
/// The decoded file goes to the candidate that it was decoded for and to no other,
/// and is among the files to be removed in the end.
pub proof fn law_request_reaches_every_candidate(
    engine: EngineView,
    request: RequestView,
    candidates: Seq<usize>,
    auto: bool,
    run: RunView,
    decoded: Result<Seq<char>, Failure>,
    input_len: Option<u64>,
    answer: Result<TranscriptView, Failure>,
)
    requires
        run.request == request,
        run.candidates == candidates,
    ensures
        RunView::started(request, candidates, auto).begun(engine).request == request,
        RunView::started(request, candidates, auto).begun(engine).candidates == candidates,
        RunView::started(request, candidates, auto).begun(engine).converted is None,
        run.after_conversion(engine, decoded).request == request,
        run.after_conversion(engine, decoded).candidates == candidates,
        run.validated(engine, input_len).request == request,
        run.validated(engine, input_len).candidates == candidates,
        run.after_answer(engine, answer).request == request,
        run.after_answer(engine, answer).candidates == candidates,
        decoded matches Ok(path) ==> {
            let next = run.after_conversion(engine, decoded);
            &&& next.temp_files.contains(path)
            &&& next.at == run.at ==> next.converted == Some(path)
            &&& next.at != run.at ==> next.converted is None
        },
        run.validated(engine, input_len).converted == if run.validated(engine, input_len).at
            == run.at {
            run.converted
        } else {
            None
        },
        run.after_answer(engine, answer).at != run.at ==> run.after_answer(engine, answer).converted
            is None,
{
    let start = RunView::started(request, candidates, auto);
    lemma_begun_leads(start, engine);
    lemma_begun_unconverted(start, engine);
    match decoded {
        Ok(path) => {
            let next = RunView {
                temp_files: run.temp_files.push(path),
                converted: Some(path),
                ..run
            };
            lemma_sized_leads(next, engine);
            lemma_sized_unconverted(next, engine);
            assert(next.temp_files[run.temp_files.len() as int] == path);
            assert(next.sized(engine).temp_files[run.temp_files.len() as int] == path);
        },
        Err(f) => {
            lemma_passed_over_leads(run, engine, f);
        },
    }
    lemma_validated_leads(run, engine, input_len);
    lemma_validated_unconverted(run, engine, input_len);
    if let Err(f) = answer {
        lemma_passed_over_leads(run, engine, f);
        lemma_passed_over_unconverted(run, engine, f);
    }
}

/// A source is decoded for a candidate exactly where its name has an extension
/// that is not among those that the candidate lists, whatever the case of the
/// letters, and the candidate lists any.
pub proof fn law_source_is_decoded_where_it_must_be(run: RunView, engine: EngineView)
    ensures
        run.needs_conversion(engine) <==> match run.request.source.extension(engine.style) {
            Some(e) => e.len() > 0 && run.candidate(engine).capabilities.stt_input_extensions.len()
                > 0 && forall|i: int|
                0 <= i < run.candidate(engine).capabilities.stt_input_extensions.len()
                    ==> text::lower(
                    #[trigger] run.candidate(engine).capabilities.stt_input_extensions[i],
                ) != text::lower(e),
            None => false,
        },
        run.stage != Stage::Converting && run.at < run.candidates.len() && run.converted is None
            && run.begun(engine).stage == Stage::Converting && run.begun(engine).at == run.at
            ==> run.needs_conversion(engine) && engine.decoder && run.request.source is File,
        run.at < run.candidates.len() && run.needs_conversion(engine) && engine.decoder
            && run.request.source is File ==> run.begun(engine).stage == Stage::Converting
            && run.begun(engine).at == run.at,
{
    lemma_sized_leads(run, engine);
    if let Some(f) = run.conversion_refusal(engine) {
        lemma_passed_over_leads(run, engine, f);
    }
}

/// What a run asks for is about its own source and candidate: to decode the file
/// that was asked for, to measure the file that will be sent, to call the provider
/// whose turn it is.
pub proof fn law_steps_are_about_the_source(run: RunView, engine: EngineView)
    requires
        run.is_valid(engine),
    ensures
        run.stage == Stage::Converting ==> match run.request.source {
            SourceView::File(p) => run.action() == ActionView::Convert(p),
            _ => false,
        },
        run.stage == Stage::Measuring ==> match run.attempt().source {
            SourceView::File(p) => run.action() == ActionView::Measure(p),
            SourceView::Bytes { .. } => run.action() is Finish,
        },
        run.stage == Stage::Calling ==> run.action() == ActionView::Call(run.candidates[run.at]),
        run.stage == Stage::Finished ==> run.action() is Finish,
{
}

/// A transcript that a candidate brings is the result. A failure that every
/// candidate would have (invalid input, audio that cannot be decoded, a file that
/// cannot be read) is the result as well, and so is every failure where a provider
/// was asked for; any other failure of a candidate leads to the next one, or to the
/// result where it was the last.
pub proof fn law_answer_decides(
    run: RunView,
    engine: EngineView,
    answer: Result<TranscriptView, Failure>,
)
    requires
        0 <= run.at < run.candidates.len(),
    ensures
        ({
            let next = run.after_answer(engine, answer);
            match answer {
                Ok(t) => next.result == Some(Ok::<TranscriptView, Failure>(t)) && next.stage
                    == Stage::Finished && next.at == run.at,
                Err(f) => {
                    let for_all = f is InvalidInput || f is Audio || f is Io;
                    &&& for_all || !run.auto ==> next.result == Some(
                        Err::<TranscriptView, Failure>(f),
                    ) && next.stage == Stage::Finished && next.at == run.at
                    &&& !for_all && run.auto ==> next.at > run.at
                    &&& !for_all && run.auto && run.at + 1 == run.candidates.len() ==> next.result
                        == Some(Err::<TranscriptView, Failure>(f)) && next.stage == Stage::Finished
                },
            }
        }),
{
    if let Err(f) = answer {
        if run.auto {
            lemma_begun_leads(
                RunView { at: run.at + 1, converted: None, last_error: Some(f), ..run },
                engine,
            );
        }
    }
}

/// A candidate that cannot be used is passed over for the next one where any will
/// do; where a provider was asked for, the refusal is the result.
pub proof fn law_refused_candidate_is_passed_over(
    run: RunView,
    engine: EngineView,
    input_len: Option<u64>,
)
    requires
        0 <= run.at < run.candidates.len(),
    ensures
        ({
            let c = run.candidate(engine);
            let next = run.validated(engine, input_len);
            match c.capabilities.refusal(c.id.name(), run.attempt(), input_len) {
                None => next.stage == Stage::Calling && next.at == run.at,
                Some(f) => if run.auto {
                    next.at > run.at
                } else {
                    next.stage == Stage::Finished && next.result == Some(
                        Err::<TranscriptView, Failure>(f),
                    )
                },
            }
        }),
{
    let c = run.candidate(engine);
    if let Some(f) = c.capabilities.refusal(c.id.name(), run.attempt(), input_len) {
        if run.auto {
            lemma_begun_leads(
                RunView { at: run.at + 1, converted: None, last_error: Some(f), ..run },
                engine,
            );
        }
    }
}

// ---------------------------------------------------------------------------
// Laws of selection
// ---------------------------------------------------------------------------

/// Where a provider is asked for, the candidates are that provider alone, in its
/// first registration; where none is, they are all that are registered, in order.
/// There are none only where the provider, or any, is not registered.
pub proof fn law_candidates(
    providers: Seq<RegistrationView>,
    want: Option<ProviderId>,
    candidates: Seq<usize>,
    what: Seq<char>,
    none: Seq<char>,
)
    ensures
        are_candidates(providers, want, candidates) ==> match want {
            Some(id) => candidates.len() == 1 && candidates[0] < providers.len()
                && providers[candidates[0] as int].id == id && forall|j: int|
                0 <= j < candidates[0] ==> (#[trigger] providers[j]).id != id,
            None => candidates.len() == providers.len() && forall|i: int|
                0 <= i < candidates.len() ==> (#[trigger] candidates[i]) == i,
        },
        no_candidates(providers, want, what, none) is Some <==> match want {
            Some(id) => forall|j: int|
                0 <= j < providers.len() ==> (#[trigger] providers[j]).id != id,
            None => providers.len() == 0,
        },
        no_candidates(providers, want, what, none) matches Some(f) ==> f is NotConfigured,
{
    if let Some(id) = want {
        if exists|j: int| 0 <= j < providers.len() && (#[trigger] providers[j]).id == id {
            let j = choose|j: int| 0 <= j < providers.len() && (#[trigger] providers[j]).id == id;
            lemma_first_of(providers, id, j);
        }
    }
}

proof fn lemma_first_of(providers: Seq<RegistrationView>, id: ProviderId, j: int)
    requires
        0 <= j < providers.len(),
        providers[j].id == id,
    ensures
        is_registered(providers, id),
    decreases j,
{
    if exists|i: int| 0 <= i < j && (#[trigger] providers[i]).id == id {
        let i = choose|i: int| 0 <= i < j && (#[trigger] providers[i]).id == id;
        lemma_first_of(providers, id, i);
    } else {
        assert(is_first_of(providers, id, j));
    }
}

/// The provider to use for a session is the first registration of the one that is
/// asked for, or the first of all; there is one unless it, or any, is not
/// registered.
pub proof fn law_choice(providers: Seq<RegistrationView>, want: Option<ProviderId>)
    ensures
        forall|i: int| #[trigger]
            is_choice(providers, want, i) ==> 0 <= i < providers.len() && match want {
                Some(id) => providers[i].id == id && forall|j: int|
                    0 <= j < i ==> (#[trigger] providers[j]).id != id,
                None => i == 0,
            },
        (exists|i: int| #[trigger] is_choice(providers, want, i)) <==> match want {
            Some(id) => exists|j: int|
                0 <= j < providers.len() && (#[trigger] providers[j]).id == id,
            None => providers.len() > 0,
        },
{
    match want {
        Some(id) => {
            if exists|j: int| 0 <= j < providers.len() && (#[trigger] providers[j]).id == id {
                let j = choose|j: int| 0 <= j < providers.len() && (#[trigger] providers[j]).id == id;
                lemma_first_of(providers, id, j);
                let i = choose|i: int| is_first_of(providers, id, i);
                assert(is_choice(providers, want, i));
            }
        },
        None => {
            assert(providers.len() > 0 ==> is_choice(providers, want, 0));
        },
    }
}

// ---------------------------------------------------------------------------
// Laws of speech
// ---------------------------------------------------------------------------

/// A synthesis stays about the request and the candidates that it was started
/// with. Speech is the result; so is a failure that every candidate would have, and
/// every failure where a provider was asked for or no candidate is left; any other
/// leads to the next candidate.
pub proof fn law_speech_answer_decides(run: SpeakView, answer: Result<AudioOutputView, Failure>)
    requires
        0 <= run.at < run.candidates.len(),
        run.result is None,
    ensures
        ({
            let next = run.after_answer(answer);
            &&& next.request == run.request
            &&& next.candidates == run.candidates
            &&& match answer {
                Ok(a) => next.result == Some(Ok::<AudioOutputView, Failure>(a)),
                Err(f) => if run.auto && !(f is InvalidInput || f is Audio || f is Io) && run.at + 1
                    < run.candidates.len() {
                    next.at == run.at + 1 && next.result is None
                } else {
                    next.result == Some(Err::<AudioOutputView, Failure>(f))
                },
            }
        }),
{
}

/// The views of an engine and of its runs show each field as it is.
pub proof fn law_views_of_runs(g: Registration, e: Engine, r: TranscribeRun, s: SpeakRun)
    ensures
        g.deep_view().id == g.id,
        g.deep_view().capabilities == g.capabilities.deep_view(),
        e.deep_view().stt == e.stt.deep_view(),
        e.deep_view().tts == e.tts.deep_view(),
        e.deep_view().streaming_stt == e.streaming_stt.deep_view(),
        e.deep_view().streaming_tts == e.streaming_tts.deep_view(),
        e.deep_view().decoder == e.decoder,
        e.deep_view().style == e.style,
        r.deep_view().request == r.request.deep_view(),
        r.deep_view().candidates == r.candidates@,
        r.deep_view().auto == r.auto,
        r.deep_view().at == r.at,
        r.deep_view().converted == r.converted.deep_view(),
        r.deep_view().last_error == r.last_error.deep_view(),
        r.deep_view().temp_files == r.temp_files.deep_view(),
        r.deep_view().stage == r.stage,
        r.deep_view().result is Some <==> r.result is Some,
        r.result matches Some(x) ==> r.deep_view().result == Some(crate::error::outcome(x)),
        s.deep_view().request == s.request,
        s.deep_view().candidates == s.candidates@,
        s.deep_view().auto == s.auto,
        s.deep_view().at == s.at,
        s.deep_view().result is Some <==> s.result is Some,
        s.result matches Some(x) ==> s.deep_view().result == Some(crate::error::outcome(x)),
{
}

/// Audio that cannot be decoded for a candidate leads to the next one where any will
/// do, and is the result where a provider was asked for or no candidate is left. Where
/// nothing can decode, or the source is in memory, that is known at once.
pub proof fn law_failed_decoding(run: RunView, engine: EngineView, f: Failure)
    requires
        0 <= run.at < run.candidates.len(),
    ensures
        ({
            let next = run.after_conversion(engine, Err(f));
            &&& !run.auto || run.at + 1 == run.candidates.len() ==> next.stage == Stage::Finished
                && next.result == Some(Err::<TranscriptView, Failure>(f))
            &&& run.auto ==> next.at > run.at
        }),
        run.needs_conversion(engine) && (!engine.decoder || run.request.source is Bytes) ==> {
            let next = run.begun(engine);
            &&& !run.auto || run.at + 1 == run.candidates.len() ==> next.stage == Stage::Finished
                && (next.result matches Some(Err(e)) && e is Audio)
            &&& run.auto ==> next.at > run.at
        },
{
    if run.auto {
        lemma_begun_leads(
            RunView { at: run.at + 1, converted: None, last_error: Some(f), ..run },
            engine,
        );
    }
    if let Some(g) = run.conversion_refusal(engine) {
        if run.auto {
            lemma_begun_leads(
                RunView { at: run.at + 1, converted: None, last_error: Some(g), ..run },
                engine,
            );
        }
    }
}

/// Before a candidate is called, the size of what it gets is held against its limit:
/// that of audio in memory is known, and a file is measured first. A refusal of the last
/// candidate is the result.
pub proof fn law_size_is_held_against_the_limit(run: RunView, engine: EngineView)
    requires
        0 <= run.at < run.candidates.len(),
        run.converted is None,
        !run.needs_conversion(engine),
    ensures
        run.request.source is File ==> run.begun(engine).stage == Stage::Measuring && run.begun(
            engine,
        ).at == run.at,
        run.request.source matches SourceView::Bytes { data, .. } ==> {
            let c = run.candidate(engine);
            let next = run.begun(engine);
            match c.capabilities.refusal(c.id.name(), run.request, Some(data.len() as u64)) {
                None => next.stage == Stage::Calling && next.at == run.at,
                Some(f) => {
                    &&& run.auto ==> next.at > run.at
                    &&& !run.auto || run.at + 1 == run.candidates.len() ==> next.stage
                        == Stage::Finished && next.result == Some(Err::<TranscriptView, Failure>(f))
                },
            }
        },
{
    assert(run.attempt() == run.request);
    if let SourceView::Bytes { data, .. } = run.request.source {
        let c = run.candidate(engine);
        if let Some(f) = c.capabilities.refusal(
            c.id.name(),
            run.request,
            Some(data.len() as u64),
        ) {
            let len = Some(data.len() as u64);
            assert(run.begun(engine) == run.sized(engine));
            assert(run.sized(engine) == run.validated(engine, len));
            assert(run.validated(engine, len) == run.passed_over(engine, f));
            if run.auto {
                let next = RunView {
                    at: run.at + 1,
                    converted: None,
                    last_error: Some(f),
                    ..run
                };
                lemma_begun_leads(next, engine);
                assert(run.passed_over(engine, f) == next.begun(engine));
            }
        }
    }
}

/// Where no provider can be found, what is told names the one that was asked for, or
/// `auto`, and what it was asked for.
pub proof fn law_missing_provider_is_named(
    providers: Seq<RegistrationView>,
    want: Option<ProviderId>,
    what: Seq<char>,
    none: Seq<char>,
)
    ensures
        no_choice(want, what) == match want {
            Some(id) => Failure::NotConfigured {
                provider: id.name(),
                message: "provider is not configured for "@ + what
                    + " (missing API key or model?)"@,
            },
            None => Failure::NotConfigured {
                provider: "auto"@,
                message: "no providers are configured for "@ + what,
            },
        },
        no_candidates(providers, want, what, none) matches Some(f) ==> f == match want {
            Some(id) => Failure::NotConfigured {
                provider: id.name(),
                message: "provider is not configured for "@ + what
                    + " (missing API key or model?)"@,
            },
            None => Failure::NotConfigured { provider: "auto"@, message: none },
        },
{
}

/// A source that cannot be decoded is refused for want of a decoder or, with one, for
/// not being a file; and a run without candidates fails for want of a provider.
pub proof fn law_refusals_to_decode(run: RunView, engine: EngineView)
    ensures
        !engine.decoder ==> run.conversion_refusal(engine) == Some(
            Failure::Audio(
                "input format requires transcoding but no audio decoder is available (is ffmpeg installed?)"@,
            ),
        ),
        engine.decoder && run.request.source is Bytes ==> run.conversion_refusal(engine) == Some(
            Failure::Audio("transcoding in-memory sources is not supported"@),
        ),
        engine.decoder && run.request.source is File ==> run.conversion_refusal(engine) is None,
        last_or_nobody(None) == (Failure::NotConfigured {
            provider: "auto"@,
            message: "no provider could handle the request"@,
        }),
        run.last_error matches Some(f) ==> last_or_nobody(run.last_error) == f,
{
}

} // verus!
