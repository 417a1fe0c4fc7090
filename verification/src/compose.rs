//! Composition: the adapters that the configuration enables, registered in
//! `auto` preference order.
//!
//! Speech-to-text order: local-canary, xai, elevenlabs, cartesia, openai.
//! Text-to-speech order: local-qwen3, xai, elevenlabs, cartesia, openai.

use crate::canary::CanaryLocalProvider;
use crate::cartesia::{CartesiaProvider, CartesiaSettings};
use crate::config::Config;
use crate::elevenlabs::{ElevenLabsProvider, ElevenLabsSettings};
use crate::engine::{Engine, EngineView, Registration, RegistrationView};
use crate::models;
use crate::openai::{OpenAiProvider, OpenAiSettings};
use crate::path;
use crate::path::Style;
use crate::ports::Provider;
use crate::provider::ProviderId;
use crate::qwen3_tts::Qwen3TtsLocalProvider;
use crate::text;
use crate::xai::{XaiProvider, XaiSettings};
use vstd::prelude::*;

verus! {

/// The adapters that are enabled, and the engine that chooses among them.
#[derive(Debug)]
pub struct Composition {
    pub engine: Engine,
    /// Which providers are configured (API key present or model installed).
    pub configured: Vec<ProviderId>,
    pub canary: Option<CanaryLocalProvider>,
    pub qwen3: Option<Qwen3TtsLocalProvider>,
    pub xai: Option<XaiProvider>,
    pub elevenlabs: Option<ElevenLabsProvider>,
    pub cartesia: Option<CartesiaProvider>,
    pub openai: Option<OpenAiProvider>,
}

/// The API keys that were found.
#[derive(Debug)]
pub struct Keys {
    pub xai: Option<String>,
    pub elevenlabs: Option<String>,
    pub cartesia: Option<String>,
    pub openai: Option<String>,
}

/// Where the local text-to-speech model is loaded from.
#[derive(Debug)]
pub enum Qwen3Source {
    Dir(String),
    HfCache,
}

/// What a [`Qwen3Source`] names: a directory, or the shared cache.
pub open spec fn source_dir(source: Qwen3Source) -> Option<Seq<char>> {
    match source {
        Qwen3Source::Dir(d) => Some(d@),
        Qwen3Source::HfCache => None,
    }
}

/// Whether the local speech-to-text model is installed, given the sizes of its
/// files.
pub fn local_canary_installed(sizes: &Vec<Option<u64>>) -> (r: bool)
    requires
        sizes@.len() == 4,
    ensures
        r == models::are_complete(sizes@),
{
    models::canary_1b_v2().is_installed(sizes)
}

/// Where the local text-to-speech model would load from, if anywhere: the
/// configured directory, the models directory where it is installed there, the
/// shared cache. `sizes` holds the size of each file of the model that exists in
/// the models directory.
pub fn local_qwen3_source(
    config: &Config,
    models_dir: &str,
    sizes: &Vec<Option<u64>>,
    hf_cache: bool,
    style: Style,
) -> (r: Option<Qwen3Source>)
    requires
        sizes@.len() == 4,
    ensures
        match r {
            Some(Qwen3Source::Dir(d)) => if !text::is_blank(config.local.tts_model_dir@) {
                d@ == text::trim(config.local.tts_model_dir@)
            } else {
                models::are_complete(sizes@) && d@ == path::join(models_dir@, "qwen3-tts"@, style)
            },
            Some(Qwen3Source::HfCache) => text::is_blank(config.local.tts_model_dir@)
                && !models::are_complete(sizes@) && hf_cache,
            None => text::is_blank(config.local.tts_model_dir@) && !models::are_complete(sizes@)
                && !hf_cache,
        },
{
    let explicit = text::trimmed(&config.local.tts_model_dir);
    if !explicit.is_empty() {
        return Some(Qwen3Source::Dir(explicit.to_owned()));
    }
    let model = models::qwen3_tts();
    if model.is_installed(sizes) {
        Some(Qwen3Source::Dir(model.dir(models_dir, style)))
    } else if hf_cache {
        Some(Qwen3Source::HfCache)
    } else {
        None
    }
}

/// The xAI adapter with the configured settings.
pub fn xai(config: &Config, key: &str) -> (r: XaiProvider)
    ensures
        r.api_key@ == key@,
        r.settings.base_url@ == config.providers.xai.base_url@,
        r.settings.ws_url@ == config.providers.xai.ws_url@,
        r.settings.tts_voice@ == config.providers.xai.tts_voice@,
{
    XaiProvider::new(
        key,
        XaiSettings {
            base_url: config.providers.xai.base_url.clone(),
            ws_url: config.providers.xai.ws_url.clone(),
            tts_voice: config.providers.xai.tts_voice.clone(),
        },
    )
}

/// The ElevenLabs adapter with the configured settings.
pub fn elevenlabs(config: &Config, key: &str) -> (r: ElevenLabsProvider)
    ensures
        r.api_key@ == key@,
        r.settings.base_url@ == config.providers.elevenlabs.base_url@,
        r.settings.stt_model@ == config.providers.elevenlabs.stt_model@,
        r.settings.tts_model@ == config.providers.elevenlabs.tts_model@,
        r.settings.tts_voice@ == config.providers.elevenlabs.tts_voice@,
{
    ElevenLabsProvider::new(
        key,
        ElevenLabsSettings {
            base_url: config.providers.elevenlabs.base_url.clone(),
            stt_model: config.providers.elevenlabs.stt_model.clone(),
            tts_model: config.providers.elevenlabs.tts_model.clone(),
            tts_voice: config.providers.elevenlabs.tts_voice.clone(),
        },
    )
}

/// The Cartesia adapter with the configured settings.
pub fn cartesia(config: &Config, key: &str) -> (r: CartesiaProvider)
    ensures
        r.api_key@ == key@,
        r.settings.base_url@ == config.providers.cartesia.base_url@,
        r.settings.version@ == config.providers.cartesia.version@,
        r.settings.stt_model@ == config.providers.cartesia.stt_model@,
        r.settings.tts_model@ == config.providers.cartesia.tts_model@,
        r.settings.tts_voice@ == config.providers.cartesia.tts_voice@,
{
    CartesiaProvider::new(
        key,
        CartesiaSettings {
            base_url: config.providers.cartesia.base_url.clone(),
            version: config.providers.cartesia.version.clone(),
            stt_model: config.providers.cartesia.stt_model.clone(),
            tts_model: config.providers.cartesia.tts_model.clone(),
            tts_voice: config.providers.cartesia.tts_voice.clone(),
        },
    )
}

/// The OpenAI adapter with the configured settings.
pub fn openai(config: &Config, key: &str) -> (r: OpenAiProvider)
    ensures
        r.api_key@ == key@,
        r.settings.base_url@ == config.providers.openai.base_url@,
        r.settings.stt_model@ == config.providers.openai.stt_model@,
        r.settings.tts_model@ == config.providers.openai.tts_model@,
        r.settings.tts_voice@ == config.providers.openai.tts_voice@,
{
    OpenAiProvider::new(
        key,
        OpenAiSettings {
            base_url: config.providers.openai.base_url.clone(),
            stt_model: config.providers.openai.stt_model.clone(),
            tts_model: config.providers.openai.tts_model.clone(),
            tts_voice: config.providers.openai.tts_voice.clone(),
        },
    )
}

/// How an adapter is registered: as what it says of itself.
pub open spec fn registered<P: Provider>(p: P) -> RegistrationView {
    RegistrationView { id: p.identity(), capabilities: p.abilities() }
}

/// The registration of an adapter, where there is one.
pub open spec fn entry<P: Provider>(p: Option<P>) -> Seq<RegistrationView> {
    match p {
        Some(p) => seq![registered(p)],
        None => Seq::empty(),
    }
}

fn registration<P: Provider>(p: &P) -> (r: Registration)
    ensures
        r.deep_view() == registered(*p),
{
    Registration { id: p.id(), capabilities: p.capabilities() }
}

/// A provider where it is there.
pub open spec fn listed(there: bool, id: ProviderId) -> Seq<ProviderId> {
    if there {
        seq![id]
    } else {
        Seq::empty()
    }
}

impl Composition {
    /// The engine that these adapters make, in preference order.
    pub open spec fn engine_view(self) -> EngineView {
        EngineView {
            stt: entry(self.canary) + entry(self.xai) + entry(self.elevenlabs) + entry(
                self.cartesia,
            ) + entry(self.openai),
            tts: entry(self.qwen3) + entry(self.xai) + entry(self.elevenlabs) + entry(
                self.cartesia,
            ) + entry(self.openai),
            streaming_stt: entry(self.xai),
            streaming_tts: entry(self.xai),
            decoder: true,
            style: self.engine.style,
        }
    }

    /// The providers that these adapters serve.
    pub open spec fn providers(self) -> Seq<ProviderId> {
        listed(self.canary is Some, ProviderId::LocalCanary) + listed(
            self.qwen3 is Some,
            ProviderId::LocalQwen3,
        ) + listed(self.xai is Some, ProviderId::Xai) + listed(
            self.elevenlabs is Some,
            ProviderId::Elevenlabs,
        ) + listed(self.cartesia is Some, ProviderId::Cartesia) + listed(
            self.openai is Some,
            ProviderId::Openai,
        )
    }
}

fn make_engine(
    canary: &Option<CanaryLocalProvider>,
    qwen3: &Option<Qwen3TtsLocalProvider>,
    xai: &Option<XaiProvider>,
    elevenlabs: &Option<ElevenLabsProvider>,
    cartesia: &Option<CartesiaProvider>,
    openai: &Option<OpenAiProvider>,
    style: Style,
) -> (r: Engine)
    ensures
        r.deep_view().stt == entry(*canary) + entry(*xai) + entry(*elevenlabs) + entry(*cartesia)
            + entry(*openai),
        r.deep_view().tts == entry(*qwen3) + entry(*xai) + entry(*elevenlabs) + entry(*cartesia)
            + entry(*openai),
        r.deep_view().streaming_stt == entry(*xai),
        r.deep_view().streaming_tts == entry(*xai),
        r.deep_view().decoder,
        r.style == style,
{
    let mut b = Engine::builder().decoder();
    if let Some(p) = canary {
        b = b.stt(registration(p));
    }
    assert(b.engine.deep_view().stt =~= entry(*canary));
    if let Some(p) = qwen3 {
        b = b.tts(registration(p));
    }
    assert(b.engine.deep_view().tts =~= entry(*qwen3));
    let ghost e0 = b.engine.deep_view();
    if let Some(p) = xai {
        b = b.stt(registration(p)).tts(registration(p)).streaming_stt(
            registration(p),
        ).streaming_tts(registration(p));
    }
    assert(b.engine.deep_view().stt =~= e0.stt + entry(*xai));
    assert(b.engine.deep_view().tts =~= e0.tts + entry(*xai));
    assert(b.engine.deep_view().streaming_stt =~= entry(*xai));
    assert(b.engine.deep_view().streaming_tts =~= entry(*xai));
    let ghost e1 = b.engine.deep_view();
    if let Some(p) = elevenlabs {
        b = b.stt(registration(p)).tts(registration(p));
    }
    assert(b.engine.deep_view().stt =~= e1.stt + entry(*elevenlabs));
    assert(b.engine.deep_view().tts =~= e1.tts + entry(*elevenlabs));
    let ghost e2 = b.engine.deep_view();
    if let Some(p) = cartesia {
        b = b.stt(registration(p)).tts(registration(p));
    }
    assert(b.engine.deep_view().stt =~= e2.stt + entry(*cartesia));
    assert(b.engine.deep_view().tts =~= e2.tts + entry(*cartesia));
    let ghost e3 = b.engine.deep_view();
    if let Some(p) = openai {
        b = b.stt(registration(p)).tts(registration(p));
    }
    assert(b.engine.deep_view().stt =~= e3.stt + entry(*openai));
    assert(b.engine.deep_view().tts =~= e3.tts + entry(*openai));
    b.style(style).build()
}

/// Builds the adapters and the engine. `canary_dir` is the directory of the
/// local speech-to-text model and `qwen3` the source of the local
/// text-to-speech model, where they can be used.
pub fn build(
    config: &Config,
    canary_dir: Option<String>,
    qwen3: Option<Qwen3Source>,
    keys: &Keys,
    style: Style,
) -> (r: Composition)
    ensures
        r.engine.deep_view() == r.engine_view(),
        r.engine.style == style,
        r.configured@ == r.providers(),
        match (r.canary, canary_dir) {
            (Some(p), Some(d)) => p.model_dir@ == d@,
            (None, None) => true,
            _ => false,
        },
        match (r.qwen3, qwen3) {
            (Some(p), Some(s)) => p.model_dir.deep_view() == source_dir(s) && p.default_voice@
                == if config.local.tts_voice@.len() > 0 {
                config.local.tts_voice@
            } else {
                crate::qwen3_tts::DEFAULT_VOICE@
            },
            (None, None) => true,
            _ => false,
        },
        match (r.xai, keys.xai) {
            (Some(p), Some(k)) => p.api_key@ == k@ && p.settings.base_url@
                == config.providers.xai.base_url@ && p.settings.ws_url@
                == config.providers.xai.ws_url@ && p.settings.tts_voice@
                == config.providers.xai.tts_voice@,
            (None, None) => true,
            _ => false,
        },
        match (r.elevenlabs, keys.elevenlabs) {
            (Some(p), Some(k)) => p.api_key@ == k@ && p.settings.base_url@
                == config.providers.elevenlabs.base_url@ && p.settings.stt_model@
                == config.providers.elevenlabs.stt_model@ && p.settings.tts_model@
                == config.providers.elevenlabs.tts_model@ && p.settings.tts_voice@
                == config.providers.elevenlabs.tts_voice@,
            (None, None) => true,
            _ => false,
        },
        match (r.cartesia, keys.cartesia) {
            (Some(p), Some(k)) => p.api_key@ == k@ && p.settings.base_url@
                == config.providers.cartesia.base_url@ && p.settings.version@
                == config.providers.cartesia.version@ && p.settings.stt_model@
                == config.providers.cartesia.stt_model@ && p.settings.tts_model@
                == config.providers.cartesia.tts_model@ && p.settings.tts_voice@
                == config.providers.cartesia.tts_voice@,
            (None, None) => true,
            _ => false,
        },
        match (r.openai, keys.openai) {
            (Some(p), Some(k)) => p.api_key@ == k@ && p.settings.base_url@
                == config.providers.openai.base_url@ && p.settings.stt_model@
                == config.providers.openai.stt_model@ && p.settings.tts_model@
                == config.providers.openai.tts_model@ && p.settings.tts_voice@
                == config.providers.openai.tts_voice@,
            (None, None) => true,
            _ => false,
        },
{
    let mut configured: Vec<ProviderId> = Vec::new();
    // Local Canary first: free, private, and best-tested for Spanish.
    let canary = match canary_dir {
        Some(d) => {
            configured.push(ProviderId::LocalCanary);
            Some(CanaryLocalProvider::new(&d))
        },
        None => None,
    };
    // Local Qwen3-TTS first for text-to-speech: free and private.
    let qwen3 = match qwen3 {
        Some(source) => {
            configured.push(ProviderId::LocalQwen3);
            let dir = match source {
                Qwen3Source::Dir(d) => Some(d),
                Qwen3Source::HfCache => None,
            };
            Some(Qwen3TtsLocalProvider::new(dir, Some(config.local.tts_voice.clone())))
        },
        None => None,
    };
    let xai = match &keys.xai {
        Some(k) => {
            configured.push(ProviderId::Xai);
            Some(self::xai(config, k))
        },
        None => None,
    };
    let elevenlabs = match &keys.elevenlabs {
        Some(k) => {
            configured.push(ProviderId::Elevenlabs);
            Some(self::elevenlabs(config, k))
        },
        None => None,
    };
    let cartesia = match &keys.cartesia {
        Some(k) => {
            configured.push(ProviderId::Cartesia);
            Some(self::cartesia(config, k))
        },
        None => None,
    };
    let openai = match &keys.openai {
        Some(k) => {
            configured.push(ProviderId::Openai);
            Some(self::openai(config, k))
        },
        None => None,
    };
    let engine = make_engine(&canary, &qwen3, &xai, &elevenlabs, &cartesia, &openai, style);
    let r = Composition { engine, configured, canary, qwen3, xai, elevenlabs, cartesia, openai };
    assert(r.configured@ =~= r.providers());
    r
}

/// The place of a provider where any will do: the lower it is, the earlier the
/// provider is tried.
pub open spec fn preference(id: ProviderId) -> int {
    match id {
        ProviderId::LocalCanary => 0,
        ProviderId::LocalQwen3 => 1,
        ProviderId::Xai => 2,
        ProviderId::Elevenlabs => 3,
        ProviderId::Cartesia => 4,
        ProviderId::Openai => 5,
    }
}

/// Whether each registration is preferred to those after it.
pub open spec fn is_in_order(list: Seq<RegistrationView>) -> bool {
    forall|i: int, j: int|
        0 <= i < j < list.len() ==> preference((#[trigger] list[i]).id) < preference(
            (#[trigger] list[j]).id,
        )
}

spec fn is_before(list: Seq<RegistrationView>, bound: int) -> bool {
    &&& is_in_order(list)
    &&& forall|i: int| 0 <= i < list.len() ==> preference((#[trigger] list[i]).id) < bound
}

proof fn lemma_in_order<P: Provider>(list: Seq<RegistrationView>, p: Option<P>, bound: int)
    requires
        is_before(list, bound),
        p matches Some(x) ==> preference(x.identity()) == bound,
    ensures
        is_before(list + entry(p), bound + 1),
{
    let all = list + entry(p);
    assert forall|i: int| 0 <= i < all.len() implies preference((#[trigger] all[i]).id) < bound
        + 1 by {
        if i < list.len() {
            assert(all[i] == list[i]);
        }
    }
    assert forall|i: int, j: int| 0 <= i < j < all.len() implies preference(
        (#[trigger] all[i]).id,
    ) < preference((#[trigger] all[j]).id) by {
        assert(all[i] == list[i]);
        if j < list.len() {
            assert(all[j] == list[j]);
        }
    }
}

/// For speech-to-text and for text-to-speech, providers are registered in the
/// order of preference, local ones first, and each at most once.
pub proof fn law_providers_are_registered_by_preference(c: Composition)
    ensures
        is_in_order(c.engine_view().stt),
        is_in_order(c.engine_view().tts),
{
    let none = Seq::<RegistrationView>::empty();
    lemma_in_order(none, c.canary, 0);
    assert(none + entry(c.canary) =~= entry(c.canary));
    let s1 = entry(c.canary) + entry(c.xai);
    lemma_in_order(entry(c.canary), c.xai, 2);
    lemma_in_order(s1, c.elevenlabs, 3);
    lemma_in_order(s1 + entry(c.elevenlabs), c.cartesia, 4);
    lemma_in_order(s1 + entry(c.elevenlabs) + entry(c.cartesia), c.openai, 5);
    lemma_in_order(none, c.qwen3, 1);
    assert(none + entry(c.qwen3) =~= entry(c.qwen3));
    let t1 = entry(c.qwen3) + entry(c.xai);
    lemma_in_order(entry(c.qwen3), c.xai, 2);
    lemma_in_order(t1, c.elevenlabs, 3);
    lemma_in_order(t1 + entry(c.elevenlabs), c.cartesia, 4);
    lemma_in_order(t1 + entry(c.elevenlabs) + entry(c.cartesia), c.openai, 5);
}

/// Whether a list holds the registration of a provider.
pub open spec fn holds(list: Seq<RegistrationView>, id: ProviderId) -> bool {
    exists|i: int| 0 <= i < list.len() && (#[trigger] list[i]).id == id
}

/// The order of the list is: the local engine, then xAI, ElevenLabs, Cartesia and
/// OpenAI.
pub open spec fn comes_before(a: ProviderId, b: ProviderId) -> bool {
    match (a, b) {
        (ProviderId::LocalCanary, _) => b != ProviderId::LocalCanary,
        (ProviderId::LocalQwen3, _) => b != ProviderId::LocalQwen3,
        (ProviderId::Xai, ProviderId::Elevenlabs) => true,
        (ProviderId::Xai, ProviderId::Cartesia) => true,
        (ProviderId::Xai, ProviderId::Openai) => true,
        (ProviderId::Elevenlabs, ProviderId::Cartesia) => true,
        (ProviderId::Elevenlabs, ProviderId::Openai) => true,
        (ProviderId::Cartesia, ProviderId::Openai) => true,
        _ => false,
    }
}

/// Whether a list is in that order.
pub open spec fn is_ordered(list: Seq<RegistrationView>) -> bool {
    forall|i: int, j: int|
        0 <= i < j < list.len() ==> comes_before((#[trigger] list[i]).id, (#[trigger] list[j]).id)
}

/// Exactly the adapters that are enabled are registered, each for what it does, with
/// what it says of itself and in the order of preference: the local engines first,
/// then xAI, ElevenLabs, Cartesia and OpenAI. Only xAI serves sessions, and audio can
/// be decoded.
pub proof fn law_enabled_adapters_are_registered(c: Composition)
    ensures
        is_ordered(c.engine_view().stt),
        is_ordered(c.engine_view().tts),
        holds(c.engine_view().stt, ProviderId::LocalCanary) <==> c.canary is Some,
        !holds(c.engine_view().stt, ProviderId::LocalQwen3),
        holds(c.engine_view().stt, ProviderId::Xai) <==> c.xai is Some,
        holds(c.engine_view().stt, ProviderId::Elevenlabs) <==> c.elevenlabs is Some,
        holds(c.engine_view().stt, ProviderId::Cartesia) <==> c.cartesia is Some,
        holds(c.engine_view().stt, ProviderId::Openai) <==> c.openai is Some,
        holds(c.engine_view().tts, ProviderId::LocalQwen3) <==> c.qwen3 is Some,
        !holds(c.engine_view().tts, ProviderId::LocalCanary),
        holds(c.engine_view().tts, ProviderId::Xai) <==> c.xai is Some,
        holds(c.engine_view().tts, ProviderId::Elevenlabs) <==> c.elevenlabs is Some,
        holds(c.engine_view().tts, ProviderId::Cartesia) <==> c.cartesia is Some,
        holds(c.engine_view().tts, ProviderId::Openai) <==> c.openai is Some,
        c.engine_view().streaming_stt.len() == if c.xai is Some {
            1nat
        } else {
            0
        },
        c.engine_view().streaming_tts == c.engine_view().streaming_stt,
        c.xai matches Some(p) ==> c.engine_view().streaming_stt[0].id == ProviderId::Xai
            && c.engine_view().streaming_stt[0].capabilities == p.abilities(),
        c.engine_view().decoder,
{
    law_providers_are_registered_by_preference(c);
    lemma_registered_for(c.canary, c.xai, c.elevenlabs, c.cartesia, c.openai);
    lemma_registered_for(c.qwen3, c.xai, c.elevenlabs, c.cartesia, c.openai);
    lemma_preference_is_order(c.engine_view().stt);
    lemma_preference_is_order(c.engine_view().tts);
}

proof fn lemma_registered_for<A: Provider, B: Provider, C: Provider, D: Provider, E: Provider>(
    a: Option<A>,
    b: Option<B>,
    c: Option<C>,
    d: Option<D>,
    e: Option<E>,
)
    ensures
        forall|id: ProviderId| #[trigger]
            holds(entry(a) + entry(b) + entry(c) + entry(d) + entry(e), id) <==> {
                ||| a is Some && a->Some_0.identity() == id
                ||| b is Some && b->Some_0.identity() == id
                ||| c is Some && c->Some_0.identity() == id
                ||| d is Some && d->Some_0.identity() == id
                ||| e is Some && e->Some_0.identity() == id
            },
{
    lemma_entry(a);
    lemma_entry(b);
    lemma_entry(c);
    lemma_entry(d);
    lemma_entry(e);
    lemma_holds(entry(a), entry(b));
    lemma_holds(entry(a) + entry(b), entry(c));
    lemma_holds(entry(a) + entry(b) + entry(c), entry(d));
    lemma_holds(entry(a) + entry(b) + entry(c) + entry(d), entry(e));
}

proof fn lemma_preference_is_order(list: Seq<RegistrationView>)
    requires
        is_in_order(list),
        !holds(list, ProviderId::LocalCanary) || !holds(list, ProviderId::LocalQwen3),
    ensures
        is_ordered(list),
{
    assert forall|i: int, j: int| 0 <= i < j < list.len() implies comes_before(
        (#[trigger] list[i]).id,
        (#[trigger] list[j]).id,
    ) by {
        assert(holds(list, list[i].id));
        assert(holds(list, list[j].id));
    }
}

proof fn lemma_holds(a: Seq<RegistrationView>, b: Seq<RegistrationView>)
    ensures
        forall|id: ProviderId| #[trigger] holds(a + b, id) <==> holds(a, id) || holds(b, id),
{
    assert forall|id: ProviderId| #[trigger] holds(a + b, id) <==> holds(a, id) || holds(b, id) by {
        if holds(a, id) {
            let i = choose|i: int| 0 <= i < a.len() && (#[trigger] a[i]).id == id;
            assert((a + b)[i].id == id);
        }
        if holds(b, id) {
            let i = choose|i: int| 0 <= i < b.len() && (#[trigger] b[i]).id == id;
            assert((a + b)[a.len() + i].id == id);
        }
        if holds(a + b, id) {
            let i = choose|i: int| 0 <= i < (a + b).len() && (#[trigger] (a + b)[i]).id == id;
            if i < a.len() {
                assert(a[i].id == id);
            } else {
                assert(b[i - a.len()].id == id);
            }
        }
    }
}

proof fn lemma_entry<P: Provider>(p: Option<P>)
    ensures
        forall|id: ProviderId| #[trigger]
            holds(entry(p), id) <==> p is Some && p->Some_0.identity() == id,
{
    if let Some(q) = p {
        assert(entry(p)[0].id == q.identity());
    }
}

/// The providers that are listed as configured are exactly those whose adapter is
/// enabled.
pub proof fn law_configured_providers(c: Composition)
    ensures
        c.providers().contains(ProviderId::LocalCanary) <==> c.canary is Some,
        c.providers().contains(ProviderId::LocalQwen3) <==> c.qwen3 is Some,
        c.providers().contains(ProviderId::Xai) <==> c.xai is Some,
        c.providers().contains(ProviderId::Elevenlabs) <==> c.elevenlabs is Some,
        c.providers().contains(ProviderId::Cartesia) <==> c.cartesia is Some,
        c.providers().contains(ProviderId::Openai) <==> c.openai is Some,
{
    let l0 = listed(c.canary is Some, ProviderId::LocalCanary);
    let l1 = listed(c.qwen3 is Some, ProviderId::LocalQwen3);
    let l2 = listed(c.xai is Some, ProviderId::Xai);
    let l3 = listed(c.elevenlabs is Some, ProviderId::Elevenlabs);
    let l4 = listed(c.cartesia is Some, ProviderId::Cartesia);
    let l5 = listed(c.openai is Some, ProviderId::Openai);
    lemma_listed(c.canary is Some, ProviderId::LocalCanary);
    lemma_listed(c.qwen3 is Some, ProviderId::LocalQwen3);
    lemma_listed(c.xai is Some, ProviderId::Xai);
    lemma_listed(c.elevenlabs is Some, ProviderId::Elevenlabs);
    lemma_listed(c.cartesia is Some, ProviderId::Cartesia);
    lemma_listed(c.openai is Some, ProviderId::Openai);
    lemma_either(l0, l1);
    lemma_either(l0 + l1, l2);
    lemma_either(l0 + l1 + l2, l3);
    lemma_either(l0 + l1 + l2 + l3, l4);
    lemma_either(l0 + l1 + l2 + l3 + l4, l5);
}

proof fn lemma_listed(there: bool, id: ProviderId)
    ensures
        forall|x: ProviderId| #[trigger] listed(there, id).contains(x) <==> there && x == id,
{
    if there {
        assert(listed(there, id)[0] == id);
    }
}

proof fn lemma_either(a: Seq<ProviderId>, b: Seq<ProviderId>)
    ensures
        forall|x: ProviderId| #[trigger]
            (a + b).contains(x) <==> a.contains(x) || b.contains(x),
{
    assert forall|x: ProviderId| #[trigger] (a + b).contains(x) <==> a.contains(x) || b.contains(
        x,
    ) by {
        if a.contains(x) {
            assert((a + b)[a.index_of(x)] == x);
        }
        if b.contains(x) {
            assert((a + b)[a.len() + b.index_of(x)] == x);
        }
    }
}

/// A directory is loaded from as it is named, and the shared cache by no directory.
pub proof fn law_source_of_the_model(source: Qwen3Source)
    ensures
        match source {
            Qwen3Source::Dir(d) => source_dir(source) == Some(d@),
            Qwen3Source::HfCache => source_dir(source) is None,
        },
{
}

} // verus!
