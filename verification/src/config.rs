//! Configuration schema, defaults and how secrets and directories are
//! resolved.
//!
//! Secrets policy: API keys are resolved from **environment variables** by
//! default (`api_key_env`). A literal `api_key` field exists for containers
//! but is discouraged.

use crate::path;
use crate::path::Style;
use crate::provider::ProviderId;
use crate::text;
use vstd::prelude::*;

verus! {

pub const CONFIG_ENV: &'static str = "OPENVOICE_CONFIG";

#[derive(Debug, Clone)]
pub struct Config {
    pub defaults: Defaults,
    pub providers: Providers,
    pub local: LocalConfig,
}

#[derive(Debug, Clone)]
pub struct Defaults {
    /// `auto` or a concrete provider id.
    pub stt_provider: String,
    pub tts_provider: String,
    /// Default language hint (ISO 639-1), empty = none.
    pub language: String,
    /// Default output formats for `transcribe`.
    pub formats: String,
}

#[derive(Debug, Clone)]
pub struct Providers {
    pub openai: OpenAiConfig,
    pub elevenlabs: ElevenLabsConfig,
    pub cartesia: CartesiaConfig,
    pub xai: XaiConfig,
}

#[derive(Debug, Clone)]
pub struct OpenAiConfig {
    pub api_key_env: String,
    pub api_key: Option<String>,
    pub base_url: String,
    pub stt_model: String,
    pub tts_model: String,
    pub tts_voice: String,
}

#[derive(Debug, Clone)]
pub struct ElevenLabsConfig {
    pub api_key_env: String,
    pub api_key: Option<String>,
    pub base_url: String,
    pub stt_model: String,
    pub tts_model: String,
    /// Default ElevenLabs voice id ("Rachel", the ElevenLabs default voice).
    pub tts_voice: String,
}

#[derive(Debug, Clone)]
pub struct CartesiaConfig {
    pub api_key_env: String,
    pub api_key: Option<String>,
    pub base_url: String,
    /// `Cartesia-Version` header value.
    pub version: String,
    pub stt_model: String,
    pub tts_model: String,
    /// Cartesia requires an explicit voice id; empty means unset.
    pub tts_voice: String,
}

#[derive(Debug, Clone)]
pub struct XaiConfig {
    pub api_key_env: String,
    pub api_key: Option<String>,
    pub base_url: String,
    pub ws_url: String,
    pub tts_voice: String,
}

#[derive(Debug, Clone)]
pub struct LocalConfig {
    /// Directory holding local model directories (canary-1b-v2, ...).
    pub models_dir: String,
    /// Directory of the local text-to-speech model, empty = resolve it.
    pub tts_model_dir: String,
    /// Default voice of the local text-to-speech model, empty = the model's.
    pub tts_voice: String,
}

// ---------------------------------------------------------------------------
// Defaults
// ---------------------------------------------------------------------------

impl Defaults {
    pub open spec fn is_default(self) -> bool {
        &&& self.stt_provider@ == "auto"@
        &&& self.tts_provider@ == "auto"@
        &&& self.language@ == Seq::<char>::empty()
        &&& self.formats@ == "txt,srt"@
    }
}

impl Default for Defaults {
    fn default() -> (r: Defaults)
        ensures
            r.is_default(),
    {
        Defaults {
            stt_provider: "auto".to_owned(),
            tts_provider: "auto".to_owned(),
            language: String::new(),
            formats: "txt,srt".to_owned(),
        }
    }
}

impl OpenAiConfig {
    pub open spec fn is_default(self) -> bool {
        &&& self.api_key_env@ == "OPENAI_API_KEY"@
        &&& self.api_key is None
        &&& self.base_url@ == "https://api.openai.com"@
        &&& self.stt_model@ == "whisper-1"@
        &&& self.tts_model@ == "gpt-4o-mini-tts"@
        &&& self.tts_voice@ == "marin"@
    }
}

impl Default for OpenAiConfig {
    fn default() -> (r: OpenAiConfig)
        ensures
            r.is_default(),
    {
        OpenAiConfig {
            api_key_env: "OPENAI_API_KEY".to_owned(),
            api_key: None,
            base_url: "https://api.openai.com".to_owned(),
            // whisper-1 is the only model with verbose_json + word/segment
            // timestamps, which srt/vtt need.
            stt_model: "whisper-1".to_owned(),
            tts_model: "gpt-4o-mini-tts".to_owned(),
            tts_voice: "marin".to_owned(),
        }
    }
}

impl ElevenLabsConfig {
    pub open spec fn is_default(self) -> bool {
        &&& self.api_key_env@ == "ELEVENLABS_API_KEY"@
        &&& self.api_key is None
        &&& self.base_url@ == "https://api.elevenlabs.io"@
        &&& self.stt_model@ == "scribe_v2"@
        &&& self.tts_model@ == "eleven_multilingual_v2"@
        &&& self.tts_voice@ == "21m00Tcm4TlvDq8ikWAM"@
    }
}

impl Default for ElevenLabsConfig {
    fn default() -> (r: ElevenLabsConfig)
        ensures
            r.is_default(),
    {
        ElevenLabsConfig {
            api_key_env: "ELEVENLABS_API_KEY".to_owned(),
            api_key: None,
            base_url: "https://api.elevenlabs.io".to_owned(),
            stt_model: "scribe_v2".to_owned(),
            tts_model: "eleven_multilingual_v2".to_owned(),
            tts_voice: "21m00Tcm4TlvDq8ikWAM".to_owned(),
        }
    }
}

impl CartesiaConfig {
    pub open spec fn is_default(self) -> bool {
        &&& self.api_key_env@ == "CARTESIA_API_KEY"@
        &&& self.api_key is None
        &&& self.base_url@ == "https://api.cartesia.ai"@
        &&& self.version@ == "2026-03-01"@
        &&& self.stt_model@ == "ink-whisper"@
        &&& self.tts_model@ == "sonic-3.5"@
        &&& self.tts_voice@ == Seq::<char>::empty()
    }
}

impl Default for CartesiaConfig {
    fn default() -> (r: CartesiaConfig)
        ensures
            r.is_default(),
    {
        CartesiaConfig {
            api_key_env: "CARTESIA_API_KEY".to_owned(),
            api_key: None,
            base_url: "https://api.cartesia.ai".to_owned(),
            version: "2026-03-01".to_owned(),
            stt_model: "ink-whisper".to_owned(),
            tts_model: "sonic-3.5".to_owned(),
            tts_voice: String::new(),
        }
    }
}

impl XaiConfig {
    pub open spec fn is_default(self) -> bool {
        &&& self.api_key_env@ == "XAI_API_KEY"@
        &&& self.api_key is None
        &&& self.base_url@ == "https://api.x.ai"@
        &&& self.ws_url@ == "wss://api.x.ai"@
        &&& self.tts_voice@ == "eve"@
    }
}

impl Default for XaiConfig {
    fn default() -> (r: XaiConfig)
        ensures
            r.is_default(),
    {
        XaiConfig {
            api_key_env: "XAI_API_KEY".to_owned(),
            api_key: None,
            base_url: "https://api.x.ai".to_owned(),
            ws_url: "wss://api.x.ai".to_owned(),
            tts_voice: "eve".to_owned(),
        }
    }
}

impl Providers {
    pub open spec fn is_default(self) -> bool {
        &&& self.openai.is_default()
        &&& self.elevenlabs.is_default()
        &&& self.cartesia.is_default()
        &&& self.xai.is_default()
    }
}

impl Default for Providers {
    fn default() -> (r: Providers)
        ensures
            r.is_default(),
    {
        Providers {
            openai: OpenAiConfig::default(),
            elevenlabs: ElevenLabsConfig::default(),
            cartesia: CartesiaConfig::default(),
            xai: XaiConfig::default(),
        }
    }
}

impl LocalConfig {
    pub open spec fn is_default(self) -> bool {
        &&& self.models_dir@ == Seq::<char>::empty()
        &&& self.tts_model_dir@ == Seq::<char>::empty()
        &&& self.tts_voice@ == Seq::<char>::empty()
    }
}

impl Default for LocalConfig {
    fn default() -> (r: LocalConfig)
        ensures
            r.is_default(),
    {
        LocalConfig {
            models_dir: String::new(),
            tts_model_dir: String::new(),
            tts_voice: String::new(),
        }
    }
}

impl Config {
    pub open spec fn is_default(self) -> bool {
        &&& self.defaults.is_default()
        &&& self.providers.is_default()
        &&& self.local.is_default()
    }
}

impl Default for Config {
    fn default() -> (r: Config)
        ensures
            r.is_default(),
    {
        Config {
            defaults: Defaults::default(),
            providers: Providers::default(),
            local: LocalConfig::default(),
        }
    }
}

// ---------------------------------------------------------------------------
// Keys and directories
// ---------------------------------------------------------------------------

/// A text where there is one that is not empty.
pub open spec fn nonempty(s: Option<Seq<char>>) -> Option<Seq<char>> {
    match s {
        Some(t) if t.len() > 0 => Some(t),
        _ => None,
    }
}

/// A path with a leading `~/` replaced by the home directory, where there is
/// one.
pub open spec fn expanded(p: Seq<char>, home: Option<Seq<char>>, style: Style) -> Seq<char> {
    match home {
        Some(h) if text::starts_with(p, "~/"@) => path::join(h, p.skip(2), style),
        _ => p,
    }
}

pub fn expand_tilde(p: &str, home: Option<&str>, style: Style) -> (r: String)
    ensures
        r@ == expanded(p@, home.deep_view(), style),
{
    if let Some(h) = home {
        if text::has_prefix(p, "~/") {
            let x = text::chars_of(p);
            proof {
                reveal_strlit("~/");
            }
            let rest = text::string_of(&x, 2, x.len());
            assert(rest@ =~= p@.skip(2));
            return path::joined(h, &rest, style);
        }
    }
    p.to_owned()
}

impl Config {
    /// The literal key of a provider, where the configuration holds one.
    pub open spec fn literal_key(self, provider: ProviderId) -> Option<Seq<char>> {
        match provider {
            ProviderId::Openai => self.providers.openai.api_key.deep_view(),
            ProviderId::Elevenlabs => self.providers.elevenlabs.api_key.deep_view(),
            ProviderId::Cartesia => self.providers.cartesia.api_key.deep_view(),
            ProviderId::Xai => self.providers.xai.api_key.deep_view(),
            ProviderId::LocalCanary => None,
            ProviderId::LocalQwen3 => None,
        }
    }

    /// The name of the variable that holds the key of a provider: local ones
    /// need none.
    pub open spec fn key_variable(self, provider: ProviderId) -> Option<Seq<char>> {
        match provider {
            ProviderId::Openai => Some(self.providers.openai.api_key_env@),
            ProviderId::Elevenlabs => Some(self.providers.elevenlabs.api_key_env@),
            ProviderId::Cartesia => Some(self.providers.cartesia.api_key_env@),
            ProviderId::Xai => Some(self.providers.xai.api_key_env@),
            ProviderId::LocalCanary => None,
            ProviderId::LocalQwen3 => None,
        }
    }

    /// The key of a provider, given the value of its variable: the literal one
    /// first, and neither where it is empty.
    pub open spec fn resolved_key(self, provider: ProviderId, variable: Option<Seq<char>>) ->
        Option<Seq<char>> {
        if self.key_variable(provider) is None {
            None
        } else if nonempty(self.literal_key(provider)) is Some {
            nonempty(self.literal_key(provider))
        } else {
            nonempty(variable)
        }
    }

    /// Default config file path under the user's configuration directory.
    pub fn default_path(config_dir: Option<&str>, style: Style) -> (r: Option<String>)
        ensures
            r.deep_view() == match config_dir {
                Some(d) => Some(
                    path::join(path::join(d@, "open-voice"@, style), "config.toml"@, style),
                ),
                None => None,
            },
    {
        match config_dir {
            Some(d) => Some(
                path::joined(&path::joined(d, "open-voice", style), "config.toml", style),
            ),
            None => None,
        }
    }

    /// Resolve the models directory, defaulting to `open-voice/models` under
    /// the user's data directory.
    pub fn models_dir(&self, home: Option<&str>, data_dir: Option<&str>, style: Style) -> (r:
        String)
        ensures
            r@ == if self.local.models_dir@.len() > 0 {
                expanded(self.local.models_dir@, home.deep_view(), style)
            } else {
                path::join(
                    path::join(text::or(data_dir.deep_view(), "."@), "open-voice"@, style),
                    "models"@,
                    style,
                )
            },
    {
        if !self.local.models_dir.as_str().is_empty() {
            return expand_tilde(&self.local.models_dir, home, style);
        }
        let base = match data_dir {
            Some(d) => d,
            None => ".",
        };
        path::joined(&path::joined(base, "open-voice", style), "models", style)
    }

    /// The name of the environment variable that may hold the key of
    /// `provider`.
    pub fn api_key_env(&self, provider: ProviderId) -> (r: Option<String>)
        ensures
            r.deep_view() == self.key_variable(provider),
    {
        match provider {
            ProviderId::Openai => Some(self.providers.openai.api_key_env.clone()),
            ProviderId::Elevenlabs => Some(self.providers.elevenlabs.api_key_env.clone()),
            ProviderId::Cartesia => Some(self.providers.cartesia.api_key_env.clone()),
            ProviderId::Xai => Some(self.providers.xai.api_key_env.clone()),
            ProviderId::LocalCanary => None,
            ProviderId::LocalQwen3 => None,
        }
    }

    /// Resolve the API key for `provider`: literal `api_key` first, then the
    /// value of the configured environment variable.
    pub fn api_key(&self, provider: ProviderId, variable: Option<&str>) -> (r: Option<String>)
        ensures
            r.deep_view() == self.resolved_key(provider, variable.deep_view()),
    {
        let literal = match provider {
            ProviderId::Openai => &self.providers.openai.api_key,
            ProviderId::Elevenlabs => &self.providers.elevenlabs.api_key,
            ProviderId::Cartesia => &self.providers.cartesia.api_key,
            ProviderId::Xai => &self.providers.xai.api_key,
            ProviderId::LocalCanary => {
                return None;
            },
            ProviderId::LocalQwen3 => {
                return None;
            },
        };
        if let Some(k) = literal {
            if !k.as_str().is_empty() {
                return Some(k.clone());
            }
        }
        match variable {
            Some(v) => if v.is_empty() {
                None
            } else {
                Some(v.to_owned())
            },
            None => None,
        }
    }
}

/// A literal key that is not empty decides, whatever the variable holds.
pub proof fn law_literal_key_comes_first(
    config: Config,
    provider: ProviderId,
    variable: Option<Seq<char>>,
)
    requires
        nonempty(config.literal_key(provider)) is Some,
    ensures
        config.resolved_key(provider, variable) == config.literal_key(provider),
{
}

/// No key is ever resolved that is empty, and none for a local provider.
pub proof fn law_resolved_key_is_not_empty(
    config: Config,
    provider: ProviderId,
    variable: Option<Seq<char>>,
)
    ensures
        config.resolved_key(provider, variable) matches Some(k) ==> k.len() > 0 && provider
            != ProviderId::LocalCanary && provider != ProviderId::LocalQwen3,
{
}

/// The key of a remote provider is the literal one of that provider where it is there
/// and not empty, else the value of its variable where that is not empty, else none;
/// a local provider has no key. The variable is the one that is configured for the
/// provider.
pub proof fn law_key_of_a_provider(config: Config, variable: Option<Seq<char>>)
    ensures
        match config.providers.openai.api_key {
            Some(k) if k@.len() > 0 => config.resolved_key(ProviderId::Openai, variable) == Some(k@),
            _ => match variable {
                Some(v) if v.len() > 0 => config.resolved_key(ProviderId::Openai, variable) == Some(v),
                _ => config.resolved_key(ProviderId::Openai, variable) is None,
            },
        },
        config.key_variable(ProviderId::Openai) == Some(config.providers.openai.api_key_env@),
        match config.providers.elevenlabs.api_key {
            Some(k) if k@.len() > 0 => config.resolved_key(ProviderId::Elevenlabs, variable) == Some(k@),
            _ => match variable {
                Some(v) if v.len() > 0 => config.resolved_key(ProviderId::Elevenlabs, variable) == Some(v),
                _ => config.resolved_key(ProviderId::Elevenlabs, variable) is None,
            },
        },
        config.key_variable(ProviderId::Elevenlabs) == Some(config.providers.elevenlabs.api_key_env@),
        match config.providers.cartesia.api_key {
            Some(k) if k@.len() > 0 => config.resolved_key(ProviderId::Cartesia, variable) == Some(k@),
            _ => match variable {
                Some(v) if v.len() > 0 => config.resolved_key(ProviderId::Cartesia, variable) == Some(v),
                _ => config.resolved_key(ProviderId::Cartesia, variable) is None,
            },
        },
        config.key_variable(ProviderId::Cartesia) == Some(config.providers.cartesia.api_key_env@),
        match config.providers.xai.api_key {
            Some(k) if k@.len() > 0 => config.resolved_key(ProviderId::Xai, variable) == Some(k@),
            _ => match variable {
                Some(v) if v.len() > 0 => config.resolved_key(ProviderId::Xai, variable) == Some(v),
                _ => config.resolved_key(ProviderId::Xai, variable) is None,
            },
        },
        config.key_variable(ProviderId::Xai) == Some(config.providers.xai.api_key_env@),
        config.resolved_key(ProviderId::LocalCanary, variable) is None,
        config.resolved_key(ProviderId::LocalQwen3, variable) is None,
        config.key_variable(ProviderId::LocalCanary) is None,
        config.key_variable(ProviderId::LocalQwen3) is None,
{
}

/// Only a path that begins with `~/` is changed: what follows is joined to the home
/// directory, where there is one.
pub proof fn law_expanded_paths(p: Seq<char>, home: Option<Seq<char>>, style: Style)
    ensures
        match home {
            Some(h) => if p.len() >= 2 && p[0] == '~' && p[1] == '/' {
                expanded(p, home, style) == path::join(h, p.skip(2), style)
            } else {
                expanded(p, home, style) == p
            },
            None => expanded(p, home, style) == p,
        },
{
    reveal_strlit("~/");
    assert("~/"@ =~= seq!['~', '/']);
    if p.len() >= 2 {
        assert(p.take(2)[0] == p[0]);
        assert(p.take(2)[1] == p[1]);
        if p[0] == '~' && p[1] == '/' {
            assert(p.take(2) =~= "~/"@);
        }
    }
}

/// What a configuration that says nothing stands for.
pub proof fn law_default_configuration(config: Config)
    requires
        config.is_default(),
    ensures
        config.defaults.stt_provider@ == "auto"@,
        config.defaults.tts_provider@ == "auto"@,
        config.defaults.language@.len() == 0,
        config.defaults.formats@ == "txt,srt"@,
        config.providers.openai.api_key_env@ == "OPENAI_API_KEY"@,
        config.providers.openai.base_url@ == "https://api.openai.com"@,
        config.providers.openai.stt_model@ == "whisper-1"@,
        config.providers.openai.tts_model@ == "gpt-4o-mini-tts"@,
        config.providers.openai.tts_voice@ == "marin"@,
        config.providers.elevenlabs.api_key_env@ == "ELEVENLABS_API_KEY"@,
        config.providers.elevenlabs.base_url@ == "https://api.elevenlabs.io"@,
        config.providers.elevenlabs.stt_model@ == "scribe_v2"@,
        config.providers.elevenlabs.tts_model@ == "eleven_multilingual_v2"@,
        config.providers.elevenlabs.tts_voice@ == "21m00Tcm4TlvDq8ikWAM"@,
        config.providers.cartesia.api_key_env@ == "CARTESIA_API_KEY"@,
        config.providers.cartesia.base_url@ == "https://api.cartesia.ai"@,
        config.providers.cartesia.version@ == "2026-03-01"@,
        config.providers.cartesia.stt_model@ == "ink-whisper"@,
        config.providers.cartesia.tts_model@ == "sonic-3.5"@,
        config.providers.cartesia.tts_voice@.len() == 0,
        config.providers.xai.api_key_env@ == "XAI_API_KEY"@,
        config.providers.xai.base_url@ == "https://api.x.ai"@,
        config.providers.xai.ws_url@ == "wss://api.x.ai"@,
        config.providers.xai.tts_voice@ == "eve"@,
        config.providers.openai.api_key is None && config.providers.elevenlabs.api_key is None
            && config.providers.cartesia.api_key is None && config.providers.xai.api_key is None,
        config.local.models_dir@.len() == 0 && config.local.tts_model_dir@.len() == 0
            && config.local.tts_voice@.len() == 0,
{
}

} // verus!
