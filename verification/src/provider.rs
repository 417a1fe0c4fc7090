//! Provider identity. A small closed enum, so `match` stays exhaustive when a
//! provider is added.

use crate::text;
use std::str::FromStr;
use vstd::prelude::*;

verus! {

#[derive(Debug, Clone, Copy, PartialEq, Eq, Hash, Structural)]
pub enum ProviderId {
    LocalCanary,
    LocalQwen3,
    Openai,
    Elevenlabs,
    Cartesia,
    Xai,
}

impl DeepView for ProviderId {
    type V = ProviderId;

    open spec fn deep_view(&self) -> ProviderId {
        *self
    }
}

impl ProviderId {
    pub const ALL: [ProviderId; 6] = [
        ProviderId::LocalCanary,
        ProviderId::LocalQwen3,
        ProviderId::Openai,
        ProviderId::Elevenlabs,
        ProviderId::Cartesia,
        ProviderId::Xai,
    ];

    /// The provider's name on the command line and in the configuration.
    pub open spec fn name(self) -> Seq<char> {
        match self {
            ProviderId::LocalCanary => "local-canary"@,
            ProviderId::LocalQwen3 => "local-qwen3"@,
            ProviderId::Openai => "openai"@,
            ProviderId::Elevenlabs => "elevenlabs"@,
            ProviderId::Cartesia => "cartesia"@,
            ProviderId::Xai => "xai"@,
        }
    }

    /// The provider that a name or alias stands for.
    pub open spec fn named(s: Seq<char>) -> Option<ProviderId> {
        if s == "local-canary"@ || s == "local"@ || s == "canary"@ {
            Some(ProviderId::LocalCanary)
        } else if s == "local-qwen3"@ || s == "qwen3"@ || s == "qwen3-tts"@ {
            Some(ProviderId::LocalQwen3)
        } else if s == "openai"@ || s == "whisper"@ {
            Some(ProviderId::Openai)
        } else if s == "elevenlabs"@ || s == "11labs"@ {
            Some(ProviderId::Elevenlabs)
        } else if s == "cartesia"@ {
            Some(ProviderId::Cartesia)
        } else if s == "xai"@ || s == "grok"@ {
            Some(ProviderId::Xai)
        } else {
            None
        }
    }

    /// What is said of a name that stands for no provider.
    pub open spec fn unknown(s: Seq<char>) -> Seq<char> {
        "unknown provider '"@ + s
            + "' (expected one of: local-canary, local-qwen3, openai, elevenlabs, cartesia, xai)"@
    }

    pub fn as_str(&self) -> (r: &'static str)
        ensures
            r@ == self.name(),
    {
        match self {
            ProviderId::LocalCanary => "local-canary",
            ProviderId::LocalQwen3 => "local-qwen3",
            ProviderId::Openai => "openai",
            ProviderId::Elevenlabs => "elevenlabs",
            ProviderId::Cartesia => "cartesia",
            ProviderId::Xai => "xai",
        }
    }

    /// Reads a provider name or alias, whatever its case and the white space
    /// round it.
    pub fn parse(s: &str) -> (r: Result<ProviderId, String>)
        ensures
            match ProviderId::named(text::lower(text::trim(s@))) {
                Some(id) => r == Ok::<ProviderId, String>(id),
                None => r is Err && r->Err_0@ == ProviderId::unknown(
                    text::lower(text::trim(s@)),
                ),
            },
    {
        let name = text::to_lower(text::trimmed(s));
        if text::same(&name, "local-canary") || text::same(&name, "local") || text::same(&name, "canary") {
            Ok(ProviderId::LocalCanary)
        } else if text::same(&name, "local-qwen3") || text::same(&name, "qwen3") || text::same(&name, "qwen3-tts") {
            Ok(ProviderId::LocalQwen3)
        } else if text::same(&name, "openai") || text::same(&name, "whisper") {
            Ok(ProviderId::Openai)
        } else if text::same(&name, "elevenlabs") || text::same(&name, "11labs") {
            Ok(ProviderId::Elevenlabs)
        } else if text::same(&name, "cartesia") {
            Ok(ProviderId::Cartesia)
        } else if text::same(&name, "xai") || text::same(&name, "grok") {
            Ok(ProviderId::Xai)
        } else {
            let mut m = "unknown provider '".to_owned();
            m.append(&name);
            m.append(
                "' (expected one of: local-canary, local-qwen3, openai, elevenlabs, cartesia, xai)",
            );
            Err(m)
        }
    }
}

impl FromStr for ProviderId {
    type Err = String;

    fn from_str(s: &str) -> (r: Result<ProviderId, String>)
        ensures
            match ProviderId::named(text::lower(text::trim(s@))) {
                Some(id) => r == Ok::<ProviderId, String>(id),
                None => r is Err && r->Err_0@ == ProviderId::unknown(
                    text::lower(text::trim(s@)),
                ),
            },
    {
        ProviderId::parse(s)
    }
}

/// Parsing the name that a provider gives of itself yields that provider.
pub proof fn law_provider_name_round_trips(id: ProviderId)
    ensures
        ProviderId::named(text::lower(text::trim(id.name()))) == Some(id),
{
    reveal_strlit("local-canary");
    reveal_strlit("local");
    reveal_strlit("canary");
    reveal_strlit("local-qwen3");
    reveal_strlit("qwen3");
    reveal_strlit("qwen3-tts");
    reveal_strlit("openai");
    reveal_strlit("whisper");
    reveal_strlit("elevenlabs");
    reveal_strlit("11labs");
    reveal_strlit("cartesia");
    reveal_strlit("xai");
    reveal_strlit("grok");
    let s = id.name();
    text::lemma_trim_solid(s);
    assert(text::lower(s) =~= s);
    match id {
        ProviderId::LocalCanary => {},
        ProviderId::LocalQwen3 => {
            assert(s[6] == 'q');
        },
        ProviderId::Openai => {
            assert(s[0] == 'o');
        },
        ProviderId::Elevenlabs => {
            assert(s[0] == 'e');
        },
        ProviderId::Cartesia => {
            assert(s[0] == 'c');
        },
        ProviderId::Xai => {
            assert(s[0] == 'x');
        },
    }
}

/// Each provider goes by its own name, and is read from that name and from its other
/// names, and from no other text.
pub proof fn law_provider_names(id: ProviderId, s: Seq<char>)
    ensures
        id.name() == match id {
            ProviderId::LocalCanary => seq!['l', 'o', 'c', 'a', 'l', '-', 'c', 'a', 'n', 'a', 'r', 'y'],
            ProviderId::LocalQwen3 => seq!['l', 'o', 'c', 'a', 'l', '-', 'q', 'w', 'e', 'n', '3'],
            ProviderId::Openai => seq!['o', 'p', 'e', 'n', 'a', 'i'],
            ProviderId::Elevenlabs => seq!['e', 'l', 'e', 'v', 'e', 'n', 'l', 'a', 'b', 's'],
            ProviderId::Cartesia => seq!['c', 'a', 'r', 't', 'e', 's', 'i', 'a'],
            ProviderId::Xai => seq!['x', 'a', 'i'],
        },
        ProviderId::named(s) == Some(ProviderId::LocalCanary) <==> s == "local-canary"@ || s
            == "local"@ || s == "canary"@,
        ProviderId::named(s) == Some(ProviderId::LocalQwen3) <==> s == "local-qwen3"@ || s
            == "qwen3"@ || s == "qwen3-tts"@,
        ProviderId::named(s) == Some(ProviderId::Openai) <==> s == "openai"@ || s == "whisper"@,
        ProviderId::named(s) == Some(ProviderId::Elevenlabs) <==> s == "elevenlabs"@ || s
            == "11labs"@,
        ProviderId::named(s) == Some(ProviderId::Cartesia) <==> s == "cartesia"@,
        ProviderId::named(s) == Some(ProviderId::Xai) <==> s == "xai"@ || s == "grok"@,
{
    reveal_strlit("local-canary");
    assert("local-canary"@ =~= seq!['l', 'o', 'c', 'a', 'l', '-', 'c', 'a', 'n', 'a', 'r', 'y']);
    reveal_strlit("local-qwen3");
    assert("local-qwen3"@ =~= seq!['l', 'o', 'c', 'a', 'l', '-', 'q', 'w', 'e', 'n', '3']);
    reveal_strlit("openai");
    assert("openai"@ =~= seq!['o', 'p', 'e', 'n', 'a', 'i']);
    reveal_strlit("elevenlabs");
    assert("elevenlabs"@ =~= seq!['e', 'l', 'e', 'v', 'e', 'n', 'l', 'a', 'b', 's']);
    reveal_strlit("cartesia");
    assert("cartesia"@ =~= seq!['c', 'a', 'r', 't', 'e', 's', 'i', 'a']);
    reveal_strlit("xai");
    assert("xai"@ =~= seq!['x', 'a', 'i']);
    lemma_names_differ();
}

proof fn lemma_names_differ()
    ensures
        "local-canary"@ != "local"@,
        "local-canary"@ != "canary"@,
        "local-canary"@ != "local-qwen3"@,
        "local-canary"@ != "qwen3"@,
        "local-canary"@ != "qwen3-tts"@,
        "local-canary"@ != "openai"@,
        "local-canary"@ != "whisper"@,
        "local-canary"@ != "elevenlabs"@,
        "local-canary"@ != "11labs"@,
        "local-canary"@ != "cartesia"@,
        "local-canary"@ != "xai"@,
        "local-canary"@ != "grok"@,
        "local"@ != "canary"@,
        "local"@ != "local-qwen3"@,
        "local"@ != "qwen3"@,
        "local"@ != "qwen3-tts"@,
        "local"@ != "openai"@,
        "local"@ != "whisper"@,
        "local"@ != "elevenlabs"@,
        "local"@ != "11labs"@,
        "local"@ != "cartesia"@,
        "local"@ != "xai"@,
        "local"@ != "grok"@,
        "canary"@ != "local-qwen3"@,
        "canary"@ != "qwen3"@,
        "canary"@ != "qwen3-tts"@,
        "canary"@ != "openai"@,
        "canary"@ != "whisper"@,
        "canary"@ != "elevenlabs"@,
        "canary"@ != "11labs"@,
        "canary"@ != "cartesia"@,
        "canary"@ != "xai"@,
        "canary"@ != "grok"@,
        "local-qwen3"@ != "qwen3"@,
        "local-qwen3"@ != "qwen3-tts"@,
        "local-qwen3"@ != "openai"@,
        "local-qwen3"@ != "whisper"@,
        "local-qwen3"@ != "elevenlabs"@,
        "local-qwen3"@ != "11labs"@,
        "local-qwen3"@ != "cartesia"@,
        "local-qwen3"@ != "xai"@,
        "local-qwen3"@ != "grok"@,
        "qwen3"@ != "qwen3-tts"@,
        "qwen3"@ != "openai"@,
        "qwen3"@ != "whisper"@,
        "qwen3"@ != "elevenlabs"@,
        "qwen3"@ != "11labs"@,
        "qwen3"@ != "cartesia"@,
        "qwen3"@ != "xai"@,
        "qwen3"@ != "grok"@,
        "qwen3-tts"@ != "openai"@,
        "qwen3-tts"@ != "whisper"@,
        "qwen3-tts"@ != "elevenlabs"@,
        "qwen3-tts"@ != "11labs"@,
        "qwen3-tts"@ != "cartesia"@,
        "qwen3-tts"@ != "xai"@,
        "qwen3-tts"@ != "grok"@,
        "openai"@ != "whisper"@,
        "openai"@ != "elevenlabs"@,
        "openai"@ != "11labs"@,
        "openai"@ != "cartesia"@,
        "openai"@ != "xai"@,
        "openai"@ != "grok"@,
        "whisper"@ != "elevenlabs"@,
        "whisper"@ != "11labs"@,
        "whisper"@ != "cartesia"@,
        "whisper"@ != "xai"@,
        "whisper"@ != "grok"@,
        "elevenlabs"@ != "11labs"@,
        "elevenlabs"@ != "cartesia"@,
        "elevenlabs"@ != "xai"@,
        "elevenlabs"@ != "grok"@,
        "11labs"@ != "cartesia"@,
        "11labs"@ != "xai"@,
        "11labs"@ != "grok"@,
        "cartesia"@ != "xai"@,
        "cartesia"@ != "grok"@,
        "xai"@ != "grok"@,
{
    reveal_strlit("local-canary");
    reveal_strlit("local");
    reveal_strlit("canary");
    reveal_strlit("local-qwen3");
    reveal_strlit("qwen3");
    reveal_strlit("qwen3-tts");
    reveal_strlit("openai");
    reveal_strlit("whisper");
    reveal_strlit("elevenlabs");
    reveal_strlit("11labs");
    reveal_strlit("cartesia");
    reveal_strlit("xai");
    reveal_strlit("grok");
    assert("local-canary"@.len() == 12);
    assert("local"@.len() == 5);
    assert("canary"@.len() == 6);
    assert("local-qwen3"@.len() == 11);
    assert("qwen3"@.len() == 5);
    assert("qwen3-tts"@.len() == 9);
    assert("openai"@.len() == 6);
    assert("whisper"@.len() == 7);
    assert("elevenlabs"@.len() == 10);
    assert("11labs"@.len() == 6);
    assert("cartesia"@.len() == 8);
    assert("xai"@.len() == 3);
    assert("grok"@.len() == 4);
    assert("local"@[0] == 'l');
    assert("qwen3"@[0] == 'q');
    assert("canary"@[0] == 'c');
    assert("openai"@[0] == 'o');
    assert("11labs"@[0] == '1');
}

/// What is said of a name that stands for no provider quotes it and lists the six that
/// there are.
pub proof fn law_unknown_provider(s: Seq<char>)
    ensures
        ProviderId::unknown(s) == "unknown provider '"@ + s
            + "' (expected one of: local-canary, local-qwen3, openai, elevenlabs, cartesia, xai)"@,
{
}

} // verus!
