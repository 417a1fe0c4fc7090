//! Error vocabulary shared by every adapter. Adapters map their concrete
//! failures (HTTP status codes, inference failures, ffmpeg exits) into these
//! variants, so the engine can react uniformly.

use vstd::prelude::*;

verus! {

pub type CoreResult<T> = Result<T, CoreError>;

#[derive(Debug)]
pub enum CoreError {
    /// Missing or invalid credentials (HTTP 401/403 or absent API key).
    Auth { provider: String, message: String },
    /// The provider throttled us (HTTP 429).
    RateLimited { provider: String, message: String },
    /// The request is valid but this provider cannot serve it.
    Unsupported { provider: String, message: String },
    /// The caller's input is invalid regardless of provider.
    InvalidInput(String),
    /// The provider is not configured (no API key, model files missing).
    NotConfigured { provider: String, message: String },
    /// Upstream returned an error that is not modelled more precisely.
    Provider { provider: String, message: String },
    /// Transport-level failure.
    Network(String),
    /// Local audio decode or probe failure.
    Audio(String),
    /// Local filesystem failure.
    Io(String),
}

/// What a [`CoreError`] says: its variant and its texts.
pub enum Failure {
    Auth { provider: Seq<char>, message: Seq<char> },
    RateLimited { provider: Seq<char>, message: Seq<char> },
    Unsupported { provider: Seq<char>, message: Seq<char> },
    InvalidInput(Seq<char>),
    NotConfigured { provider: Seq<char>, message: Seq<char> },
    Provider { provider: Seq<char>, message: Seq<char> },
    Network(Seq<char>),
    Audio(Seq<char>),
    Io(Seq<char>),
}

impl DeepView for CoreError {
    type V = Failure;

    open spec fn deep_view(&self) -> Failure {
        match *self {
            CoreError::Auth { provider, message } => Failure::Auth {
                provider: provider@,
                message: message@,
            },
            CoreError::RateLimited { provider, message } => Failure::RateLimited {
                provider: provider@,
                message: message@,
            },
            CoreError::Unsupported { provider, message } => Failure::Unsupported {
                provider: provider@,
                message: message@,
            },
            CoreError::InvalidInput(m) => Failure::InvalidInput(m@),
            CoreError::NotConfigured { provider, message } => Failure::NotConfigured {
                provider: provider@,
                message: message@,
            },
            CoreError::Provider { provider, message } => Failure::Provider {
                provider: provider@,
                message: message@,
            },
            CoreError::Network(m) => Failure::Network(m@),
            CoreError::Audio(m) => Failure::Audio(m@),
            CoreError::Io(m) => Failure::Io(m@),
        }
    }
}

/// A result by what it holds: the deep view of its value or of its error.
pub open spec fn outcome<T: DeepView>(r: Result<T, CoreError>) -> Result<T::V, Failure> {
    match r {
        Ok(v) => Ok(v.deep_view()),
        Err(e) => Err(e.deep_view()),
    }
}

impl Failure {
    /// Failures that lie with one provider, so that another may succeed.
    pub open spec fn is_fallback_worthy(self) -> bool {
        match self {
            Failure::Auth { .. } => true,
            Failure::RateLimited { .. } => true,
            Failure::Unsupported { .. } => true,
            Failure::NotConfigured { .. } => true,
            Failure::Provider { .. } => true,
            Failure::Network(_) => true,
            Failure::InvalidInput(_) => false,
            Failure::Audio(_) => false,
            Failure::Io(_) => false,
        }
    }

    /// The failure as a line of text.
    pub open spec fn text(self) -> Seq<char> {
        match self {
            Failure::Auth { provider, message } => "authentication failed for "@ + provider + ": "@
                + message,
            Failure::RateLimited { provider, message } => provider + " rate limited: "@ + message,
            Failure::Unsupported { provider, message } => "unsupported by "@ + provider + ": "@
                + message,
            Failure::InvalidInput(m) => "invalid input: "@ + m,
            Failure::NotConfigured { provider, message } => provider + " is not configured: "@
                + message,
            Failure::Provider { provider, message } => provider + " error: "@ + message,
            Failure::Network(m) => "network error: "@ + m,
            Failure::Audio(m) => "audio error: "@ + m,
            Failure::Io(m) => "io error: "@ + m,
        }
    }
}

impl CoreError {
    /// Errors after which trying the next provider in an `auto` chain makes
    /// sense, versus errors that would fail identically everywhere.
    pub fn is_fallback_worthy(&self) -> (r: bool)
        ensures
            r == self.deep_view().is_fallback_worthy(),
    {
        match self {
            CoreError::Auth { .. } => true,
            CoreError::RateLimited { .. } => true,
            CoreError::Unsupported { .. } => true,
            CoreError::NotConfigured { .. } => true,
            CoreError::Provider { .. } => true,
            CoreError::Network(_) => true,
            CoreError::InvalidInput(_) => false,
            CoreError::Audio(_) => false,
            CoreError::Io(_) => false,
        }
    }

    /// The error as a line of text for the user.
    pub fn to_text(&self) -> (out: String)
        ensures
            out@ == self.deep_view().text(),
    {
        match self {
            CoreError::Auth { provider, message } => {
                let mut out = "authentication failed for ".to_owned();
                out.append(provider);
                out.append(": ");
                out.append(message);
                out
            },
            CoreError::RateLimited { provider, message } => {
                let mut out = provider.clone();
                out.append(" rate limited: ");
                out.append(message);
                out
            },
            CoreError::Unsupported { provider, message } => {
                let mut out = "unsupported by ".to_owned();
                out.append(provider);
                out.append(": ");
                out.append(message);
                out
            },
            CoreError::InvalidInput(m) => {
                let mut out = "invalid input: ".to_owned();
                out.append(m);
                out
            },
            CoreError::NotConfigured { provider, message } => {
                let mut out = provider.clone();
                out.append(" is not configured: ");
                out.append(message);
                out
            },
            CoreError::Provider { provider, message } => {
                let mut out = provider.clone();
                out.append(" error: ");
                out.append(message);
                out
            },
            CoreError::Network(m) => {
                let mut out = "network error: ".to_owned();
                out.append(m);
                out
            },
            CoreError::Audio(m) => {
                let mut out = "audio error: ".to_owned();
                out.append(m);
                out
            },
            CoreError::Io(m) => {
                let mut out = "io error: ".to_owned();
                out.append(m);
                out
            },
        }
    }
}

/// Another provider may succeed after a failure exactly where it is not one of
/// invalid input, of local audio or of local files.
pub proof fn law_fallback_worthy(f: Failure)
    ensures
        f.is_fallback_worthy() <==> !(f is InvalidInput || f is Audio || f is Io),
{
}

/// What the user is told of a failure ends in its message, and names the provider
/// where it is one of a provider.
pub proof fn law_failure_text(f: Failure)
    ensures
        match f {
            Failure::Auth { provider, message } => is_told(f.text(), provider, message),
            Failure::RateLimited { provider, message } => is_told(f.text(), provider, message),
            Failure::Unsupported { provider, message } => is_told(f.text(), provider, message),
            Failure::NotConfigured { provider, message } => is_told(f.text(), provider, message),
            Failure::Provider { provider, message } => is_told(f.text(), provider, message),
            Failure::InvalidInput(m) => is_told(f.text(), Seq::empty(), m),
            Failure::Network(m) => is_told(f.text(), Seq::empty(), m),
            Failure::Audio(m) => is_told(f.text(), Seq::empty(), m),
            Failure::Io(m) => is_told(f.text(), Seq::empty(), m),
        },
{
    match f {
        Failure::Auth { provider, message } => lemma_told(
            f.text(),
            "authentication failed for "@,
            provider,
            ": "@,
            message,
        ),
        Failure::RateLimited { provider, message } => lemma_told(
            f.text(),
            Seq::empty(),
            provider,
            " rate limited: "@,
            message,
        ),
        Failure::Unsupported { provider, message } => lemma_told(
            f.text(),
            "unsupported by "@,
            provider,
            ": "@,
            message,
        ),
        Failure::NotConfigured { provider, message } => lemma_told(
            f.text(),
            Seq::empty(),
            provider,
            " is not configured: "@,
            message,
        ),
        Failure::Provider { provider, message } => lemma_told(
            f.text(),
            Seq::empty(),
            provider,
            " error: "@,
            message,
        ),
        Failure::InvalidInput(m) => lemma_told(
            f.text(),
            "invalid input: "@,
            Seq::empty(),
            Seq::empty(),
            m,
        ),
        Failure::Network(m) => lemma_told(
            f.text(),
            "network error: "@,
            Seq::empty(),
            Seq::empty(),
            m,
        ),
        Failure::Audio(m) => lemma_told(f.text(), "audio error: "@, Seq::empty(), Seq::empty(), m),
        Failure::Io(m) => lemma_told(f.text(), "io error: "@, Seq::empty(), Seq::empty(), m),
    }
}

/// Whether a text holds the provider's name and then ends in the message.
pub open spec fn is_told(text: Seq<char>, provider: Seq<char>, message: Seq<char>) -> bool {
    exists|before: Seq<char>, between: Seq<char>|
        text == #[trigger] (before + provider + between + message)
}

proof fn lemma_told(
    text: Seq<char>,
    before: Seq<char>,
    provider: Seq<char>,
    between: Seq<char>,
    message: Seq<char>,
)
    requires
        text =~= before + provider + between + message,
    ensures
        is_told(text, provider, message),
{
}

/// The view of an error is of its kind and shows its texts as they are.
pub proof fn law_view_of_an_error(e: CoreError)
    ensures
        match (e, e.deep_view()) {
            (CoreError::Auth { provider, message }, Failure::Auth { provider: p, message: m }) => p
                == provider@ && m == message@,
            (
                CoreError::RateLimited { provider, message },
                Failure::RateLimited { provider: p, message: m },
            ) => p == provider@ && m == message@,
            (
                CoreError::Unsupported { provider, message },
                Failure::Unsupported { provider: p, message: m },
            ) => p == provider@ && m == message@,
            (
                CoreError::NotConfigured { provider, message },
                Failure::NotConfigured { provider: p, message: m },
            ) => p == provider@ && m == message@,
            (
                CoreError::Provider { provider, message },
                Failure::Provider { provider: p, message: m },
            ) => p == provider@ && m == message@,
            (CoreError::InvalidInput(a), Failure::InvalidInput(b)) => b == a@,
            (CoreError::Network(a), Failure::Network(b)) => b == a@,
            (CoreError::Audio(a), Failure::Audio(b)) => b == a@,
            (CoreError::Io(a), Failure::Io(b)) => b == a@,
            _ => false,
        },
{
}

/// How each kind of failure is told.
pub proof fn law_kinds_are_told_apart(provider: Seq<char>, message: Seq<char>)
    ensures
        (Failure::Auth { provider, message }).text() == "authentication failed for "@ + provider
            + ": "@ + message,
        (Failure::RateLimited { provider, message }).text() == provider + " rate limited: "@
            + message,
        (Failure::Unsupported { provider, message }).text() == "unsupported by "@ + provider
            + ": "@ + message,
        (Failure::NotConfigured { provider, message }).text() == provider
            + " is not configured: "@ + message,
        (Failure::Provider { provider, message }).text() == provider + " error: "@ + message,
        Failure::InvalidInput(message).text() == "invalid input: "@ + message,
        Failure::Network(message).text() == "network error: "@ + message,
        Failure::Audio(message).text() == "audio error: "@ + message,
        Failure::Io(message).text() == "io error: "@ + message,
{
}

/// The outcome of a result is that of its value, or that of its error.
pub proof fn law_outcome<T: DeepView>(r: Result<T, CoreError>)
    ensures
        r matches Ok(v) ==> outcome(r) == Ok::<T::V, Failure>(v.deep_view()),
        r matches Err(e) ==> outcome(r) == Err::<T::V, Failure>(e.deep_view()),
{
}

} // verus!
