//! Declarative provider capabilities. The engine validates a request against
//! these *before* any network call, so users get actionable errors instead of
//! opaque answers.

use crate::domain::{RequestView, TranscribeRequest};
use crate::error::{CoreError, CoreResult, Failure};
use crate::text;
use vstd::prelude::*;

verus! {

#[derive(Debug, Clone)]
pub struct ProviderCapabilities {
    pub batch_stt: bool,
    pub batch_tts: bool,
    pub streaming_stt: bool,
    pub streaming_tts: bool,
    pub word_timestamps: bool,
    pub segment_timestamps: bool,
    pub diarization: bool,
    pub multichannel: bool,
    pub keyterms: bool,
    pub prompt: bool,
    /// Max upload size for batch speech-to-text, if the provider documents one.
    pub max_upload_bytes: Option<u64>,
    /// Accepted input file extensions for batch speech-to-text (small letters,
    /// no dot). Empty means "anything the provider can decode".
    pub stt_input_extensions: Vec<String>,
}

/// What a [`ProviderCapabilities`] declares.
pub struct CapabilitiesView {
    pub batch_stt: bool,
    pub batch_tts: bool,
    pub streaming_stt: bool,
    pub streaming_tts: bool,
    pub word_timestamps: bool,
    pub segment_timestamps: bool,
    pub diarization: bool,
    pub multichannel: bool,
    pub keyterms: bool,
    pub prompt: bool,
    pub max_upload_bytes: Option<u64>,
    pub stt_input_extensions: Seq<Seq<char>>,
}

impl DeepView for ProviderCapabilities {
    type V = CapabilitiesView;

    open spec fn deep_view(&self) -> CapabilitiesView {
        CapabilitiesView {
            batch_stt: self.batch_stt,
            batch_tts: self.batch_tts,
            streaming_stt: self.streaming_stt,
            streaming_tts: self.streaming_tts,
            word_timestamps: self.word_timestamps,
            segment_timestamps: self.segment_timestamps,
            diarization: self.diarization,
            multichannel: self.multichannel,
            keyterms: self.keyterms,
            prompt: self.prompt,
            max_upload_bytes: self.max_upload_bytes,
            stt_input_extensions: self.stt_input_extensions.deep_view(),
        }
    }
}

impl CapabilitiesView {
    /// Nothing supported, nothing limited.
    pub open spec fn none() -> CapabilitiesView {
        CapabilitiesView {
            batch_stt: false,
            batch_tts: false,
            streaming_stt: false,
            streaming_tts: false,
            word_timestamps: false,
            segment_timestamps: false,
            diarization: false,
            multichannel: false,
            keyterms: false,
            prompt: false,
            max_upload_bytes: None,
            stt_input_extensions: Seq::empty(),
        }
    }

    /// Whether files with this extension need no transcoding.
    pub open spec fn accepts(self, ext: Seq<char>) -> bool {
        self.stt_input_extensions.len() == 0 || exists|i: int|
            0 <= i < self.stt_input_extensions.len() && text::lower(
                #[trigger] self.stt_input_extensions[i],
            ) == text::lower(ext)
    }

    /// Why a batch speech-to-text request is refused, where it is.
    pub open spec fn refusal(
        self,
        provider: Seq<char>,
        request: RequestView,
        input_len: Option<u64>,
    ) -> Option<Failure> {
        if !self.batch_stt {
            Some(
                Failure::Unsupported {
                    provider,
                    message: "batch speech-to-text is not supported"@,
                },
            )
        } else if request.diarize && !self.diarization {
            Some(
                Failure::Unsupported {
                    provider,
                    message: "speaker diarization is not supported"@,
                },
            )
        } else if request.keyterms.len() > 0 && !self.keyterms {
            Some(Failure::Unsupported { provider, message: "keyterm biasing is not supported"@ })
        } else if request.prompt is Some && !self.prompt {
            Some(Failure::Unsupported { provider, message: "prompting is not supported"@ })
        } else {
            match (self.max_upload_bytes, input_len) {
                (Some(max), Some(len)) => if len > max {
                    Some(
                        Failure::Unsupported {
                            provider,
                            message: "input is "@ + text::decimal(len as nat)
                                + " bytes but the provider limit is "@ + text::decimal(max as nat)
                                + " bytes"@,
                        },
                    )
                } else {
                    None
                },
                _ => None,
            }
        }
    }
}

fn unsupported(provider: &str, message: &str) -> (r: CoreError)
    ensures
        r.deep_view() == (Failure::Unsupported { provider: provider@, message: message@ }),
{
    CoreError::Unsupported { provider: provider.to_owned(), message: message.to_owned() }
}

impl Default for ProviderCapabilities {
    fn default() -> (r: ProviderCapabilities)
        ensures
            r.deep_view() == CapabilitiesView::none(),
    {
        let r = ProviderCapabilities {
            batch_stt: false,
            batch_tts: false,
            streaming_stt: false,
            streaming_tts: false,
            word_timestamps: false,
            segment_timestamps: false,
            diarization: false,
            multichannel: false,
            keyterms: false,
            prompt: false,
            max_upload_bytes: None,
            stt_input_extensions: Vec::new(),
        };
        assert(r.deep_view().stt_input_extensions =~= Seq::empty());
        r
    }
}

impl ProviderCapabilities {
    pub fn accepts_extension(&self, ext: &str) -> (r: bool)
        ensures
            r == self.deep_view().accepts(ext@),
    {
        if self.stt_input_extensions.len() == 0 {
            return true;
        }
        let mut i: usize = 0;
        while i < self.stt_input_extensions.len()
            invariant
                i <= self.stt_input_extensions@.len(),
                forall|j: int|
                    0 <= j < i ==> text::lower(
                        #[trigger] self.deep_view().stt_input_extensions[j],
                    ) != text::lower(ext@),
            decreases self.stt_input_extensions@.len() - i,
        {
            assert(self.deep_view().stt_input_extensions[i as int]
                == self.stt_input_extensions@[i as int]@);
            if text::same_ignoring_case(&self.stt_input_extensions[i], ext) {
                return true;
            }
            i = i + 1;
        }
        false
    }

    /// Validate a batch speech-to-text request against this capability set.
    /// `input_len` is the source size in bytes when known.
    pub fn validate_transcribe(
        &self,
        provider: &str,
        request: &TranscribeRequest,
        input_len: Option<u64>,
    ) -> (r: CoreResult<()>)
        ensures
            match self.deep_view().refusal(provider@, request.deep_view(), input_len) {
                Some(f) => r is Err && r->Err_0.deep_view() == f,
                None => r is Ok,
            },
    {
        if !self.batch_stt {
            return Err(unsupported(provider, "batch speech-to-text is not supported"));
        }
        if request.diarize && !self.diarization {
            return Err(unsupported(provider, "speaker diarization is not supported"));
        }
        if request.keyterms.len() > 0 && !self.keyterms {
            return Err(unsupported(provider, "keyterm biasing is not supported"));
        }
        if request.prompt.is_some() && !self.prompt {
            return Err(unsupported(provider, "prompting is not supported"));
        }
        if let (Some(max), Some(len)) = (self.max_upload_bytes, input_len) {
            if len > max {
                let mut m = "input is ".to_owned();
                m.append(&text::decimal_text(len as u128));
                m.append(" bytes but the provider limit is ");
                m.append(&text::decimal_text(max as u128));
                m.append(" bytes");
                return Err(unsupported(provider, &m));
            }
        }
        Ok(())
    }
}

/// A request is refused exactly where it asks for what is not supported: batch
/// transcription at all, diarization, key terms, a prompt, or an upload that is
/// known to be larger than allowed. What is refused is unsupported by the provider.
pub proof fn law_refusal(
    caps: CapabilitiesView,
    provider: Seq<char>,
    request: RequestView,
    input_len: Option<u64>,
)
    ensures
        caps.refusal(provider, request, input_len) is None <==> {
            &&& caps.batch_stt
            &&& request.diarize ==> caps.diarization
            &&& request.keyterms.len() > 0 ==> caps.keyterms
            &&& request.prompt is Some ==> caps.prompt
            &&& caps.max_upload_bytes is Some && input_len is Some ==> input_len->Some_0
                <= caps.max_upload_bytes->Some_0
        },
        caps.refusal(provider, request, input_len) matches Some(f) ==> match f {
            Failure::Unsupported { provider: p, .. } => p == provider,
            _ => false,
        },
{
}

/// An extension is accepted where none is listed, or one that differs from it in
/// the case of letters at most; so its case does not matter.
pub proof fn law_accepted_extensions(caps: CapabilitiesView, ext: Seq<char>)
    ensures
        caps.accepts(ext) <==> caps.stt_input_extensions.len() == 0
            || caps.stt_input_extensions.map_values(|e: Seq<char>| text::lower(e)).contains(
            text::lower(ext),
        ),
        caps.accepts(ext) <==> caps.accepts(text::lower(ext)),
{
    let list = caps.stt_input_extensions.map_values(|e: Seq<char>| text::lower(e));
    if list.contains(text::lower(ext)) {
        let i = list.index_of(text::lower(ext));
        assert(text::lower(caps.stt_input_extensions[i]) == text::lower(ext));
    }
    if caps.accepts(ext) && caps.stt_input_extensions.len() > 0 {
        let i = choose|i: int|
            0 <= i < caps.stt_input_extensions.len() && text::lower(
                #[trigger] caps.stt_input_extensions[i],
            ) == text::lower(ext);
        assert(list[i] == text::lower(ext));
    }
    assert(text::lower(text::lower(ext)) =~= text::lower(ext));
}

/// The view of capabilities shows each field as it is.
pub proof fn law_view_of_capabilities(c: ProviderCapabilities)
    ensures
        c.deep_view().batch_stt == c.batch_stt,
        c.deep_view().batch_tts == c.batch_tts,
        c.deep_view().streaming_stt == c.streaming_stt,
        c.deep_view().streaming_tts == c.streaming_tts,
        c.deep_view().word_timestamps == c.word_timestamps,
        c.deep_view().segment_timestamps == c.segment_timestamps,
        c.deep_view().diarization == c.diarization,
        c.deep_view().multichannel == c.multichannel,
        c.deep_view().keyterms == c.keyterms,
        c.deep_view().prompt == c.prompt,
        c.deep_view().max_upload_bytes == c.max_upload_bytes,
        c.deep_view().stt_input_extensions == c.stt_input_extensions.deep_view(),
{
}

/// A refusal tells the first thing that is not supported, in this order: batch
/// transcription, diarization, key terms, prompts, the size of the upload with its
/// limit.
pub proof fn law_refusal_tells_why(
    caps: CapabilitiesView,
    provider: Seq<char>,
    request: RequestView,
    input_len: Option<u64>,
)
    ensures
        ({
            let why = match caps.refusal(provider, request, input_len) {
                Some(Failure::Unsupported { message, .. }) => Some(message),
                _ => None,
            };
            &&& !caps.batch_stt ==> why == Some("batch speech-to-text is not supported"@)
            &&& caps.batch_stt && request.diarize && !caps.diarization ==> why == Some(
                "speaker diarization is not supported"@,
            )
            &&& caps.batch_stt && (request.diarize ==> caps.diarization) && request.keyterms.len()
                > 0 && !caps.keyterms ==> why == Some("keyterm biasing is not supported"@)
            &&& caps.batch_stt && (request.diarize ==> caps.diarization) && (request.keyterms.len()
                > 0 ==> caps.keyterms) && request.prompt is Some && !caps.prompt ==> why == Some(
                "prompting is not supported"@,
            )
            &&& caps.batch_stt && (request.diarize ==> caps.diarization) && (request.keyterms.len()
                > 0 ==> caps.keyterms) && (request.prompt is Some ==> caps.prompt)
                && caps.max_upload_bytes is Some && input_len is Some && input_len->Some_0
                > caps.max_upload_bytes->Some_0 ==> why == Some(
                "input is "@ + text::decimal(input_len->Some_0 as nat)
                    + " bytes but the provider limit is "@ + text::decimal(
                    caps.max_upload_bytes->Some_0 as nat,
                ) + " bytes"@,
            )
        }),
{
}

} // verus!
