//! Answers of the xAI service that carry audio inside JSON: finding the audio,
//! and keeping the rest as metadata with the audio left out.

use crate::domain::{AudioCodec, AudioOutput, AudioOutputView, SpeechRequest};
use crate::encoding;
use crate::error::{CoreResult, Failure};
use crate::http;
use crate::json;
use crate::json::{Json, Kind};
use crate::provider::ProviderId;
use crate::text;
use crate::xai;
use serde_json::Value;
use vstd::prelude::*;

verus! {

// ---------------------------------------------------------------------------
// Redaction
// ---------------------------------------------------------------------------

/// Whether an entry under this key may hold encoded audio.
pub open spec fn is_audio_key(key: Seq<char>) -> bool {
    key == "audio"@ || key == "audio_base64"@ || key == "data"@
}

/// What stands in the place of encoded audio.
pub open spec fn omitted() -> Json {
    Json::Text("<base64 audio omitted>"@)
}

/// The document with every text under an audio key replaced, at any depth.
pub open spec fn redacted(j: Json) -> Json
    decreases j,
{
    match j {
        Json::Object(m) => Json::Object(
            Map::new(
                |k: Seq<char>| m.contains_key(k),
                |k: Seq<char>|
                    if is_audio_key(k) && m[k] is Text {
                        omitted()
                    } else if m.dom().finite() && m.contains_key(k) {
                        redacted(m[k])
                    } else {
                        m[k]
                    },
            ),
        ),
        Json::Array(s) => Json::Array(
            Seq::new(
                s.len(),
                |i: int|
                    if 0 <= i < s.len() {
                        redacted(s[i])
                    } else {
                        s[i]
                    },
            ),
        ),
        _ => j,
    }
}

fn key_is_audio(key: &str) -> (r: bool)
    ensures
        r == is_audio_key(key@),
{
    text::same(key, "audio") || text::same(key, "audio_base64") || text::same(key, "data")
}

/// Replaces every text under an audio key, at any depth.
pub fn redact_audio_fields(value: &mut Value)
    ensures
        json::json_of(*final(value)) == redacted(json::json_of(*old(value))),
    decreases json::json_of(*old(value)), 1nat,
{
    match json::kind(value) {
        Kind::Object => redact_entries(value),
        Kind::Array => redact_items(value),
        _ => {},
    }
}

fn redact_items(value: &mut Value)
    requires
        json::json_of(*old(value)) is Array,
    ensures
        json::json_of(*final(value)) == redacted(json::json_of(*old(value))),
    decreases json::json_of(*old(value)), 0nat,
{
    let ghost whole = json::json_of(*value);
    let ghost items = whole->Array_0;
    let mut array = json::null();
    std::mem::swap(value, &mut array);
    let mut list = json::into_items(array);
    let mut i: usize = 0;
    while i < list.len()
        invariant
            whole == json::json_of(*old(value)),
            whole is Array,
            items == whole->Array_0,
            i <= list@.len() == items.len(),
            forall|j: int|
                0 <= j < i ==> json::json_of(#[trigger] list@[j]) == redacted(items[j]),
            forall|j: int|
                i <= j < items.len() ==> json::json_of(#[trigger] list@[j]) == items[j],
        decreases list@.len() - i,
    {
        assert(decreases_to!(whole => whole->Array_0));
        assert(decreases_to!(items => items[i as int]));
        redact_audio_fields(&mut list[i]);
        i = i + 1;
    }
    assert(json::jsons_of(list@) =~= redacted(whole)->Array_0);
    *value = json::array(list);
}

fn redact_entries(value: &mut Value)
    requires
        json::json_of(*old(value)) is Object,
    ensures
        json::json_of(*final(value)) == redacted(json::json_of(*old(value))),
    decreases json::json_of(*old(value)), 0nat,
{
    let ghost whole = json::json_of(*value);
    let ghost entries = whole->Object_0;
    let ghost target = redacted(whole)->Object_0;
    let keys = json::keys(value);
    let ghost names = keys.deep_view();
    proof {
        vstd::seq_lib::seq_to_set_is_finite(names);
    }
    let mut i: usize = 0;
    while i < keys.len()
        invariant
            whole == json::json_of(*old(value)),
            whole is Object,
            entries == whole->Object_0,
            entries.dom().finite(),
            target == redacted(whole)->Object_0,
            names == keys.deep_view(),
            names.no_duplicates(),
            names.to_set() == entries.dom(),
            i <= keys@.len(),
            json::json_of(*value) is Object,
            json::json_of(*value)->Object_0.dom() =~= entries.dom(),
            forall|j: int|
                0 <= j < i ==> json::json_of(*value)->Object_0[#[trigger] names[j]]
                    == target[names[j]],
            forall|j: int|
                i <= j < names.len() ==> json::json_of(*value)->Object_0[#[trigger] names[j]]
                    == entries[names[j]],
        decreases keys@.len() - i,
    {
        let key = &keys[i];
        assert(names[i as int] == key@);
        assert(names.to_set().contains(key@));
        let mut child = json::take(value, key);
        assert(json::json_of(child) == entries[key@]);
        if key_is_audio(key) && matches!(json::kind(&child), Kind::Text) {
            json::put_text(value, key, "<base64 audio omitted>");
        } else {
            assert(decreases_to!(whole => whole->Object_0));
            assert(decreases_to!(entries => entries[key@]));
            redact_audio_fields(&mut child);
            json::put(value, key, child);
        }
        i = i + 1;
    }
    let ghost after = json::json_of(*value)->Object_0;
    assert forall|k: Seq<char>| entries.contains_key(k) implies after[k] == target[k] by {
        assert(names.to_set().contains(k));
        let j = choose|j: int| 0 <= j < names.len() && names[j] == k;
        assert(after[names[j]] == target[names[j]]);
    }
    assert(after =~= target);
}

/// Whether every text under an audio key is the one that stands in the place
/// of audio, at any depth.
pub open spec fn is_clean(j: Json) -> bool
    decreases j,
{
    match j {
        Json::Object(m) => forall|k: Seq<char>| #[trigger]
            m.contains_key(k) ==> (is_audio_key(k) && m[k] is Text ==> m[k] == omitted()) && (
            m.dom().finite() && m.contains_key(k) ==> is_clean(m[k])),
        Json::Array(s) => forall|i: int| 0 <= i < s.len() ==> is_clean(#[trigger] s[i]),
        _ => true,
    }
}

/// Redaction leaves no encoded audio behind, at any depth.
pub proof fn law_redaction_leaves_no_audio(j: Json)
    ensures
        is_clean(redacted(j)),
    decreases j,
{
    match j {
        Json::Object(m) => {
            let r = redacted(j)->Object_0;
            assert(r.dom() =~= m.dom());
            assert forall|k: Seq<char>| #[trigger] r.contains_key(k) implies (is_audio_key(k)
                && r[k] is Text ==> r[k] == omitted()) && (r.dom().finite() && r.contains_key(k)
                ==> is_clean(r[k])) by {
                assert(m.contains_key(k));
                if m.dom().finite() {
                    assert(decreases_to!(j => j->Object_0));
                    assert(decreases_to!(m => m[k]));
                    law_redaction_leaves_no_audio(m[k]);
                    if is_audio_key(k) && r[k] is Text {
                        assert(m[k] is Text || redacted(m[k]) == m[k]);
                    }
                }
            }
        },
        Json::Array(s) => {
            let r = redacted(j)->Array_0;
            assert forall|i: int| 0 <= i < r.len() implies is_clean(#[trigger] r[i]) by {
                assert(decreases_to!(j => j->Array_0));
                assert(decreases_to!(s => s[i]));
                law_redaction_leaves_no_audio(s[i]);
            }
        },
        _ => {},
    }
}

/// Redaction changes nothing where there is no encoded audio.
pub proof fn law_redaction_keeps_the_rest(j: Json)
    requires
        is_clean(j),
    ensures
        redacted(j) == j,
    decreases j,
{
    match j {
        Json::Object(m) => {
            let r = redacted(j)->Object_0;
            assert forall|k: Seq<char>| m.contains_key(k) implies #[trigger] r[k] == m[k] by {
                if m.dom().finite() {
                    assert(decreases_to!(j => j->Object_0));
                    assert(decreases_to!(m => m[k]));
                    law_redaction_keeps_the_rest(m[k]);
                }
            }
            assert(r =~= m);
        },
        Json::Array(s) => {
            let r = redacted(j)->Array_0;
            assert forall|i: int| 0 <= i < s.len() implies #[trigger] r[i] == s[i] by {
                assert(decreases_to!(j => j->Array_0));
                assert(decreases_to!(s => s[i]));
                law_redaction_keeps_the_rest(s[i]);
            }
            assert(r =~= s);
        },
        _ => {},
    }
}

// ---------------------------------------------------------------------------
// The audio of an answer
// ---------------------------------------------------------------------------

/// The encoded audio of an answer: the first of the entries `audio`,
/// `audio_base64` and `data`, where it is a text, else `audio` within `data`.
pub open spec fn audio_text(j: Json) -> Option<Seq<char>> {
    let first = if j.entry("audio"@) is Some {
        j.entry("audio"@)
    } else if j.entry("audio_base64"@) is Some {
        j.entry("audio_base64"@)
    } else {
        j.entry("data"@)
    };
    match first {
        Some(Json::Text(s)) => Some(s),
        _ => j.text_within("data"@, "audio"@),
    }
}

pub fn audio_base64(value: &Value) -> (r: Option<String>)
    ensures
        r.deep_view() == audio_text(json::json_of(*value)),
{
    let first = match json::get(value, "audio") {
        Some(v) => Some(v),
        None => match json::get(value, "audio_base64") {
            Some(v) => Some(v),
            None => json::get(value, "data"),
        },
    };
    if let Some(v) = first {
        if let Some(s) = json::as_text(v) {
            return Some(s.to_owned());
        }
    }
    json::text_within(value, "data", "audio")
}

/// The failure of the service with this message.
pub open spec fn xai_failure(message: Seq<char>) -> Failure {
    Failure::Provider { provider: "xai"@, message }
}

/// Speech in the codec that was asked for, with the answer it came in.
pub open spec fn timed_output(codec: AudioCodec, answer: Json, audio: Seq<u8>) -> AudioOutputView {
    AudioOutputView {
        bytes: audio,
        mime: xai::codec_mime(codec),
        codec,
        provider: ProviderId::Xai,
        duration: None,
        metadata: Some(redacted(answer)),
    }
}

/// Speech that came inside an answer, given what decoding its audio brought.
pub fn finish_timed_speech(codec: AudioCodec, answer: Value, audio: Result<Vec<u8>, String>) -> (r:
    CoreResult<AudioOutput>)
    ensures
        crate::error::outcome(r) == match audio {
            Ok(bytes) => Ok::<AudioOutputView, Failure>(
                timed_output(codec, json::json_of(answer), bytes@),
            ),
            Err(e) => Err(xai_failure("decoding timestamp audio: "@ + e@)),
        },
{
    match audio {
        Ok(bytes) => {
            let mut metadata = answer;
            redact_audio_fields(&mut metadata);
            Ok(
                AudioOutput {
                    bytes,
                    mime: xai::mime_for_codec(codec).to_owned(),
                    codec,
                    provider: ProviderId::Xai,
                    duration: None,
                    metadata: Some(metadata),
                },
            )
        },
        Err(e) => Err(http::provider_error("xai", "decoding timestamp audio: ", &e)),
    }
}

/// Speech that came inside an answer, given what reading the answer brought.
pub open spec fn timed_speech_of(codec: AudioCodec, answer: Result<Json, Seq<char>>) -> Result<
    AudioOutputView,
    Failure,
> {
    match answer {
        Ok(j) => match audio_text(j) {
            Some(s) => match encoding::base64_decoded(s) {
                Ok(audio) => Ok(timed_output(codec, j, audio)),
                Err(e) => Err(xai_failure("decoding timestamp audio: "@ + e)),
            },
            None => Err(xai_failure("timestamp response did not include audio"@)),
        },
        Err(e) => Err(xai_failure("decoding timestamp response: "@ + e)),
    }
}

pub fn timed_speech(codec: AudioCodec, answer: Result<Value, String>) -> (r: CoreResult<
    AudioOutput,
>)
    ensures
        crate::error::outcome(r) == timed_speech_of(codec, json::reading(answer)),
{
    match answer {
        Ok(value) => match audio_base64(&value) {
            Some(s) => finish_timed_speech(codec, value, encoding::base64_decode(&s)),
            None => {
                proof {
                    reveal_strlit("");
                    assert("timestamp response did not include audio"@ + ""@
                        =~= "timestamp response did not include audio"@);
                }
                Err(http::provider_error("xai", "timestamp response did not include audio", ""))
            },
        },
        Err(e) => Err(http::provider_error("xai", "decoding timestamp response: ", &e)),
    }
}

/// Whether the answer to a speech request is JSON rather than audio.
pub open spec fn is_timed(request: SpeechRequest, mime: Seq<char>) -> bool {
    request.with_timestamps || text::contains(mime, "json"@)
}

/// The media type of an answer: what it declares, or what its codec has.
pub open spec fn answer_mime(request: SpeechRequest, content_type: Option<Seq<char>>) -> Seq<char> {
    text::or(content_type, xai::codec_mime(request.codec))
}

/// The speech that an answer with these bytes brings.
pub fn speech_output(request: &SpeechRequest, content_type: &Option<String>, bytes: Vec<u8>) -> (r:
    CoreResult<AudioOutput>)
    ensures
        crate::error::outcome(r) == if is_timed(
            *request,
            answer_mime(*request, content_type.deep_view()),
        ) {
            timed_speech_of(request.codec, json::json_parsed_bytes(bytes@))
        } else {
            Ok(
                AudioOutputView {
                    bytes: bytes@,
                    mime: answer_mime(*request, content_type.deep_view()),
                    codec: request.codec,
                    provider: ProviderId::Xai,
                    duration: None,
                    metadata: None,
                },
            )
        },
{
    let mime = text::text_or(content_type, xai::mime_for_codec(request.codec));
    if request.with_timestamps || text::has_part(&mime, "json") {
        return timed_speech(request.codec, json::parse_bytes(bytes.as_slice()));
    }
    Ok(
        AudioOutput {
            bytes,
            mime,
            codec: request.codec,
            provider: ProviderId::Xai,
            duration: None,
            metadata: None,
        },
    )
}

// ---------------------------------------------------------------------------
// Laws of entries and answers
// ---------------------------------------------------------------------------

/// Redaction replaces a text under `audio`, `audio_base64` or `data`, keeps a text
/// under any other key and every number, truth and null, and goes on inside objects
/// and lists. No entry and no item is lost or added.
pub proof fn law_redaction_by_entry(j: Json, key: Seq<char>)
    requires
        j matches Json::Object(m) ==> m.dom().finite(),
    ensures
        j is Object ==> match (j.entry(key), redacted(j).entry(key)) {
            (Some(Json::Text(s)), Some(r)) => if key == "audio"@ || key == "audio_base64"@ || key
                == "data"@ {
                r == Json::Text("<base64 audio omitted>"@)
            } else {
                r == Json::Text(s)
            },
            (Some(v), Some(r)) => r == redacted(v),
            (None, None) => true,
            _ => false,
        },
        j is Object ==> redacted(j) is Object,
        j matches Json::Array(s) ==> match redacted(j) {
            Json::Array(r) => r.len() == s.len() && forall|i: int|
                0 <= i < s.len() ==> (#[trigger] r[i]) == redacted(s[i]),
            _ => false,
        },
        j is Text || j is Number || j is Bool || j is Null ==> redacted(j) == j,
{
}

/// The audio of an answer is looked for under `audio`, then under `audio_base64`, then
/// under `data`: the first of them that is there counts. Where that is no text, the
/// audio inside `data` counts.
pub proof fn law_where_audio_is_found(j: Json)
    ensures
        j.text_at("audio"@) matches Some(s) ==> audio_text(j) == Some(s),
        j.entry("audio"@) is None ==> (j.text_at("audio_base64"@) matches Some(s) ==> audio_text(j)
            == Some(s)),
        j.entry("audio"@) is None && j.entry("audio_base64"@) is None ==> (j.text_at(
            "data"@,
        ) matches Some(s) ==> audio_text(j) == Some(s)),
        j.text_at("audio"@) is None && j.text_at("audio_base64"@) is None && j.text_at("data"@)
            is None ==> audio_text(j) == j.text_within("data"@, "audio"@),
{
}

/// Speech that comes inside an answer is its audio, decoded, in the codec that was
/// asked for, and keeps the answer as metadata with the audio left out; where the
/// answer cannot be read, has no audio or cannot be decoded, that is a failure.
pub proof fn law_speech_inside_an_answer(codec: AudioCodec, answer: Result<Json, Seq<char>>)
    ensures
        match (answer, timed_speech_of(codec, answer)) {
            (Ok(j), Ok(out)) => {
                &&& audio_text(j) is Some
                &&& encoding::base64_decoded(audio_text(j)->Some_0) == Ok::<Seq<u8>, Seq<char>>(
                    out.bytes,
                )
                &&& out.codec == codec
                &&& out.mime == xai::codec_mime(codec)
                &&& out.provider == ProviderId::Xai
                &&& out.metadata == Some(redacted(j))
                &&& out.duration is None
            },
            (Ok(j), Err(f)) => f is Provider && (audio_text(j) is None || encoding::base64_decoded(
                audio_text(j)->Some_0,
            ) is Err),
            (Err(_), Err(f)) => f is Provider,
            (Err(_), Ok(_)) => false,
        },
{
}

/// An answer is read as JSON where times were asked for or where its media type says
/// so; its media type is what it declares, else that of the codec.
pub proof fn law_kind_of_answer(
    request: SpeechRequest,
    mime: Seq<char>,
    content_type: Option<Seq<char>>,
)
    ensures
        is_timed(request, mime) <==> request.with_timestamps || text::contains(
            mime,
            seq!['j', 's', 'o', 'n'],
        ),
        answer_mime(request, content_type) == match content_type {
            Some(t) => t,
            None => xai::codec_mime(request.codec),
        },
{
    reveal_strlit("json");
    assert("json"@ =~= seq!['j', 's', 'o', 'n']);
}

/// A failure of the service names it and says what went wrong.
pub proof fn law_failures_name_the_service(message: Seq<char>)
    ensures
        xai_failure(message) == (Failure::Provider { provider: "xai"@, message }),
{
}

/// An answer without speech is told as such: it could not be read, it held no audio, or
/// its audio could not be decoded.
pub proof fn law_answer_without_speech(codec: AudioCodec, j: Json, e: Seq<char>)
    ensures
        timed_speech_of(codec, Err(e)) == Err::<AudioOutputView, Failure>(
            Failure::Provider { provider: "xai"@, message: "decoding timestamp response: "@ + e },
        ),
        audio_text(j) is None ==> timed_speech_of(codec, Ok(j)) == Err::<AudioOutputView, Failure>(
            Failure::Provider {
                provider: "xai"@,
                message: "timestamp response did not include audio"@,
            },
        ),
        audio_text(j) matches Some(s) ==> (encoding::base64_decoded(s) == Err::<
            Seq<u8>,
            Seq<char>,
        >(e) ==> timed_speech_of(codec, Ok(j)) == Err::<AudioOutputView, Failure>(
            Failure::Provider { provider: "xai"@, message: "decoding timestamp audio: "@ + e },
        )),
{
}

} // verus!
