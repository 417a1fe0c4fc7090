use base64::Engine as _;
use open_voice::decimal::Decimal;
use open_voice::domain::{
    AudioCodec, AudioSource, Language, SpeechRequest, TranscribeRequest, Transcript,
};
use open_voice::error::CoreError;
use open_voice::http::{source_parts, Body, HttpRequest, Method, Part, Upload};
use open_voice::path::Style;
use open_voice::ports::{AudioEvent, Provider, StreamTranscribeRequest, TranscriptEvent};
use open_voice::provider::ProviderId;
use open_voice::xai::{codec_fields, mime_for_codec, SttResponse, SttWord, XaiProvider, XaiSettings};
use open_voice::xai_realtime::{
    realtime_audio_format, realtime_error, RealtimeAgentRequest, RealtimeTurn,
};
use open_voice::xai_stream::{
    audio_done_message, audio_event, closed_before_ready, session_ready, transcript_event, WsEvent,
};
use open_voice::xai_timestamps::{audio_base64, redact_audio_fields, speech_output};
use open_voice::xai_voices::{
    deleted, voice_received, voices_listed, CustomVoiceCreateRequest, CustomVoiceList,
    CustomVoiceUpdateRequest, XaiVoice, XAI_BUILT_IN_VOICES,
};
use serde_json::Value;

fn d(s: f64) -> Decimal {
    Decimal::parse(&format!("{s}")).unwrap()
}

fn parsed(text: &str) -> Value {
    serde_json::from_str(text).unwrap()
}

fn base64(bytes: &[u8]) -> String {
    base64::engine::general_purpose::STANDARD.encode(bytes)
}

fn provider() -> XaiProvider {
    XaiProvider::new(
        "xai-key",
        XaiSettings {
            base_url: "http://server".into(),
            ws_url: "ws://server".into(),
            ..Default::default()
        },
    )
}

fn source() -> AudioSource {
    AudioSource::Bytes {
        data: b"fake-ogg-audio".to_vec(),
        file_name: "WhatsApp Ptt 2026-07-02 at 14.56.03.ogg".into(),
        mime: "audio/ogg".into(),
    }
}

fn upload() -> Upload {
    source_parts(&source(), Err("unused".into()), Style::Unix).unwrap()
}

fn bearer(request: &HttpRequest) -> Option<&str> {
    request
        .headers
        .iter()
        .find(|h| h.name.eq_ignore_ascii_case("authorization"))
        .map(|h| h.value.as_str())
}

fn parts(request: &HttpRequest) -> Vec<String> {
    match &request.body {
        Body::Form(parts) => parts
            .iter()
            .map(|p| match p {
                Part::Text(f) => format!("{}={}", f.name, f.value),
                Part::File { name, upload } => format!("{name}@{}", upload.file_name),
            })
            .collect(),
        other => panic!("{other:?}"),
    }
}

fn body(request: &HttpRequest) -> &Value {
    match &request.body {
        Body::Json(v) => v,
        other => panic!("{other:?}"),
    }
}

fn word(text: &str, start: f64, end: f64, speaker: Option<u32>) -> SttWord {
    SttWord {
        text: text.into(),
        start: d(start),
        end: d(end),
        speaker,
    }
}

#[test]
fn transcribe_maps_words_and_diarization() {
    let mut request = TranscribeRequest::new(source());
    request.language = Some(Language::new("es"));
    request.diarize = true;
    request.keyterms = vec!["Hola".into()];
    let sent = provider().transcribe(&request, upload());
    assert_eq!(sent.method, Method::Post);
    assert_eq!(sent.url, "http://server/v1/stt");
    assert_eq!(bearer(&sent), Some("Bearer xai-key"));
    // xAI requires the file part to be the LAST multipart field.
    assert_eq!(
        parts(&sent),
        [
            "language=es",
            "format=true",
            "diarize=true",
            "keyterm=Hola",
            "file@WhatsApp Ptt 2026-07-02 at 14.56.03.ogg"
        ]
    );

    let transcript = provider()
        .transcript(Ok(SttResponse {
            text: "Hola mundo. Segunda frase".into(),
            language: Some("Spanish".into()),
            duration: Some(d(4.2)),
            words: vec![
                word("Hola", 0.0, 0.4, Some(0)),
                word("mundo.", 0.5, 0.9, Some(0)),
                word("Segunda", 3.0, 3.4, Some(1)),
                word("frase", 3.5, 3.9, Some(1)),
            ],
        }))
        .unwrap();
    assert_eq!(transcript.provider, ProviderId::Xai);
    assert_eq!(transcript.duration, Some(d(4.2)));
    assert_eq!(transcript.words.len(), 4);
    assert_eq!(transcript.words[0].speaker.as_deref(), Some("speaker_0"));
    // Speaker change forces a segment split.
    assert_eq!(transcript.segments.len(), 2);
    assert_eq!(transcript.model.as_deref(), Some("grok-stt"));

    let err = provider().transcript(Err("eof".into())).unwrap_err();
    assert!(matches!(err, CoreError::Provider { message, .. } if message == "decoding response: eof"));
}

#[test]
fn synthesize_builds_tts_payload() {
    let mut request = SpeechRequest::new("Hola mundo");
    request.language = Some(Language::new("es"));
    request.speed = Some(d(f64::from(1.1f32)));
    request.model = Some("grok-voice-latest".into());
    request.bit_rate = Some(128_000);
    request.optimize_streaming_latency = Some(1);
    request.text_normalization = Some(true);
    let sent = provider().synthesize(&request).unwrap();
    assert_eq!(sent.method, Method::Post);
    assert_eq!(sent.url, "http://server/v1/tts");
    assert_eq!(bearer(&sent), Some("Bearer xai-key"));

    let output =
        speech_output(&request, &Some("audio/mpeg".into()), b"MP3DATA".to_vec()).unwrap();
    assert_eq!(output.bytes, b"MP3DATA");
    assert_eq!(output.mime, "audio/mpeg");

    let body = body(&sent);
    assert_eq!(body["text"], "Hola mundo");
    assert_eq!(body["language"], "es");
    assert_eq!(body["voice_id"], "eve");
    assert_eq!(body["model"], "grok-voice-latest");
    assert_eq!(body["output_format"]["codec"], "mp3");
    assert_eq!(body["output_format"]["bit_rate"], 128000);
    assert_eq!(body["optimize_streaming_latency"], 1);
    assert_eq!(body["text_normalization"], true);
    let speed = body["speed"].as_f64().unwrap();
    assert!((speed - 1.1).abs() < 1e-6, "speed {speed}");
}

#[test]
fn synthesize_maps_timestamp_json_response() {
    let mut request = SpeechRequest::new("Hola");
    request.with_timestamps = true;
    let sent = provider().synthesize(&request).unwrap();
    assert_eq!(body(&sent)["with_timestamps"], true);

    let answer = format!(
        "{{\"audio\":\"{}\",\"characters\":[{{\"char\":\"H\",\"start\":0.0,\"end\":0.1}}]}}",
        base64(b"MP3DATA")
    );
    let output = speech_output(
        &request,
        &Some("application/json".into()),
        answer.into_bytes(),
    )
    .unwrap();
    assert_eq!(output.bytes, b"MP3DATA");
    let metadata = output.metadata.expect("timestamp metadata");
    assert_eq!(metadata["audio"], "<base64 audio omitted>");
    assert_eq!(metadata["characters"][0]["char"], "H");
}

#[test]
fn xai_batch_synthesize_rejects_unsupported_codec() {
    let mut request = SpeechRequest::new("Hola");
    request.codec = AudioCodec::Flac;
    let err = provider().synthesize(&request).unwrap_err();
    assert!(matches!(err, CoreError::Unsupported { .. }), "got {err:?}");
}

#[test]
fn capabilities_are_full_featured() {
    let caps = provider().capabilities();
    assert!(caps.batch_stt && caps.batch_tts && caps.streaming_stt && caps.streaming_tts);
    assert!(caps.diarization && caps.keyterms && caps.multichannel);
    assert!(caps.accepts_extension("ogg"));
    assert_eq!(caps.max_upload_bytes, Some(500 * 1024 * 1024));
}

#[test]
fn timestamp_answers_can_fail() {
    let mut request = SpeechRequest::new("Hola");
    request.with_timestamps = true;
    let message = |bytes: &[u8]| match speech_output(&request, &None, bytes.to_vec()) {
        Err(CoreError::Provider { message, .. }) => message,
        other => panic!("{other:?}"),
    };
    assert!(message(b"not json").starts_with("decoding timestamp response: "));
    assert_eq!(
        message(b"{\"characters\":[]}"),
        "timestamp response did not include audio"
    );
    assert!(message(b"{\"audio\":\"%%%\"}").starts_with("decoding timestamp audio: "));
    // A body of the expected kind needs no reading, and no type is guessed.
    request.with_timestamps = false;
    let plain = speech_output(&request, &None, b"RAW".to_vec()).unwrap();
    assert_eq!(plain.mime, "audio/mpeg");
    assert!(plain.metadata.is_none());
}

#[test]
fn redaction_reaches_every_depth() {
    let mut value = parsed(
        "{\"audio\":\"AAAA\",\"n\":[{\"data\":\"BBBB\",\"k\":1},{\"audio_base64\":\"CC\"}],\
         \"data\":{\"audio\":\"DD\",\"text\":\"keep\"}}",
    );
    redact_audio_fields(&mut value);
    assert_eq!(
        value,
        parsed(
            "{\"audio\":\"<base64 audio omitted>\",\"n\":[{\"data\":\"<base64 audio omitted>\",\
             \"k\":1},{\"audio_base64\":\"<base64 audio omitted>\"}],\
             \"data\":{\"audio\":\"<base64 audio omitted>\",\"text\":\"keep\"}}"
        )
    );
}

#[test]
fn audio_is_found_under_each_key() {
    let found = |text: &str| audio_base64(&parsed(text));
    assert_eq!(found("{\"audio\":\"A\",\"data\":\"D\"}").as_deref(), Some("A"));
    assert_eq!(found("{\"audio_base64\":\"B\"}").as_deref(), Some("B"));
    assert_eq!(found("{\"data\":\"C\"}").as_deref(), Some("C"));
    assert_eq!(found("{\"data\":{\"audio\":\"D\"}}").as_deref(), Some("D"));
    assert_eq!(found("{\"audio\":7}"), None);
    assert_eq!(found("[]"), None);
}

fn voice(id: &str) -> XaiVoice {
    XaiVoice {
        voice_id: id.into(),
        name: Some("Narrator".into()),
        description: None,
        gender: None,
        accent: None,
        age: None,
        language: Some("en".into()),
        use_case: None,
        tone: Some("warm".into()),
        created_at: None,
    }
}

#[test]
fn custom_voices_list_and_get() {
    let sent = provider().list_custom_voices(Some(50), None);
    assert_eq!(sent.method, Method::Get);
    assert_eq!(sent.url, "http://server/v1/custom-voices");
    assert_eq!(bearer(&sent), Some("Bearer xai-key"));
    assert_eq!(sent.query.len(), 1);
    assert_eq!(sent.query[0].name, "limit");
    assert_eq!(sent.query[0].value, "50");
    let list = voices_listed(Ok(CustomVoiceList {
        voices: vec![voice("abc123xy")],
        pagination_token: Some("next".into()),
    }))
    .unwrap();
    assert_eq!(list.voices[0].voice_id, "abc123xy");
    assert_eq!(list.pagination_token.as_deref(), Some("next"));
    let next = provider().list_custom_voices(None, Some("next"));
    assert_eq!(next.query[0].name, "pagination_token");

    let sent = provider().get_custom_voice("abc123xy");
    assert_eq!(sent.url, "http://server/v1/custom-voices/abc123xy");
    let found = voice_received(Ok(voice("abc123xy"))).unwrap();
    assert_eq!(found.name.as_deref(), Some("Narrator"));
    assert!(voices_listed(Err("x".into())).is_err());
    assert!(voice_received(Err("x".into())).is_err());
}

#[test]
fn custom_voice_create_update_delete() {
    let create = CustomVoiceCreateRequest {
        file: source(),
        name: "Narrator".into(),
        description: Some("Warm narration".into()),
        gender: Some("female".into()),
        accent: None,
        age: None,
        language: Some("en".into()),
        use_case: Some("narration".into()),
        tone: Some("warm".into()),
    };
    let sent = provider().create_custom_voice(&create, upload());
    assert_eq!(sent.method, Method::Post);
    assert_eq!(sent.url, "http://server/v1/custom-voices");
    assert_eq!(
        parts(&sent),
        [
            "name=Narrator",
            "description=Warm narration",
            "gender=female",
            "language=en",
            "use_case=narration",
            "tone=warm",
            "file@WhatsApp Ptt 2026-07-02 at 14.56.03.ogg"
        ]
    );
    let created = voice_received(Ok(voice("abc123xy"))).unwrap();
    assert_eq!(created.voice_id, "abc123xy");

    let sent = provider()
        .update_custom_voice(
            "abc123xy",
            &CustomVoiceUpdateRequest {
                name: Some("Narrator 2".into()),
                tone: Some("calm".into()),
                ..Default::default()
            },
        )
        .unwrap();
    assert_eq!(sent.method, Method::Patch);
    assert_eq!(sent.url, "http://server/v1/custom-voices/abc123xy");
    assert_eq!(body(&sent)["name"], "Narrator 2");
    assert_eq!(body(&sent)["tone"], "calm");
    assert!(body(&sent).get("age").is_none());
    let updated = XaiVoice {
        name: Some("Narrator 2".into()),
        tone: Some("calm".into()),
        ..voice("abc123xy")
    };
    let updated = voice_received(Ok(updated)).unwrap();
    assert_eq!(updated.name.as_deref(), Some("Narrator 2"));

    let sent = provider().delete_custom_voice("abc123xy");
    assert_eq!(sent.method, Method::Delete);
    assert_eq!(sent.url, "http://server/v1/custom-voices/abc123xy");
    assert!(deleted(200, "{\"deleted\":true}").unwrap());
}

#[test]
fn empty_updates_and_odd_deletions() {
    let err = provider()
        .update_custom_voice("id", &CustomVoiceUpdateRequest::default())
        .unwrap_err();
    assert!(matches!(err, CoreError::InvalidInput(_)));
    assert!(deleted(204, "ignored").unwrap());
    assert!(deleted(200, "  ").unwrap());
    assert!(!deleted(200, "{\"deleted\":false}").unwrap());
    assert!(deleted(200, "{\"deleted\":\"no\"}").unwrap());
    assert!(matches!(
        deleted(200, "oops"),
        Err(CoreError::Provider { message, .. }) if message.starts_with("decoding delete response: ")
    ));
    assert_eq!(XAI_BUILT_IN_VOICES[0], ("eve", "Eve", "Energetic, upbeat"));
}

fn event(kind: &str) -> WsEvent {
    WsEvent {
        kind: kind.into(),
        text: None,
        words: None,
        is_final: None,
        speech_final: None,
        duration: None,
        audio: None,
        message: None,
    }
}

#[test]
fn streaming_stt_round_trip() {
    let request = StreamTranscribeRequest {
        sample_rate: 16_000,
        language: Some(Language::new("es")),
        diarize: false,
        keyterms: vec!["Hola".into()],
        interim_results: true,
        smart_turn: false,
        smart_turn_timeout_ms: None,
    };
    assert_eq!(
        provider().stream_transcribe(&request),
        "ws://server/v1/stt?sample_rate=16000&encoding=pcm&interim_results=true&language=es\
         &keyterm=Hola"
    );
    assert!(session_ready(&Ok(event("transcript.created"))).unwrap());
    assert_eq!(audio_done_message(), r#"{"type":"audio.done"}"#);

    let events = [
        WsEvent {
            text: Some("Hola".into()),
            words: Some(vec![word("Hola", 0.0, 0.4, None)]),
            is_final: Some(true),
            speech_final: Some(false),
            ..event("transcript.partial")
        },
        WsEvent {
            text: Some("Hola mundo.".into()),
            duration: Some(d(1.0)),
            words: Some(vec![
                word("Hola", 0.0, 0.4, None),
                word("mundo.", 0.5, 0.9, None),
            ]),
            ..event("transcript.done")
        },
    ];
    let mut partials = 0;
    let mut done: Option<Transcript> = None;
    for e in events {
        let (brought, last) = transcript_event(&Ok(e));
        match brought.unwrap().unwrap() {
            TranscriptEvent::Partial { text, is_final, .. } => {
                assert_eq!(text, "Hola");
                assert!(is_final);
                assert!(!last);
                partials += 1;
            }
            TranscriptEvent::Done(transcript) => {
                assert!(last);
                done = Some(transcript);
            }
        }
    }
    assert_eq!(partials, 1);
    let transcript = done.expect("final transcript");
    assert_eq!(transcript.text, "Hola mundo.");
    assert_eq!(transcript.words.len(), 2);
    assert_eq!(transcript.duration, Some(d(1.0)));
}

#[test]
fn streaming_tts_round_trip() {
    let mut request = SpeechRequest::new("Hola mundo");
    request.language = Some(Language::new("es"));
    let opening = provider().stream_synthesize(&request).unwrap();
    assert_eq!(
        opening.url,
        "ws://server/v1/tts?voice=eve&language=es&codec=mp3&sample_rate=24000"
    );
    let mut got_text = String::new();
    for message in &opening.messages {
        let value = parsed(message);
        match value["type"].as_str() {
            Some("text.delta") => got_text.push_str(value["delta"].as_str().unwrap_or_default()),
            Some("text.done") => break,
            _ => {}
        }
    }
    assert_eq!(got_text, "Hola mundo");

    let mut audio = Vec::new();
    let mut finished = false;
    let events = [
        WsEvent {
            audio: Some(base64(b"AUDIO1")),
            ..event("audio.delta")
        },
        event("audio.done"),
    ];
    for e in events {
        let (brought, last) = audio_event(&Ok(e));
        match brought.unwrap().unwrap() {
            AudioEvent::Chunk(bytes) => audio.extend_from_slice(&bytes),
            AudioEvent::Done => finished = true,
        }
        assert_eq!(last, finished);
    }
    assert!(finished);
    assert_eq!(audio, b"AUDIO1");
}

#[test]
fn sessions_report_errors_and_go_on() {
    let failed = WsEvent {
        message: Some("quota".into()),
        ..event("error")
    };
    assert!(matches!(
        session_ready(&Ok(failed.clone())),
        Err(CoreError::Provider { message, .. }) if message == "quota"
    ));
    assert!(!session_ready(&Ok(event("ping"))).unwrap());
    let (brought, last) = transcript_event(&Ok(event("error")));
    assert!(matches!(
        brought,
        Some(Err(CoreError::Provider { message, .. })) if message == "ws error"
    ));
    assert!(!last);
    let (brought, last) = transcript_event(&Err("eof".into()));
    assert!(matches!(
        brought,
        Some(Err(CoreError::Provider { message, .. })) if message == "decoding ws event: eof"
    ));
    assert!(!last);
    assert!(transcript_event(&Ok(event("ping"))).0.is_none());
    let bad = WsEvent {
        audio: Some("%".into()),
        ..event("audio.delta")
    };
    assert!(matches!(
        audio_event(&Ok(bad)).0,
        Some(Err(CoreError::Provider { message, .. })) if message.starts_with("decoding audio chunk: ")
    ));
    assert!(matches!(closed_before_ready(), CoreError::Network(_)));
}

#[test]
fn addresses_are_percent_encoded() {
    let request = StreamTranscribeRequest {
        sample_rate: 8_000,
        language: None,
        diarize: true,
        keyterms: vec!["a b&c".into(), "ñ".into()],
        interim_results: false,
        smart_turn: true,
        smart_turn_timeout_ms: Some(1500),
    };
    assert_eq!(
        provider().stream_transcribe(&request),
        "ws://server/v1/stt?sample_rate=8000&encoding=pcm&smart_turn=true\
         &smart_turn_timeout_ms=1500&diarize=true&keyterm=a%20b%26c&keyterm=%C3%B1"
    );
    let mut speech = SpeechRequest::new("x");
    speech.voice = Some("my voice".into());
    speech.bit_rate = Some(64_000);
    speech.optimize_streaming_latency = Some(2);
    assert_eq!(
        provider().stream_synthesize(&speech).unwrap().url,
        "ws://server/v1/tts?voice=my%20voice&language=auto&codec=mp3&sample_rate=24000\
         &bit_rate=64000&optimize_streaming_latency=2"
    );
    speech.codec = AudioCodec::Opus;
    assert!(provider().stream_synthesize(&speech).is_err());
}

#[test]
fn codecs_of_the_service() {
    assert_eq!(
        codec_fields(AudioCodec::Mulaw, Some(8_000)).unwrap(),
        ("mulaw".to_string(), 8_000)
    );
    assert_eq!(codec_fields(AudioCodec::Pcm, None).unwrap().1, 24_000);
    assert_eq!(mime_for_codec(AudioCodec::Mulaw), "audio/basic");
    assert_eq!(
        realtime_audio_format(AudioCodec::Alaw, None).unwrap(),
        ("audio/pcma".to_string(), 24_000)
    );
    assert!(matches!(
        realtime_audio_format(AudioCodec::Mp3, None),
        Err(CoreError::Unsupported { message, .. })
            if message == "realtime codec 'mp3' (use pcm, mulaw, or alaw)"
    ));
}

#[test]
fn a_turn_opens_with_three_messages() {
    let mut request = RealtimeAgentRequest::text("hello");
    request.reasoning_effort = Some("high".into());
    request.vad_threshold = Some(d(0.5));
    request.vad_silence_duration_ms = Some(700);
    request.language_hint = Some("es".into());
    request.instructions = Some("be brief".into());
    let opening = provider().realtime_text_turn(&request).unwrap();
    assert_eq!(
        opening.url,
        "ws://server/v1/realtime?model=grok-voice-latest&reasoning.effort=high"
    );
    assert_eq!(opening.messages.len(), 3);
    let update = parsed(&opening.messages[0]);
    assert_eq!(update["type"], "session.update");
    let session = &update["session"];
    assert_eq!(session["voice"], "eve");
    assert_eq!(session["instructions"], "be brief");
    assert_eq!(session["reasoning"]["effort"], "high");
    assert_eq!(session["turn_detection"]["type"], "server_vad");
    assert_eq!(session["turn_detection"]["threshold"], 0.5);
    assert_eq!(session["turn_detection"]["silence_duration_ms"], 700);
    assert_eq!(session["audio"]["output"]["format"]["rate"], 24_000);
    assert_eq!(
        session["audio"]["input"]["transcription"]["language_hint"],
        "es"
    );
    let item = parsed(&opening.messages[1]);
    assert_eq!(item["item"]["content"][0]["text"], "hello");
    let create = parsed(&opening.messages[2]);
    assert_eq!(create["response"]["modalities"][0], "audio");

    request.manual_turn = true;
    request.text_only = true;
    let opening = provider().realtime_text_turn(&request).unwrap();
    let update = parsed(&opening.messages[0]);
    assert!(update["session"]["turn_detection"].is_null());
    let create = parsed(&opening.messages[2]);
    assert_eq!(create["response"]["modalities"][0], "text");

    request.output_codec = AudioCodec::Mp3;
    assert!(provider().realtime_text_turn(&request).is_err());
}

#[test]
fn a_turn_collects_what_it_is_sent() {
    let mut turn = RealtimeTurn::start("audio/pcm", AudioCodec::Pcm, 24_000);
    let delta = format!(
        "{{\"type\":\"response.output_audio.delta\",\"delta\":\"{}\"}}",
        base64(b"PCM")
    );
    let messages = [
        "{\"type\":\"conversation.created\",\"conversation\":{\"id\":\"c1\"}}",
        "{\"type\":\"response.created\",\"response\":{\"id\":\"r1\"}}",
        delta.as_str(),
        "{\"type\":\"response.output_audio_transcript.delta\",\"delta\":\"Hi \"}",
        "{\"type\":\"response.output_audio_transcript.delta\",\"delta\":\"there\"}",
        "{\"type\":\"response.text.delta\",\"delta\":\"ignored\"}",
        "{\"type\":\"conversation.item.input_audio_transcription.completed\",\"transcript\":\"hello\"}",
        "{\"type\":\"ping\"}",
    ];
    for message in messages {
        assert!(!turn.take_message(message).unwrap());
    }
    assert!(turn
        .take_message("{\"type\":\"response.done\",\"response\":{\"status\":\"completed\"}}")
        .unwrap());
    let turn = turn.finish();
    assert_eq!(turn.text, "Hi there");
    assert_eq!(turn.audio, b"PCM");
    assert_eq!(turn.audio_mime, "audio/pcm");
    assert_eq!(turn.conversation_id.as_deref(), Some("c1"));
    assert_eq!(turn.response_id.as_deref(), Some("r1"));
    assert_eq!(turn.response_status.as_deref(), Some("completed"));
    assert_eq!(turn.input_transcript.as_deref(), Some("hello"));
}

#[test]
fn a_turn_can_fail() {
    let start = || RealtimeTurn::start("audio/pcm", AudioCodec::Pcm, 24_000);
    let fails = |message: &str| match start().take_message(message) {
        Err(CoreError::Provider { message, .. }) => message,
        other => panic!("{other:?}"),
    };
    assert!(fails("{").starts_with("decoding realtime event: "));
    assert_eq!(
        fails("{\"type\":\"error\",\"error\":{\"message\":\"no\"}}"),
        "no"
    );
    assert_eq!(fails("{\"type\":\"error\"}"), "realtime ws error");
    assert!(
        fails("{\"type\":\"response.output_audio.delta\",\"delta\":\"%\"}")
            .starts_with("decoding realtime audio: ")
    );
    let err = realtime_error(&parsed("{\"message\":\"flat\"}"));
    assert!(matches!(err, CoreError::Provider { message, .. } if message == "flat"));
    // Text deltas stand in where there is no transcript.
    let mut turn = start();
    turn.take_message("{\"type\":\"response.output_text.delta\",\"delta\":\"text\"}")
        .unwrap();
    assert_eq!(turn.finish().text, "text");
    let mut turn = start();
    turn.take_message(
        "{\"type\":\"response.output_audio_transcript.done\",\"transcript\":\"whole\"}",
    )
    .unwrap();
    assert_eq!(turn.finish().text, "whole");
}
