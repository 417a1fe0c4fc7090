use open_voice::cartesia;
use open_voice::cartesia::{CartesiaProvider, CartesiaSettings};
use open_voice::decimal::Decimal;
use open_voice::domain::{AudioCodec, AudioSource, Language, SpeechRequest, TranscribeRequest};
use open_voice::elevenlabs;
use open_voice::elevenlabs::{ElevenLabsProvider, ElevenLabsSettings};
use open_voice::error::CoreError;
use open_voice::http::{
    error_for, guess_mime, source_parts, Body, Field, HttpRequest, Method, Part, Upload,
};
use open_voice::openai::{
    response_format, OpenAiProvider, OpenAiSettings, VerboseResponse, VerboseSegment, VerboseWord,
};
use open_voice::path::Style;
use open_voice::ports::Provider;
use open_voice::provider::ProviderId;
use serde_json::Value;

fn d(s: f64) -> Decimal {
    Decimal::parse(&format!("{s}")).unwrap()
}

fn source(file_name: &str, mime: &str) -> AudioSource {
    AudioSource::Bytes {
        data: b"fake-audio".to_vec(),
        file_name: file_name.into(),
        mime: mime.into(),
    }
}

fn upload(source: &AudioSource) -> Upload {
    source_parts(source, Err("unused".into()), Style::Unix).unwrap()
}

fn header<'a>(request: &'a HttpRequest, name: &str) -> Option<&'a str> {
    request
        .headers
        .iter()
        .find(|h| h.name.eq_ignore_ascii_case(name))
        .map(|h| h.value.as_str())
}

fn form(request: &HttpRequest) -> &Vec<Part> {
    match &request.body {
        Body::Form(parts) => parts,
        other => panic!("{other:?}"),
    }
}

fn texts<'a>(request: &'a HttpRequest, name: &str) -> Vec<&'a str> {
    form(request)
        .iter()
        .filter_map(|p| match p {
            Part::Text(f) if f.name == name => Some(f.value.as_str()),
            _ => None,
        })
        .collect()
}

fn json(request: &HttpRequest) -> &Value {
    match &request.body {
        Body::Json(v) => v,
        other => panic!("{other:?}"),
    }
}

fn query<'a>(request: &'a HttpRequest, name: &str) -> Option<&'a Field> {
    request.query.iter().find(|q| q.name == name)
}

// --- OpenAI ---------------------------------------------------------------

fn openai(base_url: &str) -> OpenAiProvider {
    OpenAiProvider::new(
        "test-key",
        OpenAiSettings {
            base_url: base_url.into(),
            ..Default::default()
        },
    )
}

#[test]
fn transcribe_maps_verbose_json() {
    let provider = openai("http://server");
    let mut request = TranscribeRequest::new(source("clip.wav", "audio/wav"));
    request.language = Some(Language::new("es"));
    let sent = provider.transcribe(&request, upload(&request.source));
    assert_eq!(sent.method, Method::Post);
    assert_eq!(sent.url, "http://server/v1/audio/transcriptions");
    assert_eq!(header(&sent, "authorization"), Some("Bearer test-key"));
    assert_eq!(texts(&sent, "model"), ["whisper-1"]);
    assert_eq!(texts(&sent, "response_format"), ["verbose_json"]);
    assert_eq!(texts(&sent, "timestamp_granularities[]"), ["word", "segment"]);
    assert_eq!(texts(&sent, "language"), ["es"]);

    let answer = VerboseResponse {
        text: "Hola mundo. Segunda frase".into(),
        language: Some("spanish".into()),
        duration: Some(d(4.2)),
        segments: vec![
            VerboseSegment {
                start: d(0.0),
                end: d(0.9),
                text: " Hola mundo.".into(),
            },
            VerboseSegment {
                start: d(3.0),
                end: d(3.9),
                text: " Segunda frase".into(),
            },
        ],
        words: vec![
            VerboseWord {
                word: "Hola".into(),
                start: d(0.0),
                end: d(0.4),
            },
            VerboseWord {
                word: "mundo.".into(),
                start: d(0.5),
                end: d(0.9),
            },
        ],
    };
    let transcript = provider.transcript(&request, Ok(answer)).unwrap();
    assert_eq!(transcript.provider, ProviderId::Openai);
    assert_eq!(transcript.text, "Hola mundo. Segunda frase");
    assert_eq!(transcript.language.as_deref(), Some("spanish"));
    assert_eq!(transcript.duration, Some(d(4.2)));
    assert_eq!(transcript.segments.len(), 2);
    assert_eq!(transcript.segments[0].text, "Hola mundo.");
    assert_eq!(transcript.words.len(), 2);
}

#[test]
fn transcribe_maps_auth_error() {
    let err = error_for("openai", 401, "401 Unauthorized", "{\"error\":\"bad key\"}");
    assert!(matches!(err, CoreError::Auth { .. }), "got {err:?}");
}

#[test]
fn transcribe_maps_rate_limit() {
    let err = error_for("openai", 429, "429 Too Many Requests", "slow down");
    assert!(matches!(err, CoreError::RateLimited { .. }), "got {err:?}");
}

#[test]
fn synthesize_posts_json_and_returns_bytes() {
    let provider = openai("http://server");
    let mut request = SpeechRequest::new("Hola mundo");
    request.instructions = Some("cheerful".into());
    let sent = provider.synthesize(&request).unwrap();
    assert_eq!(sent.method, Method::Post);
    assert_eq!(sent.url, "http://server/v1/audio/speech");
    assert_eq!(header(&sent, "authorization"), Some("Bearer test-key"));

    let output = provider.speech(&request, b"MP3DATA".to_vec());
    assert_eq!(output.bytes, b"MP3DATA");
    assert_eq!(output.mime, "audio/mpeg");

    let body = json(&sent);
    assert_eq!(body["model"], "gpt-4o-mini-tts");
    assert_eq!(body["voice"], "marin");
    assert_eq!(body["input"], "Hola mundo");
    assert_eq!(body["response_format"], "mp3");
    assert_eq!(body["instructions"], "cheerful");
}

#[test]
fn capabilities_reflect_whisper_limits() {
    let p = openai("http://unused");
    let caps = p.capabilities();
    assert!(caps.batch_stt && caps.batch_tts);
    assert!(caps.word_timestamps);
    assert_eq!(caps.max_upload_bytes, Some(25 * 1024 * 1024));
    assert!(!caps.accepts_extension("ogg"));
    assert!(caps.accepts_extension("wav"));
}

#[test]
fn other_openai_models_answer_plain_json() {
    let provider = openai("http://server");
    let mut request = TranscribeRequest::new(source("clip.wav", "audio/wav"));
    request.model = Some("gpt-4o-transcribe".into());
    let sent = provider.transcribe(&request, upload(&request.source));
    assert_eq!(texts(&sent, "response_format"), ["json"]);
    assert!(texts(&sent, "timestamp_granularities[]").is_empty());
    assert_eq!(response_format(AudioCodec::Flac).unwrap(), "flac");
    assert!(matches!(
        response_format(AudioCodec::Mulaw),
        Err(CoreError::Unsupported { .. })
    ));
    let err = provider
        .transcript(&request, Err("bad json".into()))
        .unwrap_err();
    assert!(matches!(err, CoreError::Provider { message, .. } if message.contains("bad json")));
}

// --- Failures -------------------------------------------------------------

#[test]
fn long_answers_are_quoted_in_part() {
    let body = "x".repeat(700);
    match error_for("p", 500, "500", &body) {
        CoreError::Provider { message, .. } => {
            assert_eq!(message, format!("HTTP 500: {}…", "x".repeat(600)));
        }
        other => panic!("{other:?}"),
    }
    // The limit lies inside a character: the quote ends before it.
    let body = format!("a{}", "é".repeat(300));
    match error_for("p", 500, "500", &body) {
        CoreError::Provider { message, .. } => {
            assert_eq!(message, format!("HTTP 500: a{}…", "é".repeat(299)));
        }
        other => panic!("{other:?}"),
    }
    let body = "é".repeat(300);
    match error_for("p", 500, "500", &body) {
        CoreError::Provider { message, .. } => assert_eq!(message, format!("HTTP 500: {body}")),
        other => panic!("{other:?}"),
    }
    match error_for("p", 503, "503 Service Unavailable", "  \n") {
        CoreError::Provider { provider, message } => {
            assert_eq!(provider, "p");
            assert_eq!(message, "503 Service Unavailable");
        }
        other => panic!("{other:?}"),
    }
    let err = error_for("p", 403, "403", " no ");
    assert!(matches!(err, CoreError::Auth { message, .. } if message == "HTTP 403: no"));
}

#[test]
fn files_are_uploaded_under_their_name() {
    let file = AudioSource::File("/tmp/clip.ogg".into());
    let part = source_parts(&file, Ok(vec![1, 2]), Style::Unix).unwrap();
    assert_eq!(part.data, [1, 2]);
    assert_eq!(part.file_name, "clip.ogg");
    assert_eq!(part.mime, "audio/ogg");
    let err = source_parts(&file, Err("gone".into()), Style::Unix).unwrap_err();
    assert!(matches!(err, CoreError::Io(m) if m.contains("gone")));
    assert_eq!(guess_mime("m4a"), "audio/mp4");
    assert_eq!(guess_mime("?"), "application/octet-stream");
}

// --- ElevenLabs -----------------------------------------------------------

fn eleven(base_url: &str) -> ElevenLabsProvider {
    ElevenLabsProvider::new(
        "xi-test-key",
        ElevenLabsSettings {
            base_url: base_url.into(),
            ..Default::default()
        },
    )
}

fn spoken(text: &str, kind: &str, start: f64, end: f64, speaker: Option<&str>) -> elevenlabs::SttWord {
    elevenlabs::SttWord {
        text: text.into(),
        kind: Some(kind.into()),
        start: Some(d(start)),
        end: Some(d(end)),
        speaker_id: speaker.map(|s| s.to_string()),
    }
}

#[test]
fn transcribe_maps_words_and_speakers() {
    let provider = eleven("http://server");
    let mut request = TranscribeRequest::new(source("clip.ogg", "audio/ogg"));
    request.diarize = true;
    request.keyterms = vec!["mundo".into()];
    let sent = provider.transcribe(&request, upload(&request.source));
    assert_eq!(sent.url, "http://server/v1/speech-to-text");
    assert_eq!(header(&sent, "xi-api-key"), Some("xi-test-key"));
    assert_eq!(texts(&sent, "model_id"), ["scribe_v2"]);
    assert_eq!(texts(&sent, "diarize"), ["true"]);
    assert_eq!(texts(&sent, "keyterms"), ["mundo"]);

    let answer = elevenlabs::SttResponse {
        language_code: Some("es".into()),
        text: "Hola mundo.".into(),
        words: vec![
            spoken("Hola", "word", 0.0, 0.4, Some("speaker_0")),
            spoken(" ", "spacing", 0.4, 0.5, None),
            spoken("mundo.", "word", 0.5, 0.9, Some("speaker_0")),
            spoken("(laughter)", "audio_event", 1.0, 1.5, None),
        ],
    };
    let transcript = provider.transcript(&request, Ok(answer)).unwrap();
    assert_eq!(transcript.provider, ProviderId::Elevenlabs);
    assert_eq!(transcript.text, "Hola mundo.");
    assert_eq!(transcript.language.as_deref(), Some("es"));
    // spacing + audio_event entries are dropped.
    assert_eq!(transcript.words.len(), 2);
    assert_eq!(transcript.words[0].speaker.as_deref(), Some("speaker_0"));
    assert_eq!(transcript.segments.len(), 1);
    assert_eq!(transcript.segments[0].text, "Hola mundo.");
    assert_eq!(transcript.duration, Some(d(0.9)));
}

#[test]
fn synthesize_uses_voice_path_and_output_format() {
    let provider = eleven("http://server");
    let request = SpeechRequest::new("Hola");
    let sent = provider.synthesize(&request).unwrap();
    assert_eq!(
        sent.url,
        "http://server/v1/text-to-speech/21m00Tcm4TlvDq8ikWAM"
    );
    assert_eq!(
        query(&sent, "output_format").unwrap().value,
        "mp3_44100_128"
    );
    assert_eq!(header(&sent, "xi-api-key"), Some("xi-test-key"));
    assert_eq!(
        provider.speech(&request, b"MP3DATA".to_vec()).bytes,
        b"MP3DATA"
    );
    let body = json(&sent);
    assert_eq!(body["model_id"], "eleven_multilingual_v2");
    assert_eq!(body["text"], "Hola");
    // multilingual_v2 must NOT receive language_code.
    assert!(body.get("language_code").is_none());
}

#[test]
fn elevenlabs_synthesize_rejects_unsupported_codec() {
    let mut request = SpeechRequest::new("Hola");
    request.codec = AudioCodec::Flac;
    let err = eleven("http://unused").synthesize(&request).unwrap_err();
    assert!(matches!(err, CoreError::Unsupported { .. }), "got {err:?}");
}

#[test]
fn capabilities_advertise_diarization() {
    let caps = eleven("http://unused").capabilities();
    assert!(caps.diarization && caps.keyterms && caps.word_timestamps);
    assert!(caps.accepts_extension("ogg"));
}

// --- Cartesia -------------------------------------------------------------

fn carte(base_url: &str, voice: &str) -> CartesiaProvider {
    CartesiaProvider::new(
        "cartesia-key",
        CartesiaSettings {
            base_url: base_url.into(),
            tts_voice: voice.into(),
            ..Default::default()
        },
    )
}

#[test]
fn transcribe_maps_words_and_duration() {
    let provider = carte("http://server", "");
    let mut request = TranscribeRequest::new(source("clip.ogg", "audio/ogg"));
    request.language = Some(Language::new("es"));
    let sent = provider.transcribe(&request, upload(&request.source));
    assert_eq!(sent.method, Method::Post);
    assert_eq!(sent.url, "http://server/stt");
    assert_eq!(header(&sent, "authorization"), Some("Bearer cartesia-key"));
    assert_eq!(header(&sent, "Cartesia-Version"), Some("2026-03-01"));
    assert_eq!(texts(&sent, "model"), ["ink-whisper"]);
    assert!(!texts(&sent, "timestamp_granularities[]").is_empty());

    let answer = cartesia::SttResponse {
        text: "Hola mundo.".into(),
        language: Some("es".into()),
        duration: Some(d(1.2)),
        words: vec![
            cartesia::SttWord {
                word: "Hola".into(),
                start: d(0.0),
                end: d(0.4),
            },
            cartesia::SttWord {
                word: "mundo.".into(),
                start: d(0.5),
                end: d(0.9),
            },
        ],
    };
    let transcript = provider.transcript(&request, Ok(answer)).unwrap();
    assert_eq!(transcript.provider, ProviderId::Cartesia);
    assert_eq!(transcript.model.as_deref(), Some("ink-whisper"));
    assert_eq!(transcript.duration, Some(d(1.2)));
    assert_eq!(transcript.words.len(), 2);
    assert_eq!(transcript.segments.len(), 1);
}

#[test]
fn synthesize_builds_sonic_payload() {
    let provider = carte("http://server", "voice-123");
    let mut request = SpeechRequest::new("Hola mundo");
    request.language = Some(Language::new("es"));
    let sent = provider.synthesize(&request).unwrap();
    assert_eq!(sent.url, "http://server/tts/bytes");
    assert_eq!(header(&sent, "Cartesia-Version"), Some("2026-03-01"));
    assert_eq!(
        provider.speech(&request, b"MP3DATA".to_vec()).bytes,
        b"MP3DATA"
    );
    let body = json(&sent);
    assert_eq!(body["model_id"], "sonic-3.5");
    assert_eq!(body["voice"]["mode"], "id");
    assert_eq!(body["voice"]["id"], "voice-123");
    assert_eq!(body["output_format"]["container"], "mp3");
    assert_eq!(body["language"], "es");
}

#[test]
fn synthesize_without_voice_fails_fast() {
    let err = carte("http://unused", "")
        .synthesize(&SpeechRequest::new("Hola"))
        .unwrap_err();
    assert!(
        matches!(err, CoreError::NotConfigured { .. }),
        "got {err:?}"
    );
}

#[test]
fn capabilities_accept_ogg() {
    let caps = carte("http://unused", "").capabilities();
    assert!(caps.batch_stt && caps.batch_tts);
    assert!(caps.accepts_extension("ogg"));
    assert!(!caps.diarization);
}

#[test]
fn cartesia_containers() {
    let raw = cartesia::output_format(AudioCodec::Pcm, Some(8_000)).unwrap();
    assert_eq!(raw["container"], "raw");
    assert_eq!(raw["sample_rate"], 8_000);
    assert!(matches!(
        cartesia::output_format(AudioCodec::Flac, None),
        Err(CoreError::Unsupported { .. })
    ));
    assert_eq!(
        elevenlabs::output_format(AudioCodec::Pcm, Some(16_000)).unwrap(),
        "pcm_16000"
    );
}
