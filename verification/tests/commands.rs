use open_voice::canary::{CanaryLocalProvider, CanarySegment};
use open_voice::cli::{
    agent_report, agent_request, chunk_limit, chunk_name, chunk_report, collect_audio,
    failure_summary, follow, manifest_entry, manifest_text, parse_language, parse_provider,
    pcm_chunks, pretty_text, sidecar_path, speech_path, speech_report,
    speech_request_from_args, speech_text, stream_request, stream_speech_request,
    transcribe_request, unreadable, AgentArgs, SpeakArgs, StreamSttArgs, StreamTtsArgs,
    TranscribeArgs,
};
use open_voice::compose::{build, local_canary_installed, local_qwen3_source, Keys, Qwen3Source};
use open_voice::config::{expand_tilde, Config};
use open_voice::decimal::Decimal;
use open_voice::domain::{
    AudioCodec, AudioSource, Language, SpeechRequest, TranscribeRequest, Transcript,
};
use open_voice::error::CoreError;
use open_voice::models;
use open_voice::models::{
    all_models, canary_1b_v2, download_error, find, progress, range_header, resume_at, starts_over,
};
use open_voice::path::Style;
use open_voice::ports::{AudioEvent, Provider, TranscriptEvent};
use open_voice::provider::ProviderId;
use open_voice::qwen3_tts::{language_name, normalize_voice, Qwen3TtsLocalProvider};
use open_voice::reports::{
    capability_summary, clone_request, delete_refusal, deletion_report, fetch_note, missing_key,
    missing_key_warning, model_line, provider_status, providers_doctor, providers_list,
    smoke_obstacle, smoke_providers, smoke_report, smoke_speech, smoke_transcription,
    unknown_model, update_request, voice_table, voices_list, wants_custom_voices, Compiled,
    Findings, SmokeTarget, VoiceCloneArgs, VoiceProviderFilter, VoiceUpdateArgs, VoicesListArgs,
};
use open_voice::splitting::{sentences_of, split_long_text, words_of};
use open_voice::xai_realtime::RealtimeAgentTurn;
use open_voice::xai_voices::XaiVoice;

fn d(s: f64) -> Decimal {
    Decimal::parse(&format!("{s}")).unwrap()
}

const NOTHING: Compiled = Compiled {
    canary: false,
    qwen3: false,
};

const EVERYTHING: Compiled = Compiled {
    canary: true,
    qwen3: true,
};

// --- Splitting ------------------------------------------------------------

#[test]
fn long_text_splitter_prefers_sentence_boundaries() {
    let chunks = split_long_text("One sentence. Two sentence. A verylongwordwithoutspaces", 20);
    assert_eq!(chunks[0], "One sentence.");
    assert_eq!(chunks[1], "Two sentence.");
    assert!(chunks.iter().all(|c| !c.trim().is_empty()));
}

#[test]
fn chunks_keep_every_word_within_the_limit() {
    let text = "Uno dos tres. Cuatro cinco seis siete ocho nueve diez once doce trece.\n\nFin!";
    let chunks = split_long_text(text, 24);
    let joined: Vec<&str> = chunks.iter().flat_map(|c| c.split_whitespace()).collect();
    let whole: Vec<&str> = text.split_whitespace().collect();
    assert_eq!(joined, whole);
    assert!(chunks.iter().all(|c| c.chars().count() <= 24));
    assert_eq!(
        chunks,
        [
            "Uno dos tres.",
            "Cuatro cinco seis siete",
            "ocho nueve diez once",
            "doce trece. Fin!"
        ]
    );
    assert!(split_long_text(" \n\n ", 20).is_empty());
}

#[test]
fn short_sentences_stay_whole() {
    let chunks = split_long_text("Uno dos. Tres! Cuatro?\nCinco seis siete.", 17);
    assert_eq!(chunks, ["Uno dos. Tres!", "Cuatro?", "Cinco seis siete."]);
    // Beside a sentence that has to be cut, too.
    let chunks = split_long_text("Uno. Dos tres cuatro cinco. Seis siete.", 12);
    assert_eq!(chunks, ["Uno.", "Dos tres", "cuatro", "cinco.", "Seis siete."]);
}

#[test]
fn sentences_and_words() {
    assert_eq!(sentences_of("A. B?c"), ["A.", "B?", "c"]);
    assert_eq!(words_of(" a  b\tc "), ["a", "b", "c"]);
}

// --- Arguments ------------------------------------------------------------

#[test]
fn provider_parsing_defaults() {
    assert_eq!(parse_provider(None, "auto").unwrap(), None);
    assert_eq!(parse_provider(None, "xai").unwrap(), Some(ProviderId::Xai));
    assert_eq!(
        parse_provider(Some("local-canary"), "auto").unwrap(),
        Some(ProviderId::LocalCanary)
    );
    assert!(parse_provider(Some("bogus"), "auto").is_err());
    assert_eq!(parse_provider(Some(" AUTO "), "xai").unwrap(), None);
    assert_eq!(parse_provider(Some(""), "xai").unwrap(), None);
}

#[test]
fn languages_come_from_arguments_first() {
    assert_eq!(parse_language(Some("es"), "en").unwrap().code(), "es");
    assert_eq!(parse_language(None, " en ").unwrap().code(), "en");
    assert!(parse_language(None, "").is_none());
}

#[test]
fn transcription_arguments_become_a_request() {
    let args = TranscribeArgs {
        files: vec!["a.ogg".into()],
        lang: Some("es".into()),
        provider: Some("xai".into()),
        model: Some("m".into()),
        format: None,
        output_dir: None,
        diarize: true,
        keyterms: vec!["Hola".into(), "Mundo".into()],
        prompt: Some("p".into()),
    };
    let request = transcribe_request(&args, "a.ogg", "en");
    assert_eq!(request.source.file_name(Style::Unix), "a.ogg");
    assert_eq!(request.language.unwrap().code(), "es");
    assert_eq!(request.keyterms, ["Hola", "Mundo"]);
    assert!(request.diarize && request.word_timestamps);
    assert_eq!(failure_summary(0), None);
    assert_eq!(failure_summary(2).unwrap(), "2 file(s) failed");
    assert_eq!(unreadable("x"), "warn: cannot read 'x', skipping");
}

#[test]
fn speech_goes_where_it_is_told() {
    assert_eq!(speech_path(&None, AudioCodec::Wav), "speech.wav");
    assert_eq!(speech_path(&Some("o.mp3".into()), AudioCodec::Wav), "o.mp3");
    assert_eq!(sidecar_path("/a/o.mp3", AudioCodec::Mp3, Style::Unix), "/a/o.mp3.json");
    assert_eq!(sidecar_path("/a/o", AudioCodec::Wav, Style::Unix), "/a/o.wav.json");
    assert_eq!(
        speech_report("o.mp3", 7, "audio/mpeg", ProviderId::Xai),
        "wrote o.mp3 (7 bytes, audio/mpeg, via xai)"
    );
    assert_eq!(speech_text(Some("t".into()), None).unwrap(), "t");
    assert_eq!(speech_text(None, Some("f".into())).unwrap(), "f");
    assert_eq!(
        speech_text(None, None).unwrap_err(),
        "provide TEXT or --file"
    );
}

#[test]
fn speech_arguments_become_a_request() {
    let args = SpeakArgs {
        text: None,
        file: None,
        lang: None,
        voice: Some("eve".into()),
        provider: None,
        model: None,
        out: None,
        codec: "mulaw".into(),
        sample_rate: Some(8_000),
        bit_rate: Some(128_000),
        speed: Some(d(1.25)),
        optimize_streaming_latency: Some(1),
        text_normalization: true,
        with_timestamps: true,
        instructions: Some("calm".into()),
        long: false,
        chunk_chars: 1200,
        manifest: None,
    };
    let request = speech_request_from_args(&args, "es", "Hola", AudioCodec::Mulaw);
    assert_eq!(request.text, "Hola");
    assert_eq!(request.language.unwrap().code(), "es");
    assert_eq!(request.codec, AudioCodec::Mulaw);
    assert_eq!(request.bit_rate, Some(128_000));
    assert_eq!(request.speed, Some(d(1.25)));
    assert_eq!(request.text_normalization, Some(true));
    assert!(request.with_timestamps);
    let plain = SpeakArgs {
        text_normalization: false,
        ..args
    };
    let request = speech_request_from_args(&plain, "", "Hola", AudioCodec::Mp3);
    assert_eq!(request.text_normalization, None);
    assert!(request.language.is_none());
}

#[test]
fn long_speech_is_reported_by_chunk() {
    assert_eq!(chunk_limit(10), 200);
    assert_eq!(chunk_limit(1200), 1200);
    assert_eq!(chunk_name(7, AudioCodec::Mp3), "chunk-0007.mp3");
    assert_eq!(chunk_name(12345, AudioCodec::Wav), "chunk-12345.wav");
    assert_eq!(
        chunk_report(0, 2, "añb", 9, ProviderId::Openai),
        "chunk 1/2: 3 chars, 9 bytes via openai"
    );
    let entry = manifest_entry(0, "añb", 9, ProviderId::Openai, AudioCodec::Mp3, None);
    assert_eq!(entry["chars"], 3);
    assert_eq!(entry["provider"], "openai");
    assert!(entry["metadata"].is_null());
    let text = manifest_text(vec![entry]).unwrap();
    assert!(text.starts_with("[\n  {\n    \"bytes\": 9,"));
    assert!(text.ends_with("]\n"));
    let value: serde_json::Value = serde_json::from_str("{\"a\":[true,null]}").unwrap();
    assert_eq!(
        pretty_text(&value).unwrap(),
        "{\n  \"a\": [\n    true,\n    null\n  ]\n}\n"
    );
}

#[test]
fn audio_is_streamed_in_chunks() {
    let pcm: Vec<u8> = (0..7000u32).map(|i| (i % 251) as u8).collect();
    let chunks = pcm_chunks(&pcm);
    let sizes: Vec<usize> = chunks.iter().map(|c| c.0.len()).collect();
    assert_eq!(sizes, [3200, 3200, 600]);
    let glued: Vec<u8> = chunks.iter().flat_map(|c| c.0.clone()).collect();
    assert_eq!(glued, pcm);
    assert!(pcm_chunks(&Vec::new()).is_empty());
}

#[test]
fn streams_are_followed_to_their_end() {
    let args = StreamSttArgs {
        file: "a.ogg".into(),
        lang: None,
        provider: None,
        diarize: false,
        keyterms: vec![],
        interim: true,
        smart_turn: true,
        smart_turn_timeout_ms: Some(1500),
        format: None,
        output_dir: None,
    };
    let request = stream_request(&args, "es");
    assert_eq!(request.sample_rate, 16_000);
    assert!(request.smart_turn && request.interim_results);
    assert_eq!(request.language.unwrap().code(), "es");

    let mut kept = None;
    let line = follow(
        &mut kept,
        TranscriptEvent::Partial {
            text: "Hola".into(),
            words: vec![],
            is_final: false,
            speech_final: false,
        },
    );
    assert_eq!(line.as_deref(), Some("[partial] Hola"));
    let line = follow(
        &mut kept,
        TranscriptEvent::Done(Transcript::new(ProviderId::Xai, "done")),
    );
    assert!(line.is_none());
    assert_eq!(kept.unwrap().text, "done");

    let args = StreamTtsArgs {
        text: "t".into(),
        lang: None,
        voice: Some("v".into()),
        provider: None,
        out: "o".into(),
        codec: "mp3".into(),
        sample_rate: None,
        bit_rate: Some(1),
        optimize_streaming_latency: None,
    };
    let request = stream_speech_request(&args, "", AudioCodec::Mp3);
    assert_eq!(request.voice.as_deref(), Some("v"));
    assert_eq!(request.bit_rate, Some(1));
    let mut bytes = vec![1];
    assert!(!collect_audio(&mut bytes, &AudioEvent::Chunk(vec![2, 3])));
    assert!(collect_audio(&mut bytes, &AudioEvent::Done));
    assert_eq!(bytes, [1, 2, 3]);
}

#[test]
fn agent_turns_are_reported() {
    let args = AgentArgs {
        text: "hello".into(),
        voice: Some("eve".into()),
        model: None,
        instructions: None,
        reasoning_effort: None,
        out: None,
        codec: "pcm".into(),
        sample_rate: 16_000,
        text_only: true,
        manual_turn: false,
        vad_threshold: Some(d(0.25)),
        vad_silence_ms: None,
        vad_prefix_padding_ms: None,
        language_hint: None,
        json: false,
    };
    let request = agent_request(&args, AudioCodec::Pcm);
    assert_eq!(request.output_sample_rate, 16_000);
    assert_eq!(request.input_sample_rate, 16_000);
    assert_eq!(request.vad_threshold, Some(d(0.25)));
    let mut turn = RealtimeAgentTurn {
        text: "hi".into(),
        audio: vec![0; 4],
        audio_mime: "audio/pcm".into(),
        audio_codec: AudioCodec::Pcm,
        output_sample_rate: 16_000,
        input_transcript: None,
        conversation_id: None,
        response_id: None,
        response_status: None,
    };
    assert_eq!(
        agent_report(&turn, Some("o.pcm")).unwrap(),
        "wrote o.pcm (4 bytes, audio/pcm, 16000 Hz)"
    );
    assert_eq!(
        agent_report(&turn, None).unwrap(),
        "received 4 bytes of audio/pcm; pass --out to save raw realtime audio"
    );
    turn.audio.clear();
    assert_eq!(agent_report(&turn, None), None);
}

// --- Configuration --------------------------------------------------------

#[test]
fn defaults_are_sane() {
    let c = Config::default();
    assert_eq!(c.defaults.stt_provider, "auto");
    assert_eq!(c.providers.xai.base_url, "https://api.x.ai");
    assert_eq!(c.providers.cartesia.version, "2026-03-01");
    assert_eq!(c.providers.openai.stt_model, "whisper-1");
}

#[test]
fn api_key_prefers_literal_over_env() {
    let mut c = Config::default();
    c.providers.openai.api_key = Some("literal".into());
    assert_eq!(
        c.api_key(ProviderId::Openai, Some("from-env")).as_deref(),
        Some("literal")
    );
    assert_eq!(c.api_key(ProviderId::LocalCanary, Some("x")), None);
    c.providers.openai.api_key = None;
    assert_eq!(
        c.api_key(ProviderId::Openai, Some("from-env")).as_deref(),
        Some("from-env")
    );
    assert_eq!(c.api_key(ProviderId::Openai, Some("")), None);
    assert_eq!(
        c.api_key_env(ProviderId::Openai).as_deref(),
        Some("OPENAI_API_KEY")
    );
    assert_eq!(c.api_key_env(ProviderId::LocalQwen3), None);
}

#[test]
fn directories_are_resolved() {
    assert_eq!(expand_tilde("~/m", Some("/home/u"), Style::Unix), "/home/u/m");
    assert_eq!(expand_tilde("~/m", None, Style::Unix), "~/m");
    assert_eq!(expand_tilde("~", Some("/home/u"), Style::Unix), "~");
    assert_eq!(expand_tilde("/m", Some("/home/u"), Style::Unix), "/m");
    let mut c = Config::default();
    c.local.models_dir = "/models".into();
    assert_eq!(c.models_dir(None, None, Style::Unix), "/models");
    assert_eq!(
        Config::default().models_dir(None, Some("/data"), Style::Unix),
        "/data/open-voice/models"
    );
    assert_eq!(
        Config::default().models_dir(None, None, Style::Unix),
        "./open-voice/models"
    );
    assert_eq!(
        Config::default_path(Some("/etc"), Style::Unix).as_deref(),
        Some("/etc/open-voice/config.toml")
    );
    assert_eq!(Config::default_path(None, Style::Unix), None);
}

// --- Composition ----------------------------------------------------------

fn no_keys() -> Keys {
    Keys {
        xai: None,
        elevenlabs: None,
        cartesia: None,
        openai: None,
    }
}

#[test]
fn providers_are_registered_in_preference_order() {
    let config = Config::default();
    let keys = Keys {
        xai: Some("x".into()),
        elevenlabs: Some("e".into()),
        cartesia: Some("c".into()),
        openai: Some("o".into()),
    };
    let c = build(&config, Some("/m".into()), Some(Qwen3Source::HfCache), &keys, Style::Unix);
    let stt: Vec<ProviderId> = c.engine.stt.iter().map(|r| r.id).collect();
    assert_eq!(
        stt,
        [
            ProviderId::LocalCanary,
            ProviderId::Xai,
            ProviderId::Elevenlabs,
            ProviderId::Cartesia,
            ProviderId::Openai
        ]
    );
    let tts: Vec<ProviderId> = c.engine.tts.iter().map(|r| r.id).collect();
    assert_eq!(tts[0], ProviderId::LocalQwen3);
    assert_eq!(c.engine.streaming_stt.len(), 1);
    assert_eq!(c.engine.streaming_tts.len(), 1);
    assert_eq!(c.configured.len(), 6);
    assert!(c.engine.decoder);
    let c = build(&config, None, None, &no_keys(), Style::Unix);
    assert!(c.engine.stt.is_empty() && c.configured.is_empty());
}

#[test]
fn the_local_voice_model_is_looked_for() {
    let mut config = Config::default();
    assert!(local_qwen3_source(&config, "/m", &vec![None; 4], false, Style::Unix).is_none());
    assert!(matches!(
        local_qwen3_source(&config, "/m", &vec![None; 4], true, Style::Unix),
        Some(Qwen3Source::HfCache)
    ));
    assert!(matches!(
        local_qwen3_source(&config, "/m", &vec![Some(1); 4], true, Style::Unix),
        Some(Qwen3Source::Dir(p)) if p == "/m/qwen3-tts"
    ));
    config.local.tts_model_dir = " /t ".into();
    assert!(matches!(
        local_qwen3_source(&config, "/m", &vec![Some(1); 4], true, Style::Unix),
        Some(Qwen3Source::Dir(p)) if p == "/t"
    ));
    config.local.tts_model_dir = String::new();
    let partial = vec![Some(1), Some(1), Some(0), Some(1)];
    assert!(local_qwen3_source(&config, "/m", &partial, false, Style::Unix).is_none());
    assert!(local_canary_installed(&vec![Some(1); 4]));
    assert!(!local_canary_installed(&vec![Some(1), None, Some(1), Some(1)]));
}

// --- Models ---------------------------------------------------------------

#[test]
fn registry_lookup() {
    assert!(find("canary-1b-v2").is_some());
    assert!(find("nope").is_none());
    assert_eq!(all_models().len(), 2);
    for model in all_models() {
        assert_eq!(find(model.name).unwrap().repo, model.repo);
    }
}

#[test]
fn the_voice_model_can_be_fetched() {
    let model = find("qwen3-tts").unwrap();
    assert_eq!(model.name, "qwen3-tts");
    assert_eq!(model.repo, "Qwen/Qwen3-TTS-12Hz-1.7B-CustomVoice");
    let downloads = model.fetch("/m", "https://h", &vec![None; 4], Style::Unix);
    let urls: Vec<&str> = downloads.iter().map(|f| f.url.as_str()).collect();
    assert_eq!(
        urls,
        [
            "https://h/Qwen/Qwen3-TTS-12Hz-1.7B-CustomVoice/resolve/main/config.json",
            "https://h/Qwen/Qwen2.5-0.5B/resolve/main/tokenizer.json",
            "https://h/Qwen/Qwen3-TTS-12Hz-1.7B-CustomVoice/resolve/main/model.safetensors",
            "https://h/Qwen/Qwen3-TTS-12Hz-1.7B-CustomVoice/resolve/main/speech_tokenizer/model.safetensors",
        ]
    );
    assert_eq!(
        downloads[3].target,
        "/m/qwen3-tts/speech_tokenizer/model.safetensors"
    );
}

#[test]
fn install_detection_requires_all_files() {
    let model = canary_1b_v2();
    assert!(!model.is_installed(&vec![None, None, None, None]));
    assert!(model.is_installed(&vec![Some(1), Some(1), Some(1), Some(1)]));
    // An empty file is not "installed".
    assert_eq!(model.files[3].name, "vocab.txt");
    assert!(!model.is_installed(&vec![Some(1), Some(1), Some(1), Some(0)]));
}

#[test]
fn url_shape() {
    let model = canary_1b_v2();
    let url = model.url_for("https://huggingface.co", &models::file("vocab.txt"));
    assert_eq!(
        url,
        "https://huggingface.co/istupakov/canary-1b-v2-onnx/resolve/main/vocab.txt"
    );
    // Per-file repo override (the shared NeMo preprocessor).
    let preprocessor = model
        .files
        .iter()
        .find(|f| f.name == "nemo128.onnx")
        .unwrap();
    let url = model.url_for("https://huggingface.co", preprocessor);
    assert_eq!(
        url,
        "https://huggingface.co/istupakov/parakeet-tdt-0.6b-v3-onnx/resolve/main/nemo128.onnx"
    );
}

#[test]
fn missing_files_are_downloaded() {
    let model = canary_1b_v2();
    let sizes = vec![Some(1), Some(0), None, Some(1)];
    let downloads = model.fetch("/m", "https://h", &sizes, Style::Unix);
    let names: Vec<&str> = downloads.iter().map(|f| f.name.as_str()).collect();
    assert_eq!(names, ["decoder-model.int8.onnx", "nemo128.onnx"]);
    assert_eq!(downloads[1].target, "/m/canary-1b-v2/nemo128.onnx");
    assert_eq!(downloads[1].partial, "/m/canary-1b-v2/nemo128.onnx.part");
    assert!(model.fetch("/m", "https://h", &vec![Some(1); 4], Style::Unix).is_empty());
    assert_eq!(range_header(0), None);
    assert_eq!(range_header(10).as_deref(), Some("bytes=10-"));
    assert_eq!(resume_at("u", 10, 206).unwrap(), 10);
    assert_eq!(resume_at("u", 10, 200).unwrap(), 0);
    assert!(resume_at("u", 10, 404).is_err());
    assert!(starts_over(10, 416));
    assert!(!starts_over(0, 416));
    assert!(!starts_over(10, 404));
    assert!(matches!(
        download_error("u", 404),
        CoreError::Provider { provider, message }
            if provider == "huggingface" && message == "GET u: HTTP 404"
    ));
}

#[test]
fn progress_is_said_in_steps() {
    const MIB: u64 = 1024 * 1024;
    assert_eq!(progress("f", 0, 10 * MIB, Some(100 * MIB)), None);
    assert_eq!(
        progress("f", 0, 50 * MIB, Some(100 * MIB)).as_deref(),
        Some("  f: 52428800/104857600 bytes")
    );
    assert_eq!(progress("f", 0, 5, Some(5)).as_deref(), Some("  f: 5/5 bytes"));
    assert_eq!(
        progress("f", 0, 50 * MIB, None).as_deref(),
        Some("  f: 52428800 bytes")
    );
}

// --- Local engines --------------------------------------------------------

#[test]
fn maps_iso_tags_to_names() {
    assert_eq!(language_name(&Language::new("es")), "Spanish");
    assert_eq!(language_name(&Language::new("es-MX")), "Spanish");
    assert_eq!(language_name(&Language::new("ru")), "Russian");
    // Unknown tags pass through (e.g. already a name, or `auto`).
    assert_eq!(language_name(&Language::new("auto")), "auto");
}

#[test]
fn voices_are_lowercased() {
    assert_eq!(normalize_voice("Ryan"), "ryan");
    assert_eq!(normalize_voice(" Uncle_Fu "), "uncle_fu");
}

#[test]
fn the_local_voice_speaks_with_its_default() {
    let p = Qwen3TtsLocalProvider::new(None, None);
    let call = p.synthesize(&SpeechRequest::new("Hola")).unwrap();
    assert_eq!(call.voice, "ryan");
    assert_eq!(call.language, None);
    let mut request = SpeechRequest::new("Hola");
    request.voice = Some("Serena".into());
    request.language = Some(Language::new("es"));
    let call = p.synthesize(&request).unwrap();
    assert_eq!(call.voice, "serena");
    assert_eq!(call.language.as_deref(), Some("Spanish"));
    assert_eq!(p.speech(&request, vec![1]).provider, ProviderId::LocalQwen3);
    assert!(p.capabilities().batch_tts);
}

#[test]
fn the_local_engine_transcribes_files() {
    let p = CanaryLocalProvider::new("/m");
    let mut request = TranscribeRequest::new(AudioSource::File("a.wav".into()));
    request.language = Some(Language::new("es-MX"));
    let call = p.transcribe(&request).unwrap();
    assert_eq!(call.input, "a.wav");
    assert_eq!(call.language.as_deref(), Some("es"));
    let t = p.transcript(
        &request,
        " Hola. ",
        &Some(vec![CanarySegment {
            start: d(0.0),
            end: d(1.5),
            text: " Hola. ".into(),
        }]),
        Some(d(1.5)),
    );
    assert_eq!(t.text, "Hola.");
    assert_eq!(t.segments[0].text, "Hola.");
    assert_eq!(t.provider, ProviderId::LocalCanary);
    let bytes = TranscribeRequest::new(AudioSource::Bytes {
        data: vec![],
        file_name: "a.wav".into(),
        mime: "audio/wav".into(),
    });
    assert!(p.transcribe(&bytes).is_err());
}

// --- Reports --------------------------------------------------------------

#[test]
fn statuses_and_summaries() {
    assert_eq!(provider_status(ProviderId::Xai, true, NOTHING), "ready");
    assert_eq!(provider_status(ProviderId::Xai, false, NOTHING), "no api key");
    assert_eq!(
        provider_status(ProviderId::LocalCanary, false, NOTHING),
        "not compiled"
    );
    assert_eq!(
        provider_status(ProviderId::LocalQwen3, false, EVERYTHING),
        "no model"
    );
    assert_eq!(
        capability_summary(ProviderId::Xai),
        "stt, tts, streaming, diarization, word-timestamps, keyterms"
    );
    let lines = providers_list(&vec![ProviderId::Xai], NOTHING);
    assert_eq!(lines[0], "PROVIDER       STATUS       CAPABILITIES");
    assert_eq!(
        lines[3],
        "openai         no api key   stt, tts, word-timestamps"
    );
    assert_eq!(lines.len(), 7);
}

#[test]
fn the_doctor_says_what_is_missing() {
    let findings = Findings {
        ffmpeg: false,
        compiled: NOTHING,
        models_dir: "/m".into(),
        canary_installed: false,
        qwen3: Some(Qwen3Source::Dir("/q".into())),
    };
    let lines = providers_doctor(&Config::default(), &findings, &vec![ProviderId::Xai]);
    assert_eq!(
        lines,
        [
            "ffmpeg: MISSING (transcoding and local/streaming decode will fail)",
            "",
            "local-canary:",
            "  compiled: false",
            "  models dir: /m",
            "  model: missing (run: openvoice models fetch canary-1b-v2)",
            "local-qwen3:",
            "  compiled: false",
            "  model: dir: /q",
            "openai:",
            "  api key: missing (export OPENAI_API_KEY=...)",
            "elevenlabs:",
            "  api key: missing (export ELEVENLABS_API_KEY=...)",
            "cartesia:",
            "  api key: missing (export CARTESIA_API_KEY=...)",
            "xai:",
            "  api key: present",
        ]
    );
}

#[test]
fn models_are_listed_and_noted() {
    assert_eq!(
        model_line("canary-1b-v2", false, true, "desc"),
        "canary-1b-v2     missing      desc"
    );
    assert_eq!(
        model_line("qwen3-tts", false, true, "desc"),
        "qwen3-tts        hf-cache     desc"
    );
    assert_eq!(
        unknown_model("x"),
        "unknown model 'x' (see: openvoice models list)"
    );
    assert_eq!(fetch_note("canary-1b-v2", EVERYTHING), None);
    assert!(fetch_note("qwen3-tts", NOTHING)
        .unwrap()
        .contains("--features local-tts "));
    assert!(fetch_note("canary-1b-v2", NOTHING)
        .unwrap()
        .contains("--features local "));
}

#[test]
fn smoke_checks_know_their_obstacles() {
    assert!(smoke_obstacle(NOTHING, true, true).is_some());
    assert_eq!(
        smoke_obstacle(EVERYTHING, false, true),
        Some("local-canary model missing (run: openvoice models fetch canary-1b-v2)")
    );
    assert_eq!(
        smoke_obstacle(EVERYTHING, true, false),
        Some("local-qwen3 model missing (run: openvoice models fetch qwen3-tts)")
    );
    assert_eq!(smoke_obstacle(EVERYTHING, true, true), None);
    assert_eq!(
        smoke_providers(SmokeTarget::Local),
        (ProviderId::LocalQwen3, ProviderId::LocalCanary)
    );
    let speech = smoke_speech(SmokeTarget::Xai);
    assert_eq!(speech.codec, AudioCodec::Mp3);
    assert_eq!(speech.language.unwrap().code(), "en");
    let request = smoke_transcription(SmokeTarget::Local, AudioSource::File("t".into()));
    assert_eq!(request.language.unwrap().code(), "es");
    assert_eq!(smoke_report(SmokeTarget::Xai, " ok "), "xai smoke ok: ok");
}

fn list_args(provider: VoiceProviderFilter, custom_only: bool) -> VoicesListArgs {
    VoicesListArgs {
        provider,
        custom_only,
        json: false,
        limit: 50,
        page_token: None,
    }
}

#[test]
fn voices_are_listed_by_source() {
    let custom = vec![XaiVoice {
        voice_id: "abc".into(),
        name: None,
        description: None,
        gender: None,
        accent: None,
        age: None,
        language: None,
        use_case: Some("ads".into()),
        tone: Some("warm".into()),
        created_at: None,
    }];
    let all = voices_list(&list_args(VoiceProviderFilter::All, false), &custom);
    assert_eq!(all.len(), 9 + 5 + 1);
    assert_eq!(all[0].id, "ryan");
    assert_eq!(all[9].name, "Eve");
    assert_eq!(all[14].description, "warm");
    let only = voices_list(&list_args(VoiceProviderFilter::Xai, true), &custom);
    assert_eq!(only.len(), 1);
    let local = voices_list(&list_args(VoiceProviderFilter::Local, false), &custom);
    assert_eq!(local.len(), 9);
    let table = voice_table(&only);
    assert_eq!(
        table[0],
        "PROVIDER       KIND         ID         NAME               DESCRIPTION"
    );
    assert_eq!(
        table[1],
        "xai            custom       abc                           warm"
    );
    assert!(!wants_custom_voices(&list_args(VoiceProviderFilter::Local, true)));
    assert!(missing_key_warning(&list_args(VoiceProviderFilter::All, false)).is_none());
    assert!(missing_key_warning(&list_args(VoiceProviderFilter::All, true)).is_some());
    assert!(missing_key_warning(&list_args(VoiceProviderFilter::Xai, false)).is_some());
    assert!(missing_key_warning(&list_args(VoiceProviderFilter::Local, true)).is_none());
}

#[test]
fn voices_are_cloned_changed_and_deleted() {
    let args = VoiceCloneArgs {
        file: "ref.wav".into(),
        name: "Narrator".into(),
        description: None,
        gender: None,
        accent: None,
        age: None,
        language: Some("en".into()),
        use_case: None,
        tone: None,
    };
    assert_eq!(
        clone_request(&args, false).unwrap_err(),
        "reference audio 'ref.wav' is not readable"
    );
    let request = clone_request(&args, true).unwrap();
    assert_eq!(request.name, "Narrator");
    assert_eq!(request.file.file_name(Style::Unix), "ref.wav");
    let update = update_request(&VoiceUpdateArgs {
        id: "abc".into(),
        name: Some("N".into()),
        description: None,
        gender: None,
        accent: None,
        age: None,
        language: None,
        use_case: None,
        tone: None,
    });
    assert_eq!(update.name.as_deref(), Some("N"));
    assert_eq!(
        delete_refusal("abc"),
        "refusing to delete custom voice 'abc' without --yes"
    );
    assert_eq!(
        deletion_report("abc", true),
        "{\"deleted\":true,\"voice_id\":\"abc\"}"
    );
    assert_eq!(
        missing_key("XAI_API_KEY"),
        "xAI API key missing (export XAI_API_KEY=...)"
    );
}
