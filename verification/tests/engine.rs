use open_voice::capabilities::ProviderCapabilities;
use open_voice::domain::{
    AudioCodec, AudioOutput, AudioSource, SpeechRequest, TranscribeRequest, Transcript,
};
use open_voice::engine::{pick_one, Action, Engine, Registration};
use open_voice::error::{CoreError, CoreResult};
use open_voice::path::Style;
use open_voice::provider::ProviderId;

fn stt_caps() -> ProviderCapabilities {
    ProviderCapabilities {
        batch_stt: true,
        ..Default::default()
    }
}

fn reg(id: ProviderId, capabilities: ProviderCapabilities) -> Registration {
    Registration { id, capabilities }
}

fn ogg_request() -> TranscribeRequest {
    TranscribeRequest::new(AudioSource::File("/tmp/clip.ogg".into()))
}

/// What a run did: the calls it made, with the extension each provider saw, and
/// how often it decoded.
#[derive(Debug, Default)]
struct Seen {
    calls: Vec<(ProviderId, Option<String>)>,
    decoded: usize,
    temp_files: Vec<String>,
}

/// Performs the steps of a run: every decoding succeeds, and `answer` stands for
/// the providers.
fn drive(
    engine: &Engine,
    request: TranscribeRequest,
    want: Option<ProviderId>,
    answer: impl Fn(ProviderId) -> CoreResult<Transcript>,
) -> (CoreResult<Transcript>, Seen) {
    let mut seen = Seen::default();
    let mut run = match engine.transcribe(request, want) {
        Ok(run) => run,
        Err(e) => return (Err(e), seen),
    };
    loop {
        match run.action() {
            Action::Convert(_) => {
                seen.decoded += 1;
                run = engine.converted(run, Ok("/tmp/decoded.wav".to_string()));
            }
            Action::Measure(_) => run = engine.measured(run, Some(9)),
            Action::Call(i) => {
                let id = engine.stt[i].id;
                seen.calls.push((id, run.attempt().source.extension(Style::Unix)));
                run = engine.answered(run, answer(id));
            }
            Action::Finish => break,
        }
    }
    let (result, temp_files) = run.finish();
    seen.temp_files = temp_files;
    (result, seen)
}

fn ok(id: ProviderId) -> CoreResult<Transcript> {
    Ok(Transcript::new(id, "ok"))
}

fn auth_error() -> CoreError {
    CoreError::Auth {
        provider: "xai".into(),
        message: "bad key".into(),
    }
}

#[test]
fn auto_falls_back_on_provider_error() {
    let engine = Engine::builder()
        .stt(reg(ProviderId::Xai, stt_caps()))
        .stt(reg(ProviderId::Cartesia, stt_caps()))
        .build();
    let (result, seen) = drive(&engine, ogg_request(), None, |id| match id {
        ProviderId::Xai => Err(auth_error()),
        other => ok(other),
    });
    let transcript = result.unwrap();
    assert_eq!(transcript.provider, ProviderId::Cartesia);
    let ids: Vec<ProviderId> = seen.calls.iter().map(|c| c.0).collect();
    assert_eq!(ids, [ProviderId::Xai, ProviderId::Cartesia]);
}

#[test]
fn invalid_input_does_not_fall_back() {
    let engine = Engine::builder()
        .stt(reg(ProviderId::Xai, stt_caps()))
        .stt(reg(ProviderId::Cartesia, stt_caps()))
        .build();
    let (result, seen) = drive(&engine, ogg_request(), None, |id| match id {
        ProviderId::Xai => Err(CoreError::InvalidInput("broken".into())),
        other => ok(other),
    });
    assert!(matches!(result.unwrap_err(), CoreError::InvalidInput(_)));
    assert_eq!(seen.calls.len(), 1);
}

#[test]
fn transcodes_for_providers_that_reject_the_container() {
    let mut caps = stt_caps();
    caps.stt_input_extensions = vec!["wav".into(), "mp3".into()];
    let engine = Engine::builder()
        .stt(reg(ProviderId::Openai, caps))
        .decoder()
        .build();
    let (result, seen) = drive(&engine, ogg_request(), Some(ProviderId::Openai), ok);
    result.unwrap();
    assert_eq!(seen.decoded, 1);
    // The provider received the transcoded wav, not the ogg.
    assert_eq!(seen.calls[0].1.as_deref(), Some("wav"));
    assert_eq!(seen.temp_files, ["/tmp/decoded.wav"]);
}

#[test]
fn capability_mismatch_skips_provider_in_auto() {
    let mut no_diarize = stt_caps();
    no_diarize.diarization = false;
    let mut with_diarize = stt_caps();
    with_diarize.diarization = true;
    let engine = Engine::builder()
        .stt(reg(ProviderId::Cartesia, no_diarize))
        .stt(reg(ProviderId::Xai, with_diarize))
        .build();
    let mut request = ogg_request();
    request.diarize = true;
    let (result, seen) = drive(&engine, request, None, ok);
    assert_eq!(result.unwrap().provider, ProviderId::Xai);
    assert_eq!(seen.calls.len(), 1);
}

#[test]
fn explicit_provider_must_be_registered() {
    let engine = Engine::builder().build();
    let (result, _) = drive(&engine, ogg_request(), Some(ProviderId::Xai), ok);
    assert!(matches!(
        result.unwrap_err(),
        CoreError::NotConfigured { .. }
    ));
}

/// A provider that gives back the text it is asked to speak.
fn speech(id: ProviderId, request: &SpeechRequest) -> AudioOutput {
    let bytes = request.text.as_bytes().to_vec();
    AudioOutput::plain(bytes, "audio/mpeg", AudioCodec::Mp3, id)
}

fn busy(id: ProviderId) -> CoreError {
    CoreError::RateLimited {
        provider: id.as_str().to_string(),
        message: "busy".into(),
    }
}

#[test]
fn speak_auto_falls_back() {
    let tts = ProviderCapabilities {
        batch_tts: true,
        ..Default::default()
    };
    let engine = Engine::builder()
        .tts(reg(ProviderId::Xai, tts.clone()))
        .tts(reg(ProviderId::Openai, tts))
        .build();
    let mut run = engine.speak(SpeechRequest::new("hola"), None).unwrap();
    let mut calls = 0;
    while let Some(i) = run.candidate() {
        let id = engine.tts[i].id;
        calls += 1;
        assert_eq!(run.attempt().text, "hola");
        let answer = if id == ProviderId::Xai {
            Err(busy(id))
        } else {
            Ok(speech(id, run.attempt()))
        };
        run = run.answered(answer);
    }
    let output = run.result.unwrap().unwrap();
    assert_eq!(calls, 2);
    assert_eq!(output.provider, ProviderId::Openai);
    assert_eq!(output.bytes, b"hola");
}

#[test]
fn speak_without_providers_is_not_configured() {
    let engine = Engine::builder().build();
    assert!(matches!(
        engine.speak(SpeechRequest::new("hola"), None),
        Err(CoreError::NotConfigured { .. })
    ));
    assert!(matches!(
        engine.speak(SpeechRequest::new("hola"), Some(ProviderId::Xai)),
        Err(CoreError::NotConfigured { .. })
    ));
}

#[test]
fn a_wanted_voice_is_not_replaced() {
    let tts = ProviderCapabilities {
        batch_tts: true,
        ..Default::default()
    };
    let engine = Engine::builder()
        .tts(reg(ProviderId::Xai, tts.clone()))
        .tts(reg(ProviderId::Openai, tts))
        .build();
    let run = engine.speak(SpeechRequest::new("hola"), Some(ProviderId::Openai)).unwrap();
    assert_eq!(run.candidate(), Some(1));
    let run = run.answered(Err(busy(ProviderId::Openai)));
    assert_eq!(run.candidate(), None);
    assert!(matches!(
        run.result,
        Some(Err(CoreError::RateLimited { .. }))
    ));
}

#[test]
fn the_last_failure_is_reported() {
    let engine = Engine::builder()
        .stt(reg(ProviderId::Xai, stt_caps()))
        .stt(reg(ProviderId::Cartesia, stt_caps()))
        .build();
    let (result, seen) = drive(&engine, ogg_request(), None, |id| match id {
        ProviderId::Xai => Err(auth_error()),
        _ => Err(CoreError::Network("down".into())),
    });
    assert!(matches!(result.unwrap_err(), CoreError::Network(m) if m == "down"));
    assert_eq!(seen.calls.len(), 2);
}

#[test]
fn no_providers_is_not_configured() {
    let engine = Engine::builder().build();
    let (result, _) = drive(&engine, ogg_request(), None, ok);
    match result.unwrap_err() {
        CoreError::NotConfigured { provider, message } => {
            assert_eq!(provider, "auto");
            assert!(message.starts_with("no speech-to-text providers are configured"));
        }
        other => panic!("{other:?}"),
    }
}

#[test]
fn transcoding_needs_a_decoder_and_a_file() {
    let mut caps = stt_caps();
    caps.stt_input_extensions = vec!["wav".into()];
    let engine = Engine::builder()
        .stt(reg(ProviderId::Openai, caps.clone()))
        .build();
    let (result, seen) = drive(&engine, ogg_request(), Some(ProviderId::Openai), ok);
    assert!(matches!(result.unwrap_err(), CoreError::Audio(_)));
    assert!(seen.calls.is_empty());

    let engine = Engine::builder()
        .stt(reg(ProviderId::Openai, caps))
        .decoder()
        .build();
    let bytes = TranscribeRequest::new(AudioSource::Bytes {
        data: vec![1],
        file_name: "a.ogg".into(),
        mime: "audio/ogg".into(),
    });
    let (result, _) = drive(&engine, bytes, None, ok);
    assert!(matches!(
        result.unwrap_err(),
        CoreError::Audio(m) if m == "transcoding in-memory sources is not supported"
    ));
}

#[test]
fn a_failed_decoding_moves_on_in_auto() {
    let mut wav_only = stt_caps();
    wav_only.stt_input_extensions = vec!["wav".into()];
    let engine = Engine::builder()
        .stt(reg(ProviderId::Openai, wav_only))
        .stt(reg(ProviderId::Xai, stt_caps()))
        .decoder()
        .build();
    let run = engine.transcribe(ogg_request(), None).unwrap();
    assert!(matches!(run.action(), Action::Convert(p) if p == "/tmp/clip.ogg"));
    let run = engine.converted(run, Err(CoreError::Audio("bad".into())));
    assert!(matches!(run.action(), Action::Measure(_)));
    let run = engine.measured(run, None);
    assert!(matches!(run.action(), Action::Call(1)));
    let run = engine.answered(run, ok(ProviderId::Xai));
    assert!(matches!(run.action(), Action::Finish));
    assert!(run.finish().0.is_ok());
}

#[test]
fn oversized_input_is_refused_before_the_call() {
    let mut caps = stt_caps();
    caps.max_upload_bytes = Some(8);
    let engine = Engine::builder()
        .stt(reg(ProviderId::Openai, caps))
        .build();
    let (result, seen) = drive(&engine, ogg_request(), Some(ProviderId::Openai), ok);
    assert!(matches!(result.unwrap_err(), CoreError::Unsupported { .. }));
    assert!(seen.calls.is_empty());
}

#[test]
fn streaming_providers_are_picked() {
    let engine = Engine::builder()
        .streaming_stt(reg(ProviderId::Xai, stt_caps()))
        .streaming_tts(reg(ProviderId::Xai, stt_caps()))
        .build();
    assert_eq!(engine.streaming_stt_provider(None).unwrap(), 0);
    assert_eq!(
        engine.streaming_tts_provider(Some(ProviderId::Xai)).unwrap(),
        0
    );
    assert!(matches!(
        engine.streaming_tts_provider(Some(ProviderId::Openai)),
        Err(CoreError::NotConfigured { .. })
    ));
    assert_eq!(engine.stt_providers().len(), 0);
    assert_eq!(engine.tts_providers().len(), 0);
    let none: Vec<Registration> = Vec::new();
    match pick_one(&none, None, "dictation").unwrap_err() {
        CoreError::NotConfigured { message, .. } => {
            assert_eq!(message, "no providers are configured for dictation");
        }
        other => panic!("{other:?}"),
    }
}
