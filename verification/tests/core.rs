use open_voice::audio::{mime_for_extension, write_wav, FfmpegDecoder};
use open_voice::capabilities::ProviderCapabilities;
use open_voice::decimal::Decimal;
use open_voice::domain::{
    segments_from_words, AudioCodec, AudioSource, Language, Transcript, TranscribeRequest, Word,
};
use open_voice::error::CoreError;
use open_voice::path::Style;
use open_voice::ports::AudioSpec;
use open_voice::provider::ProviderId;

fn d(s: f64) -> Decimal {
    Decimal::parse(&format!("{s}")).unwrap()
}

fn w(text: &str, start: f64, end: f64) -> Word {
    Word::new(text, d(start), d(end))
}

fn caps() -> ProviderCapabilities {
    ProviderCapabilities {
        batch_stt: true,
        stt_input_extensions: vec!["wav".into()],
        max_upload_bytes: Some(100),
        ..Default::default()
    }
}

fn req() -> TranscribeRequest {
    TranscribeRequest::new(AudioSource::Bytes {
        data: vec![0; 10],
        file_name: "a.wav".into(),
        mime: "audio/wav".into(),
    })
}

#[test]
fn mime_guesses() {
    assert_eq!(mime_for_extension("OGG"), "audio/ogg");
    assert_eq!(mime_for_extension("mp3"), "audio/mpeg");
    assert_eq!(mime_for_extension("zzz"), "application/octet-stream");
}

#[test]
fn rejects_diarization_when_unsupported() {
    let mut r = req();
    r.diarize = true;
    let err = caps().validate_transcribe("p", &r, None).unwrap_err();
    assert!(matches!(err, CoreError::Unsupported { .. }));
}

#[test]
fn rejects_oversized_input() {
    let err = caps()
        .validate_transcribe("p", &req(), Some(101))
        .unwrap_err();
    assert!(matches!(err, CoreError::Unsupported { .. }));
    caps().validate_transcribe("p", &req(), Some(100)).unwrap();
}

#[test]
fn extension_check() {
    assert!(caps().accepts_extension("WAV"));
    assert!(!caps().accepts_extension("ogg"));
    let open = ProviderCapabilities::default();
    assert!(open.accepts_extension("anything"));
}

#[test]
fn language_primary_subtag() {
    assert_eq!(Language::new("es-MX").primary(), "es");
    assert_eq!(Language::new("PT_br").primary(), "pt");
    assert_eq!(Language::new("en").primary(), "en");
}

#[test]
fn segments_split_on_punctuation_and_gap() {
    let words = vec![
        w("Hola", 0.0, 0.4),
        w("mundo.", 0.5, 0.9),
        w("Segunda", 3.0, 3.4),
        w("frase", 3.5, 3.9),
    ];
    let segs = segments_from_words(&words);
    assert_eq!(segs.len(), 2);
    assert_eq!(segs[0].text, "Hola mundo.");
    assert_eq!(segs[0].start, d(0.0));
    assert_eq!(segs[0].end, d(0.9));
    assert_eq!(segs[1].text, "Segunda frase");
}

#[test]
fn segments_split_on_speaker_change() {
    let mut a = w("Hola", 0.0, 0.4);
    a.speaker = Some("speaker_0".into());
    let mut b = w("adios", 0.5, 0.9);
    b.speaker = Some("speaker_1".into());
    let segs = segments_from_words(&[a, b]);
    assert_eq!(segs.len(), 2);
    assert_eq!(segs[0].speaker.as_deref(), Some("speaker_0"));
    assert_eq!(segs[1].speaker.as_deref(), Some("speaker_1"));
}

#[test]
fn render_segments_falls_back_to_full_text() {
    let mut t = Transcript::new(ProviderId::Xai, " hola mundo ");
    t.duration = Some(d(2.5));
    let segs = t.render_segments();
    assert_eq!(segs.len(), 1);
    assert_eq!(segs[0].text, "hola mundo");
    assert_eq!(segs[0].end, d(2.5));
}

#[test]
fn audio_source_extension() {
    let s = AudioSource::File("/tmp/WhatsApp Ptt 2026-07-02 at 14.56.03.ogg".into());
    assert_eq!(s.extension(Style::Unix).as_deref(), Some("ogg"));
}

#[test]
fn invalid_input_is_not_fallback_worthy() {
    assert!(!CoreError::InvalidInput("x".into()).is_fallback_worthy());
    assert!(!CoreError::Io("x".into()).is_fallback_worthy());
}

#[test]
fn provider_side_errors_are_fallback_worthy() {
    let e = CoreError::RateLimited {
        provider: "xai".into(),
        message: "slow down".into(),
    };
    assert!(e.is_fallback_worthy());
}

#[test]
fn round_trips_and_aliases() {
    for p in ProviderId::ALL {
        assert_eq!(p.as_str().parse::<ProviderId>().unwrap(), p);
    }
    assert_eq!("grok".parse::<ProviderId>().unwrap(), ProviderId::Xai);
    assert_eq!("whisper".parse::<ProviderId>().unwrap(), ProviderId::Openai);
    assert!("nope".parse::<ProviderId>().is_err());
}

#[test]
fn unknown_provider_is_named() {
    assert_eq!(
        " Nope".parse::<ProviderId>().unwrap_err(),
        "unknown provider 'nope' (expected one of: local-canary, local-qwen3, openai, \
         elevenlabs, cartesia, xai)"
    );
}

#[test]
fn every_error_has_its_text() {
    let p = || "xai".to_string();
    let m = || "why".to_string();
    let texts: Vec<(CoreError, bool)> = vec![
        (CoreError::Auth { provider: p(), message: m() }, true),
        (CoreError::RateLimited { provider: p(), message: m() }, true),
        (CoreError::Unsupported { provider: p(), message: m() }, true),
        (CoreError::InvalidInput(m()), false),
        (CoreError::NotConfigured { provider: p(), message: m() }, true),
        (CoreError::Provider { provider: p(), message: m() }, true),
        (CoreError::Network(m()), true),
        (CoreError::Audio(m()), false),
        (CoreError::Io(m()), false),
    ];
    for (error, fallback) in &texts {
        assert_eq!(error.is_fallback_worthy(), *fallback, "{error:?}");
        assert!(error.to_text().ends_with("why"));
    }
}

#[test]
fn refusals_name_the_provider_and_the_limit() {
    let err = caps()
        .validate_transcribe("p", &req(), Some(101))
        .unwrap_err();
    match err {
        CoreError::Unsupported { provider, message } => {
            assert_eq!(provider, "p");
            assert!(message.contains("101") && message.contains("100"), "{message}");
        }
        other => panic!("{other:?}"),
    }
    let message = |caps: ProviderCapabilities, r: &TranscribeRequest| {
        match caps.validate_transcribe("p", r, None) {
            Err(CoreError::Unsupported { message, .. }) => message,
            other => panic!("{other:?}"),
        }
    };
    let mut r = req();
    r.keyterms = vec!["term".into()];
    assert_eq!(message(caps(), &r), "keyterm biasing is not supported");
    let mut r = req();
    r.prompt = Some("context".into());
    assert_eq!(message(caps(), &r), "prompting is not supported");
    assert_eq!(
        message(ProviderCapabilities::default(), &req()),
        "batch speech-to-text is not supported"
    );
}

#[test]
fn decimals_are_written_and_read_back() {
    for s in ["0", "0.1", "-2.5", "12.345678901234567", "3600"] {
        assert_eq!(Decimal::parse(s).unwrap().to_text(), s);
    }
    assert_eq!(Decimal::parse("4").unwrap().to_fractional_text(), "4.0");
    assert_eq!(Decimal::parse("4.20").unwrap().to_text(), "4.2");
    assert_eq!(Decimal::parse(""), None);
    assert_eq!(Decimal::parse("1.2.3"), None);
    assert_eq!(Decimal::parse("inf"), None);
    assert_eq!(Decimal::parse("1e3"), None);
    assert_eq!(Decimal::parse("100000000000000000000"), None);
    assert_eq!(Decimal::parse("0.0005").unwrap().to_millis(), 1);
    assert_eq!(Decimal::parse("0.0004999").unwrap().to_millis(), 0);
    assert_eq!(Decimal::parse("-7").unwrap().to_millis(), 0);
}

#[test]
fn gaps_of_more_than_a_second_split() {
    let near = [w("a", 0.0, 1.0), w("b", 2.0, 2.5)];
    assert_eq!(segments_from_words(&near).len(), 1);
    let far = [w("a", 0.0, 1.0), w("b", 2.000001, 2.5)];
    assert_eq!(segments_from_words(&far).len(), 2);
    // The binary numbers nearest to these are further apart than a second.
    let far = [w("a", 0.0, 1.2), w("b", 2.2, 2.5)];
    assert_eq!(segments_from_words(&far).len(), 2);
}

#[test]
fn gaps_are_measured_between_binary_numbers() {
    for i in -400..400 {
        let end = f64::from(i) / 10.0;
        for gap in [0.9, 0.9999999999999999, 1.0, 1.0000000000000002, 1.1, -1.0, -3.0, 70.5] {
            for start in [end + gap, f64::from(i + 10) / 10.0] {
                assert_eq!(
                    d(start).exceeds_by_more_than_one(&d(end)),
                    start - end > 1.0,
                    "{start} after {end}"
                );
            }
        }
    }
    let largest = Decimal { atto: i128::MAX };
    let least = Decimal { atto: i128::MIN };
    assert!(largest.exceeds_by_more_than_one(&least));
    assert!(!least.exceeds_by_more_than_one(&largest));
    assert!(!largest.exceeds_by_more_than_one(&largest));
}

#[test]
fn thousandths_are_those_of_the_binary_number() {
    assert_eq!(d(2.0035).to_millis(), 2003);
    assert_eq!(d(1.0005).to_millis(), 1001);
    assert_eq!(d(0.0015).to_millis(), 2);
    for i in 0..20_000u32 {
        for x in [
            f64::from(i) / 2000.0,
            f64::from(i) * 7.0 + 0.0005,
            f64::from(i) * 1_234_567.0 + 0.1255,
            f64::from(i) * 0.001_234_567_8,
        ] {
            assert_eq!(d(x).to_millis(), (x * 1000.0).round() as u64, "{x}");
        }
    }
    for x in [1e15, 1e16, 4.5e15, 9.007199254740993e15, 1.8e16, 1e19, 9e19] {
        assert_eq!(d(x).to_millis(), (x * 1000.0).round() as u64, "{x}");
    }
    assert_eq!(Decimal { atto: 1 }.to_millis(), 0);
    assert_eq!(Decimal { atto: i128::MAX }.to_millis(), u64::MAX);
    assert_eq!(Decimal { atto: i128::MIN }.to_millis(), 0);
}

#[test]
fn long_runs_split_after_two_hundred_characters() {
    let words: Vec<Word> = (0..60)
        .map(|i| w("palabra", i as f64 * 0.5, i as f64 * 0.5 + 0.4))
        .collect();
    let segs = segments_from_words(&words);
    assert!(segs.len() > 1);
    assert!(segs.iter().all(|s| s.text.chars().count() <= 200));
    let all: Vec<&str> = segs.iter().flat_map(|s| s.text.split(' ')).collect();
    assert_eq!(all.len(), 60);
    // The cap counts characters, not bytes: these words are two bytes a letter.
    let accented: Vec<Word> = (0..28)
        .map(|i| w("ñññññññ", i as f64 * 0.5, i as f64 * 0.5 + 0.4))
        .collect();
    let plain: Vec<Word> = (0..28)
        .map(|i| w("nnnnnnn", i as f64 * 0.5, i as f64 * 0.5 + 0.4))
        .collect();
    assert_eq!(
        segments_from_words(&accented).len(),
        segments_from_words(&plain).len()
    );
}

#[test]
fn segments_of_several_words_are_capped() {
    let (a, b) = ("a".repeat(150), "b".repeat(100));
    let segs = segments_from_words(&[w(&a, 0.0, 0.4), w(&b, 0.5, 0.9)]);
    assert_eq!(segs.len(), 2);
    // Exactly two hundred characters are still one segment, one more is not.
    let b = "b".repeat(49);
    let segs = segments_from_words(&[w(&a, 0.0, 0.4), w(&b, 0.5, 0.9)]);
    assert_eq!(segs.len(), 1);
    assert_eq!(segs[0].text.len(), 200);
    let b = "b".repeat(50);
    assert_eq!(segments_from_words(&[w(&a, 0.0, 0.4), w(&b, 0.5, 0.9)]).len(), 2);
    // A single word may be longer.
    assert_eq!(segments_from_words(&[w(&"c".repeat(300), 0.0, 0.4)])[0].text.len(), 300);
}

#[test]
fn codec_names_round_trip() {
    for codec in [
        AudioCodec::Mp3,
        AudioCodec::Wav,
        AudioCodec::Pcm,
        AudioCodec::Opus,
        AudioCodec::Flac,
        AudioCodec::Aac,
        AudioCodec::Mulaw,
        AudioCodec::Alaw,
    ] {
        assert_eq!(codec.as_str().parse::<AudioCodec>().unwrap(), codec);
        assert_eq!(codec.extension(), codec.as_str());
    }
    assert!("aiff".parse::<AudioCodec>().is_err());
}

#[test]
fn bytes_keep_their_file_name() {
    let s = AudioSource::Bytes {
        data: vec![1],
        file_name: "Clip.OGG".into(),
        mime: "audio/ogg".into(),
    };
    assert_eq!(s.file_name(Style::Unix), "Clip.OGG");
    assert_eq!(s.extension(Style::Unix).as_deref(), Some("ogg"));
    assert_eq!(AudioSource::File("/".into()).file_name(Style::Unix), "audio");
    assert_eq!(AudioSource::File("/tmp/.hidden".into()).extension(Style::Unix), None);
}

#[test]
fn wav_files_have_a_header_and_their_samples() {
    let bytes = write_wav(16_000, 1, &[0, 1, -1, 258]);
    assert_eq!(bytes.len(), 44 + 8);
    assert_eq!(&bytes[0..4], b"RIFF");
    assert_eq!(&bytes[4..8], &44u32.to_le_bytes());
    assert_eq!(&bytes[8..16], b"WAVEfmt ");
    assert_eq!(&bytes[22..24], &1u16.to_le_bytes());
    assert_eq!(&bytes[24..28], &16_000u32.to_le_bytes());
    assert_eq!(&bytes[28..32], &32_000u32.to_le_bytes());
    assert_eq!(&bytes[36..40], b"data");
    assert_eq!(&bytes[40..44], &8u32.to_le_bytes());
    assert_eq!(&bytes[44..], &[0, 0, 1, 0, 255, 255, 2, 1]);
}

#[test]
fn ffmpeg_is_called_with_the_target_spec() {
    let f = FfmpegDecoder::default();
    assert_eq!(f.ffmpeg, "ffmpeg");
    assert_eq!(
        f.decode_to_wav("in.ogg", AudioSpec::stt_16k_mono(), "out.wav"),
        [
            "-y", "-hide_banner", "-loglevel", "error", "-i", "in.ogg", "-ac", "1", "-ar",
            "16000", "-vn", "-f", "wav", "out.wav"
        ]
    );
    assert_eq!(
        f.decode_to_pcm("in.ogg", AudioSpec::stt_16k_mono())[12..],
        ["s16le", "pipe:1"]
    );
    assert_eq!(f.probe_duration("x")[6], "x");
    assert_eq!(f.encode_wav(AudioCodec::Wav, None), None);
    assert_eq!(
        f.encode_wav(AudioCodec::Aac, Some(8_000)).unwrap()[6..],
        ["-ar", "8000", "-f", "adts", "pipe:1"]
    );
    assert_eq!(
        f.encode_wav(AudioCodec::Mp3, None).unwrap()[4..],
        ["-i", "pipe:0", "-f", "mp3", "pipe:1"]
    );
    assert_eq!(FfmpegDecoder::new("a", "b").ffprobe, "b");
    assert_eq!(
        f.concat_files("list.txt", "out.mp3")[4..],
        ["-f", "concat", "-safe", "0", "-i", "list.txt", "-c", "copy", "out.mp3"]
    );
    assert_eq!(
        FfmpegDecoder::concat_list(&["/a.mp3".to_string(), "/it's.mp3".to_string()]),
        "file '/a.mp3'\nfile '/it'\\''s.mp3'\n"
    );
}

#[test]
fn failed_runs_say_what_ffmpeg_said() {
    let ok = FfmpegDecoder::run_result("ffmpeg", true, vec![1, 2], "noise").unwrap();
    assert_eq!(ok, [1, 2]);
    let err = FfmpegDecoder::run_result("ffmpeg", false, vec![], " bad input\n").unwrap_err();
    assert!(matches!(err, CoreError::Audio(m) if m == "ffmpeg failed: bad input"));
    let err = FfmpegDecoder::spawn_error("ffmpeg", "not found");
    assert!(matches!(err, CoreError::Audio(m) if m == "spawning ffmpeg: not found"));
}
