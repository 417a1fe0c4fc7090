use open_voice::decimal::Decimal;
use open_voice::domain::{Segment, Transcript, Word};
use open_voice::error::CoreError;
use open_voice::output::{
    fmt_timestamp, output_file, output_files, output_path, render, render_json, render_srt, render_txt,
    render_vtt, speakers_present, OutputFormat,
};
use open_voice::path;
use open_voice::path::Style;
use open_voice::provider::ProviderId;

fn d(s: f64) -> Decimal {
    Decimal::parse(&format!("{s}")).unwrap()
}

fn segment(start: f64, end: f64, text: &str) -> Segment {
    Segment::new(d(start), d(end), text)
}

fn word(text: &str, start: f64, end: f64) -> Word {
    Word::new(text, d(start), d(end))
}

fn transcript() -> Transcript {
    let mut t = Transcript::new(ProviderId::Xai, "Hola mundo. Segunda frase");
    t.language = Some("es".into());
    t.duration = Some(d(4.0));
    t.segments = vec![
        segment(0.0, 0.9, "Hola mundo."),
        segment(3.0, 3.9, "Segunda frase"),
    ];
    t
}

#[test]
fn output_path_preserves_interior_dots() {
    let input = "/downloads/WhatsApp Ptt 2026-07-02 at 14.56.03.ogg";
    let out = output_path(input, None, "txt", Style::Unix);
    assert_eq!(out, "/downloads/WhatsApp Ptt 2026-07-02 at 14.56.03.txt");
    let out = output_path(input, Some("/tmp/out"), "srt", Style::Unix);
    assert_eq!(out, "/tmp/out/WhatsApp Ptt 2026-07-02 at 14.56.03.srt");
}

#[test]
fn srt_renders_expected_shape() {
    let srt = render_srt(&transcript());
    assert_eq!(
        srt,
        "1\n00:00:00,000 --> 00:00:00,900\nHola mundo.\n\n2\n00:00:03,000 --> 00:00:03,900\nSegunda frase\n"
    );
}

#[test]
fn vtt_renders_expected_shape() {
    let vtt = render_vtt(&transcript());
    assert!(vtt.starts_with("WEBVTT\n\n00:00:00.000 --> 00:00:00.900\nHola mundo.\n"));
}

#[test]
fn txt_prefers_full_text() {
    assert_eq!(render_txt(&transcript()), "Hola mundo. Segunda frase\n");
}

#[test]
fn txt_labels_speakers() {
    let mut t = transcript();
    t.segments[0].speaker = Some("speaker_0".into());
    t.segments[1].speaker = Some("speaker_1".into());
    let txt = render_txt(&t);
    assert_eq!(
        txt,
        "[speaker_0] Hola mundo.\n\n[speaker_1] Segunda frase\n"
    );
    assert!(speakers_present(&t.segments));
}

#[test]
fn srt_from_words_when_no_segments() {
    let mut t = Transcript::new(ProviderId::Cartesia, "Hola mundo.");
    t.words = vec![word("Hola", 0.0, 0.4), word("mundo.", 0.5, 0.9)];
    let srt = render_srt(&t);
    assert!(srt.contains("Hola mundo."));
    assert!(srt.contains("00:00:00,000 --> 00:00:00,900"));
}

#[test]
fn json_includes_rendered_segments() {
    let mut t = Transcript::new(ProviderId::Openai, "Hola mundo.");
    t.words = vec![word("Hola", 0.0, 0.4), word("mundo.", 0.5, 0.9)];
    let json = render_json(&t).unwrap();
    let value: serde_json::Value = serde_json::from_str(&json).unwrap();
    assert_eq!(value["provider"], "openai");
    assert_eq!(value["segments"][0]["text"], "Hola mundo.");
    assert_eq!(value["words"][0]["start"].as_f64(), Some(0.0));
    assert_eq!(value["words"][1]["end"].as_f64(), Some(0.9));
}

#[test]
fn timestamp_rounding() {
    assert_eq!(fmt_timestamp(d(3599.9995), true), "01:00:00,000");
    assert_eq!(fmt_timestamp(d(0.001), false), "00:00:00.001");
    assert_eq!(fmt_timestamp(d(-1.0), true), "00:00:00,000");
}

#[test]
fn write_all_creates_files() {
    let formats = OutputFormat::parse_list("txt,srt,json").unwrap();
    let outputs = output_files(&transcript(), "/data/a.b.c.ogg", None, &formats, Style::Unix);
    assert!(outputs.failure.is_none());
    let written = outputs.files;
    assert_eq!(written.len(), 3);
    assert_eq!(written[0].path, "/data/a.b.c.txt");
    assert_eq!(written[1].path, "/data/a.b.c.srt");
    assert_eq!(written[2].path, "/data/a.b.c.json");
    assert!(written.iter().all(|f| !f.content.is_empty()));
    for (file, format) in written.iter().zip(&formats) {
        assert_eq!(file.content, render(&transcript(), *format).unwrap());
        let one = output_file(&transcript(), "/data/a.b.c.ogg", None, *format, Style::Unix);
        assert_eq!(one.unwrap().path, file.path);
    }
}

#[test]
fn the_output_of_an_output_is_itself() {
    for style in [Style::Unix, Style::Windows] {
        for input in ["/data/a.b.ogg", "a", "./x/.hidden", "/", "..", "d//e.f/.", "", r"\\s\h\a.ogg", r"\\?\C:\a\\b\c.d"] {
            for dir in [None, Some("/out"), Some("out/")] {
                let p = output_path(input, dir, "txt", style);
                assert_eq!(output_path(&p, dir, "txt", style), p);
            }
        }
    }
    // A name that begins like a drive changes its meaning once it is joined.
    let p = output_path("d\\a:b.ogg", None, "txt", Style::Windows);
    assert_eq!(p, "a:b.txt");
    assert_eq!(output_path(&p, None, "txt", Style::Windows), "a:b.txt");
    assert_eq!(output_path(&p, Some("o"), "txt", Style::Windows), "o\\b.txt");
}

#[test]
fn windows_prefixes_are_no_names() {
    let w = Style::Windows;
    let cases: [(&str, Option<&str>, Option<&str>); 15] = [
        (r"\\server\share", None, None),
        (r"\\server\share\", None, None),
        (r"//server/share", None, None),
        (r"\\server\share\foo.ogg", Some(r"\\server\share\"), Some("foo.ogg")),
        (r"\\server", Some(r"\"), Some("server")),
        (r"\\?\bar\foo.txt", Some(r"\\?\bar\"), Some("foo.txt")),
        (r"\\?\C:\foo.txt", Some(r"\\?\C:\"), Some("foo.txt")),
        (r"\\?\C:", None, None),
        (r"\\?\UNC\server\share\foo", Some(r"\\?\UNC\server\share\"), Some("foo")),
        (r"\\?\C:\a/b", Some(r"\\?\C:\"), Some("a/b")),
        (r"\\?\C:\a\.", Some(r"\\?\C:\a"), None),
        (r"\\.\foo\bar", Some(r"\\.\foo\"), Some("bar")),
        (r"\\.\foo/bar", Some(r"\\.\foo/"), Some("bar")),
        (r"\\.\COM1", None, None),
        (r"C:.", None, None),
    ];
    for (path, parent, name) in cases {
        assert_eq!(path::parent_of(path, w).as_deref(), parent, "{path}");
        assert_eq!(path::name_of(path, w).as_deref(), name, "{path}");
    }
    assert_eq!(
        output_path(r"\\server\share\a\b.ogg", None, "txt", w),
        r"\\server\share\a\b.txt"
    );
    assert_eq!(output_path(r"\\server\share", None, "txt", w), "transcript.txt");
}

#[test]
fn names_are_joined_to_windows_prefixes() {
    let w = Style::Windows;
    for (dir, name, whole) in [
        (r"\\server\share\foo", "bar", r"\\server\share\foo\bar"),
        (r"\\server\share", "bar", r"\\server\share\bar"),
        (r"\\server\share\foo", r"\bar", r"\\server\share\bar"),
        (r"\\server\share", r"C:\a", r"C:\a"),
        (r"\\?\C:\bar", "../foo", r"\\?\C:\foo"),
        (r"\\?\C:\bar", "../../foo", r"\\?\C:\foo"),
        (r"\\?\C:\", "../foo", r"\\?\C:\foo"),
        (r"\\?\C:", r"D:\foo/./", r"D:\foo/./"),
        (r"\\?\A:\x\y", "/foo", r"\\?\A:\foo"),
        (r"\\?\A:", r"..\foo\.", r"\\?\A:\foo"),
        (r"\\?\A:\x\y", r".\foo\.", r"\\?\A:\x\y\foo"),
        (r"\\?\A:\x\y", "", r"\\?\A:\x\y\"),
        (r"\\?\A:\x\\y", "a/b", r"\\?\A:\x\y\a\b"),
        (r"\\?\UNC\server\share\foo", "bar", r"\\?\UNC\server\share\foo\bar"),
        (r"\\?\UNC\server", "foo", r"\\?\UNC\server\foo"),
        (r"\\.\foo\bar", "baz", r"\\.\foo\bar\baz"),
        (r"\\.\foo", r"..\bar", r"\\.\foo\..\bar"),
    ] {
        assert_eq!(path::joined(dir, name, w), whole, "{dir} and {name}");
    }
    // A server alone and a name make a server and a share.
    let p = output_path("a.ogg", Some(r"\\server"), "txt", w);
    assert_eq!(p, r"\\server\a.txt");
    assert_eq!(path::name_of(&p, w), None);
}

#[test]
fn windows_paths_keep_their_drive() {
    let w = Style::Windows;
    assert_eq!(
        output_path("C:\\a\\b.c.ogg", Some("D:\\out"), "txt", w),
        "D:\\out\\b.c.txt"
    );
    assert_eq!(output_path("C:\\a\\b.ogg", None, "srt", w), "C:\\a\\b.srt");
    assert_eq!(output_path("C:/a/b.ogg", None, "srt", w), "C:/a\\b.srt");
    assert_eq!(output_path("C:\\b.ogg", None, "srt", w), "C:\\b.srt");
    assert_eq!(output_path("C:b.ogg", None, "srt", w), "C:b.srt");
    assert_eq!(path::name_of("C:b.ogg", w).as_deref(), Some("b.ogg"));
    assert_eq!(path::name_of("C:\\", w), None);
    assert_eq!(path::name_of("C:", w), None);
    assert_eq!(path::parent_of("C:\\a\\b\\", w).as_deref(), Some("C:\\a"));
    assert_eq!(path::parent_of("C:\\", w), None);
    assert_eq!(path::joined("C:\\a", "\\b", w), "C:\\b");
    assert_eq!(path::joined("C:\\a", "D:b", w), "D:b");
    assert_eq!(path::joined("C:", "b", w), "C:b");
    assert_eq!(path::extended("C:\\a.b\\c", "json", w), "C:\\a.b\\c.json");
    // There are no drives in the other style.
    assert_eq!(path::name_of("C:\\a\\b.ogg", Style::Unix).as_deref(), Some("C:\\a\\b.ogg"));
}

#[test]
fn parse_list_dedupes_and_validates() {
    let formats = OutputFormat::parse_list("txt, srt,txt").unwrap();
    assert_eq!(formats, vec![OutputFormat::Txt, OutputFormat::Srt]);
    assert!(OutputFormat::parse_list("nope").is_err());
    assert!(OutputFormat::parse_list("").is_err());
}

#[test]
fn format_errors_are_invalid_input() {
    assert!(matches!(
        OutputFormat::parse_list("txt,nope"),
        Err(CoreError::InvalidInput(_))
    ));
    assert!(matches!(
        OutputFormat::parse_list(" , "),
        Err(CoreError::InvalidInput(_))
    ));
}

#[test]
fn extensions_name_their_formats() {
    for format in [
        OutputFormat::Txt,
        OutputFormat::Srt,
        OutputFormat::Vtt,
        OutputFormat::Json,
    ] {
        assert_eq!(OutputFormat::parse(format.extension()).unwrap(), format);
        assert_eq!(
            format.extension().parse::<OutputFormat>().unwrap(),
            format
        );
    }
}

#[test]
fn timestamps_have_a_fixed_width() {
    for s in [0.0, 0.5, 59.9996, 61.25, 3599.0, 86399.999] {
        assert_eq!(fmt_timestamp(d(s), true).len(), 12);
    }
    assert_eq!(fmt_timestamp(d(59.9996), false), "00:01:00.000");
    assert_eq!(fmt_timestamp(d(2.0035), true), "00:00:02,003");
    assert_eq!(fmt_timestamp(d(360_000.0), true), "100:00:00,000");
}

#[test]
fn subtitles_end_in_one_line_end() {
    for text in [render_srt(&transcript()), render_vtt(&transcript())] {
        assert!(text.ends_with('\n') && !text.ends_with("\n\n"));
    }
    let speakers = {
        let mut t = transcript();
        t.segments[0].speaker = Some("speaker_0".into());
        t
    };
    assert_eq!(
        render_srt(&speakers),
        "1\n00:00:00,000 --> 00:00:00,900\n[speaker_0] Hola mundo.\n\n2\n00:00:03,000 --> 00:00:03,900\nSegunda frase\n"
    );
}

#[test]
fn an_empty_transcript_renders() {
    let t = Transcript::new(ProviderId::Xai, "  ");
    assert_eq!(render_txt(&t), "\n");
    assert_eq!(render_srt(&t), "\n");
    assert!(render_vtt(&t).starts_with("WEBVTT"));
}

#[test]
fn json_is_written_over_several_lines() {
    let json = render(&transcript(), OutputFormat::Json).unwrap();
    assert!(json.contains("\n  \"duration\": 4.0"));
    assert!(json.ends_with("}\n") || json.ends_with('}'));
    assert_eq!(
        render(&transcript(), OutputFormat::Txt).unwrap(),
        "Hola mundo. Segunda frase\n"
    );
}

#[test]
fn paths_are_taken_apart() {
    assert_eq!(path::name_of("/a/b.c.ogg", Style::Unix).as_deref(), Some("b.c.ogg"));
    assert_eq!(path::name_of("/a/b/", Style::Unix).as_deref(), Some("b"));
    assert_eq!(path::name_of("/", Style::Unix), None);
    assert_eq!(path::name_of("..", Style::Unix), None);
    assert_eq!(path::stem_of("b.c.ogg"), "b.c");
    assert_eq!(path::stem_of(".hidden"), ".hidden");
    assert_eq!(path::extension_of("b.c.ogg").as_deref(), Some("ogg"));
    assert_eq!(path::extension_of("b"), None);
    assert_eq!(path::parent_of("/a/b", Style::Unix).as_deref(), Some("/a"));
    assert_eq!(path::parent_of("b", Style::Unix).as_deref(), Some(""));
    assert_eq!(path::joined("/a", "b", Style::Unix), "/a/b");
    assert_eq!(path::joined("/a/", "b", Style::Unix), "/a/b");
    assert_eq!(path::joined("/a", "/b", Style::Unix), "/b");
    assert_eq!(path::extended("/a/b.mp3", "mp3.json", Style::Unix), "/a/b.mp3.json");
}
