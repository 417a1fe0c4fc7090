//! Transcript writers: txt, srt, vtt, json. All writers consume the normalized
//! transcript, so every provider produces byte-identical output shapes.
//!
//! Output naming strips only the **final** extension of the input file name
//! and never touches interior dots: `WhatsApp Ptt ... 14.56.03.ogg` becomes
//! `... 14.56.03.txt`.

use crate::decimal;
use crate::decimal::Decimal;
use crate::domain::{Segment, SegmentView, Transcript, TranscriptView, Word, WordView};
use crate::error::{CoreError, CoreResult, Failure};
use crate::json;
use crate::json::Json;
use crate::path;
use crate::path::Style;
use crate::text;
use serde_json::Value;
use std::str::FromStr;
use vstd::prelude::*;

verus! {

// ---------------------------------------------------------------------------
// Formats
// ---------------------------------------------------------------------------

#[derive(Debug, Clone, Copy, PartialEq, Eq, Hash, Structural)]
pub enum OutputFormat {
    Txt,
    Srt,
    Vtt,
    Json,
}

impl OutputFormat {
    /// The extension of files in this format.
    pub open spec fn suffix(self) -> Seq<char> {
        match self {
            OutputFormat::Txt => "txt"@,
            OutputFormat::Srt => "srt"@,
            OutputFormat::Vtt => "vtt"@,
            OutputFormat::Json => "json"@,
        }
    }

    /// The format of a name.
    pub open spec fn named(s: Seq<char>) -> Option<OutputFormat> {
        if s == "txt"@ || s == "text"@ {
            Some(OutputFormat::Txt)
        } else if s == "srt"@ {
            Some(OutputFormat::Srt)
        } else if s == "vtt"@ {
            Some(OutputFormat::Vtt)
        } else if s == "json"@ {
            Some(OutputFormat::Json)
        } else {
            None
        }
    }

    /// The format that a text names, whatever its case and the white space
    /// round it.
    pub open spec fn read(s: Seq<char>) -> Result<OutputFormat, Failure> {
        let name = text::lower(text::trim(s));
        match OutputFormat::named(name) {
            Some(f) => Ok(f),
            None => Err(
                Failure::InvalidInput(
                    "unknown output format '"@ + name + "' (expected txt, srt, vtt, json)"@,
                ),
            ),
        }
    }

    /// The formats that texts name, in order and each once. Blank texts name
    /// none; the first text that names no format decides the failure.
    pub open spec fn read_all(items: Seq<Seq<char>>) -> Result<Seq<OutputFormat>, Failure>
        decreases items.len(),
    {
        if items.len() == 0 {
            Ok(Seq::empty())
        } else {
            match OutputFormat::read_all(items.drop_last()) {
                Err(f) => Err(f),
                Ok(formats) => if text::is_blank(items.last()) {
                    Ok(formats)
                } else {
                    match OutputFormat::read(text::trim(items.last())) {
                        Err(f) => Err(f),
                        Ok(format) => if formats.contains(format) {
                            Ok(formats)
                        } else {
                            Ok(formats.push(format))
                        },
                    }
                },
            }
        }
    }

    /// The formats of a comma-separated list: at least one.
    pub open spec fn read_list(list: Seq<char>) -> Result<Seq<OutputFormat>, Failure> {
        match OutputFormat::read_all(text::split(list, ',')) {
            Err(f) => Err(f),
            Ok(formats) => if formats.len() == 0 {
                Err(Failure::InvalidInput("no output formats in '"@ + list + "'"@))
            } else {
                Ok(formats)
            },
        }
    }

    pub fn extension(&self) -> (r: &'static str)
        ensures
            r@ == self.suffix(),
    {
        match self {
            OutputFormat::Txt => "txt",
            OutputFormat::Srt => "srt",
            OutputFormat::Vtt => "vtt",
            OutputFormat::Json => "json",
        }
    }

    /// Reads a format name.
    pub fn parse(s: &str) -> (r: CoreResult<OutputFormat>)
        ensures
            match OutputFormat::read(s@) {
                Ok(f) => r == Ok::<OutputFormat, CoreError>(f),
                Err(f) => r is Err && r->Err_0.deep_view() == f,
            },
    {
        let name = text::to_lower(text::trimmed(s));
        if text::same(&name, "txt") || text::same(&name, "text") {
            Ok(OutputFormat::Txt)
        } else if text::same(&name, "srt") {
            Ok(OutputFormat::Srt)
        } else if text::same(&name, "vtt") {
            Ok(OutputFormat::Vtt)
        } else if text::same(&name, "json") {
            Ok(OutputFormat::Json)
        } else {
            let mut m = "unknown output format '".to_owned();
            m.append(&name);
            m.append("' (expected txt, srt, vtt, json)");
            Err(CoreError::InvalidInput(m))
        }
    }

    /// Parse a comma-separated list like `txt,srt,json`, preserving order and
    /// dropping duplicates.
    pub fn parse_list(list: &str) -> (r: CoreResult<Vec<OutputFormat>>)
        ensures
            match OutputFormat::read_list(list@) {
                Ok(formats) => r is Ok && r->Ok_0@ == formats,
                Err(f) => r is Err && r->Err_0.deep_view() == f,
            },
    {
        let items = text::pieces(list, ',');
        let ghost all = items.deep_view();
        let mut formats: Vec<OutputFormat> = Vec::new();
        let mut i: usize = 0;
        assert(all.take(0).len() == 0);
        while i < items.len()
            invariant
                i <= items@.len(),
                all == items.deep_view(),
                all == text::split(list@, ','),
                OutputFormat::read_all(all.take(i as int)) == Ok::<Seq<OutputFormat>, Failure>(
                    formats@,
                ),
            decreases items@.len() - i,
        {
            assert(all.take(i + 1).drop_last() =~= all.take(i as int));
            let item = text::trimmed(&items[i]);
            if !item.is_empty() {
                match OutputFormat::parse(item) {
                    Ok(f) => {
                        if !has_format(&formats, f) {
                            formats.push(f);
                        }
                    },
                    Err(e) => {
                        proof {
                            lemma_read_all_fails(all, i + 1);
                        }
                        return Err(e);
                    },
                }
            }
            i = i + 1;
        }
        assert(all.take(i as int) =~= all);
        if formats.len() == 0 {
            let mut m = "no output formats in '".to_owned();
            m.append(list);
            m.append("'");
            return Err(CoreError::InvalidInput(m));
        }
        Ok(formats)
    }
}

proof fn lemma_read_all_fails(items: Seq<Seq<char>>, n: int)
    requires
        0 <= n <= items.len(),
        OutputFormat::read_all(items.take(n)) is Err,
    ensures
        OutputFormat::read_all(items) == OutputFormat::read_all(items.take(n)),
    decreases items.len() - n,
{
    if n < items.len() {
        assert(items.take(n + 1).drop_last() =~= items.take(n));
        lemma_read_all_fails(items, n + 1);
    } else {
        assert(items.take(n) =~= items);
    }
}

fn has_format(formats: &Vec<OutputFormat>, f: OutputFormat) -> (r: bool)
    ensures
        r == formats@.contains(f),
{
    let mut i: usize = 0;
    while i < formats.len()
        invariant
            i <= formats@.len(),
            forall|j: int| 0 <= j < i ==> formats@[j] != f,
        decreases formats@.len() - i,
    {
        if formats[i] == f {
            return true;
        }
        i = i + 1;
    }
    false
}

impl FromStr for OutputFormat {
    type Err = CoreError;

    fn from_str(s: &str) -> (r: Result<OutputFormat, CoreError>)
        ensures
            match OutputFormat::read(s@) {
                Ok(f) => r == Ok::<OutputFormat, CoreError>(f),
                Err(f) => r is Err && r->Err_0.deep_view() == f,
            },
    {
        OutputFormat::parse(s)
    }
}

proof fn lemma_read_all_distinct(items: Seq<Seq<char>>)
    ensures
        OutputFormat::read_all(items) matches Ok(formats) ==> formats.no_duplicates(),
    decreases items.len(),
{
    if items.len() > 0 {
        lemma_read_all_distinct(items.drop_last());
    }
}

/// A list that is read names at least one format, and none twice.
pub proof fn law_list_names_each_format_once(list: Seq<char>)
    ensures
        OutputFormat::read_list(list) matches Ok(formats) ==> formats.len() > 0
            && formats.no_duplicates(),
{
    lemma_read_all_distinct(text::split(list, ','));
}

/// The extension of a format names that format.
pub proof fn law_extension_names_its_format(format: OutputFormat)
    ensures
        OutputFormat::read(format.suffix()) == Ok::<OutputFormat, Failure>(format),
{
    reveal_strlit("txt");
    reveal_strlit("text");
    reveal_strlit("srt");
    reveal_strlit("vtt");
    reveal_strlit("json");
    let s = format.suffix();
    text::lemma_trim_solid(s);
    assert(text::lower(s) =~= s);
    assert(s[0] == 't' || s[0] == 's' || s[0] == 'v' || s[0] == 'j');
}

// ---------------------------------------------------------------------------
// Naming
// ---------------------------------------------------------------------------

/// The name of an output for `input`: its file name with the final extension
/// replaced.
pub open spec fn output_name(input: Seq<char>, extension: Seq<char>, style: Style) -> Seq<char> {
    (match path::file_name(input, style) {
        Some(n) => path::stem(n),
        None => "transcript"@,
    }).push('.') + extension
}

/// The directory of an output for `input`: the given one, or that of `input`.
pub open spec fn output_parent(
    input: Seq<char>,
    output_dir: Option<Seq<char>>,
    style: Style,
) -> Seq<char> {
    match output_dir {
        Some(d) => d,
        None => text::or(path::parent(input, style), Seq::empty()),
    }
}

/// The path of an output for `input`.
pub open spec fn output_at(
    input: Seq<char>,
    output_dir: Option<Seq<char>>,
    extension: Seq<char>,
    style: Style,
) -> Seq<char> {
    path::join(
        output_parent(input, output_dir, style),
        output_name(input, extension, style),
        style,
    )
}

/// Compute the output path for `input` with `extension`, honoring an optional
/// output directory. Only the final extension is replaced; interior dots in
/// the file name are preserved.
pub fn output_path(input: &str, output_dir: Option<&str>, extension: &str, style: Style) -> (r:
    String)
    ensures
        r@ == output_at(input@, output_dir.deep_view(), extension@, style),
{
    let mut name = match path::name_of(input, style) {
        Some(n) => path::stem_of(&n),
        None => "transcript".to_owned(),
    };
    name.push('.');
    name.append(extension);
    match output_dir {
        Some(d) => path::joined(d, &name, style),
        None => match path::parent_of(input, style) {
            Some(d) => path::joined(&d, &name, style),
            None => {
                let here = String::new();
                assert(here@ =~= Seq::<char>::empty());
                path::joined(&here, &name, style)
            },
        },
    }
}

/// An output with the extension that the input has bears the input's name.
pub proof fn law_same_extension_keeps_the_name(input: Seq<char>, style: Style)
    ensures
        match path::file_name(input, style) {
            Some(n) => match path::extension(n) {
                Some(e) => output_name(input, e, style) == n,
                None => true,
            },
            None => true,
        },
{
    match path::file_name(input, style) {
        Some(n) => path::law_stem_and_extension_make_the_name(n),
        None => {},
    }
}

/// Only the final extension of a path is ever replaced: the output of an output
/// with the same directory and extension is that output. The extension is not
/// empty and holds neither a dot nor a separator. In paths of the Windows style
/// two things are left out: a name that stands for something else once it is
/// joined to a directory, such as one that begins like a drive, and a directory
/// that makes a prefix together with the name, such as a server alone.
pub proof fn law_output_of_an_output_is_itself(
    input: Seq<char>,
    output_dir: Option<Seq<char>>,
    extension: Seq<char>,
    style: Style,
)
    requires
        extension.len() > 0,
        forall|i: int|
            0 <= i < extension.len() ==> (#[trigger] extension[i]) != '.' && !style.separates(
                extension[i],
            ),
        style == Style::Windows ==> path::is_plain(output_name(input, extension, style), style)
            && path::keeps_prefix(
            output_parent(input, output_dir, style),
            output_name(input, extension, style),
            style,
        ),
    ensures
        ({
            let p = output_at(input, output_dir, extension, style);
            output_at(p, output_dir, extension, style) == p
        }),
{
    let start = match path::file_name(input, style) {
        Some(n) => path::stem(n),
        None => "transcript"@,
    };
    let name = output_name(input, extension, style);
    reveal_strlit("transcript");
    path::lemma_file_name(input, style);
    if let Some(n) = path::file_name(input, style) {
        path::lemma_stem(n);
    }
    assert(start.len() > 0);
    if style == Style::Unix {
        assert forall|i: int| 0 <= i < name.len() implies !style.separates(#[trigger] name[i]) by {
            if i < start.len() {
                assert(name[i] == start[i]);
                if let Some(n) = path::file_name(input, style) {
                    assert(start[i] == n[i]);
                }
            } else if i > start.len() {
                assert(name[i] == extension[i - start.len() - 1]);
            }
        }
        assert(name.last() == extension.last());
        assert(extension[extension.len() - 1] != '.');
        assert(path::is_plain(name, style));
    }
    path::lemma_stem_of_extended(start, extension);
    let dir = output_parent(input, output_dir, style);
    path::law_joined_path_ends_in_its_name(dir, name, style);
    if output_dir is None {
        path::law_joined_path_is_joined_again(input, name, style);
    }
}

// ---------------------------------------------------------------------------
// Timestamps
// ---------------------------------------------------------------------------

/// A moment as hours, minutes, seconds and thousandths, rounded.
pub open spec fn timestamp(seconds: Decimal, comma: bool) -> Seq<char> {
    let ms = seconds.thousandths();
    text::pad_left(text::decimal(ms / 3_600_000), '0', 2) + seq![':'] + text::pad_left(
        text::decimal((ms % 3_600_000) / 60_000),
        '0',
        2,
    ) + seq![':'] + text::pad_left(text::decimal((ms % 60_000) / 1000), '0', 2) + seq![
        if comma {
            ','
        } else {
            '.'
        },
    ] + text::pad_left(text::decimal(ms % 1000), '0', 3)
}

pub fn fmt_timestamp(seconds: Decimal, comma: bool) -> (out: String)
    ensures
        out@ == timestamp(seconds, comma),
{
    let ms: u64 = seconds.to_millis();
    let mut out = text::zero_padded((ms / 3_600_000) as u128, 2);
    out.push(':');
    out.append(&text::zero_padded(((ms % 3_600_000) / 60_000) as u128, 2));
    out.push(':');
    out.append(&text::zero_padded(((ms % 60_000) / 1000) as u128, 2));
    out.push(
        if comma {
            ','
        } else {
            '.'
        },
    );
    out.append(&text::zero_padded((ms % 1000) as u128, 3));
    assert(out@ =~= timestamp(seconds, comma));
    out
}

// ---------------------------------------------------------------------------
// Text
// ---------------------------------------------------------------------------

/// Whether any segment names its speaker.
pub open spec fn names_speakers(segments: Seq<SegmentView>) -> bool {
    exists|i: int| 0 <= i < segments.len() && (#[trigger] segments[i]).speaker is Some
}

pub fn speakers_present(segments: &[Segment]) -> (r: bool)
    ensures
        r == names_speakers(segments.deep_view()),
{
    let mut i: usize = 0;
    while i < segments.len()
        invariant
            i <= segments@.len(),
            forall|j: int| 0 <= j < i ==> (#[trigger] segments.deep_view()[j]).speaker is None,
        decreases segments@.len() - i,
    {
        assert(segments.deep_view()[i as int] == segments@[i as int].deep_view());
        if segments[i].speaker.is_some() {
            return true;
        }
        i = i + 1;
    }
    false
}

/// The segments that are not blank, in order.
pub open spec fn spoken(segments: Seq<SegmentView>) -> Seq<SegmentView>
    decreases segments.len(),
{
    if segments.len() == 0 {
        Seq::empty()
    } else if text::is_blank(segments.last().text) {
        spoken(segments.drop_last())
    } else {
        spoken(segments.drop_last()).push(segments.last())
    }
}

/// The texts of segments, trimmed.
pub open spec fn texts(segments: Seq<SegmentView>) -> Seq<Seq<char>> {
    Seq::new(segments.len(), |i: int| text::trim(segments[i].text))
}

/// The speaker of a segment, by name.
pub open spec fn speaker_of(segment: SegmentView) -> Seq<char> {
    text::or(segment.speaker, "unknown"@)
}

/// Segments as paragraphs: a new one, with a label, where the speaker changes.
pub open spec fn paragraphs(segments: Seq<SegmentView>) -> Seq<char>
    decreases segments.len(),
{
    if segments.len() == 0 {
        Seq::empty()
    } else {
        let before = paragraphs(segments.drop_last());
        let segment = segments.last();
        let lead = if segments.len() > 1 && speaker_of(segments[segments.len() - 2]) == speaker_of(
            segment,
        ) {
            " "@
        } else if before.len() > 0 {
            "\n\n["@ + speaker_of(segment) + "] "@
        } else {
            "["@ + speaker_of(segment) + "] "@
        };
        before + lead + text::trim(segment.text)
    }
}

/// The plain text of a transcript: with speakers, their paragraphs; else the
/// full text, or where that is blank the texts of the segments.
pub open spec fn txt_of(t: TranscriptView) -> Seq<char> {
    let segments = t.rendered();
    (if names_speakers(segments) {
        paragraphs(segments)
    } else if !text::is_blank(t.text) {
        text::trim(t.text)
    } else {
        text::join(texts(spoken(segments)), " "@)
    }).push('\n')
}

fn spoken_texts(segments: &Vec<Segment>) -> (out: Vec<String>)
    ensures
        out.deep_view() == texts(spoken(segments.deep_view())),
{
    let mut out: Vec<String> = Vec::new();
    let ghost all = segments.deep_view();
    let mut i: usize = 0;
    assert(out.deep_view() =~= texts(spoken(all.take(0))));
    while i < segments.len()
        invariant
            i <= segments@.len(),
            all == segments.deep_view(),
            out.deep_view() == texts(spoken(all.take(i as int))),
        decreases segments@.len() - i,
    {
        assert(all.take(i + 1).drop_last() =~= all.take(i as int));
        let t = text::trimmed(&segments[i].text);
        if !t.is_empty() {
            let ghost before = out.deep_view();
            out.push(t.to_owned());
            assert(out.deep_view() =~= before.push(t@));
            assert(texts(spoken(all.take(i + 1))) =~= texts(spoken(all.take(i as int))).push(t@));
        }
        i = i + 1;
    }
    assert(all.take(i as int) =~= all);
    out
}

fn render_paragraphs(segments: &Vec<Segment>) -> (out: String)
    ensures
        out@ == paragraphs(segments.deep_view()),
{
    let mut out = String::new();
    let ghost all = segments.deep_view();
    let mut i: usize = 0;
    while i < segments.len()
        invariant
            i <= segments@.len(),
            all == segments.deep_view(),
            out@ == paragraphs(all.take(i as int)),
        decreases segments@.len() - i,
    {
        assert(all.take(i + 1).drop_last() =~= all.take(i as int));
        let segment = &segments[i];
        let speaker = text::text_or(&segment.speaker, "unknown");
        let goes_on = i > 0 && text::same(
            &text::text_or(&segments[i - 1].speaker, "unknown"),
            &speaker,
        );
        if goes_on {
            out.append(" ");
        } else {
            if out.as_str().is_empty() {
                out.append("[");
            } else {
                out.append("\n\n[");
            }
            out.append(&speaker);
            out.append("] ");
        }
        out.append(text::trimmed(&segment.text));
        assert(out@ =~= paragraphs(all.take(i + 1)));
        i = i + 1;
    }
    assert(all.take(i as int) =~= all);
    out
}

pub fn render_txt(transcript: &Transcript) -> (out: String)
    ensures
        out@ == txt_of(transcript.deep_view()),
{
    let segments = transcript.render_segments();
    let mut out = if speakers_present(segments.as_slice()) {
        render_paragraphs(&segments)
    } else {
        let full = text::trimmed(&transcript.text);
        if !full.is_empty() {
            full.to_owned()
        } else {
            text::joined(&spoken_texts(&segments), " ")
        }
    };
    out.push('\n');
    out
}

// ---------------------------------------------------------------------------
// Subtitles
// ---------------------------------------------------------------------------

/// The text of an SRT cue: with a label where its speaker is named.
pub open spec fn srt_text(segment: SegmentView) -> Seq<char> {
    match segment.speaker {
        Some(s) => "["@ + s + "] "@ + text::trim(segment.text),
        None => text::trim(segment.text),
    }
}

/// An SRT cue with its number.
pub open spec fn srt_cue(number: nat, segment: SegmentView) -> Seq<char> {
    text::decimal(number) + "\n"@ + timestamp(segment.start, true) + " --> "@ + timestamp(
        segment.end,
        true,
    ) + "\n"@ + srt_text(segment) + "\n\n"@
}

/// SRT cues, numbered from one.
pub open spec fn srt_cues(segments: Seq<SegmentView>) -> Seq<char>
    decreases segments.len(),
{
    if segments.len() == 0 {
        Seq::empty()
    } else {
        srt_cues(segments.drop_last()) + srt_cue(segments.len(), segments.last())
    }
}

/// The text of a WebVTT cue: with a voice tag where its speaker is named.
pub open spec fn vtt_text(segment: SegmentView) -> Seq<char> {
    match segment.speaker {
        Some(s) => "<v "@ + s + ">"@ + text::trim(segment.text),
        None => text::trim(segment.text),
    }
}

/// A WebVTT cue.
pub open spec fn vtt_cue(segment: SegmentView) -> Seq<char> {
    timestamp(segment.start, false) + " --> "@ + timestamp(segment.end, false) + "\n"@ + vtt_text(
        segment,
    ) + "\n\n"@
}

/// WebVTT cues.
pub open spec fn vtt_cues(segments: Seq<SegmentView>) -> Seq<char>
    decreases segments.len(),
{
    if segments.len() == 0 {
        Seq::empty()
    } else {
        vtt_cues(segments.drop_last()) + vtt_cue(segments.last())
    }
}

/// The SRT document of a transcript: one cue for each segment that is not
/// blank, and one line end at the end.
pub open spec fn srt_of(t: TranscriptView) -> Seq<char> {
    text::strip_end(srt_cues(spoken(t.rendered())), '\n').push('\n')
}

/// The WebVTT document of a transcript.
pub open spec fn vtt_of(t: TranscriptView) -> Seq<char> {
    text::strip_end("WEBVTT\n\n"@ + vtt_cues(spoken(t.rendered())), '\n').push('\n')
}

fn render_srt_cue(number: usize, segment: &Segment) -> (out: String)
    ensures
        out@ == srt_cue(number as nat, segment.deep_view()),
{
    let mut out = text::decimal_text(number as u128);
    out.append("\n");
    out.append(&fmt_timestamp(segment.start, true));
    out.append(" --> ");
    out.append(&fmt_timestamp(segment.end, true));
    out.append("\n");
    let ghost lead = out@;
    if let Some(speaker) = &segment.speaker {
        out.append("[");
        out.append(speaker);
        out.append("] ");
    }
    out.append(text::trimmed(&segment.text));
    assert(out@ =~= lead + srt_text(segment.deep_view()));
    out.append("\n\n");
    out
}

pub fn render_srt(transcript: &Transcript) -> (out: String)
    ensures
        out@ == srt_of(transcript.deep_view()),
{
    let segments = transcript.render_segments();
    let ghost all = segments.deep_view();
    let mut out = String::new();
    let mut count: usize = 0;
    let mut i: usize = 0;
    while i < segments.len()
        invariant
            i <= segments@.len(),
            count <= i,
            i <= segments.len(),
            all == segments.deep_view(),
            count == spoken(all.take(i as int)).len(),
            out@ == srt_cues(spoken(all.take(i as int))),
        decreases segments@.len() - i,
    {
        assert(all.take(i + 1).drop_last() =~= all.take(i as int));
        let segment = &segments[i];
        let t = text::trimmed(&segment.text);
        if !t.is_empty() {
            count = count + 1;
            let ghost kept = spoken(all.take(i as int));
            assert(kept.push(segment.deep_view()).drop_last() =~= kept);
            out.append(&render_srt_cue(count, segment));
        }
        i = i + 1;
    }
    assert(all.take(i as int) =~= all);
    let mut done = text::stripped_end(&out, '\n').to_owned();
    done.push('\n');
    done
}

fn render_vtt_cue(segment: &Segment) -> (out: String)
    ensures
        out@ == vtt_cue(segment.deep_view()),
{
    let mut out = fmt_timestamp(segment.start, false);
    out.append(" --> ");
    out.append(&fmt_timestamp(segment.end, false));
    out.append("\n");
    let ghost lead = out@;
    if let Some(speaker) = &segment.speaker {
        out.append("<v ");
        out.append(speaker);
        out.append(">");
    }
    out.append(text::trimmed(&segment.text));
    assert(out@ =~= lead + vtt_text(segment.deep_view()));
    out.append("\n\n");
    out
}

pub fn render_vtt(transcript: &Transcript) -> (out: String)
    ensures
        out@ == vtt_of(transcript.deep_view()),
{
    let segments = transcript.render_segments();
    let ghost all = segments.deep_view();
    let mut out = "WEBVTT\n\n".to_owned();
    let mut i: usize = 0;
    assert(out@ =~= "WEBVTT\n\n"@ + vtt_cues(spoken(all.take(0))));
    while i < segments.len()
        invariant
            i <= segments@.len(),
            all == segments.deep_view(),
            out@ == "WEBVTT\n\n"@ + vtt_cues(spoken(all.take(i as int))),
        decreases segments@.len() - i,
    {
        assert(all.take(i + 1).drop_last() =~= all.take(i as int));
        let segment = &segments[i];
        let t = text::trimmed(&segment.text);
        if !t.is_empty() {
            let ghost kept = spoken(all.take(i as int));
            assert(kept.push(segment.deep_view()).drop_last() =~= kept);
            out.append(&render_vtt_cue(segment));
            assert(out@ =~= "WEBVTT\n\n"@ + (vtt_cues(kept) + vtt_cue(segment.deep_view())));
        }
        i = i + 1;
    }
    assert(all.take(i as int) =~= all);
    let mut done = text::stripped_end(&out, '\n').to_owned();
    done.push('\n');
    done
}

proof fn lemma_strip_end(s: Seq<char>, c: char)
    ensures
        text::strip_end(s, c).len() > 0 ==> text::strip_end(s, c).last() != c,
    decreases s.len(),
{
    if s.len() > 0 && s.last() == c {
        lemma_strip_end(s.drop_last(), c);
    }
}

/// A subtitle document ends in one line end, and not in a blank line.
pub proof fn law_subtitles_end_in_one_line_end(t: TranscriptView)
    ensures
        srt_of(t).last() == '\n',
        srt_of(t).len() > 1 ==> srt_of(t)[srt_of(t).len() - 2] != '\n',
        vtt_of(t).last() == '\n',
        vtt_of(t).len() > 1 ==> vtt_of(t)[vtt_of(t).len() - 2] != '\n',
{
    lemma_strip_end(srt_cues(spoken(t.rendered())), '\n');
    lemma_strip_end("WEBVTT\n\n"@ + vtt_cues(spoken(t.rendered())), '\n');
}

/// A timestamp below a hundred hours has two digits each for hours, minutes and
/// seconds and three for thousandths.
pub proof fn law_timestamp_has_fixed_width(seconds: Decimal, comma: bool)
    requires
        seconds.thousandths() < 360_000_000,
    ensures
        timestamp(seconds, comma).len() == 12,
        timestamp(seconds, comma)[2] == ':',
        timestamp(seconds, comma)[5] == ':',
        timestamp(seconds, comma)[8] == if comma {
            ','
        } else {
            '.'
        },
{
    let ms = seconds.thousandths();
    reveal_with_fuel(text::decimal, 3);
    let h = text::pad_left(text::decimal(ms / 3_600_000), '0', 2);
    let m = text::pad_left(text::decimal((ms % 3_600_000) / 60_000), '0', 2);
    let s = text::pad_left(text::decimal((ms % 60_000) / 1000), '0', 2);
    let f = text::pad_left(text::decimal(ms % 1000), '0', 3);
    assert(h.len() == 2);
    assert(m.len() == 2);
    assert(s.len() == 2);
    assert(f.len() == 3);
}

// ---------------------------------------------------------------------------
// JSON
// ---------------------------------------------------------------------------

/// A channel as a document, where there is one.
pub open spec fn channel_json(channel: Option<u32>) -> Option<Json> {
    match channel {
        Some(n) => Some(Json::integer(n as nat)),
        None => None,
    }
}

pub open spec fn segment_json(segment: SegmentView) -> Json {
    Json::empty().with("start"@, Json::decimal(segment.start)).with(
        "end"@,
        Json::decimal(segment.end),
    ).with("text"@, Json::Text(segment.text)).with_option(
        "speaker"@,
        Json::text_option(segment.speaker),
    ).with_option("channel"@, channel_json(segment.channel))
}

pub open spec fn word_json(word: WordView) -> Json {
    Json::empty().with("text"@, Json::Text(word.text)).with("start"@, Json::decimal(word.start)).with(
        "end"@,
        Json::decimal(word.end),
    ).with_option("speaker"@, Json::text_option(word.speaker)).with_option(
        "channel"@,
        channel_json(word.channel),
    ).with_option(
        "confidence"@,
        match word.confidence {
            Some(d) => Some(Json::decimal(d)),
            None => None,
        },
    )
}

/// A transcript as a document. Its segments are always the rendered ones, so
/// that consumers never need the word-grouping heuristics.
pub open spec fn transcript_json(t: TranscriptView) -> Json {
    Json::empty().with("text"@, Json::Text(t.text)).with_option(
        "language"@,
        Json::text_option(t.language),
    ).with_option(
        "duration"@,
        match t.duration {
            Some(d) => Some(Json::decimal(d)),
            None => None,
        },
    ).with("provider"@, Json::Text(t.provider.name())).with_option(
        "model"@,
        Json::text_option(t.model),
    ).with(
        "segments"@,
        Json::Array(Seq::new(t.rendered().len(), |i: int| segment_json(t.rendered()[i]))),
    ).with("words"@, Json::Array(Seq::new(t.words.len(), |i: int| word_json(t.words[i]))))
}

fn segment_value(segment: &Segment) -> (r: Value)
    ensures
        json::json_of(r) == segment_json(segment.deep_view()),
{
    let mut v = json::object();
    json::put(&mut v, "start", json::decimal(&segment.start));
    json::put(&mut v, "end", json::decimal(&segment.end));
    json::put_text(&mut v, "text", &segment.text);
    json::put_text_option(&mut v, "speaker", &segment.speaker);
    if let Some(n) = segment.channel {
        json::put(&mut v, "channel", json::integer(n as u64));
    }
    v
}

fn word_value(word: &Word) -> (r: Value)
    ensures
        json::json_of(r) == word_json(word.deep_view()),
{
    let mut v = json::object();
    json::put_text(&mut v, "text", &word.text);
    json::put(&mut v, "start", json::decimal(&word.start));
    json::put(&mut v, "end", json::decimal(&word.end));
    json::put_text_option(&mut v, "speaker", &word.speaker);
    if let Some(n) = word.channel {
        json::put(&mut v, "channel", json::integer(n as u64));
    }
    if let Some(d) = &word.confidence {
        json::put(&mut v, "confidence", json::decimal(d));
    }
    v
}

fn segment_values(segments: &Vec<Segment>) -> (r: Vec<Value>)
    ensures
        json::jsons_of(r@) == Seq::new(
            segments@.len(),
            |i: int| segment_json(segments.deep_view()[i]),
        ),
{
    let mut r: Vec<Value> = Vec::new();
    let mut i: usize = 0;
    while i < segments.len()
        invariant
            i <= segments@.len(),
            r@.len() == i,
            forall|j: int|
                0 <= j < i ==> json::json_of(#[trigger] r@[j]) == segment_json(
                    segments@[j].deep_view(),
                ),
        decreases segments@.len() - i,
    {
        r.push(segment_value(&segments[i]));
        i = i + 1;
    }
    assert(json::jsons_of(r@) =~= Seq::new(
        segments@.len(),
        |i: int| segment_json(segments.deep_view()[i]),
    ));
    r
}

fn word_values(words: &Vec<Word>) -> (r: Vec<Value>)
    ensures
        json::jsons_of(r@) == Seq::new(words@.len(), |i: int| word_json(words.deep_view()[i])),
{
    let mut r: Vec<Value> = Vec::new();
    let mut i: usize = 0;
    while i < words.len()
        invariant
            i <= words@.len(),
            r@.len() == i,
            forall|j: int|
                0 <= j < i ==> json::json_of(#[trigger] r@[j]) == word_json(words@[j].deep_view()),
        decreases words@.len() - i,
    {
        r.push(word_value(&words[i]));
        i = i + 1;
    }
    assert(json::jsons_of(r@) =~= Seq::new(
        words@.len(),
        |i: int| word_json(words.deep_view()[i]),
    ));
    r
}

/// A transcript as a JSON value.
pub fn transcript_value(transcript: &Transcript) -> (r: Value)
    ensures
        json::json_of(r) == transcript_json(transcript.deep_view()),
{
    let mut v = json::object();
    json::put_text(&mut v, "text", &transcript.text);
    json::put_text_option(&mut v, "language", &transcript.language);
    if let Some(d) = &transcript.duration {
        json::put(&mut v, "duration", json::decimal(d));
    }
    json::put_text(&mut v, "provider", transcript.provider.as_str());
    json::put_text_option(&mut v, "model", &transcript.model);
    let rendered = transcript.render_segments();
    let segments = segment_values(&rendered);
    let words = word_values(&transcript.words);
    let ghost t = transcript.deep_view();
    assert(json::jsons_of(segments@) =~= Seq::new(
        t.rendered().len(),
        |i: int| segment_json(t.rendered()[i]),
    ));
    assert(json::jsons_of(words@) =~= Seq::new(t.words.len(), |i: int| word_json(t.words[i])));
    json::put(&mut v, "segments", json::array(segments));
    json::put(&mut v, "words", json::array(words));
    v
}

/// The JSON document of a transcript, given what writing it brought.
pub open spec fn json_document(written: Result<Seq<char>, Seq<char>>) -> Result<Seq<char>, Failure> {
    match written {
        Ok(s) => Ok(s.push('\n')),
        Err(e) => Err(Failure::Io("serializing transcript: "@ + e)),
    }
}

pub fn render_json(transcript: &Transcript) -> (r: CoreResult<String>)
    ensures
        crate::error::outcome(r) == json_document(
            json::json_written_pretty(transcript_json(transcript.deep_view())),
        ),
{
    match json::write_pretty(&transcript_value(transcript)) {
        Ok(s) => {
            let mut s = s;
            s.push('\n');
            Ok(s)
        },
        Err(e) => {
            let mut m = "serializing transcript: ".to_owned();
            m.append(&e);
            Err(CoreError::Io(m))
        },
    }
}

// ---------------------------------------------------------------------------
// Files
// ---------------------------------------------------------------------------

/// The contents of an output in a format.
pub open spec fn rendered(t: TranscriptView, format: OutputFormat) -> Result<Seq<char>, Failure> {
    match format {
        OutputFormat::Txt => Ok(txt_of(t)),
        OutputFormat::Srt => Ok(srt_of(t)),
        OutputFormat::Vtt => Ok(vtt_of(t)),
        OutputFormat::Json => json_document(json::json_written_pretty(transcript_json(t))),
    }
}

pub fn render(transcript: &Transcript, format: OutputFormat) -> (r: CoreResult<String>)
    ensures
        crate::error::outcome(r) == rendered(transcript.deep_view(), format),
{
    match format {
        OutputFormat::Txt => Ok(render_txt(transcript)),
        OutputFormat::Srt => Ok(render_srt(transcript)),
        OutputFormat::Vtt => Ok(render_vtt(transcript)),
        OutputFormat::Json => render_json(transcript),
    }
}

/// A file to write.
#[derive(Debug)]
pub struct OutputFile {
    pub path: String,
    pub content: String,
}

/// What an [`OutputFile`] says.
pub struct OutputView {
    pub path: Seq<char>,
    pub content: Seq<char>,
}

impl DeepView for OutputFile {
    type V = OutputView;

    open spec fn deep_view(&self) -> OutputView {
        OutputView { path: self.path@, content: self.content@ }
    }
}

/// The file that holds a transcript in a format, or why there is none.
pub open spec fn output_of(
    t: TranscriptView,
    input: Seq<char>,
    output_dir: Option<Seq<char>>,
    format: OutputFormat,
    style: Style,
) -> Result<OutputView, Failure> {
    match rendered(t, format) {
        Ok(content) => Ok(
            OutputView { path: output_at(input, output_dir, format.suffix(), style), content },
        ),
        Err(f) => Err(f),
    }
}

/// The file that holds `transcript` in a format, next to `input` or in
/// `output_dir`.
pub fn output_file(
    transcript: &Transcript,
    input: &str,
    output_dir: Option<&str>,
    format: OutputFormat,
    style: Style,
) -> (r: CoreResult<OutputFile>)
    ensures
        crate::error::outcome(r) == output_of(
            transcript.deep_view(),
            input@,
            output_dir.deep_view(),
            format,
            style,
        ),
{
    let path = output_path(input, output_dir, format.extension(), style);
    match render(transcript, format) {
        Ok(content) => Ok(OutputFile { path, content }),
        Err(e) => Err(e),
    }
}

/// The files to write for a list of formats: one for each in their order, up to
/// the first that cannot be rendered.
#[derive(Debug)]
pub struct Outputs {
    pub files: Vec<OutputFile>,
    /// Why the list ends early, where it does.
    pub failure: Option<CoreError>,
}

/// The files for a list of formats, and why the list ends early, where it does.
pub open spec fn outputs_of(
    t: TranscriptView,
    input: Seq<char>,
    output_dir: Option<Seq<char>>,
    formats: Seq<OutputFormat>,
    style: Style,
) -> (Seq<OutputView>, Option<Failure>)
    decreases formats.len(),
{
    if formats.len() == 0 {
        (Seq::empty(), None)
    } else {
        let (files, failure) = outputs_of(t, input, output_dir, formats.drop_last(), style);
        if failure is Some {
            (files, failure)
        } else {
            match output_of(t, input, output_dir, formats.last(), style) {
                Ok(file) => (files.push(file), None),
                Err(f) => (files, Some(f)),
            }
        }
    }
}

proof fn lemma_outputs_end_early(
    t: TranscriptView,
    input: Seq<char>,
    output_dir: Option<Seq<char>>,
    formats: Seq<OutputFormat>,
    style: Style,
    n: int,
)
    requires
        0 <= n <= formats.len(),
        outputs_of(t, input, output_dir, formats.take(n), style).1 is Some,
    ensures
        outputs_of(t, input, output_dir, formats, style) == outputs_of(
            t,
            input,
            output_dir,
            formats.take(n),
            style,
        ),
    decreases formats.len() - n,
{
    if n < formats.len() {
        assert(formats.take(n + 1).drop_last() =~= formats.take(n));
        lemma_outputs_end_early(t, input, output_dir, formats, style, n + 1);
    } else {
        assert(formats.take(n) =~= formats);
    }
}

/// The files that hold `transcript` in each of the formats, next to `input` or
/// in `output_dir`, in the order of the formats.
pub fn output_files(
    transcript: &Transcript,
    input: &str,
    output_dir: Option<&str>,
    formats: &[OutputFormat],
    style: Style,
) -> (r: Outputs)
    ensures
        (r.files.deep_view(), r.failure.deep_view()) == outputs_of(
            transcript.deep_view(),
            input@,
            output_dir.deep_view(),
            formats@,
            style,
        ),
{
    let ghost t = transcript.deep_view();
    let ghost dir = output_dir.deep_view();
    let mut files: Vec<OutputFile> = Vec::new();
    let mut i: usize = 0;
    assert(files.deep_view() =~= Seq::empty());
    assert(formats@.take(0).len() == 0);
    while i < formats.len()
        invariant
            i <= formats@.len(),
            t == transcript.deep_view(),
            dir == output_dir.deep_view(),
            (files.deep_view(), None::<Failure>) == outputs_of(
                t,
                input@,
                dir,
                formats@.take(i as int),
                style,
            ),
        decreases formats@.len() - i,
    {
        assert(formats@.take(i + 1).drop_last() =~= formats@.take(i as int));
        let ghost before = files.deep_view();
        match output_file(transcript, input, output_dir, formats[i], style) {
            Ok(file) => {
                files.push(file);
                assert(files.deep_view() =~= before.push(file.deep_view()));
            },
            Err(e) => {
                proof {
                    lemma_outputs_end_early(t, input@, dir, formats@, style, i + 1);
                }
                return Outputs { files, failure: Some(e) };
            },
        }
        i = i + 1;
    }
    assert(formats@.take(i as int) =~= formats@);
    Outputs { files, failure: None }
}

/// Where nothing fails there is one file for each format, in their order, at
/// the path for that format and with the transcript rendered in it.
pub proof fn law_each_format_has_its_file(
    t: TranscriptView,
    input: Seq<char>,
    output_dir: Option<Seq<char>>,
    formats: Seq<OutputFormat>,
    style: Style,
)
    ensures
        ({
            let (files, failure) = outputs_of(t, input, output_dir, formats, style);
            failure is None ==> {
                &&& files.len() == formats.len()
                &&& forall|i: int|
                    0 <= i < files.len() ==> {
                        &&& (#[trigger] files[i]).path == output_at(
                            input,
                            output_dir,
                            formats[i].suffix(),
                            style,
                        )
                        &&& rendered(t, formats[i]) == Ok::<Seq<char>, Failure>(files[i].content)
                    }
            }
        }),
    decreases formats.len(),
{
    if formats.len() > 0 {
        law_each_format_has_its_file(t, input, output_dir, formats.drop_last(), style);
    }
}

// ---------------------------------------------------------------------------
// Laws of timestamps
// ---------------------------------------------------------------------------

/// Whether a timestamp is made of these digits: hours, minutes, seconds and
/// thousandths.
pub open spec fn is_written(
    t: Seq<char>,
    comma: bool,
    h: Seq<char>,
    m: Seq<char>,
    s: Seq<char>,
    f: Seq<char>,
) -> bool {
    &&& t == h + seq![':'] + m + seq![':'] + s + seq![
        if comma {
            ','
        } else {
            '.'
        },
    ] + f
    &&& decimal::is_digits(h) && h.len() >= 2
    &&& decimal::is_digits(m) && m.len() == 2
    &&& decimal::is_digits(s) && s.len() == 2
    &&& decimal::is_digits(f) && f.len() == 3
}

/// A timestamp reads back: its hours, minutes, seconds and thousandths are
/// numbers in their bounds that make up the moment, and the hours have no zero
/// in front beyond two digits.
pub proof fn law_timestamp_reads_back(seconds: Decimal, comma: bool)
    ensures
        exists|h: Seq<char>, m: Seq<char>, s: Seq<char>, f: Seq<char>| #[trigger]
            is_written(timestamp(seconds, comma), comma, h, m, s, f) && {
                &&& ((decimal::digits_value(h) * 60 + decimal::digits_value(m)) * 60
                    + decimal::digits_value(s)) * 1000 + decimal::digits_value(f)
                    == seconds.thousandths()
                &&& decimal::digits_value(m) < 60
                &&& decimal::digits_value(s) < 60
                &&& decimal::digits_value(f) < 1000
                &&& h.len() > 2 ==> h[0] != '0'
            },
{
    let ms = seconds.thousandths();
    let h = text::pad_left(text::decimal(ms / 3_600_000), '0', 2);
    let m = text::pad_left(text::decimal((ms % 3_600_000) / 60_000), '0', 2);
    let s = text::pad_left(text::decimal((ms % 60_000) / 1000), '0', 2);
    let f = text::pad_left(text::decimal(ms % 1000), '0', 3);
    decimal::law_digits_stand_for_their_number(ms / 3_600_000, 2);
    decimal::law_digits_stand_for_their_number((ms % 3_600_000) / 60_000, 2);
    decimal::law_digits_stand_for_their_number((ms % 60_000) / 1000, 2);
    decimal::law_digits_stand_for_their_number(ms % 1000, 3);
    text::law_padded_text(text::decimal(ms / 3_600_000), '0', 2);
    lemma_fields(ms);
    lemma_short_digits((ms % 3_600_000) / 60_000);
    lemma_short_digits((ms % 60_000) / 1000);
    lemma_short_digits(ms % 1000);
    assert(is_written(timestamp(seconds, comma), comma, h, m, s, f));
}

proof fn lemma_fields(ms: nat)
    ensures
        ((ms / 3_600_000 * 60 + (ms % 3_600_000) / 60_000) * 60 + (ms % 60_000) / 1000) * 1000 + ms
            % 1000 == ms,
        (ms % 3_600_000) / 60_000 < 60,
        (ms % 60_000) / 1000 < 60,
{
}

proof fn lemma_short_digits(n: nat)
    ensures
        n < 10 ==> text::decimal(n).len() == 1,
        n < 100 ==> text::decimal(n).len() <= 2,
        n < 1000 ==> text::decimal(n).len() <= 3,
{
    reveal_with_fuel(text::decimal, 3);
}

proof fn lemma_written_once(
    t: Seq<char>,
    comma: bool,
    h: Seq<char>,
    m: Seq<char>,
    s: Seq<char>,
    f: Seq<char>,
)
    requires
        is_written(t, comma, h, m, s, f),
    ensures
        h == t.take(t.len() - 10),
        m == t.subrange(t.len() - 9, t.len() - 7),
        s == t.subrange(t.len() - 6, t.len() - 4),
        f == t.skip(t.len() - 3),
{
    assert(h =~= t.take(t.len() - 10));
    assert(m =~= t.subrange(t.len() - 9, t.len() - 7));
    assert(s =~= t.subrange(t.len() - 6, t.len() - 4));
    assert(f =~= t.skip(t.len() - 3));
}

/// Moments that differ by a thousandth or more have different timestamps, and
/// those that do not have the same.
pub proof fn law_timestamps_tell_moments_apart(a: Decimal, b: Decimal, comma: bool)
    ensures
        timestamp(a, comma) == timestamp(b, comma) <==> a.thousandths() == b.thousandths(),
{
    if timestamp(a, comma) == timestamp(b, comma) {
        law_timestamp_reads_back(a, comma);
        law_timestamp_reads_back(b, comma);
        let t = timestamp(a, comma);
        let (h, m, s, f) = choose|h: Seq<char>, m: Seq<char>, s: Seq<char>, f: Seq<char>| #[trigger]
            is_written(t, comma, h, m, s, f) && ((decimal::digits_value(h) * 60
                + decimal::digits_value(m)) * 60 + decimal::digits_value(s)) * 1000
                + decimal::digits_value(f) == a.thousandths();
        let (i, n, u, g) = choose|h: Seq<char>, m: Seq<char>, s: Seq<char>, f: Seq<char>| #[trigger]
            is_written(t, comma, h, m, s, f) && ((decimal::digits_value(h) * 60
                + decimal::digits_value(m)) * 60 + decimal::digits_value(s)) * 1000
                + decimal::digits_value(f) == b.thousandths();
        lemma_written_once(t, comma, h, m, s, f);
        lemma_written_once(t, comma, i, n, u, g);
    }
}

// ---------------------------------------------------------------------------
// Laws of subtitles
// ---------------------------------------------------------------------------

/// Whether a segment says anything.
pub open spec fn says_something() -> spec_fn(SegmentView) -> bool {
    |s: SegmentView| !text::is_white(s.text)
}

proof fn lemma_spoken_is_filtered(segments: Seq<SegmentView>)
    ensures
        spoken(segments) == segments.filter(says_something()),
    decreases segments.len(),
{
    reveal(Seq::filter);
    if segments.len() > 0 {
        lemma_spoken_is_filtered(segments.drop_last());
        text::law_blank_text(segments.last().text);
    } else {
        assert(spoken(segments) =~= segments.filter(says_something()));
    }
}

/// Whether texts are the SRT cues of segments: each with its number from one on,
/// the times of its segment with a comma, and what is said, after the speaker
/// where one is named.
pub open spec fn are_srt_cues(cues: Seq<Seq<char>>, segments: Seq<SegmentView>) -> bool {
    &&& cues.len() == segments.len()
    &&& forall|i: int|
        0 <= i < cues.len() ==> (#[trigger] cues[i]) == text::decimal((i + 1) as nat) + seq!['\n']
            + timestamp(segments[i].start, true) + seq![' ', '-', '-', '>', ' '] + timestamp(
            segments[i].end,
            true,
        ) + seq!['\n'] + (match segments[i].speaker {
            Some(name) => seq!['['] + name + seq![']', ' '],
            None => Seq::empty(),
        }) + text::trim(segments[i].text) + seq!['\n', '\n']
}

/// Whether texts are the WebVTT cues of segments: each with the times of its
/// segment with a point, and what is said, after a voice tag where the speaker is
/// named.
pub open spec fn are_vtt_cues(cues: Seq<Seq<char>>, segments: Seq<SegmentView>) -> bool {
    &&& cues.len() == segments.len()
    &&& forall|i: int|
        0 <= i < cues.len() ==> (#[trigger] cues[i]) == timestamp(segments[i].start, false) + seq![
            ' ',
            '-',
            '-',
            '>',
            ' ',
        ] + timestamp(segments[i].end, false) + seq!['\n'] + (match segments[i].speaker {
            Some(name) => seq!['<', 'v', ' '] + name + seq!['>'],
            None => Seq::empty(),
        }) + text::trim(segments[i].text) + seq!['\n', '\n']
}

proof fn lemma_srt_cues(segments: Seq<SegmentView>) -> (cues: Seq<Seq<char>>)
    ensures
        are_srt_cues(cues, segments),
        text::concat(cues) == srt_cues(segments),
    decreases segments.len(),
{
    if segments.len() == 0 {
        Seq::empty()
    } else {
        let before = lemma_srt_cues(segments.drop_last());
        let segment = segments.last();
        let cue = srt_cue(segments.len(), segment);
        reveal_strlit("\n");
        reveal_strlit("\n\n");
        reveal_strlit(" --> ");
        reveal_strlit("[");
        reveal_strlit("] ");
        assert("\n"@ =~= seq!['\n']);
        assert("\n\n"@ =~= seq!['\n', '\n']);
        assert(" --> "@ =~= seq![' ', '-', '-', '>', ' ']);
        assert("["@ =~= seq!['[']);
        assert("] "@ =~= seq![']', ' ']);
        let lead = match segment.speaker {
            Some(name) => seq!['['] + name + seq![']', ' '],
            None => Seq::empty(),
        };
        assert(srt_text(segment) =~= lead + text::trim(segment.text));
        assert(cue =~= text::decimal(segments.len()) + seq!['\n'] + timestamp(segment.start, true)
            + seq![' ', '-', '-', '>', ' '] + timestamp(segment.end, true) + seq!['\n'] + lead
            + text::trim(segment.text) + seq!['\n', '\n']);
        let cues = before.push(cue);
        assert(cues.drop_last() =~= before);
        assert forall|i: int| 0 <= i < before.len() implies segments.drop_last()[i]
            == #[trigger] segments[i] by {}
        assert(are_srt_cues(cues, segments));
        cues
    }
}

proof fn lemma_vtt_cues(segments: Seq<SegmentView>) -> (cues: Seq<Seq<char>>)
    ensures
        are_vtt_cues(cues, segments),
        text::concat(cues) == vtt_cues(segments),
    decreases segments.len(),
{
    if segments.len() == 0 {
        Seq::empty()
    } else {
        let before = lemma_vtt_cues(segments.drop_last());
        let segment = segments.last();
        let cue = vtt_cue(segment);
        reveal_strlit("\n");
        reveal_strlit("\n\n");
        reveal_strlit(" --> ");
        reveal_strlit("<v ");
        reveal_strlit(">");
        assert("\n"@ =~= seq!['\n']);
        assert("\n\n"@ =~= seq!['\n', '\n']);
        assert(" --> "@ =~= seq![' ', '-', '-', '>', ' ']);
        assert("<v "@ =~= seq!['<', 'v', ' ']);
        assert(">"@ =~= seq!['>']);
        let lead = match segment.speaker {
            Some(name) => seq!['<', 'v', ' '] + name + seq!['>'],
            None => Seq::empty(),
        };
        assert(vtt_text(segment) =~= lead + text::trim(segment.text));
        assert(cue =~= timestamp(segment.start, false) + seq![' ', '-', '-', '>', ' '] + timestamp(
            segment.end,
            false,
        ) + seq!['\n'] + lead + text::trim(segment.text) + seq!['\n', '\n']);
        let cues = before.push(cue);
        assert(cues.drop_last() =~= before);
        assert forall|i: int| 0 <= i < before.len() implies segments.drop_last()[i]
            == #[trigger] segments[i] by {}
        assert(are_vtt_cues(cues, segments));
        cues
    }
}

/// Whether two texts are the same but for the line ends at their end.
pub open spec fn same_but_line_ends(a: Seq<char>, b: Seq<char>) -> bool {
    exists|x: nat, y: nat| a + #[trigger] text::repeat('\n', x) == b + #[trigger] text::repeat('\n', y)
}

proof fn lemma_strip_end_parts(s: Seq<char>, c: char) -> (n: nat)
    ensures
        s == text::strip_end(s, c) + text::repeat(c, n),
    decreases s.len(),
{
    if s.len() > 0 && s.last() == c {
        let n = lemma_strip_end_parts(s.drop_last(), c);
        assert(s =~= (text::strip_end(s.drop_last(), c) + text::repeat(c, n)).push(c));
        assert(s =~= text::strip_end(s.drop_last(), c) + text::repeat(c, n + 1));
        n + 1
    } else {
        assert(s =~= s + text::repeat(c, 0));
        0
    }
}

/// Subtitles have one cue for each segment that says anything, in order, with its
/// times and its text; a WebVTT document begins with its signature. Only how many
/// line ends there are at the very end is left open here.
pub proof fn law_subtitles_have_a_cue_for_each_segment(t: TranscriptView)
    ensures
        exists|cues: Seq<Seq<char>>| #[trigger]
            are_srt_cues(cues, t.rendered().filter(says_something())) && same_but_line_ends(
                srt_of(t),
                text::concat(cues),
            ),
        exists|cues: Seq<Seq<char>>| #[trigger]
            are_vtt_cues(cues, t.rendered().filter(says_something())) && same_but_line_ends(
                vtt_of(t),
                seq!['W', 'E', 'B', 'V', 'T', 'T', '\n', '\n'] + text::concat(cues),
            ),
{
    lemma_spoken_is_filtered(t.rendered());
    let cues = lemma_srt_cues(spoken(t.rendered()));
    let all = srt_cues(spoken(t.rendered()));
    let n = lemma_strip_end_parts(all, '\n');
    assert(srt_of(t) + text::repeat('\n', n) =~= all + text::repeat('\n', 1));
    assert(same_but_line_ends(srt_of(t), text::concat(cues)));
    reveal_strlit("WEBVTT\n\n");
    assert("WEBVTT\n\n"@ =~= seq!['W', 'E', 'B', 'V', 'T', 'T', '\n', '\n']);
    let others = lemma_vtt_cues(spoken(t.rendered()));
    let whole = "WEBVTT\n\n"@ + vtt_cues(spoken(t.rendered()));
    let k = lemma_strip_end_parts(whole, '\n');
    assert(vtt_of(t) + text::repeat('\n', k) =~= whole + text::repeat('\n', 1));
    assert(same_but_line_ends(
        vtt_of(t),
        seq!['W', 'E', 'B', 'V', 'T', 'T', '\n', '\n'] + text::concat(others),
    ));
}

// ---------------------------------------------------------------------------
// Laws of plain text
// ---------------------------------------------------------------------------

/// Where no speaker is named, the plain text is what was recognized, trimmed; or,
/// where that is blank, what the segments say, with a space between each two. It
/// ends in a line end.
pub proof fn law_plain_text_without_speakers(t: TranscriptView)
    requires
        forall|i: int|
            0 <= i < t.rendered().len() ==> (#[trigger] t.rendered()[i]).speaker is None,
    ensures
        !text::is_white(t.text) ==> txt_of(t) == text::trim(t.text).push('\n'),
        text::is_white(t.text) ==> txt_of(t) == text::join(
            t.rendered().filter(says_something()).map_values(
                |s: SegmentView| text::trim(s.text),
            ),
            seq![' '],
        ).push('\n'),
{
    text::law_blank_text(t.text);
    lemma_spoken_is_filtered(t.rendered());
    reveal_strlit(" ");
    assert(" "@ =~= seq![' ']);
    assert(texts(spoken(t.rendered())) =~= t.rendered().filter(says_something()).map_values(
        |s: SegmentView| text::trim(s.text),
    ));
}

/// What is written for a segment before its text: a space where the same speaker
/// goes on, else the speaker in brackets, in a paragraph of its own after the
/// first.
pub open spec fn lead_of(segments: Seq<SegmentView>, i: int) -> Seq<char> {
    let name = match segments[i].speaker {
        Some(s) => s,
        None => seq!['u', 'n', 'k', 'n', 'o', 'w', 'n'],
    };
    let before = match segments[i - 1].speaker {
        Some(s) => s,
        None => seq!['u', 'n', 'k', 'n', 'o', 'w', 'n'],
    };
    if i == 0 {
        seq!['['] + name + seq![']', ' ']
    } else if name == before {
        seq![' ']
    } else {
        seq!['\n', '\n', '['] + name + seq![']', ' ']
    }
}

proof fn lemma_paragraphs(segments: Seq<SegmentView>) -> (parts: Seq<Seq<char>>)
    ensures
        are_paragraph_parts(parts, segments),
        text::concat(parts) == paragraphs(segments),
        segments.len() > 0 ==> paragraphs(segments).len() > 0,
    decreases segments.len(),
{
    if segments.len() == 0 {
        Seq::empty()
    } else {
        let n = segments.len() - 1;
        let before = lemma_paragraphs(segments.drop_last());
        reveal_strlit(" ");
        reveal_strlit("\n\n[");
        reveal_strlit("[");
        reveal_strlit("] ");
        reveal_strlit("unknown");
        assert(" "@ =~= seq![' ']);
        assert("\n\n["@ =~= seq!['\n', '\n', '[']);
        assert("["@ =~= seq!['[']);
        assert("] "@ =~= seq![']', ' ']);
        assert("unknown"@ =~= seq!['u', 'n', 'k', 'n', 'o', 'w', 'n']);
        if n > 0 {
            assert(segments.drop_last().len() > 0);
        }
        let part = lead_of(segments, n) + text::trim(segments[n].text);
        assert(lead_of(segments, n).len() > 0);
        assert(paragraphs(segments) =~= paragraphs(segments.drop_last()) + part);
        let parts = before.push(part);
        assert(parts.drop_last() =~= before);
        assert forall|i: int| 0 <= i < parts.len() implies (#[trigger] parts[i]) == lead_of(
            segments,
            i,
        ) + text::trim(segments[i].text) by {
            if i < n {
                assert(before[i] == lead_of(segments.drop_last(), i) + text::trim(
                    segments.drop_last()[i].text,
                ));
            }
        }
        parts
    }
}

/// Whether texts are what is written for segments: each what leads it and its
/// text.
pub open spec fn are_paragraph_parts(parts: Seq<Seq<char>>, segments: Seq<SegmentView>) -> bool {
    &&& parts.len() == segments.len()
    &&& forall|i: int|
        0 <= i < parts.len() ==> (#[trigger] parts[i]) == lead_of(segments, i) + text::trim(
            segments[i].text,
        )
}

/// Where a speaker is named, the plain text holds every segment in order: a
/// paragraph begins with the speaker wherever the speaker changes, and nowhere
/// else.
pub proof fn law_plain_text_with_speakers(t: TranscriptView)
    requires
        exists|i: int| 0 <= i < t.rendered().len() && (#[trigger] t.rendered()[i]).speaker is Some,
    ensures
        exists|parts: Seq<Seq<char>>| #[trigger]
            are_paragraph_parts(parts, t.rendered()) && txt_of(t) == text::concat(parts).push('\n'),
{
    let parts = lemma_paragraphs(t.rendered());
    assert(txt_of(t) == text::concat(parts).push('\n'));
}

// ---------------------------------------------------------------------------
// Laws of names and formats
// ---------------------------------------------------------------------------

/// The name of an output is that of the input with everything after its last dot
/// replaced. A name whose only dot comes first, or that has none, is kept whole.
pub proof fn law_output_keeps_all_but_the_last_extension(
    input: Seq<char>,
    extension: Seq<char>,
    style: Style,
)
    ensures
        match path::file_name(input, style) {
            Some(n) => exists|k: int| #[trigger]
                is_cut_at(n, k) && output_name(input, extension, style) == n.take(k).push('.')
                    + extension,
            None => output_name(input, extension, style) == seq![
                't',
                'r',
                'a',
                'n',
                's',
                'c',
                'r',
                'i',
                'p',
                't',
                '.',
            ] + extension,
        },
{
    reveal_strlit("transcript");
    assert("transcript"@.push('.') =~= seq![
        't',
        'r',
        'a',
        'n',
        's',
        'c',
        'r',
        'i',
        'p',
        't',
        '.',
    ]);
    if let Some(n) = path::file_name(input, style) {
        path::law_stem_ends_at_the_last_dot(n);
        let k = path::stem(n).len() as int;
        assert(is_cut_at(n, k));
        assert(n.take(k) =~= path::stem(n));
    }
}

/// Whether a name is cut at its last dot, or at its end where it has no dot after
/// its first character.
pub open spec fn is_cut_at(name: Seq<char>, k: int) -> bool {
    &&& 0 <= k <= name.len()
    &&& k < name.len() ==> k > 0 && name[k] == '.'
    &&& forall|i: int| 0 < i < name.len() && i > k ==> (#[trigger] name[i]) != '.'
    &&& k == name.len() ==> forall|i: int| 0 < i < name.len() ==> (#[trigger] name[i]) != '.'
}

/// An output goes into the directory that is asked for, and else into that of the
/// input.
pub proof fn law_output_directory(
    input: Seq<char>,
    output_dir: Option<Seq<char>>,
    extension: Seq<char>,
    style: Style,
)
    ensures
        match (output_dir, path::parent(input, style)) {
            (Some(d), _) => output_at(input, output_dir, extension, style) == path::join(
                d,
                output_name(input, extension, style),
                style,
            ),
            (None, Some(d)) => output_at(input, output_dir, extension, style) == path::join(
                d,
                output_name(input, extension, style),
                style,
            ),
            (None, None) => output_at(input, output_dir, extension, style) == path::join(
                Seq::empty(),
                output_name(input, extension, style),
                style,
            ),
        },
{
}

/// Each format has its own extension, and is read from its own names.
pub proof fn law_format_names(format: OutputFormat, s: Seq<char>)
    ensures
        format.suffix() == match format {
            OutputFormat::Txt => seq!['t', 'x', 't'],
            OutputFormat::Srt => seq!['s', 'r', 't'],
            OutputFormat::Vtt => seq!['v', 't', 't'],
            OutputFormat::Json => seq!['j', 's', 'o', 'n'],
        },
        OutputFormat::named(s) is Some <==> s == seq!['t', 'x', 't'] || s == seq!['t', 'e', 'x', 't']
            || s == seq!['s', 'r', 't'] || s == seq!['v', 't', 't'] || s == seq!['j', 's', 'o', 'n'],
        OutputFormat::named(s) matches Some(f) ==> s == f.suffix() || s == seq!['t', 'e', 'x', 't']
            && f == OutputFormat::Txt,
{
    reveal_strlit("txt");
    reveal_strlit("text");
    reveal_strlit("srt");
    reveal_strlit("vtt");
    reveal_strlit("json");
    assert("txt"@ =~= seq!['t', 'x', 't']);
    assert("text"@ =~= seq!['t', 'e', 'x', 't']);
    assert("srt"@ =~= seq!['s', 'r', 't']);
    assert("vtt"@ =~= seq!['v', 't', 't']);
    assert("json"@ =~= seq!['j', 's', 'o', 'n']);
}

/// Every format that is read from a list is named by one of the pieces between its
/// commas, and each piece that is not blank names one of the formats, the earlier
/// before the later.
pub proof fn law_list_is_read_in_order(list: Seq<char>)
    ensures
        OutputFormat::read_list(list) matches Ok(formats) ==> {
            let pieces = text::split(list, ',');
            &&& forall|i: int|
                0 <= i < pieces.len() && !text::is_white(#[trigger] pieces[i])
                    ==> names_one_of(pieces[i], formats)
            &&& forall|k: int| 0 <= k < formats.len() ==> is_named_first(#[trigger] formats[k], pieces, formats, k)
        },
{
    if let Ok(formats) = OutputFormat::read_list(list) {
        lemma_read_all_in_order(text::split(list, ','));
    }
}

/// Whether a piece names one of the formats.
pub open spec fn names_one_of(piece: Seq<char>, formats: Seq<OutputFormat>) -> bool {
    match OutputFormat::named(text::lower(text::trim(piece))) {
        Some(f) => formats.contains(f),
        None => false,
    }
}

/// Whether a format is named by a piece before which only the formats that come
/// before it are named.
pub open spec fn is_named_first(
    format: OutputFormat,
    pieces: Seq<Seq<char>>,
    formats: Seq<OutputFormat>,
    k: int,
) -> bool {
    exists|i: int|
        0 <= i < pieces.len() && OutputFormat::named(text::lower(text::trim(#[trigger] pieces[i]))) == Some(format) && forall|j: int|
            0 <= j < i && !text::is_white(#[trigger] pieces[j]) ==> names_one_of(pieces[j], formats.take(k))
}

proof fn lemma_read_all_in_order(items: Seq<Seq<char>>)
    ensures
        OutputFormat::read_all(items) matches Ok(formats) ==> {
            &&& forall|i: int|
                0 <= i < items.len() && !text::is_white(#[trigger] items[i])
                    ==> names_one_of(items[i], formats)
            &&& forall|k: int|
                0 <= k < formats.len() ==> is_named_first(#[trigger] formats[k], items, formats, k)
        },
    decreases items.len(),
{
    if items.len() > 0 && OutputFormat::read_all(items) is Ok {
        let before = items.drop_last();
        lemma_read_all_in_order(before);
        text::law_blank_text(items.last());
        text::law_trimmed_text(items.last());
        if text::trim(items.last()).len() > 0 {
            text::lemma_trim_solid(text::trim(items.last()));
        }
        let old = OutputFormat::read_all(before)->Ok_0;
        let formats = OutputFormat::read_all(items)->Ok_0;
        let n = items.len() - 1;
        assert(forall|k: int| 0 <= k < old.len() ==> formats[k] == old[k]);
        assert forall|f: OutputFormat| old.contains(f) implies formats.contains(f) by {
            let k = old.index_of(f);
            assert(formats[k] == f);
        }
        assert forall|i: int| 0 <= i < items.len() && !text::is_white(#[trigger] items[i]) implies
            names_one_of(items[i], formats) by {
            if i < n {
                assert(before[i] == items[i]);
            } else {
                let f = OutputFormat::named(text::lower(text::trim(items[i])))->Some_0;
                if !old.contains(f) {
                    assert(formats[old.len() as int] == f);
                }
            }
        }
        assert forall|k: int| 0 <= k < formats.len() implies is_named_first(
            #[trigger] formats[k],
            items,
            formats,
            k,
        ) by {
            if k < old.len() {
                assert(is_named_first(old[k], before, old, k));
                let i = choose|i: int|
                    0 <= i < before.len() && OutputFormat::named(text::lower(text::trim(#[trigger] before[i]))) == Some(old[k]) && forall|j: int|
                        0 <= j < i && !text::is_white(#[trigger] before[j]) ==> names_one_of(before[j], old.take(k));
                assert(items[i] == before[i]);
                assert(old.take(k) =~= formats.take(k));
                assert forall|j: int| 0 <= j < i && !text::is_white(#[trigger] items[j]) implies
                    names_one_of(items[j], formats.take(k)) by {
                    assert(before[j] == items[j]);
                }
            } else {
                assert(formats.take(k) =~= old);
                assert(OutputFormat::named(text::lower(text::trim(items[n]))) == Some(
                    formats[k],
                ));
                assert forall|j: int| 0 <= j < n && !text::is_white(#[trigger] items[j]) implies
                    names_one_of(items[j], formats.take(k)) by {
                    assert(before[j] == items[j]);
                }
            }
        }
    }
}

proof fn lemma_keys()
    ensures
        "text"@ != "language"@,
        "text"@ != "duration"@,
        "text"@ != "provider"@,
        "text"@ != "model"@,
        "text"@ != "segments"@,
        "text"@ != "words"@,
        "text"@ != "start"@,
        "text"@ != "end"@,
        "text"@ != "speaker"@,
        "text"@ != "channel"@,
        "text"@ != "confidence"@,
        "language"@ != "duration"@,
        "language"@ != "provider"@,
        "language"@ != "model"@,
        "language"@ != "segments"@,
        "language"@ != "words"@,
        "language"@ != "start"@,
        "language"@ != "end"@,
        "language"@ != "speaker"@,
        "language"@ != "channel"@,
        "language"@ != "confidence"@,
        "duration"@ != "provider"@,
        "duration"@ != "model"@,
        "duration"@ != "segments"@,
        "duration"@ != "words"@,
        "duration"@ != "start"@,
        "duration"@ != "end"@,
        "duration"@ != "speaker"@,
        "duration"@ != "channel"@,
        "duration"@ != "confidence"@,
        "provider"@ != "model"@,
        "provider"@ != "segments"@,
        "provider"@ != "words"@,
        "provider"@ != "start"@,
        "provider"@ != "end"@,
        "provider"@ != "speaker"@,
        "provider"@ != "channel"@,
        "provider"@ != "confidence"@,
        "model"@ != "segments"@,
        "model"@ != "words"@,
        "model"@ != "start"@,
        "model"@ != "end"@,
        "model"@ != "speaker"@,
        "model"@ != "channel"@,
        "model"@ != "confidence"@,
        "segments"@ != "words"@,
        "segments"@ != "start"@,
        "segments"@ != "end"@,
        "segments"@ != "speaker"@,
        "segments"@ != "channel"@,
        "segments"@ != "confidence"@,
        "words"@ != "start"@,
        "words"@ != "end"@,
        "words"@ != "speaker"@,
        "words"@ != "channel"@,
        "words"@ != "confidence"@,
        "start"@ != "end"@,
        "start"@ != "speaker"@,
        "start"@ != "channel"@,
        "start"@ != "confidence"@,
        "end"@ != "speaker"@,
        "end"@ != "channel"@,
        "end"@ != "confidence"@,
        "speaker"@ != "channel"@,
        "speaker"@ != "confidence"@,
        "channel"@ != "confidence"@,
{
    reveal_strlit("text");
    reveal_strlit("language");
    reveal_strlit("duration");
    reveal_strlit("provider");
    reveal_strlit("model");
    reveal_strlit("segments");
    reveal_strlit("words");
    reveal_strlit("start");
    reveal_strlit("end");
    reveal_strlit("speaker");
    reveal_strlit("channel");
    reveal_strlit("confidence");
    assert("text"@.len() == 4);
    assert("language"@.len() == 8);
    assert("duration"@.len() == 8);
    assert("provider"@.len() == 8);
    assert("model"@.len() == 5);
    assert("segments"@.len() == 8);
    assert("words"@.len() == 5);
    assert("start"@.len() == 5);
    assert("end"@.len() == 3);
    assert("speaker"@.len() == 7);
    assert("channel"@.len() == 7);
    assert("confidence"@.len() == 10);
    assert("language"@[0] == 'l');
    assert("duration"@[0] == 'd');
    assert("provider"@[0] == 'p');
    assert("segments"@[0] == 's');
    assert("model"@[0] == 'm');
    assert("words"@[0] == 'w');
    assert("start"@[0] == 's');
    assert("speaker"@[0] == 's');
    assert("channel"@[0] == 'c');
}

/// Whether a document is a segment with its times, its text and, where they are
/// known, its speaker and channel.
pub open spec fn describes_segment(j: Json, segment: SegmentView) -> bool {
    &&& j.entry("start"@) == Some(Json::decimal(segment.start))
    &&& j.entry("end"@) == Some(Json::decimal(segment.end))
    &&& j.entry("text"@) == Some(Json::Text(segment.text))
    &&& match segment.speaker {
        Some(s) => j.entry("speaker"@) == Some(Json::Text(s)),
        None => j.entry("speaker"@) is None,
    }
    &&& match segment.channel {
        Some(n) => j.entry("channel"@) == Some(Json::Number(text::decimal(n as nat))),
        None => j.entry("channel"@) is None,
    }
}

/// Whether a document is a word with its times, its text and, where they are
/// known, its speaker, channel and confidence.
pub open spec fn describes_word(j: Json, word: WordView) -> bool {
    &&& j.entry("start"@) == Some(Json::decimal(word.start))
    &&& j.entry("end"@) == Some(Json::decimal(word.end))
    &&& j.entry("text"@) == Some(Json::Text(word.text))
    &&& match word.speaker {
        Some(s) => j.entry("speaker"@) == Some(Json::Text(s)),
        None => j.entry("speaker"@) is None,
    }
    &&& match word.channel {
        Some(n) => j.entry("channel"@) == Some(Json::Number(text::decimal(n as nat))),
        None => j.entry("channel"@) is None,
    }
    &&& match word.confidence {
        Some(d) => j.entry("confidence"@) == Some(Json::decimal(d)),
        None => j.entry("confidence"@) is None,
    }
}

proof fn lemma_segment_described(segment: SegmentView)
    ensures
        describes_segment(segment_json(segment), segment),
{
    lemma_keys();
}

proof fn lemma_word_described(word: WordView)
    ensures
        describes_word(word_json(word), word),
{
    lemma_keys();
}

/// The JSON document of a transcript holds all of it: the text, the provider, what
/// is known of language, duration and model, each rendered segment and each word,
/// in order and field by field.
pub proof fn law_document_holds_the_transcript(t: TranscriptView)
    ensures
        transcript_json(t).entry("text"@) == Some(Json::Text(t.text)),
        transcript_json(t).entry("provider"@) == Some(Json::Text(t.provider.name())),
        match t.language {
            Some(s) => transcript_json(t).entry("language"@) == Some(Json::Text(s)),
            None => transcript_json(t).entry("language"@) is None,
        },
        match t.duration {
            Some(d) => transcript_json(t).entry("duration"@) == Some(Json::decimal(d)),
            None => transcript_json(t).entry("duration"@) is None,
        },
        match t.model {
            Some(s) => transcript_json(t).entry("model"@) == Some(Json::Text(s)),
            None => transcript_json(t).entry("model"@) is None,
        },
        match transcript_json(t).entry("segments"@) {
            Some(Json::Array(list)) => list.len() == t.rendered().len() && forall|i: int|
                0 <= i < list.len() ==> describes_segment(#[trigger] list[i], t.rendered()[i]),
            _ => false,
        },
        match transcript_json(t).entry("words"@) {
            Some(Json::Array(list)) => list.len() == t.words.len() && forall|i: int|
                0 <= i < list.len() ==> describes_word(#[trigger] list[i], t.words[i]),
            _ => false,
        },
{
    lemma_keys();
    let segments = Seq::new(t.rendered().len(), |i: int| segment_json(t.rendered()[i]));
    let words = Seq::new(t.words.len(), |i: int| word_json(t.words[i]));
    assert forall|i: int| 0 <= i < segments.len() implies describes_segment(
        #[trigger] segments[i],
        t.rendered()[i],
    ) by {
        lemma_segment_described(t.rendered()[i]);
    }
    assert forall|i: int| 0 <= i < words.len() implies describes_word(
        #[trigger] words[i],
        t.words[i],
    ) by {
        lemma_word_described(t.words[i]);
    }
    assert(transcript_json(t).entry("segments"@) == Some(Json::Array(segments)));
    assert(transcript_json(t).entry("words"@) == Some(Json::Array(words)));
}

/// A file is written in the format that its extension names: rendering in a format
/// gives the plain text, the subtitles or the document, and not one for another.
pub proof fn law_rendered_in_its_format(t: TranscriptView, format: OutputFormat)
    ensures
        format == OutputFormat::Txt ==> rendered(t, format) == Ok::<Seq<char>, Failure>(txt_of(t)),
        format == OutputFormat::Srt ==> rendered(t, format) == Ok::<Seq<char>, Failure>(srt_of(t)),
        format == OutputFormat::Vtt ==> rendered(t, format) == Ok::<Seq<char>, Failure>(vtt_of(t)),
        format == OutputFormat::Json ==> match json::json_written_pretty(transcript_json(t)) {
            Ok(s) => rendered(t, format) == Ok::<Seq<char>, Failure>(s.push('\n')),
            Err(_) => rendered(t, format) is Err,
        },
{
}

/// The view of a file shows its path and its contents as they are.
pub proof fn law_view_of_a_file(f: OutputFile)
    ensures
        f.deep_view().path == f.path@,
        f.deep_view().content == f.content@,
{
}

/// A list of formats is read exactly where every piece between its commas that is not
/// blank names a format, and there is at least one such piece; else it is refused as
/// invalid input.
pub proof fn law_list_that_is_read(list: Seq<char>)
    ensures
        OutputFormat::read_list(list) is Ok <==> {
            let pieces = text::split(list, ',');
            &&& forall|i: int|
                0 <= i < pieces.len() && !text::is_white(#[trigger] pieces[i])
                    ==> OutputFormat::named(text::lower(text::trim(pieces[i]))) is Some
            &&& exists|i: int| 0 <= i < pieces.len() && !text::is_white(#[trigger] pieces[i])
        },
        OutputFormat::read_list(list) matches Err(f) ==> f is InvalidInput,
{
    let pieces = text::split(list, ',');
    lemma_read_all_succeeds(pieces);
    lemma_read_all_in_order(pieces);
    if let Ok(formats) = OutputFormat::read_all(pieces) {
        if formats.len() > 0 {
            assert(is_named_first(formats[0], pieces, formats, 0));
        }
        if exists|i: int| 0 <= i < pieces.len() && !text::is_white(#[trigger] pieces[i]) {
            let i = choose|i: int| 0 <= i < pieces.len() && !text::is_white(#[trigger] pieces[i]);
            assert(names_one_of(pieces[i], formats));
        }
        if formats.len() > 0 {
            let i = choose|i: int|
                0 <= i < pieces.len() && OutputFormat::named(
                    text::lower(text::trim(#[trigger] pieces[i])),
                ) == Some(formats[0]);
            lemma_named_is_not_white(pieces[i]);
        }
    }
}

proof fn lemma_named_is_not_white(s: Seq<char>)
    requires
        OutputFormat::named(text::lower(text::trim(s))) is Some,
    ensures
        !text::is_white(s),
{
    text::law_blank_text(s);
    law_format_names(OutputFormat::Txt, text::lower(text::trim(s)));
    if text::is_white(s) {
        assert(text::lower(text::trim(s)).len() == 0);
    }
}

proof fn lemma_read_all_succeeds(items: Seq<Seq<char>>)
    ensures
        OutputFormat::read_all(items) is Ok <==> forall|i: int|
            0 <= i < items.len() && !text::is_white(#[trigger] items[i]) ==> OutputFormat::named(
                text::lower(text::trim(items[i])),
            ) is Some,
        OutputFormat::read_all(items) matches Err(f) ==> f is InvalidInput,
    decreases items.len(),
{
    if items.len() > 0 {
        let before = items.drop_last();
        let last = items.last();
        lemma_read_all_succeeds(before);
        text::law_blank_text(last);
        text::law_trimmed_text(last);
        if text::trim(last).len() > 0 {
            text::lemma_trim_solid(text::trim(last));
        }
        assert(items[items.len() - 1] == last);
        if OutputFormat::read_all(items) is Ok {
            assert forall|i: int| 0 <= i < items.len() && !text::is_white(#[trigger] items[i]) implies
                OutputFormat::named(text::lower(text::trim(items[i]))) is Some by {
                if i < before.len() {
                    assert(before[i] == items[i]);
                }
            }
        } else if forall|i: int|
            0 <= i < items.len() && !text::is_white(#[trigger] items[i]) ==> OutputFormat::named(
                text::lower(text::trim(items[i])),
            ) is Some {
            assert forall|i: int| 0 <= i < before.len() && !text::is_white(
                #[trigger] before[i],
            ) implies OutputFormat::named(text::lower(text::trim(before[i]))) is Some by {
                assert(before[i] == items[i]);
            }
        }
    }
}

/// A single format is read from its name, whatever the case and the white space round
/// it, and anything else is refused as invalid input.
pub proof fn law_format_that_is_read(s: Seq<char>)
    ensures
        match OutputFormat::read(s) {
            Ok(f) => OutputFormat::named(text::lower(text::trim(s))) == Some(f),
            Err(e) => OutputFormat::named(text::lower(text::trim(s))) is None && e is InvalidInput,
        },
{
}

/// Files are written up to the first format that cannot be rendered: those before it
/// are there, each at its path, and why it could not be rendered is told.
pub proof fn law_files_up_to_the_first_failure(
    t: TranscriptView,
    input: Seq<char>,
    output_dir: Option<Seq<char>>,
    formats: Seq<OutputFormat>,
    style: Style,
)
    ensures
        ({
            let (files, failure) = outputs_of(t, input, output_dir, formats, style);
            &&& files.len() <= formats.len()
            &&& forall|i: int|
                0 <= i < files.len() ==> (#[trigger] files[i]).path == output_at(
                    input,
                    output_dir,
                    formats[i].suffix(),
                    style,
                ) && rendered(t, formats[i]) == Ok::<Seq<char>, Failure>(files[i].content)
            &&& failure is None ==> files.len() == formats.len()
            &&& failure matches Some(f) ==> files.len() < formats.len() && rendered(
                t,
                formats[files.len() as int],
            ) == Err::<Seq<char>, Failure>(f)
        }),
    decreases formats.len(),
{
    if formats.len() > 0 {
        let before = formats.drop_last();
        law_files_up_to_the_first_failure(t, input, output_dir, before, style);
        let (old, stopped) = outputs_of(t, input, output_dir, before, style);
        let (files, failure) = outputs_of(t, input, output_dir, formats, style);
        assert forall|i: int| 0 <= i < files.len() implies (#[trigger] files[i]).path == output_at(
            input,
            output_dir,
            formats[i].suffix(),
            style,
        ) && rendered(t, formats[i]) == Ok::<Seq<char>, Failure>(files[i].content) by {
            if i < old.len() {
                assert(old[i] == files[i]);
                assert(before[i] == formats[i]);
            }
        }
    }
}

/// What is said of a name that stands for no format quotes it, lower case and without
/// the white space round it, and lists the formats that there are; what is said of a
/// list without formats quotes the list.
pub proof fn law_unknown_formats(s: Seq<char>)
    ensures
        OutputFormat::read(s) matches Err(f) ==> f == Failure::InvalidInput(
            "unknown output format '"@ + text::lower(text::trim(s))
                + "' (expected txt, srt, vtt, json)"@,
        ),
        OutputFormat::read_all(text::split(s, ',')) == Ok::<Seq<OutputFormat>, Failure>(
            Seq::empty(),
        ) ==> OutputFormat::read_list(s) == Err::<Seq<OutputFormat>, Failure>(
            Failure::InvalidInput("no output formats in '"@ + s + "'"@),
        ),
{
}

} // verus!
