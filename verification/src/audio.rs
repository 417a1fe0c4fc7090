//! Audio decoding and encoding with the `ffmpeg` binary: what it is called
//! with and what its exit means; and minimal WAV files.

use crate::domain::AudioCodec;
use crate::error::{CoreError, CoreResult, Failure};
use crate::ports::AudioSpec;
use crate::text;
use vstd::prelude::*;

verus! {

/// The media type of a file extension, whatever its case.
pub open spec fn extension_mime(ext: Seq<char>) -> Seq<char> {
    let e = text::lower(ext);
    if e == "mpeg"@ {
        "video/mpeg"@
    } else {
        crate::http::mime_of(e)
    }
}

/// MIME type guess from a file extension (used for multipart uploads).
pub fn mime_for_extension(ext: &str) -> (r: &'static str)
    ensures
        r@ == extension_mime(ext@),
{
    let e = text::to_lower(ext);
    if text::same(&e, "mpeg") {
        "video/mpeg"
    } else {
        crate::http::guess_mime(&e)
    }
}

// ---------------------------------------------------------------------------
// ffmpeg
// ---------------------------------------------------------------------------

/// The names of the binaries.
#[derive(Debug, Clone)]
pub struct FfmpegDecoder {
    pub ffmpeg: String,
    pub ffprobe: String,
}

impl Default for FfmpegDecoder {
    fn default() -> (r: FfmpegDecoder)
        ensures
            r.ffmpeg@ == "ffmpeg"@,
            r.ffprobe@ == "ffprobe"@,
    {
        FfmpegDecoder { ffmpeg: "ffmpeg".to_owned(), ffprobe: "ffprobe".to_owned() }
    }
}

/// What every call of ffmpeg begins with: overwrite, and say nothing but
/// errors.
pub open spec fn quiet_args() -> Seq<Seq<char>> {
    seq!["-y"@, "-hide_banner"@, "-loglevel"@, "error"@]
}

/// What decoding to `format` is called with.
pub open spec fn decode_args(
    input: Seq<char>,
    spec: AudioSpec,
    format: Seq<char>,
    output: Seq<char>,
) -> Seq<Seq<char>> {
    quiet_args() + seq![
        "-i"@,
        input,
        "-ac"@,
        text::decimal(spec.channels as nat),
        "-ar"@,
        text::decimal(spec.sample_rate as nat),
        "-vn"@,
        "-f"@,
        format,
        output,
    ]
}

fn make_decode_args(input: &str, spec: AudioSpec, format: &str, output: &str) -> (r: Vec<String>)
    ensures
        r.deep_view() == decode_args(input@, spec, format@, output@),
{
    let channels = text::decimal_text(spec.channels as u128);
    let rate = text::decimal_text(spec.sample_rate as u128);
    let r = text::list(
        &[
            "-y",
            "-hide_banner",
            "-loglevel",
            "error",
            "-i",
            input,
            "-ac",
            channels.as_str(),
            "-ar",
            rate.as_str(),
            "-vn",
            "-f",
            format,
            output,
        ],
    );
    assert(r.deep_view() =~= decode_args(input@, spec, format@, output@));
    r
}

/// ffmpeg's name of the container or raw format of a codec.
pub open spec fn muxer(codec: AudioCodec) -> Seq<char> {
    match codec {
        AudioCodec::Wav => "wav"@,
        AudioCodec::Mp3 => "mp3"@,
        AudioCodec::Flac => "flac"@,
        AudioCodec::Aac => "adts"@,
        AudioCodec::Opus => "opus"@,
        AudioCodec::Pcm => "s16le"@,
        AudioCodec::Mulaw => "mulaw"@,
        AudioCodec::Alaw => "alaw"@,
    }
}

/// What re-encoding a WAV file is called with, from standard input to standard
/// output. A WAV file that keeps its rate needs no call.
pub open spec fn encode_args(codec: AudioCodec, sample_rate: Option<u32>) -> Option<
    Seq<Seq<char>>,
> {
    if codec == AudioCodec::Wav && sample_rate is None {
        None
    } else {
        Some(
            quiet_args() + seq!["-i"@, "pipe:0"@] + (match sample_rate {
                Some(r) => seq!["-ar"@, text::decimal(r as nat)],
                None => Seq::empty(),
            }) + seq!["-f"@, muxer(codec), "pipe:1"@],
        )
    }
}

/// What joining the files of a list into `output` is called with.
pub open spec fn concat_args(list: Seq<char>, output: Seq<char>) -> Seq<Seq<char>> {
    quiet_args() + seq![
        "-f"@,
        "concat"@,
        "-safe"@,
        "0"@,
        "-i"@,
        list,
        "-c"@,
        "copy"@,
        output,
    ]
}

/// A path between single quotes, with each single quote in it taken out of the
/// quotes and escaped.
pub open spec fn quoted_path(path: Seq<char>) -> Seq<char>
    decreases path.len(),
{
    if path.len() == 0 {
        Seq::empty()
    } else if path.last() == '\'' {
        quoted_path(path.drop_last()) + "'\\''"@
    } else {
        quoted_path(path.drop_last()).push(path.last())
    }
}

/// The list of files to join: a line for each.
pub open spec fn concat_lines(files: Seq<Seq<char>>) -> Seq<char>
    decreases files.len(),
{
    if files.len() == 0 {
        Seq::empty()
    } else {
        concat_lines(files.drop_last()) + "file '"@ + quoted_path(files.last()) + "'\n"@
    }
}

fn quote_path(path: &str) -> (out: String)
    ensures
        out@ == quoted_path(path@),
{
    let chars = text::chars_of(path);
    let mut out = String::new();
    let mut i: usize = 0;
    while i < chars.len()
        invariant
            i <= chars@.len(),
            out@ == quoted_path(chars@.take(i as int)),
        decreases chars@.len() - i,
    {
        assert(chars@.take(i + 1).drop_last() =~= chars@.take(i as int));
        if chars[i] == '\'' {
            out.append("'\\''");
        } else {
            out.push(chars[i]);
        }
        i = i + 1;
    }
    assert(chars@.take(i as int) =~= path@);
    out
}

impl FfmpegDecoder {
    pub fn new(ffmpeg: &str, ffprobe: &str) -> (r: FfmpegDecoder)
        ensures
            r.ffmpeg@ == ffmpeg@,
            r.ffprobe@ == ffprobe@,
    {
        FfmpegDecoder { ffmpeg: ffmpeg.to_owned(), ffprobe: ffprobe.to_owned() }
    }

    /// What decoding `input` to the WAV file `output` is called with.
    pub fn decode_to_wav(&self, input: &str, spec: AudioSpec, output: &str) -> (r: Vec<String>)
        ensures
            r.deep_view() == decode_args(input@, spec, "wav"@, output@),
    {
        make_decode_args(input, spec, "wav", output)
    }

    /// What decoding `input` to raw samples on standard output is called with.
    pub fn decode_to_pcm(&self, input: &str, spec: AudioSpec) -> (r: Vec<String>)
        ensures
            r.deep_view() == decode_args(input@, spec, "s16le"@, "pipe:1"@),
    {
        make_decode_args(input, spec, "s16le", "pipe:1")
    }

    /// What asking ffprobe for the duration of `input` is called with.
    pub fn probe_duration(&self, input: &str) -> (r: Vec<String>)
        ensures
            r.deep_view() == seq![
                "-v"@,
                "error"@,
                "-show_entries"@,
                "format=duration"@,
                "-of"@,
                "default=noprint_wrappers=1:nokey=1"@,
                input@,
            ],
    {
        let r = text::list(
            &[
                "-v",
                "error",
                "-show_entries",
                "format=duration",
                "-of",
                "default=noprint_wrappers=1:nokey=1",
                input,
            ],
        );
        assert(r.deep_view() =~= seq![
            "-v"@,
            "error"@,
            "-show_entries"@,
            "format=duration"@,
            "-of"@,
            "default=noprint_wrappers=1:nokey=1"@,
            input@,
        ]);
        r
    }

    /// What re-encoding a WAV file is called with; nothing where the file is
    /// already what is asked for.
    pub fn encode_wav(&self, codec: AudioCodec, sample_rate: Option<u32>) -> (r: Option<
        Vec<String>,
    >)
        ensures
            r.deep_view() == encode_args(codec, sample_rate),
    {
        if codec == AudioCodec::Wav && sample_rate.is_none() {
            return None;
        }
        let format = match codec {
            AudioCodec::Wav => "wav",
            AudioCodec::Mp3 => "mp3",
            AudioCodec::Flac => "flac",
            AudioCodec::Aac => "adts",
            AudioCodec::Opus => "opus",
            AudioCodec::Pcm => "s16le",
            AudioCodec::Mulaw => "mulaw",
            AudioCodec::Alaw => "alaw",
        };
        let r = match sample_rate {
            Some(rate) => {
                let digits = text::decimal_text(rate as u128);
                text::list(
                    &[
                        "-y",
                        "-hide_banner",
                        "-loglevel",
                        "error",
                        "-i",
                        "pipe:0",
                        "-ar",
                        digits.as_str(),
                        "-f",
                        format,
                        "pipe:1",
                    ],
                )
            },
            None => text::list(
                &[
                    "-y",
                    "-hide_banner",
                    "-loglevel",
                    "error",
                    "-i",
                    "pipe:0",
                    "-f",
                    format,
                    "pipe:1",
                ],
            ),
        };
        assert(r.deep_view() =~= encode_args(codec, sample_rate)->Some_0);
        Some(r)
    }

    /// What joining the files of a list into `output` is called with.
    pub fn concat_files(&self, list: &str, output: &str) -> (r: Vec<String>)
        ensures
            r.deep_view() == concat_args(list@, output@),
    {
        let r = text::list(
            &[
                "-y",
                "-hide_banner",
                "-loglevel",
                "error",
                "-f",
                "concat",
                "-safe",
                "0",
                "-i",
                list,
                "-c",
                "copy",
                output,
            ],
        );
        assert(r.deep_view() =~= concat_args(list@, output@));
        r
    }

    /// The list of files to join.
    pub fn concat_list(files: &[String]) -> (out: String)
        ensures
            out@ == concat_lines(files.deep_view()),
    {
        let mut out = String::new();
        let mut i: usize = 0;
        while i < files.len()
            invariant
                i <= files@.len(),
                out@ == concat_lines(files.deep_view().take(i as int)),
            decreases files@.len() - i,
        {
            assert(files.deep_view().take(i + 1).drop_last() =~= files.deep_view().take(i as int));
            out.append("file '");
            out.append(&quote_path(&files[i]));
            out.append("'\n");
            i = i + 1;
        }
        assert(files.deep_view().take(i as int) =~= files.deep_view());
        out
    }

    /// The error when a binary cannot be started.
    pub fn spawn_error(binary: &str, e: &str) -> (r: CoreError)
        ensures
            r.deep_view() == Failure::Audio("spawning "@ + binary@ + ": "@ + e@),
    {
        let mut m = "spawning ".to_owned();
        m.append(binary);
        m.append(": ");
        m.append(e);
        CoreError::Audio(m)
    }

    /// What a run of ffmpeg brought: its output, or an error that says what it
    /// said.
    pub fn run_result(what: &str, success: bool, stdout: Vec<u8>, stderr: &str) -> (r: CoreResult<
        Vec<u8>,
    >)
        ensures
            match r {
                Ok(out) => success && out == stdout,
                Err(e) => !success && e.deep_view() == Failure::Audio(
                    what@ + " failed: "@ + text::trim(stderr@),
                ),
            },
    {
        if success {
            return Ok(stdout);
        }
        let mut m = what.to_owned();
        m.append(" failed: ");
        m.append(text::trimmed(stderr));
        Err(CoreError::Audio(m))
    }
}

// ---------------------------------------------------------------------------
// WAV files
// ---------------------------------------------------------------------------

/// The two bytes of `n`, the lower first.
pub open spec fn le16(n: int) -> Seq<u8> {
    seq![(n % 256) as u8, (n / 256 % 256) as u8]
}

/// The four bytes of `n`, the lowest first.
pub open spec fn le32(n: int) -> Seq<u8> {
    seq![
        (n % 256) as u8,
        (n / 256 % 256) as u8,
        (n / 65_536 % 256) as u8,
        (n / 16_777_216 % 256) as u8,
    ]
}

/// A sample as the number that its two bytes stand for.
pub open spec fn unsigned(sample: i16) -> int {
    if sample < 0 {
        sample + 65_536
    } else {
        sample as int
    }
}

/// The bytes of samples, one after another.
pub open spec fn sample_bytes(samples: Seq<i16>) -> Seq<u8>
    decreases samples.len(),
{
    if samples.len() == 0 {
        Seq::empty()
    } else {
        sample_bytes(samples.drop_last()) + le16(unsigned(samples.last()))
    }
}

/// The size of the samples as a WAV header can hold it: in 32 bits.
pub open spec fn data_len(samples: Seq<i16>) -> int {
    (2 * samples.len()) as int % 0x1_0000_0000
}

/// The header of a 16-bit PCM WAV file.
pub open spec fn wav_header(sample_rate: u32, channels: u16, data_len: int) -> Seq<u8> {
    seq![0x52u8, 0x49u8, 0x46u8, 0x46u8] + le32(36 + data_len) + seq![
        0x57u8,
        0x41u8,
        0x56u8,
        0x45u8,
        0x66u8,
        0x6du8,
        0x74u8,
        0x20u8,
    ] + le32(16) + le16(1) + le16(channels as int) + le32(sample_rate as int) + le32(
        sample_rate * channels * 2,
    ) + le16(channels * 2) + le16(16) + seq![0x64u8, 0x61u8, 0x74u8, 0x61u8] + le32(data_len)
}

fn push16(out: &mut Vec<u8>, n: u16)
    ensures
        final(out)@ == old(out)@ + le16(n as int),
{
    out.push((n % 256) as u8);
    out.push((n / 256) as u8);
    assert(out@ =~= old(out)@ + le16(n as int));
}

fn push32(out: &mut Vec<u8>, n: u32)
    ensures
        final(out)@ == old(out)@ + le32(n as int),
{
    out.push((n % 256) as u8);
    out.push((n / 256 % 256) as u8);
    out.push((n / 65_536 % 256) as u8);
    out.push((n / 16_777_216) as u8);
    assert(out@ =~= old(out)@ + le32(n as int));
}

fn push_tag(out: &mut Vec<u8>, a: u8, b: u8, c: u8, d: u8)
    ensures
        final(out)@ == old(out)@ + seq![a, b, c, d],
{
    out.push(a);
    out.push(b);
    out.push(c);
    out.push(d);
    assert(out@ =~= old(out)@ + seq![a, b, c, d]);
}

/// The bytes of a minimal 16-bit PCM WAV file.
pub fn write_wav(sample_rate: u32, channels: u16, samples: &[i16]) -> (out: Vec<u8>)
    requires
        sample_rate * channels * 2 <= u32::MAX,
        channels * 2 <= u16::MAX,
        36 + data_len(samples@) <= u32::MAX,
    ensures
        out@ == wav_header(sample_rate, channels, data_len(samples@)) + sample_bytes(samples@),
{
    let data: u32 = ((samples.len() as u128 * 2) % 0x1_0000_0000) as u32;
    assert(sample_rate * channels <= u32::MAX) by (nonlinear_arith)
        requires
            sample_rate * channels * 2 <= u32::MAX,
    ;
    let byte_rate: u32 = sample_rate * channels as u32 * 2;
    let mut out: Vec<u8> = Vec::new();
    push_tag(&mut out, 0x52, 0x49, 0x46, 0x46);
    push32(&mut out, 36 + data);
    push_tag(&mut out, 0x57, 0x41, 0x56, 0x45);
    push_tag(&mut out, 0x66, 0x6d, 0x74, 0x20);
    push32(&mut out, 16);
    push16(&mut out, 1);
    push16(&mut out, channels);
    push32(&mut out, sample_rate);
    push32(&mut out, byte_rate);
    push16(&mut out, channels * 2);
    push16(&mut out, 16);
    push_tag(&mut out, 0x64, 0x61, 0x74, 0x61);
    push32(&mut out, data);
    let ghost header = wav_header(sample_rate, channels, data_len(samples@));
    assert(out@ =~= header);
    let mut i: usize = 0;
    assert(header =~= header + sample_bytes(samples@.take(0)));
    while i < samples.len()
        invariant
            i <= samples@.len(),
            out@ == header + sample_bytes(samples@.take(i as int)),
        decreases samples@.len() - i,
    {
        assert(samples@.take(i + 1).drop_last() =~= samples@.take(i as int));
        let s: i16 = samples[i];
        let n: u16 = if s < 0 {
            (s as i32 + 65_536) as u16
        } else {
            s as u16
        };
        push16(&mut out, n);
        assert(out@ =~= header + sample_bytes(samples@.take(i + 1)));
        i = i + 1;
    }
    assert(samples@.take(i as int) =~= samples@);
    out
}

/// The sample that two bytes at `at` stand for.
pub open spec fn sample_at(bytes: Seq<u8>, at: int) -> int {
    let n = bytes[at] + bytes[at + 1] * 256;
    if n >= 32_768 {
        n - 65_536
    } else {
        n
    }
}

proof fn lemma_sample_bytes(samples: Seq<i16>, i: int)
    requires
        0 <= i < samples.len(),
    ensures
        sample_bytes(samples).len() == 2 * samples.len(),
        sample_at(sample_bytes(samples), 2 * i) == samples[i],
    decreases samples.len(),
{
    let head = sample_bytes(samples.drop_last());
    lemma_sample_bytes_len(samples.drop_last());
    if i < samples.len() - 1 {
        lemma_sample_bytes(samples.drop_last(), i);
        assert(sample_bytes(samples)[2 * i] == head[2 * i]);
        assert(sample_bytes(samples)[2 * i + 1] == head[2 * i + 1]);
    } else {
        let n = unsigned(samples[i]);
        assert(sample_bytes(samples)[2 * i] == le16(n)[0]);
        assert(sample_bytes(samples)[2 * i + 1] == le16(n)[1]);
    }
}

proof fn lemma_sample_bytes_len(samples: Seq<i16>)
    ensures
        sample_bytes(samples).len() == 2 * samples.len(),
    decreases samples.len(),
{
    if samples.len() > 0 {
        lemma_sample_bytes_len(samples.drop_last());
    }
}

/// A WAV file is its header of 44 bytes and two bytes for each sample, from
/// which the samples can be read back.
pub proof fn law_samples_can_be_read_back(sample_rate: u32, channels: u16, samples: Seq<i16>)
    ensures
        ({
            let file = wav_header(sample_rate, channels, data_len(samples)) + sample_bytes(samples);
            &&& file.len() == 44 + 2 * samples.len()
            &&& forall|i: int|
                0 <= i < samples.len() ==> sample_at(file, 44 + 2 * i) == #[trigger] samples[i]
        }),
{
    let header = wav_header(sample_rate, channels, data_len(samples));
    let file = header + sample_bytes(samples);
    lemma_sample_bytes_len(samples);
    assert forall|i: int| 0 <= i < samples.len() implies sample_at(file, 44 + 2 * i)
        == #[trigger] samples[i] by {
        lemma_sample_bytes(samples, i);
        assert(file[44 + 2 * i] == sample_bytes(samples)[2 * i]);
        assert(file[44 + 2 * i + 1] == sample_bytes(samples)[2 * i + 1]);
    }
}

// ---------------------------------------------------------------------------
// Laws
// ---------------------------------------------------------------------------

/// The media type of an extension does not depend on the case of its letters, and is
/// that of an upload but for MPEG files.
pub proof fn law_media_type_of_an_extension(ext: Seq<char>)
    ensures
        extension_mime(ext) == extension_mime(text::lower(ext)),
        text::lower(ext) == seq!['m', 'p', 'e', 'g'] ==> extension_mime(ext) == "video/mpeg"@,
        text::lower(ext) != seq!['m', 'p', 'e', 'g'] ==> extension_mime(ext)
            == crate::http::mime_of(text::lower(ext)),
{
    assert(text::lower(text::lower(ext)) =~= text::lower(ext));
    reveal_strlit("mpeg");
    assert("mpeg"@ =~= seq!['m', 'p', 'e', 'g']);
}

/// Whether an option with this value stands among the arguments.
pub open spec fn has_option(args: Seq<Seq<char>>, name: Seq<char>, value: Seq<char>) -> bool {
    exists|i: int| 0 <= i < args.len() - 1 && (#[trigger] args[i]) == name && args[i + 1] == value
}

/// Decoding takes the input, gives as many channels and the sample rate asked for
/// without video, in the format asked for, and writes to the output, over what is
/// there.
pub proof fn law_decoding(
    input: Seq<char>,
    spec: AudioSpec,
    format: Seq<char>,
    output: Seq<char>,
)
    ensures
        ({
            let args = decode_args(input, spec, format, output);
            &&& has_option(args, "-i"@, input)
            &&& has_option(args, "-ac"@, text::decimal(spec.channels as nat))
            &&& has_option(args, "-ar"@, text::decimal(spec.sample_rate as nat))
            &&& has_option(args, "-f"@, format)
            &&& args.contains("-vn"@)
            &&& args[0] == "-y"@
            &&& args.last() == output
        }),
{
    let args = decode_args(input, spec, format, output);
    assert(args[4] == "-i"@ && args[5] == input);
    assert(args[6] == "-ac"@ && args[8] == "-ar"@ && args[10] == "-vn"@ && args[11] == "-f"@);
}

/// A WAV file that keeps its rate is not encoded; any other audio is read from standard
/// input, given the sample rate that is asked for, and written to standard output in
/// the format of its codec.
pub proof fn law_encoding(codec: AudioCodec, sample_rate: Option<u32>)
    ensures
        encode_args(codec, sample_rate) is None <==> codec == AudioCodec::Wav && sample_rate is None,
        encode_args(codec, sample_rate) matches Some(args) ==> {
            &&& has_option(args, "-i"@, "pipe:0"@)
            &&& sample_rate matches Some(r) ==> has_option(args, "-ar"@, text::decimal(r as nat))
            &&& has_option(
                args,
                "-f"@,
                match codec {
                    AudioCodec::Wav => "wav"@,
                    AudioCodec::Mp3 => "mp3"@,
                    AudioCodec::Flac => "flac"@,
                    AudioCodec::Aac => "adts"@,
                    AudioCodec::Opus => "opus"@,
                    AudioCodec::Pcm => "s16le"@,
                    AudioCodec::Mulaw => "mulaw"@,
                    AudioCodec::Alaw => "alaw"@,
                },
            )
            &&& args.last() == "pipe:1"@
        },
{
    if let Some(args) = encode_args(codec, sample_rate) {
        assert(args[4] == "-i"@);
        if sample_rate is Some {
            assert(args[6] == "-ar"@ && args[8] == "-f"@);
        } else {
            assert(args[6] == "-f"@);
        }
    }
}

/// Joining reads the list of files and copies their audio, without encoding it anew,
/// to the output.
pub proof fn law_joining(list: Seq<char>, output: Seq<char>)
    ensures
        has_option(concat_args(list, output), "-f"@, "concat"@),
        has_option(concat_args(list, output), "-i"@, list),
        has_option(concat_args(list, output), "-c"@, "copy"@),
        concat_args(list, output).last() == output,
{
    let args = concat_args(list, output);
    assert(args[4] == "-f"@ && args[8] == "-i"@ && args[10] == "-c"@);
}

/// A path is quoted character by character: each stands for itself, but a single quote
/// ends the quotes, stands escaped, and begins them anew.
pub proof fn law_quoted_paths(a: Seq<char>, c: char)
    ensures
        quoted_path(Seq::<char>::empty()).len() == 0,
        c != '\'' ==> quoted_path(a.push(c)) == quoted_path(a).push(c),
        c == '\'' ==> quoted_path(a.push(c)) == quoted_path(a) + seq!['\'', '\\', '\'', '\''],
{
    assert(a.push(c).drop_last() =~= a);
    reveal_strlit("'\\''");
    assert("'\\''"@ =~= seq!['\'', '\\', '\'', '\'']);
}

/// The list of files to join has a line for each, in their order.
pub proof fn law_list_of_files(files: Seq<Seq<char>>, file: Seq<char>)
    ensures
        concat_lines(Seq::<Seq<char>>::empty()).len() == 0,
        concat_lines(files.push(file)) == concat_lines(files) + seq!['f', 'i', 'l', 'e', ' ', '\'']
            + quoted_path(file) + seq!['\'', '\n'],
{
    assert(files.push(file).drop_last() =~= files);
    reveal_strlit("file '");
    reveal_strlit("'\n");
    assert("file '"@ =~= seq!['f', 'i', 'l', 'e', ' ', '\'']);
    assert("'\n"@ =~= seq!['\'', '\n']);
}

/// The number that four bytes at `at` stand for, the lowest first.
pub open spec fn number_at(bytes: Seq<u8>, at: int) -> int {
    bytes[at] + 256 * bytes[at + 1] + 65_536 * bytes[at + 2] + 16_777_216 * bytes[at + 3]
}

/// The number that two bytes at `at` stand for, the lower first.
pub open spec fn short_at(bytes: Seq<u8>, at: int) -> int {
    bytes[at] + 256 * bytes[at + 1]
}

proof fn lemma_le32(n: int)
    requires
        0 <= n < 0x1_0000_0000,
    ensures
        le32(n).len() == 4,
        number_at(le32(n), 0) == n,
{
}

proof fn lemma_le16(n: int)
    requires
        0 <= n < 65_536,
    ensures
        le16(n).len() == 2,
        short_at(le16(n), 0) == n,
{
}

/// The header of a WAV file can be read back: its four marks, that the samples are raw
/// and of 16 bits, the number of channels, the sample rate and what follows from them,
/// and the sizes of the file and of the samples.
pub proof fn law_header_can_be_read_back(sample_rate: u32, channels: u16, len: int)
    requires
        0 <= len,
        36 + len < 0x1_0000_0000,
        sample_rate * channels * 2 < 0x1_0000_0000,
        channels * 2 < 65_536,
    ensures
        ({
            let h = wav_header(sample_rate, channels, len);
            &&& h.len() == 44
            &&& h.subrange(0, 4) == seq!['R' as u8, 'I' as u8, 'F' as u8, 'F' as u8]
            &&& number_at(h, 4) == 36 + len
            &&& h.subrange(8, 16) == seq![
                'W' as u8,
                'A' as u8,
                'V' as u8,
                'E' as u8,
                'f' as u8,
                'm' as u8,
                't' as u8,
                ' ' as u8,
            ]
            &&& number_at(h, 16) == 16
            &&& short_at(h, 20) == 1
            &&& short_at(h, 22) == channels
            &&& number_at(h, 24) == sample_rate
            &&& number_at(h, 28) == sample_rate * channels * 2
            &&& short_at(h, 32) == channels * 2
            &&& short_at(h, 34) == 16
            &&& h.subrange(36, 40) == seq!['d' as u8, 'a' as u8, 't' as u8, 'a' as u8]
            &&& number_at(h, 40) == len
        }),
{
    let h = wav_header(sample_rate, channels, len);
    let rate = sample_rate * channels * 2;
    assert(rate >= 0) by (nonlinear_arith)
        requires
            rate == sample_rate * channels * 2,
            sample_rate >= 0,
            channels >= 0,
    ;
    lemma_le32(36 + len);
    lemma_le32(16);
    lemma_le16(1);
    lemma_le16(channels as int);
    lemma_le32(sample_rate as int);
    lemma_le32(rate);
    lemma_le16(channels * 2);
    lemma_le16(16);
    lemma_le32(len);
    assert(h.len() == 44);
    assert(h.subrange(0, 4) =~= seq!['R' as u8, 'I' as u8, 'F' as u8, 'F' as u8]);
    assert(h.subrange(4, 8) =~= le32(36 + len));
    assert(h.subrange(8, 16) =~= seq![
        'W' as u8,
        'A' as u8,
        'V' as u8,
        'E' as u8,
        'f' as u8,
        'm' as u8,
        't' as u8,
        ' ' as u8,
    ]);
    assert(h.subrange(16, 20) =~= le32(16));
    assert(h.subrange(20, 22) =~= le16(1));
    assert(h.subrange(22, 24) =~= le16(channels as int));
    assert(h.subrange(24, 28) =~= le32(sample_rate as int));
    assert(h.subrange(28, 32) =~= le32(rate));
    assert(h.subrange(32, 34) =~= le16(channels * 2));
    assert(h.subrange(34, 36) =~= le16(16));
    assert(h.subrange(36, 40) =~= seq!['d' as u8, 'a' as u8, 't' as u8, 'a' as u8]);
    assert(h.subrange(40, 44) =~= le32(len));
    lemma_number_in(h, 4);
    lemma_number_in(h, 16);
    lemma_number_in(h, 24);
    lemma_number_in(h, 28);
    lemma_number_in(h, 40);
    lemma_short_in(h, 20);
    lemma_short_in(h, 22);
    lemma_short_in(h, 32);
    lemma_short_in(h, 34);
}

proof fn lemma_number_in(h: Seq<u8>, at: int)
    requires
        0 <= at,
        at + 4 <= h.len(),
    ensures
        number_at(h, at) == number_at(h.subrange(at, at + 4), 0),
{
}

proof fn lemma_short_in(h: Seq<u8>, at: int)
    requires
        0 <= at,
        at + 2 <= h.len(),
    ensures
        short_at(h, at) == short_at(h.subrange(at, at + 2), 0),
{
}

/// The size that a header gives is that of the samples, as far as 32 bits hold it.
pub proof fn law_size_of_samples(samples: Seq<i16>)
    requires
        2 * samples.len() < 0x1_0000_0000,
    ensures
        data_len(samples) == 2 * samples.len(),
        sample_bytes(samples).len() == 2 * samples.len(),
{
    lemma_sample_bytes_len(samples);
}

/// Every call of ffmpeg overwrites what is there and says nothing but errors; joining
/// takes any path in the list.
pub proof fn law_quiet_calls(list: Seq<char>, output: Seq<char>)
    ensures
        quiet_args() == seq!["-y"@, "-hide_banner"@, "-loglevel"@, "error"@],
        has_option(concat_args(list, output), "-loglevel"@, "error"@),
        has_option(concat_args(list, output), "-safe"@, "0"@),
{
    let args = concat_args(list, output);
    assert(args[2] == "-loglevel"@ && args[6] == "-safe"@);
}

} // verus!
