//! Normalized domain types. Every provider adapter maps its wire format into
//! these, so a transcript from a local model and one from a remote service are
//! indistinguishable to the output writers and the command line.

use crate::decimal::Decimal;
use crate::json::Json;
use crate::path;
use crate::path::Style;
use crate::provider::ProviderId;
use crate::text;
use serde_json::Value;
use std::str::FromStr;
use vstd::prelude::*;

verus! {

// ---------------------------------------------------------------------------
// Language
// ---------------------------------------------------------------------------

/// ISO 639-1/BCP-47 language code as the user supplied it (e.g. `es`, `en`,
/// `pt-BR`).
#[derive(Debug, PartialEq, Eq)]
pub struct Language(pub String);

impl Clone for Language {
    fn clone(&self) -> (r: Language)
        ensures
            r.deep_view() == self.deep_view(),
    {
        Language(self.0.clone())
    }
}

impl DeepView for Language {
    type V = Seq<char>;

    open spec fn deep_view(&self) -> Seq<char> {
        self.0@
    }
}

/// The offset of the first `-` or `_` of `code`, or its length.
pub open spec fn subtag_end(code: Seq<char>) -> int
    decreases code.len(),
{
    if code.len() == 0 || code.first() == '-' || code.first() == '_' {
        0
    } else {
        1 + subtag_end(code.drop_first())
    }
}

/// The primary subtag of a language code, in small letters.
pub open spec fn primary_subtag(code: Seq<char>) -> Seq<char> {
    text::lower(code.take(subtag_end(code)))
}

impl Language {
    /// The language whose code is `code` without the white space round it.
    pub fn new(code: &str) -> (r: Language)
        ensures
            r.0@ == text::trim(code@),
    {
        Language(text::trimmed(code).to_owned())
    }

    pub fn code(&self) -> (r: &str)
        ensures
            r@ == self.0@,
    {
        self.0.as_str()
    }

    /// Primary subtag, in small letters: `es-MX` gives `es`.
    pub fn primary(&self) -> (r: String)
        ensures
            r@ == primary_subtag(self.0@),
    {
        let x = text::chars_of(&self.0);
        let mut n: usize = 0;
        assert(x@.skip(0) =~= x@);
        while n < x.len() && x[n] != '-' && x[n] != '_'
            invariant
                n <= x@.len(),
                subtag_end(x@) == n + subtag_end(x@.skip(n as int)),
            decreases x@.len() - n,
        {
            assert(x@.skip(n as int).drop_first() =~= x@.skip(n + 1));
            n = n + 1;
        }
        let part = text::string_of(&x, 0, n);
        assert(part@ =~= x@.take(n as int));
        text::to_lower(&part)
    }
}

// ---------------------------------------------------------------------------
// Audio sources
// ---------------------------------------------------------------------------

/// Where the audio bytes come from.
#[derive(Debug)]
pub enum AudioSource {
    /// A file, by its path.
    File(String),
    Bytes { data: Vec<u8>, file_name: String, mime: String },
}

/// What an [`AudioSource`] names.
pub enum SourceView {
    File(Seq<char>),
    Bytes { data: Seq<u8>, file_name: Seq<char>, mime: Seq<char> },
}

impl DeepView for AudioSource {
    type V = SourceView;

    open spec fn deep_view(&self) -> SourceView {
        match *self {
            AudioSource::File(p) => SourceView::File(p@),
            AudioSource::Bytes { data, file_name, mime } => SourceView::Bytes {
                data: data@,
                file_name: file_name@,
                mime: mime@,
            },
        }
    }
}

impl Clone for AudioSource {
    fn clone(&self) -> (r: AudioSource)
        ensures
            r.deep_view() == self.deep_view(),
    {
        match self {
            AudioSource::File(p) => AudioSource::File(p.clone()),
            AudioSource::Bytes { data, file_name, mime } => {
                let copy = data.clone();
                assert(copy@ =~= data@);
                AudioSource::Bytes { data: copy, file_name: file_name.clone(), mime: mime.clone() }
            },
        }
    }
}

impl SourceView {
    /// The name of the file that the audio is taken to come from.
    pub open spec fn name(self, style: Style) -> Seq<char> {
        match self {
            SourceView::File(p) => match path::file_name(p, style) {
                Some(n) => n,
                None => "audio"@,
            },
            SourceView::Bytes { file_name, .. } => file_name,
        }
    }

    /// The final extension of that name, in small letters.
    pub open spec fn extension(self, style: Style) -> Option<Seq<char>> {
        match path::file_name(self.name(style), style) {
            Some(n) => match path::extension(n) {
                Some(e) => Some(text::lower(e)),
                None => None,
            },
            None => None,
        }
    }
}

impl AudioSource {
    /// The name of the file that the audio is taken to come from, in a path of
    /// this style.
    pub fn file_name(&self, style: Style) -> (r: String)
        ensures
            r@ == self.deep_view().name(style),
    {
        match self {
            AudioSource::File(p) => match path::name_of(p, style) {
                Some(n) => n,
                None => "audio".to_owned(),
            },
            AudioSource::Bytes { file_name, .. } => file_name.clone(),
        }
    }

    /// Extension of the underlying file name in small letters, if any.
    pub fn extension(&self, style: Style) -> (r: Option<String>)
        ensures
            r.deep_view() == self.deep_view().extension(style),
    {
        let name = self.file_name(style);
        match path::name_of(&name, style) {
            Some(n) => match path::extension_of(&n) {
                Some(e) => Some(text::to_lower(&e)),
                None => None,
            },
            None => None,
        }
    }
}

// ---------------------------------------------------------------------------
// Transcripts
// ---------------------------------------------------------------------------

/// A word with timing, in seconds.
#[derive(Debug, Clone, PartialEq)]
pub struct Word {
    pub text: String,
    pub start: Decimal,
    pub end: Decimal,
    pub speaker: Option<String>,
    pub channel: Option<u32>,
    pub confidence: Option<Decimal>,
}

/// What a [`Word`] says.
pub struct WordView {
    pub text: Seq<char>,
    pub start: Decimal,
    pub end: Decimal,
    pub speaker: Option<Seq<char>>,
    pub channel: Option<u32>,
    pub confidence: Option<Decimal>,
}

impl DeepView for Word {
    type V = WordView;

    open spec fn deep_view(&self) -> WordView {
        WordView {
            text: self.text@,
            start: self.start,
            end: self.end,
            speaker: self.speaker.deep_view(),
            channel: self.channel,
            confidence: self.confidence,
        }
    }
}

impl Word {
    pub fn new(text: &str, start: Decimal, end: Decimal) -> (r: Word)
        ensures
            r.deep_view() == (WordView {
                text: text@,
                start,
                end,
                speaker: None,
                channel: None,
                confidence: None,
            }),
    {
        Word { text: text.to_owned(), start, end, speaker: None, channel: None, confidence: None }
    }
}

/// A subtitle-sized span of speech, in seconds.
#[derive(Debug, PartialEq)]
pub struct Segment {
    pub start: Decimal,
    pub end: Decimal,
    pub text: String,
    pub speaker: Option<String>,
    pub channel: Option<u32>,
}

/// What a [`Segment`] says.
pub struct SegmentView {
    pub start: Decimal,
    pub end: Decimal,
    pub text: Seq<char>,
    pub speaker: Option<Seq<char>>,
    pub channel: Option<u32>,
}

impl DeepView for Segment {
    type V = SegmentView;

    open spec fn deep_view(&self) -> SegmentView {
        SegmentView {
            start: self.start,
            end: self.end,
            text: self.text@,
            speaker: self.speaker.deep_view(),
            channel: self.channel,
        }
    }
}

impl Clone for Segment {
    fn clone(&self) -> (r: Segment)
        ensures
            r.deep_view() == self.deep_view(),
    {
        Segment {
            start: self.start,
            end: self.end,
            text: self.text.clone(),
            speaker: text::copied(&self.speaker),
            channel: self.channel,
        }
    }
}

impl Segment {
    pub fn new(start: Decimal, end: Decimal, text: &str) -> (r: Segment)
        ensures
            r.deep_view() == (SegmentView {
                start,
                end,
                text: text@,
                speaker: None,
                channel: None,
            }),
    {
        Segment { start, end, text: text.to_owned(), speaker: None, channel: None }
    }
}

/// The normalized transcription result.
#[derive(Debug, Clone)]
pub struct Transcript {
    pub text: String,
    pub language: Option<String>,
    /// Length of the audio in seconds.
    pub duration: Option<Decimal>,
    pub provider: ProviderId,
    pub model: Option<String>,
    pub segments: Vec<Segment>,
    pub words: Vec<Word>,
}

/// What a [`Transcript`] says.
pub struct TranscriptView {
    pub text: Seq<char>,
    pub language: Option<Seq<char>>,
    pub duration: Option<Decimal>,
    pub provider: ProviderId,
    pub model: Option<Seq<char>>,
    pub segments: Seq<SegmentView>,
    pub words: Seq<WordView>,
}

impl DeepView for Transcript {
    type V = TranscriptView;

    open spec fn deep_view(&self) -> TranscriptView {
        TranscriptView {
            text: self.text@,
            language: self.language.deep_view(),
            duration: self.duration,
            provider: self.provider,
            model: self.model.deep_view(),
            segments: self.segments.deep_view(),
            words: self.words.deep_view(),
        }
    }
}

impl TranscriptView {
    /// The segments that subtitles are rendered from: the provider's own where
    /// there are any, else those made from the words, else one that spans all
    /// of a text that is not blank.
    pub open spec fn rendered(self) -> Seq<SegmentView> {
        if self.segments.len() > 0 {
            self.segments
        } else if self.words.len() > 0 {
            segments_from(self.words)
        } else if text::is_blank(self.text) {
            Seq::empty()
        } else {
            seq![
                SegmentView {
                    start: Decimal { atto: 0 },
                    end: match self.duration {
                        Some(d) => d,
                        None => Decimal { atto: 0 },
                    },
                    text: text::trim(self.text),
                    speaker: None,
                    channel: None,
                },
            ]
        }
    }
}

impl Transcript {
    pub fn new(provider: ProviderId, text: &str) -> (r: Transcript)
        ensures
            r.deep_view() == (TranscriptView {
                text: text@,
                language: None,
                duration: None,
                provider,
                model: None,
                segments: Seq::empty(),
                words: Seq::empty(),
            }),
    {
        let r = Transcript {
            text: text.to_owned(),
            language: None,
            duration: None,
            provider,
            model: None,
            segments: Vec::new(),
            words: Vec::new(),
        };
        assert(r.deep_view().segments =~= Seq::empty());
        assert(r.deep_view().words =~= Seq::empty());
        r
    }

    /// Segments to render subtitles from: the provider's own segments when
    /// present, otherwise segments synthesized from word timings, otherwise a
    /// single full-length segment.
    pub fn render_segments(&self) -> (r: Vec<Segment>)
        ensures
            r.deep_view() == self.deep_view().rendered(),
    {
        if self.segments.len() > 0 {
            let r = self.segments.clone();
            assert(r.deep_view() =~= self.segments.deep_view());
            return r;
        }
        if self.words.len() > 0 {
            return segments_from_words(self.words.as_slice());
        }
        let mut out: Vec<Segment> = Vec::new();
        let text = text::trimmed(&self.text);
        if text.is_empty() {
            assert(out.deep_view() =~= self.deep_view().rendered());
            return out;
        }
        let end = match self.duration {
            Some(d) => d,
            None => Decimal { atto: 0 },
        };
        out.push(Segment::new(Decimal { atto: 0 }, end, text));
        assert(out.deep_view() =~= self.deep_view().rendered());
        out
    }
}

// ---------------------------------------------------------------------------
// From words to segments
// ---------------------------------------------------------------------------

/// The most characters that a segment of more than one word may have.
pub const MAX_CHARS: usize = 200;

/// Whether the text ends in sentence-final punctuation.
pub open spec fn ends_sentence(s: Seq<char>) -> bool {
    let t = text::trim_end(s);
    t.len() > 0 && (t.last() == '.' || t.last() == '?' || t.last() == '!')
}

/// The characters of the words, one more for each word.
pub open spec fn char_total(words: Seq<WordView>) -> nat
    decreases words.len(),
{
    if words.len() == 0 {
        0
    } else {
        char_total(words.drop_last()) + words.last().text.len() + 1
    }
}

/// Whether `word` may not join the words of `open`: it comes after more than
/// a second of silence, from another speaker or channel, or the segment would
/// grow too long with it.
pub open spec fn breaks(open: Seq<WordView>, word: WordView) -> bool {
    ||| word.start.is_more_than_one_above(open.last().end)
    ||| open.last().speaker != word.speaker
    ||| open.last().channel != word.channel
    ||| char_total(open) + word.text.len() > MAX_CHARS
}

/// Words sorted into groups: those that are closed, and the one that still
/// takes words.
pub struct Grouping {
    pub closed: Seq<Seq<WordView>>,
    pub open: Seq<WordView>,
}

impl Grouping {
    /// The grouping after `word` has been added to it.
    pub open spec fn take_word(self, word: WordView) -> Grouping {
        let g = if self.open.len() > 0 && breaks(self.open, word) {
            Grouping { closed: self.closed.push(self.open), open: Seq::empty() }
        } else {
            self
        };
        if ends_sentence(word.text) {
            Grouping { closed: g.closed.push(g.open.push(word)), open: Seq::empty() }
        } else {
            Grouping { closed: g.closed, open: g.open.push(word) }
        }
    }

    /// All groups, the open one last.
    pub open spec fn groups(self) -> Seq<Seq<WordView>> {
        if self.open.len() > 0 {
            self.closed.push(self.open)
        } else {
            self.closed
        }
    }
}

/// The grouping of the words, taken from first to last.
pub open spec fn grouping(words: Seq<WordView>) -> Grouping
    decreases words.len(),
{
    if words.len() == 0 {
        Grouping { closed: Seq::empty(), open: Seq::empty() }
    } else {
        grouping(words.drop_last()).take_word(words.last())
    }
}

/// The words sorted into groups, one for each segment to be.
pub open spec fn word_groups(words: Seq<WordView>) -> Seq<Seq<WordView>> {
    grouping(words).groups()
}

/// The texts of the words without white space at their ends, blank ones left
/// out.
pub open spec fn spoken(words: Seq<WordView>) -> Seq<Seq<char>>
    decreases words.len(),
{
    if words.len() == 0 {
        Seq::empty()
    } else if text::is_blank(words.last().text) {
        spoken(words.drop_last())
    } else {
        spoken(words.drop_last()).push(text::trim(words.last().text))
    }
}

/// The segment of a group: from its first word's start to its last word's end,
/// with the first word's speaker and channel.
pub open spec fn segment_of(group: Seq<WordView>) -> SegmentView {
    SegmentView {
        start: group.first().start,
        end: group.last().end,
        text: text::join(spoken(group), seq![' ']),
        speaker: group.first().speaker,
        channel: group.first().channel,
    }
}

/// The segments of the groups that say anything.
pub open spec fn segments_of(groups: Seq<Seq<WordView>>) -> Seq<SegmentView>
    decreases groups.len(),
{
    if groups.len() == 0 {
        Seq::empty()
    } else if segment_of(groups.last()).text.len() == 0 {
        segments_of(groups.drop_last())
    } else {
        segments_of(groups.drop_last()).push(segment_of(groups.last()))
    }
}

/// The segments that word timings are grouped into.
pub open spec fn segments_from(words: Seq<WordView>) -> Seq<SegmentView> {
    segments_of(word_groups(words))
}

fn text_ends_sentence(s: &str) -> (r: bool)
    ensures
        r == ends_sentence(s@),
{
    let x = text::chars_of(text::trimmed_end(s));
    x.len() > 0 && (x[x.len() - 1] == '.' || x[x.len() - 1] == '?' || x[x.len() - 1] == '!')
}

fn grows_too_long(words: &[Word], from: usize, at: usize) -> (r: bool)
    requires
        from <= at < words@.len(),
    ensures
        r == (char_total(words.deep_view().subrange(from as int, at as int))
            + words.deep_view()[at as int].text.len() > MAX_CHARS),
{
    let mut total: usize = 0;
    let mut i: usize = from;
    let ghost all = words.deep_view();
    assert(all.subrange(from as int, from as int).len() == 0);
    while i < at
        invariant
            from <= i <= at < words@.len(),
            all == words.deep_view(),
            total == char_total(all.subrange(from as int, i as int)),
            total <= MAX_CHARS,
        decreases at - i,
    {
        let n: usize = text::char_count(&words[i].text);
        assert(all.subrange(from as int, i + 1).drop_last() =~= all.subrange(
            from as int,
            i as int,
        ));
        if n >= MAX_CHARS || total + n + 1 > MAX_CHARS {
            proof {
                lemma_total_grows(all, from as int, i + 1, at as int);
            }
            return true;
        }
        total = total + n + 1;
        i = i + 1;
    }
    text::char_count(&words[at].text) > MAX_CHARS - total
}

proof fn lemma_total_grows(words: Seq<WordView>, from: int, mid: int, to: int)
    requires
        0 <= from <= mid <= to <= words.len(),
    ensures
        char_total(words.subrange(from, mid)) <= char_total(words.subrange(from, to)),
    decreases to - mid,
{
    if mid < to {
        lemma_total_grows(words, from, mid, to - 1);
        assert(words.subrange(from, to).drop_last() =~= words.subrange(from, to - 1));
    }
}

fn must_break(words: &[Word], from: usize, at: usize) -> (r: bool)
    requires
        from < at < words@.len(),
    ensures
        r == breaks(
            words.deep_view().subrange(from as int, at as int),
            words.deep_view()[at as int],
        ),
{
    let prev = &words[at - 1];
    let word = &words[at];
    assert(words.deep_view().subrange(from as int, at as int).last() == prev.deep_view());
    word.start.exceeds_by_more_than_one(&prev.end) || !text::same_option(
        &prev.speaker,
        &word.speaker,
    ) || prev.channel != word.channel || grows_too_long(words, from, at)
}

fn spoken_text(words: &[Word], from: usize, to: usize) -> (out: String)
    requires
        from <= to <= words@.len(),
    ensures
        out@ == text::join(spoken(words.deep_view().subrange(from as int, to as int)), seq![' ']),
{
    let mut parts: Vec<String> = Vec::new();
    let mut i: usize = from;
    let ghost all = words.deep_view();
    assert(all.subrange(from as int, from as int).len() == 0);
    assert(parts.deep_view() =~= spoken(all.subrange(from as int, from as int)));
    while i < to
        invariant
            from <= i <= to <= words@.len(),
            all == words.deep_view(),
            parts.deep_view() == spoken(all.subrange(from as int, i as int)),
        decreases to - i,
    {
        assert(all.subrange(from as int, i + 1).drop_last() =~= all.subrange(
            from as int,
            i as int,
        ));
        let t = text::trimmed(&words[i].text);
        if !t.is_empty() {
            let ghost before = parts.deep_view();
            parts.push(t.to_owned());
            assert(parts.deep_view() =~= before.push(t@));
        }
        i = i + 1;
    }
    proof {
        reveal_strlit(" ");
        assert(" "@ =~= seq![' ']);
    }
    text::joined(&parts, " ")
}

fn close_group(words: &[Word], from: usize, to: usize, out: &mut Vec<Segment>)
    requires
        from <= to <= words@.len(),
    ensures
        forall|groups: Seq<Seq<WordView>>| #[trigger]
            segments_of(groups) == old(out).deep_view() ==> final(out).deep_view() == if from < to {
                segments_of(groups.push(words.deep_view().subrange(from as int, to as int)))
            } else {
                segments_of(groups)
            },
{
    let ghost group = words.deep_view().subrange(from as int, to as int);
    let ghost before = out.deep_view();
    assert forall|groups: Seq<Seq<WordView>>| (#[trigger] groups.push(group)).drop_last()
        == groups && groups.push(group).last() == group by {
        assert(groups.push(group).drop_last() =~= groups);
    }
    if from < to {
        let text = spoken_text(words, from, to);
        if !text.as_str().is_empty() {
            let first = &words[from];
            let last = &words[to - 1];
            let segment = Segment {
                start: first.start,
                end: last.end,
                text,
                speaker: text::copied(&first.speaker),
                channel: first.channel,
            };
            assert(segment.deep_view() == segment_of(group));
            out.push(segment);
            assert(out.deep_view() =~= before.push(segment_of(group)));
        }
    }
}

/// Group word timings into subtitle-sized segments. Splits on sentence-final
/// punctuation, long silences (more than a second between words), speaker or
/// channel changes, or a 200-character cap: a word that would make a segment
/// longer begins another.
pub fn segments_from_words(words: &[Word]) -> (out: Vec<Segment>)
    ensures
        out.deep_view() == segments_from(words.deep_view()),
{
    let mut out: Vec<Segment> = Vec::new();
    let mut from: usize = 0;
    let mut i: usize = 0;
    let ghost all = words.deep_view();
    assert(all.subrange(0, 0) =~= Seq::empty());
    assert(all.take(0) =~= Seq::empty());
    assert(out.deep_view() =~= segments_of(Seq::empty()));
    while i < words.len()
        invariant
            from <= i <= words@.len(),
            all == words.deep_view(),
            grouping(all.take(i as int)).open == all.subrange(from as int, i as int),
            out.deep_view() == segments_of(grouping(all.take(i as int)).closed),
        decreases words@.len() - i,
    {
        let ghost g = grouping(all.take(i as int));
        assert(all.take(i + 1).drop_last() =~= all.take(i as int));
        assert(all.take(i + 1).last() == all[i as int]);
        if from < i && must_break(words, from, i) {
            close_group(words, from, i, &mut out);
            from = i;
            assert(all.subrange(from as int, i as int) =~= Seq::empty());
        }
        assert(all.subrange(from as int, i + 1) =~= all.subrange(from as int, i as int).push(
            all[i as int],
        ));
        if text_ends_sentence(&words[i].text) {
            close_group(words, from, i + 1, &mut out);
            from = i + 1;
            assert(all.subrange(from as int, i + 1) =~= Seq::empty());
        }
        i = i + 1;
    }
    assert(all.take(i as int) =~= all);
    close_group(words, from, i, &mut out);
    out
}

// ---------------------------------------------------------------------------
// Laws of the grouping
// ---------------------------------------------------------------------------

/// The words of all groups, in order.
pub open spec fn words_of(groups: Seq<Seq<WordView>>) -> Seq<WordView>
    decreases groups.len(),
{
    if groups.len() == 0 {
        Seq::empty()
    } else {
        words_of(groups.drop_last()) + groups.last()
    }
}

/// Whether word `k` of the group follows the words before it without a break
/// and without the end of a sentence between them.
pub open spec fn follows(group: Seq<WordView>, k: int) -> bool {
    !breaks(group.take(k), group[k]) && !ends_sentence(group[k - 1].text)
}

/// Whether no group boundary is missing inside the group.
pub open spec fn is_tight(group: Seq<WordView>) -> bool {
    forall|k: int| 0 < k < group.len() ==> #[trigger] follows(group, k)
}

/// Whether there is a reason for a boundary after group `i`.
pub open spec fn is_boundary(groups: Seq<Seq<WordView>>, i: int) -> bool {
    ends_sentence(groups[i].last().text) || breaks(groups[i], groups[i + 1].first())
}

proof fn lemma_words_of_push(groups: Seq<Seq<WordView>>, g: Seq<WordView>)
    ensures
        words_of(groups.push(g)) == words_of(groups) + g,
{
    assert(groups.push(g).drop_last() =~= groups);
}

proof fn lemma_grouping_words(words: Seq<WordView>)
    ensures
        words_of(grouping(words).closed) + grouping(words).open == words,
    decreases words.len(),
{
    if words.len() == 0 {
        assert(words_of(grouping(words).closed) + grouping(words).open =~= words);
    } else {
        let g = grouping(words.drop_last());
        let w = words.last();
        lemma_grouping_words(words.drop_last());
        lemma_words_of_push(g.closed, g.open);
        lemma_words_of_push(g.closed, g.open.push(w));
        lemma_words_of_push(g.closed.push(g.open), Seq::<WordView>::empty().push(w));
        assert(words_of(grouping(words).closed) + grouping(words).open =~= words.drop_last().push(
            w,
        ));
        assert(words.drop_last().push(w) =~= words);
    }
}

/// Grouping loses no word, adds none and keeps their order.
pub proof fn law_groups_keep_every_word(words: Seq<WordView>)
    ensures
        words_of(word_groups(words)) == words,
{
    lemma_grouping_words(words);
    let g = grouping(words);
    lemma_words_of_push(g.closed, g.open);
    if g.open.len() == 0 {
        assert(words_of(g.closed) + g.open =~= words_of(g.closed));
    }
}

spec fn is_sound(g: Grouping) -> bool {
    &&& forall|i: int|
        0 <= i < g.closed.len() ==> (#[trigger] g.closed[i]).len() > 0 && is_tight(g.closed[i])
    &&& forall|i: int| 0 <= i < g.closed.len() - 1 ==> #[trigger] is_boundary(g.closed, i)
    &&& is_tight(g.open)
    &&& g.open.len() > 0 ==> !ends_sentence(g.open.last().text)
    &&& g.closed.len() > 0 ==> ends_sentence(g.closed.last().last().text) || (g.open.len() > 0
        && breaks(g.closed.last(), g.open.first()))
}

proof fn lemma_close_sound(closed: Seq<Seq<WordView>>, group: Seq<WordView>)
    requires
        forall|i: int|
            0 <= i < closed.len() ==> (#[trigger] closed[i]).len() > 0 && is_tight(closed[i]),
        forall|i: int| 0 <= i < closed.len() - 1 ==> #[trigger] is_boundary(closed, i),
        group.len() > 0,
        is_tight(group),
        closed.len() > 0 ==> ends_sentence(closed.last().last().text) || breaks(
            closed.last(),
            group.first(),
        ),
    ensures
        forall|i: int|
            0 <= i < closed.push(group).len() ==> (#[trigger] closed.push(group)[i]).len() > 0
                && is_tight(closed.push(group)[i]),
        forall|i: int|
            0 <= i < closed.push(group).len() - 1 ==> #[trigger] is_boundary(
                closed.push(group),
                i,
            ),
{
    let all = closed.push(group);
    assert forall|i: int| 0 <= i < all.len() - 1 implies #[trigger] is_boundary(all, i) by {
        if i < closed.len() - 1 {
            assert(is_boundary(closed, i));
        }
    }
}

proof fn lemma_push_tight(group: Seq<WordView>, word: WordView)
    requires
        is_tight(group),
        group.len() > 0 ==> !breaks(group, word) && !ends_sentence(group.last().text),
    ensures
        is_tight(group.push(word)),
{
    let more = group.push(word);
    assert forall|k: int| 0 < k < more.len() implies #[trigger] follows(more, k) by {
        assert(more.take(k) =~= group.take(k));
        if k < group.len() {
            assert(follows(group, k));
        } else {
            assert(group.take(k) =~= group);
        }
    }
}

proof fn lemma_take_word_sound(g: Grouping, word: WordView)
    requires
        is_sound(g),
    ensures
        is_sound(g.take_word(word)),
{
    let broke = g.open.len() > 0 && breaks(g.open, word);
    let h = if broke {
        Grouping { closed: g.closed.push(g.open), open: Seq::empty() }
    } else {
        g
    };
    if broke {
        lemma_close_sound(g.closed, g.open);
    }
    let open = h.open.push(word);
    lemma_push_tight(h.open, word);
    if h.open.len() > 0 {
        assert(open.first() == h.open.first());
    }
    if ends_sentence(word.text) {
        lemma_close_sound(h.closed, open);
    }
}

proof fn lemma_grouping_sound(words: Seq<WordView>)
    ensures
        is_sound(grouping(words)),
    decreases words.len(),
{
    if words.len() > 0 {
        lemma_grouping_sound(words.drop_last());
        lemma_take_word_sound(grouping(words.drop_last()), words.last());
    }
}

/// A boundary between groups stands exactly where a sentence ends, a long
/// silence or another speaker or channel begins, or the group would grow too
/// long with the next word; and no group is empty.
pub proof fn law_groups_split_where_they_must(words: Seq<WordView>)
    ensures
        forall|i: int|
            0 <= i < word_groups(words).len() ==> (#[trigger] word_groups(words)[i]).len() > 0
                && is_tight(word_groups(words)[i]),
        forall|i: int|
            0 <= i < word_groups(words).len() - 1 ==> #[trigger] is_boundary(word_groups(words), i),
{
    lemma_grouping_sound(words);
    let g = grouping(words);
    if g.open.len() > 0 {
        lemma_close_sound(g.closed, g.open);
    }
}

proof fn lemma_spoken_len(group: Seq<WordView>)
    ensures
        text::join(spoken(group), seq![' ']).len() <= char_total(group),
        group.len() > 0 ==> text::join(spoken(group), seq![' ']).len() < char_total(group),
    decreases group.len(),
{
    if group.len() > 0 {
        let before = group.drop_last();
        lemma_spoken_len(before);
        let word = group.last().text;
        text::lemma_trim_len(word);
        if !text::is_blank(word) {
            let said = spoken(before);
            assert(said.push(text::trim(word)).drop_last() =~= said);
        }
    }
}

proof fn lemma_segments_come_from_groups(groups: Seq<Seq<WordView>>)
    ensures
        forall|i: int|
            0 <= i < segments_of(groups).len() ==> exists|g: int|
                0 <= g < groups.len() && (#[trigger] segments_of(groups)[i]) == segment_of(
                    #[trigger] groups[g],
                ),
    decreases groups.len(),
{
    if groups.len() > 0 {
        let before = groups.drop_last();
        lemma_segments_come_from_groups(before);
        assert forall|i: int| 0 <= i < segments_of(groups).len() implies exists|g: int|
            0 <= g < groups.len() && (#[trigger] segments_of(groups)[i]) == segment_of(
                #[trigger] groups[g],
            ) by {
            if i < segments_of(before).len() {
                assert(segments_of(before)[i] == segments_of(groups)[i]);
                let g = choose|g: int|
                    0 <= g < before.len() && segments_of(before)[i] == segment_of(
                        #[trigger] before[g],
                    );
                assert(groups[g] == before[g]);
            } else {
                assert(groups[groups.len() - 1] == groups.last());
            }
        }
    }
}

/// Every segment is made of one group of the words, and one that is made of
/// two words or more has no more than [`MAX_CHARS`] characters.
pub proof fn law_segments_are_capped(words: Seq<WordView>)
    ensures
        forall|i: int|
            0 <= i < segments_from(words).len() ==> exists|g: int|
                0 <= g < word_groups(words).len() && (#[trigger] segments_from(words)[i])
                    == segment_of(#[trigger] word_groups(words)[g]),
        forall|g: int|
            0 <= g < word_groups(words).len() && (#[trigger] word_groups(words)[g]).len() >= 2
                ==> segment_of(word_groups(words)[g]).text.len() <= MAX_CHARS,
{
    let groups = word_groups(words);
    lemma_segments_come_from_groups(groups);
    law_groups_split_where_they_must(words);
    assert forall|g: int| 0 <= g < groups.len() && (#[trigger] groups[g]).len() >= 2 implies
        segment_of(groups[g]).text.len() <= MAX_CHARS by {
        let group = groups[g];
        let k = group.len() - 1;
        assert(follows(group, k));
        assert(group.take(k) =~= group.drop_last());
        lemma_spoken_len(group);
    }
}

// ---------------------------------------------------------------------------
// Requests and results
// ---------------------------------------------------------------------------

/// A batch speech-to-text request, provider-agnostic.
#[derive(Debug)]
pub struct TranscribeRequest {
    pub source: AudioSource,
    pub language: Option<Language>,
    pub model: Option<String>,
    pub diarize: bool,
    pub word_timestamps: bool,
    pub keyterms: Vec<String>,
    pub prompt: Option<String>,
}

/// What a [`TranscribeRequest`] asks.
pub struct RequestView {
    pub source: SourceView,
    pub language: Option<Seq<char>>,
    pub model: Option<Seq<char>>,
    pub diarize: bool,
    pub word_timestamps: bool,
    pub keyterms: Seq<Seq<char>>,
    pub prompt: Option<Seq<char>>,
}

impl DeepView for TranscribeRequest {
    type V = RequestView;

    open spec fn deep_view(&self) -> RequestView {
        RequestView {
            source: self.source.deep_view(),
            language: self.language.deep_view(),
            model: self.model.deep_view(),
            diarize: self.diarize,
            word_timestamps: self.word_timestamps,
            keyterms: self.keyterms.deep_view(),
            prompt: self.prompt.deep_view(),
        }
    }
}

impl Clone for TranscribeRequest {
    fn clone(&self) -> (r: TranscribeRequest)
        ensures
            r.deep_view() == self.deep_view(),
    {
        let language = match &self.language {
            Some(l) => Some(l.clone()),
            None => None,
        };
        TranscribeRequest {
            source: self.source.clone(),
            language,
            model: text::copied(&self.model),
            diarize: self.diarize,
            word_timestamps: self.word_timestamps,
            keyterms: text::copied_list(&self.keyterms),
            prompt: text::copied(&self.prompt),
        }
    }
}

impl TranscribeRequest {
    pub fn new(source: AudioSource) -> (r: TranscribeRequest)
        ensures
            r.source == source,
            r.language is None,
            r.model is None,
            !r.diarize,
            r.word_timestamps,
            r.keyterms@.len() == 0,
            r.prompt is None,
    {
        TranscribeRequest {
            source,
            language: None,
            model: None,
            diarize: false,
            word_timestamps: true,
            keyterms: Vec::new(),
            prompt: None,
        }
    }
}

/// Requested audio encoding for text-to-speech output.
#[derive(Debug, Clone, Copy, PartialEq, Eq, Structural)]
pub enum AudioCodec {
    Mp3,
    Wav,
    Pcm,
    Opus,
    Flac,
    Aac,
    Mulaw,
    Alaw,
}

impl DeepView for AudioCodec {
    type V = AudioCodec;

    open spec fn deep_view(&self) -> AudioCodec {
        *self
    }
}

impl AudioCodec {
    /// The codec's name.
    pub open spec fn name(self) -> Seq<char> {
        match self {
            AudioCodec::Mp3 => "mp3"@,
            AudioCodec::Wav => "wav"@,
            AudioCodec::Pcm => "pcm"@,
            AudioCodec::Opus => "opus"@,
            AudioCodec::Flac => "flac"@,
            AudioCodec::Aac => "aac"@,
            AudioCodec::Mulaw => "mulaw"@,
            AudioCodec::Alaw => "alaw"@,
        }
    }

    /// The codec of a name.
    pub open spec fn named(s: Seq<char>) -> Option<AudioCodec> {
        if s == "mp3"@ {
            Some(AudioCodec::Mp3)
        } else if s == "wav"@ {
            Some(AudioCodec::Wav)
        } else if s == "pcm"@ {
            Some(AudioCodec::Pcm)
        } else if s == "opus"@ {
            Some(AudioCodec::Opus)
        } else if s == "flac"@ {
            Some(AudioCodec::Flac)
        } else if s == "aac"@ {
            Some(AudioCodec::Aac)
        } else if s == "mulaw"@ {
            Some(AudioCodec::Mulaw)
        } else if s == "alaw"@ {
            Some(AudioCodec::Alaw)
        } else {
            None
        }
    }

    pub fn as_str(&self) -> (r: &'static str)
        ensures
            r@ == self.name(),
    {
        match self {
            AudioCodec::Mp3 => "mp3",
            AudioCodec::Wav => "wav",
            AudioCodec::Pcm => "pcm",
            AudioCodec::Opus => "opus",
            AudioCodec::Flac => "flac",
            AudioCodec::Aac => "aac",
            AudioCodec::Mulaw => "mulaw",
            AudioCodec::Alaw => "alaw",
        }
    }

    /// The extension of a file in this codec.
    pub fn extension(&self) -> (r: &'static str)
        ensures
            r@ == self.name(),
    {
        self.as_str()
    }

    /// Reads a codec name, whatever its case and the white space round it.
    pub fn parse(s: &str) -> (r: Result<AudioCodec, String>)
        ensures
            match AudioCodec::named(text::lower(text::trim(s@))) {
                Some(c) => r == Ok::<AudioCodec, String>(c),
                None => r is Err && r->Err_0@ == "unknown audio codec '"@ + text::lower(
                    text::trim(s@),
                ) + "'"@,
            },
    {
        let name = text::to_lower(text::trimmed(s));
        if text::same(&name, "mp3") {
            Ok(AudioCodec::Mp3)
        } else if text::same(&name, "wav") {
            Ok(AudioCodec::Wav)
        } else if text::same(&name, "pcm") {
            Ok(AudioCodec::Pcm)
        } else if text::same(&name, "opus") {
            Ok(AudioCodec::Opus)
        } else if text::same(&name, "flac") {
            Ok(AudioCodec::Flac)
        } else if text::same(&name, "aac") {
            Ok(AudioCodec::Aac)
        } else if text::same(&name, "mulaw") {
            Ok(AudioCodec::Mulaw)
        } else if text::same(&name, "alaw") {
            Ok(AudioCodec::Alaw)
        } else {
            let mut m = "unknown audio codec '".to_owned();
            m.append(&name);
            m.append("'");
            Err(m)
        }
    }
}

impl FromStr for AudioCodec {
    type Err = String;

    fn from_str(s: &str) -> (r: Result<AudioCodec, String>)
        ensures
            match AudioCodec::named(text::lower(text::trim(s@))) {
                Some(c) => r == Ok::<AudioCodec, String>(c),
                None => r is Err && r->Err_0@ == "unknown audio codec '"@ + text::lower(
                    text::trim(s@),
                ) + "'"@,
            },
    {
        AudioCodec::parse(s)
    }
}

/// Parsing the name that a codec gives of itself yields that codec.
pub proof fn law_codec_name_round_trips(codec: AudioCodec)
    ensures
        AudioCodec::named(text::lower(text::trim(codec.name()))) == Some(codec),
{
    reveal_strlit("mp3");
    reveal_strlit("wav");
    reveal_strlit("pcm");
    reveal_strlit("opus");
    reveal_strlit("flac");
    reveal_strlit("aac");
    reveal_strlit("mulaw");
    reveal_strlit("alaw");
    let s = codec.name();
    text::lemma_trim_solid(s);
    assert(text::lower(s) =~= s);
    assert(s[0] == 'm' || s[0] == 'w' || s[0] == 'p' || s[0] == 'o' || s[0] == 'f' || s[0] == 'a');
    assert(s[1] == 'p' || s[1] == 'a' || s[1] == 'c' || s[1] == 'l' || s[1] == 'u');
}

/// A batch text-to-speech request, provider-agnostic.
#[derive(Debug, Clone)]
pub struct SpeechRequest {
    pub text: String,
    pub language: Option<Language>,
    pub voice: Option<String>,
    pub model: Option<String>,
    pub codec: AudioCodec,
    pub sample_rate: Option<u32>,
    pub bit_rate: Option<u32>,
    pub speed: Option<Decimal>,
    pub optimize_streaming_latency: Option<u8>,
    pub text_normalization: Option<bool>,
    pub with_timestamps: bool,
    /// Free-form style guidance (only some providers support it).
    pub instructions: Option<String>,
}

impl SpeechRequest {
    pub fn new(text: &str) -> (r: SpeechRequest)
        ensures
            r.text@ == text@,
            r.language is None,
            r.voice is None,
            r.model is None,
            r.codec == AudioCodec::Mp3,
            r.sample_rate is None,
            r.bit_rate is None,
            r.speed is None,
            r.optimize_streaming_latency is None,
            r.text_normalization is None,
            !r.with_timestamps,
            r.instructions is None,
    {
        SpeechRequest {
            text: text.to_owned(),
            language: None,
            voice: None,
            model: None,
            codec: AudioCodec::Mp3,
            sample_rate: None,
            bit_rate: None,
            speed: None,
            optimize_streaming_latency: None,
            text_normalization: None,
            with_timestamps: false,
            instructions: None,
        }
    }
}

/// The normalized text-to-speech result.
#[derive(Debug, Clone)]
pub struct AudioOutput {
    pub bytes: Vec<u8>,
    pub mime: String,
    pub codec: AudioCodec,
    pub provider: ProviderId,
    /// Length of the audio in seconds.
    pub duration: Option<Decimal>,
    /// What the provider said of the audio, the audio itself left out.
    pub metadata: Option<Value>,
}

/// What an [`AudioOutput`] holds.
pub struct AudioOutputView {
    pub bytes: Seq<u8>,
    pub mime: Seq<char>,
    pub codec: AudioCodec,
    pub provider: ProviderId,
    pub duration: Option<Decimal>,
    pub metadata: Option<Json>,
}

impl DeepView for AudioOutput {
    type V = AudioOutputView;

    open spec fn deep_view(&self) -> AudioOutputView {
        AudioOutputView {
            bytes: self.bytes@,
            mime: self.mime@,
            codec: self.codec,
            provider: self.provider,
            duration: self.duration,
            metadata: match self.metadata {
                Some(v) => Some(crate::json::json_of(v)),
                None => None,
            },
        }
    }
}

impl AudioOutputView {
    /// Audio of which nothing is known but its bytes and what they are.
    pub open spec fn plain(
        bytes: Seq<u8>,
        mime: Seq<char>,
        codec: AudioCodec,
        provider: ProviderId,
    ) -> AudioOutputView {
        AudioOutputView { bytes, mime, codec, provider, duration: None, metadata: None }
    }
}

impl AudioOutput {
    /// Audio of which nothing is known but its bytes and what they are.
    pub fn plain(bytes: Vec<u8>, mime: &str, codec: AudioCodec, provider: ProviderId) -> (r:
        AudioOutput)
        ensures
            r.deep_view() == AudioOutputView::plain(bytes@, mime@, codec, provider),
    {
        AudioOutput {
            bytes,
            mime: mime.to_owned(),
            codec,
            provider,
            duration: None,
            metadata: None,
        }
    }
}

// ---------------------------------------------------------------------------
// Laws of segments
// ---------------------------------------------------------------------------

/// A question, an exclamation or a statement that ends is the end of its group:
/// of two words that follow each other in a group, the first does not end in
/// `.`, `?` or `!`, white space after it left aside.
pub proof fn law_no_sentence_ends_inside_a_group(words: Seq<WordView>, g: int, k: int)
    requires
        0 <= g < word_groups(words).len(),
        0 <= k < word_groups(words)[g].len() - 1,
    ensures
        ({
            let said = text::trim_end(word_groups(words)[g][k].text);
            said.len() > 0 ==> said.last() != '.' && said.last() != '?' && said.last() != '!'
        }),
{
    law_groups_split_where_they_must(words);
    assert(follows(word_groups(words)[g], k + 1));
}

/// The length of words when each is followed by a space.
pub open spec fn spaced_len(words: Seq<WordView>) -> int {
    words.fold_left(0int, |n: int, w: WordView| n + w.text.len() + 1)
}

proof fn lemma_spaced_len(words: Seq<WordView>)
    ensures
        spaced_len(words) == char_total(words),
    decreases words.len(),
{
    if words.len() > 0 {
        lemma_spaced_len(words.drop_last());
    }
}

/// Words that follow each other in a group come from one speaker and one channel,
/// without more than a second of silence between them, and a group of two words
/// or more takes up no more than 200 characters.
pub proof fn law_group_holds_together(words: Seq<WordView>, g: int, k: int)
    requires
        0 <= g < word_groups(words).len(),
        0 <= k < word_groups(words)[g].len() - 1,
    ensures
        word_groups(words)[g][k].speaker == word_groups(words)[g][k + 1].speaker,
        word_groups(words)[g][k].channel == word_groups(words)[g][k + 1].channel,
        !word_groups(words)[g][k + 1].start.is_more_than_one_above(word_groups(words)[g][k].end),
        spaced_len(word_groups(words)[g]) - 1 <= 200,
{
    law_groups_split_where_they_must(words);
    let group = word_groups(words)[g];
    assert(follows(group, k + 1));
    assert(group.take(k + 1).last() == group[k]);
    assert(follows(group, group.len() - 1));
    assert(group.take(group.len() - 1) =~= group.drop_last());
    lemma_spaced_len(group);
}

/// A group ends only where it has to: with a word that ends in `.`, `?` or `!`,
/// before more than a second of silence, before another speaker or channel, or
/// before a word that would make it longer than 200 characters.
pub proof fn law_group_ends_for_a_reason(words: Seq<WordView>, g: int)
    requires
        0 <= g < word_groups(words).len() - 1,
    ensures
        ({
            let last = word_groups(words)[g].last();
            let next = word_groups(words)[g + 1].first();
            let said = text::trim_end(last.text);
            ||| said.len() > 0 && (said.last() == '.' || said.last() == '?' || said.last() == '!')
            ||| next.start.is_more_than_one_above(last.end)
            ||| next.speaker != last.speaker
            ||| next.channel != last.channel
            ||| spaced_len(word_groups(words)[g]) + next.text.len() > 200
        }),
{
    law_groups_split_where_they_must(words);
    assert(is_boundary(word_groups(words), g));
    lemma_spaced_len(word_groups(words)[g]);
}

/// No group is empty, and the words of the groups, one group after another, are
/// all the words in their order.
pub proof fn law_groups_are_the_words(words: Seq<WordView>)
    ensures
        word_groups(words).flatten() == words,
        forall|g: int|
            0 <= g < word_groups(words).len() ==> (#[trigger] word_groups(words)[g]).len() > 0,
{
    law_groups_split_where_they_must(words);
    law_groups_keep_every_word(words);
    lemma_flat(word_groups(words));
}

proof fn lemma_flat(groups: Seq<Seq<WordView>>)
    ensures
        groups.flatten() == words_of(groups),
    decreases groups.len(),
{
    groups.lemma_flatten_and_flatten_alt_are_equivalent();
    if groups.len() > 0 {
        lemma_flat(groups.drop_last());
        groups.drop_last().lemma_flatten_and_flatten_alt_are_equivalent();
        assert(groups.flatten_alt() == groups.drop_last().flatten_alt() + groups.last());
    } else {
        assert(groups.flatten() =~= words_of(groups));
    }
}

/// Whether a word says anything.
pub open spec fn says_something() -> spec_fn(WordView) -> bool {
    |w: WordView| !text::is_blank(w.text)
}

/// What words say, one after another with a space between each two, white space
/// round each left out.
pub open spec fn said(words: Seq<WordView>) -> Seq<char> {
    text::join(
        words.filter(says_something()).map_values(|w: WordView| text::trim(w.text)),
        seq![' '],
    )
}

proof fn lemma_said(words: Seq<WordView>)
    ensures
        words.filter(says_something()).map_values(|w: WordView| text::trim(w.text)) == spoken(
            words,
        ),
    decreases words.len(),
{
    let f = |w: WordView| text::trim(w.text);
    reveal(Seq::filter);
    if words.len() > 0 {
        lemma_said(words.drop_last());
        let before = words.drop_last().filter(says_something());
        if says_something()(words.last()) {
            assert(words.filter(says_something()) == before.push(words.last()));
            assert(before.push(words.last()).map_values(f) =~= before.map_values(f).push(
                f(words.last()),
            ));
        }
    }
    assert(words.filter(says_something()).map_values(f) =~= spoken(words));
}

/// Every segment is made of one group: it lasts from the start of the group's
/// first word to the end of its last, says what its words say, and has their
/// speaker and channel. Every group that says anything has its segment.
pub proof fn law_segments_span_their_words(words: Seq<WordView>)
    ensures
        forall|i: int|
            0 <= i < segments_from(words).len() ==> exists|g: int|
                0 <= g < word_groups(words).len() && is_segment_of(
                    #[trigger] segments_from(words)[i],
                    #[trigger] word_groups(words)[g],
                ),
        forall|g: int|
            0 <= g < word_groups(words).len() && said(#[trigger] word_groups(words)[g]).len() > 0
                ==> exists|i: int|
                0 <= i < segments_from(words).len() && is_segment_of(
                    #[trigger] segments_from(words)[i],
                    word_groups(words)[g],
                ),
{
    let groups = word_groups(words);
    lemma_segments_come_from_groups(groups);
    assert forall|i: int| 0 <= i < segments_from(words).len() implies exists|g: int|
        0 <= g < groups.len() && is_segment_of(
            #[trigger] segments_from(words)[i],
            #[trigger] groups[g],
        ) by {
        let g = choose|g: int|
            0 <= g < groups.len() && segments_of(groups)[i] == segment_of(#[trigger] groups[g]);
        lemma_said(groups[g]);
        assert(is_segment_of(segments_from(words)[i], groups[g]));
    }
    lemma_groups_have_segments(groups);
}

/// Whether a segment is that of a group: its times, its text and who speaks.
pub open spec fn is_segment_of(segment: SegmentView, group: Seq<WordView>) -> bool {
    &&& segment.start == group[0].start
    &&& segment.end == group[group.len() - 1].end
    &&& segment.text == said(group)
    &&& segment.speaker == group[0].speaker
    &&& segment.channel == group[0].channel
}

proof fn lemma_groups_have_segments(groups: Seq<Seq<WordView>>)
    ensures
        forall|g: int|
            0 <= g < groups.len() && said(#[trigger] groups[g]).len() > 0 ==> exists|i: int|
                0 <= i < segments_of(groups).len() && is_segment_of(
                    #[trigger] segments_of(groups)[i],
                    groups[g],
                ),
    decreases groups.len(),
{
    if groups.len() > 0 {
        let before = groups.drop_last();
        lemma_groups_have_segments(before);
        lemma_said(groups.last());
        assert forall|g: int| 0 <= g < groups.len() && said(#[trigger] groups[g]).len() > 0 implies
            exists|i: int|
            0 <= i < segments_of(groups).len() && is_segment_of(
                #[trigger] segments_of(groups)[i],
                groups[g],
            ) by {
            if g < before.len() {
                assert(before[g] == groups[g]);
                let i = choose|i: int|
                    0 <= i < segments_of(before).len() && is_segment_of(
                        #[trigger] segments_of(before)[i],
                        before[g],
                    );
                assert(segments_of(groups)[i] == segments_of(before)[i]);
            } else {
                let i = segments_of(groups).len() - 1;
                assert(segments_of(groups)[i] == segment_of(groups.last()));
                assert(is_segment_of(segments_of(groups)[i], groups[g]));
            }
        }
    }
}

/// Whether a group says anything.
pub open spec fn is_said() -> spec_fn(Seq<WordView>) -> bool {
    |g: Seq<WordView>| said(g).len() > 0
}

/// The segments come in the order of their groups: there are as many as groups
/// that say anything, and each is that of the group in its place.
pub proof fn law_segments_are_in_order(words: Seq<WordView>)
    ensures
        segments_from(words).len() == word_groups(words).filter(is_said()).len(),
        forall|i: int|
            0 <= i < segments_from(words).len() ==> is_segment_of(
                #[trigger] segments_from(words)[i],
                word_groups(words).filter(is_said())[i],
            ),
{
    lemma_segments_in_order(word_groups(words));
}

proof fn lemma_segments_in_order(groups: Seq<Seq<WordView>>)
    ensures
        segments_of(groups).len() == groups.filter(is_said()).len(),
        forall|i: int|
            0 <= i < segments_of(groups).len() ==> is_segment_of(
                #[trigger] segments_of(groups)[i],
                groups.filter(is_said())[i],
            ),
    decreases groups.len(),
{
    reveal(Seq::filter);
    if groups.len() > 0 {
        let before = groups.drop_last();
        lemma_segments_in_order(before);
        lemma_said(groups.last());
        assert forall|i: int| 0 <= i < segments_of(groups).len() implies is_segment_of(
            #[trigger] segments_of(groups)[i],
            groups.filter(is_said())[i],
        ) by {
            if i < segments_of(before).len() {
                assert(segments_of(groups)[i] == segments_of(before)[i]);
                assert(groups.filter(is_said())[i] == before.filter(is_said())[i]);
            }
        }
    }
}

/// Subtitles are rendered from the segments of the provider where it gave any,
/// whatever words it gave; else from its words; else from the whole text as one
/// segment from the start to the end of the audio, unless that text is blank.
pub proof fn law_rendered_segments(t: TranscriptView)
    ensures
        t.segments.len() > 0 ==> t.rendered() == t.segments,
        t.segments.len() == 0 && t.words.len() > 0 ==> t.rendered() == segments_from(t.words),
        t.segments.len() == 0 && t.words.len() == 0 ==> t.rendered().len() == if text::is_white(
            t.text,
        ) {
            0nat
        } else {
            1nat
        },
        t.segments.len() == 0 && t.words.len() == 0 && !text::is_white(t.text) ==> {
            &&& t.rendered()[0].text == text::trim(t.text)
            &&& t.rendered()[0].start.atto == 0
            &&& t.duration is Some ==> t.rendered()[0].end == t.duration->Some_0
            &&& t.duration is None ==> t.rendered()[0].end.atto == 0
            &&& t.rendered()[0].speaker is None
            &&& t.rendered()[0].channel is None
        },
{
    text::law_blank_text(t.text);
}

// ---------------------------------------------------------------------------
// Laws of languages, sources and codecs
// ---------------------------------------------------------------------------

proof fn lemma_subtag_end(code: Seq<char>)
    ensures
        0 <= subtag_end(code) <= code.len(),
        forall|i: int| 0 <= i < subtag_end(code) ==> (#[trigger] code[i]) != '-' && code[i] != '_',
        subtag_end(code) < code.len() ==> code[subtag_end(code)] == '-' || code[subtag_end(code)]
            == '_',
    decreases code.len(),
{
    if code.len() > 0 && code.first() != '-' && code.first() != '_' {
        let rest = code.drop_first();
        lemma_subtag_end(rest);
        assert forall|i: int| 0 <= i < subtag_end(code) implies (#[trigger] code[i]) != '-'
            && code[i] != '_' by {
            if i > 0 {
                assert(code[i] == rest[i - 1]);
            }
        }
        if subtag_end(code) < code.len() {
            assert(code[subtag_end(code)] == rest[subtag_end(rest)]);
        }
    }
}

/// The primary subtag of a language code is the beginning of the code up to its
/// first `-` or `_`, or all of it, in small letters.
pub proof fn law_primary_subtag(code: Seq<char>)
    ensures
        ({
            let n = primary_subtag(code).len() as int;
            &&& n <= code.len()
            &&& primary_subtag(code) == text::lower(code.take(n))
            &&& forall|i: int| 0 <= i < n ==> (#[trigger] code[i]) != '-' && code[i] != '_'
            &&& n < code.len() ==> code[n] == '-' || code[n] == '_'
        }),
{
    lemma_subtag_end(code);
}

/// Audio in memory goes by the name that it was given, and a file by the name
/// that its path ends in; the extension is that of the name, in small letters.
pub proof fn law_source_names(source: SourceView, style: Style)
    ensures
        match source {
            SourceView::Bytes { file_name, .. } => source.name(style) == file_name,
            SourceView::File(p) => match path::file_name(p, style) {
                Some(n) => source.name(style) == n,
                None => source.name(style) == seq!['a', 'u', 'd', 'i', 'o'],
            },
        },
        path::file_name(source.name(style), style) == Some(source.name(style)) ==> match (
            source.extension(style),
            path::extension(source.name(style)),
        ) {
            (Some(a), Some(b)) => a == text::lower(b),
            (None, None) => true,
            _ => false,
        },
{
    reveal_strlit("audio");
    assert("audio"@ =~= seq!['a', 'u', 'd', 'i', 'o']);
}

/// Each codec goes by its own name.
pub proof fn law_codec_names(codec: AudioCodec)
    ensures
        codec.name() == "mp3"@ <==> codec == AudioCodec::Mp3,
        codec.name() == "wav"@ <==> codec == AudioCodec::Wav,
        codec.name() == "pcm"@ <==> codec == AudioCodec::Pcm,
        codec.name() == "opus"@ <==> codec == AudioCodec::Opus,
        codec.name() == "flac"@ <==> codec == AudioCodec::Flac,
        codec.name() == "aac"@ <==> codec == AudioCodec::Aac,
        codec.name() == "mulaw"@ <==> codec == AudioCodec::Mulaw,
        codec.name() == "alaw"@ <==> codec == AudioCodec::Alaw,
{
    lemma_codec_letters();
}

proof fn lemma_codec_letters()
    ensures
        "mp3"@ =~= seq!['m', 'p', '3'],
        "wav"@ =~= seq!['w', 'a', 'v'],
        "pcm"@ =~= seq!['p', 'c', 'm'],
        "opus"@ =~= seq!['o', 'p', 'u', 's'],
        "flac"@ =~= seq!['f', 'l', 'a', 'c'],
        "aac"@ =~= seq!['a', 'a', 'c'],
        "mulaw"@ =~= seq!['m', 'u', 'l', 'a', 'w'],
        "alaw"@ =~= seq!['a', 'l', 'a', 'w'],
        "mp3"@[0] == 'm' && "wav"@[0] == 'w' && "pcm"@[0] == 'p' && "aac"@[0] == 'a',
        "opus"@[0] == 'o' && "flac"@[0] == 'f' && "alaw"@[0] == 'a',
{
    reveal_strlit("mp3");
    reveal_strlit("wav");
    reveal_strlit("pcm");
    reveal_strlit("opus");
    reveal_strlit("flac");
    reveal_strlit("aac");
    reveal_strlit("mulaw");
    reveal_strlit("alaw");
}

/// Reading the name of a codec gives that codec, and a text that is no name of
/// one gives none.
pub proof fn law_codec_is_read_by_its_name(s: Seq<char>)
    ensures
        match AudioCodec::named(s) {
            Some(codec) => s == codec.name(),
            None => s != "mp3"@ && s != "wav"@ && s != "pcm"@ && s != "opus"@ && s != "flac"@ && s
                != "aac"@ && s != "mulaw"@ && s != "alaw"@,
        },
{
}

// ---------------------------------------------------------------------------
// What views show
// ---------------------------------------------------------------------------

/// The views of words, segments and transcripts show each field as it is.
pub proof fn law_views_of_transcripts(w: Word, s: Segment, t: Transcript)
    ensures
        w.deep_view().text == w.text@,
        w.deep_view().start == w.start,
        w.deep_view().end == w.end,
        w.deep_view().speaker == w.speaker.deep_view(),
        w.deep_view().channel == w.channel,
        w.deep_view().confidence == w.confidence,
        s.deep_view().start == s.start,
        s.deep_view().end == s.end,
        s.deep_view().text == s.text@,
        s.deep_view().speaker == s.speaker.deep_view(),
        s.deep_view().channel == s.channel,
        t.deep_view().text == t.text@,
        t.deep_view().language == t.language.deep_view(),
        t.deep_view().duration == t.duration,
        t.deep_view().provider == t.provider,
        t.deep_view().model == t.model.deep_view(),
        t.deep_view().segments.len() == t.segments@.len(),
        forall|i: int|
            0 <= i < t.segments@.len() ==> (#[trigger] t.deep_view().segments[i])
                == t.segments@[i].deep_view(),
        t.deep_view().words.len() == t.words@.len(),
        forall|i: int|
            0 <= i < t.words@.len() ==> (#[trigger] t.deep_view().words[i])
                == t.words@[i].deep_view(),
{
}

/// The views of requests, sources and results show each field as it is.
pub proof fn law_views_of_requests(r: TranscribeRequest, s: AudioSource, o: AudioOutput)
    ensures
        r.deep_view().source == r.source.deep_view(),
        match (r.deep_view().language, r.language) {
            (Some(a), Some(b)) => a == b.0@,
            (None, None) => true,
            _ => false,
        },
        r.deep_view().model == r.model.deep_view(),
        r.deep_view().diarize == r.diarize,
        r.deep_view().word_timestamps == r.word_timestamps,
        r.deep_view().keyterms == r.keyterms.deep_view(),
        r.deep_view().prompt == r.prompt.deep_view(),
        match (s, s.deep_view()) {
            (AudioSource::File(a), SourceView::File(b)) => a@ == b,
            (
                AudioSource::Bytes { data, file_name, mime },
                SourceView::Bytes { data: d, file_name: n, mime: m },
            ) => data@ == d && file_name@ == n && mime@ == m,
            _ => false,
        },
        o.deep_view().bytes == o.bytes@,
        o.deep_view().mime == o.mime@,
        o.deep_view().codec == o.codec,
        o.deep_view().provider == o.provider,
        o.deep_view().duration == o.duration,
        o.deep_view().metadata is Some <==> o.metadata is Some,
        o.metadata matches Some(v) ==> o.deep_view().metadata == Some(crate::json::json_of(v)),
{
}

/// Audio of which nothing more is known is its bytes, in the codec and of the type that
/// they are said to have.
pub proof fn law_plain_audio(bytes: Seq<u8>, mime: Seq<char>, codec: AudioCodec, provider: ProviderId)
    ensures
        ({
            let o = AudioOutputView::plain(bytes, mime, codec, provider);
            o.bytes == bytes && o.mime == mime && o.codec == codec && o.provider == provider
                && o.duration is None && o.metadata is None
        }),
{
}

} // verus!
