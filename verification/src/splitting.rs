//! Splitting of long texts into chunks for synthesis: at sentence ends where
//! that is possible, else between words.

use crate::text;
use vstd::prelude::*;

verus! {

// ---------------------------------------------------------------------------
// Sentences and words
// ---------------------------------------------------------------------------

/// Whether a sentence ends with this character: punctuation or a line end.
pub open spec fn ends_piece(c: char) -> bool {
    c == '.' || c == '!' || c == '?' || c == '\n'
}

/// A text cut into pieces: those that are complete, and the one that goes on.
pub struct Cut {
    pub done: Seq<Seq<char>>,
    pub open: Seq<char>,
}

impl Cut {
    /// All pieces, the open one last.
    pub open spec fn all(self) -> Seq<Seq<char>> {
        self.done.push(self.open)
    }
}

/// A text cut after every character that ends a sentence.
pub open spec fn sentence_cut(s: Seq<char>) -> Cut
    decreases s.len(),
{
    if s.len() == 0 {
        Cut { done: Seq::empty(), open: Seq::empty() }
    } else {
        let before = sentence_cut(s.drop_last());
        let open = before.open.push(s.last());
        if ends_piece(s.last()) {
            Cut { done: before.done.push(open), open: Seq::empty() }
        } else {
            Cut { done: before.done, open }
        }
    }
}

/// The pieces that are not blank, trimmed.
pub open spec fn solid_pieces(pieces: Seq<Seq<char>>) -> Seq<Seq<char>>
    decreases pieces.len(),
{
    if pieces.len() == 0 {
        Seq::empty()
    } else if text::is_blank(pieces.last()) {
        solid_pieces(pieces.drop_last())
    } else {
        solid_pieces(pieces.drop_last()).push(text::trim(pieces.last()))
    }
}

/// The sentences of a text: trimmed, and none of them blank.
pub open spec fn sentences(s: Seq<char>) -> Seq<Seq<char>> {
    solid_pieces(sentence_cut(s).all())
}

/// A text cut at white space.
pub open spec fn word_cut(s: Seq<char>) -> Cut
    decreases s.len(),
{
    if s.len() == 0 {
        Cut { done: Seq::empty(), open: Seq::empty() }
    } else {
        let before = word_cut(s.drop_last());
        if !text::is_white_space(s.last()) {
            Cut { done: before.done, open: before.open.push(s.last()) }
        } else if before.open.len() > 0 {
            Cut { done: before.done.push(before.open), open: Seq::empty() }
        } else {
            before
        }
    }
}

/// The words of a text: the runs of characters that are not white space.
pub open spec fn words(s: Seq<char>) -> Seq<Seq<char>> {
    let cut = word_cut(s);
    if cut.open.len() > 0 {
        cut.all()
    } else {
        cut.done
    }
}

fn push_piece(out: &mut Vec<String>, piece: &str)
    ensures
        forall|pieces: Seq<Seq<char>>| #[trigger]
            solid_pieces(pieces) == old(out).deep_view() ==> final(out).deep_view()
                == solid_pieces(pieces.push(piece@)),
{
    let ghost before = out.deep_view();
    assert forall|pieces: Seq<Seq<char>>| (#[trigger] pieces.push(piece@)).drop_last() == pieces
        && pieces.push(piece@).last() == piece@ by {
        assert(pieces.push(piece@).drop_last() =~= pieces);
    }
    let t = text::trimmed(piece);
    if !t.is_empty() {
        out.push(t.to_owned());
        assert(out.deep_view() =~= before.push(t@));
    }
}

/// The sentences of a text.
pub fn sentences_of(s: &str) -> (out: Vec<String>)
    ensures
        out.deep_view() == sentences(s@),
{
    let x = text::chars_of(s);
    let mut out: Vec<String> = Vec::new();
    let mut open = String::new();
    let mut i: usize = 0;
    assert(x@.take(0) =~= Seq::empty());
    assert(out.deep_view() =~= solid_pieces(Seq::empty()));
    while i < x.len()
        invariant
            i <= x@.len(),
            open@ == sentence_cut(x@.take(i as int)).open,
            out.deep_view() == solid_pieces(sentence_cut(x@.take(i as int)).done),
        decreases x@.len() - i,
    {
        assert(x@.take(i + 1).drop_last() =~= x@.take(i as int));
        let c = x[i];
        open.push(c);
        if c == '.' || c == '!' || c == '?' || c == '\n' {
            push_piece(&mut out, &open);
            open = String::new();
            assert(open@ =~= Seq::<char>::empty());
        }
        i = i + 1;
    }
    assert(x@.take(i as int) =~= x@);
    push_piece(&mut out, &open);
    out
}

/// The words of a text.
pub fn words_of(s: &str) -> (out: Vec<String>)
    ensures
        out.deep_view() == words(s@),
{
    let x = text::chars_of(s);
    let mut out: Vec<String> = Vec::new();
    let mut open = String::new();
    let mut i: usize = 0;
    assert(x@.take(0) =~= Seq::empty());
    assert(out.deep_view() =~= Seq::empty());
    while i < x.len()
        invariant
            i <= x@.len(),
            open@ == word_cut(x@.take(i as int)).open,
            out.deep_view() == word_cut(x@.take(i as int)).done,
        decreases x@.len() - i,
    {
        assert(x@.take(i + 1).drop_last() =~= x@.take(i as int));
        let c = x[i];
        if !text::char_is_white_space(c) {
            open.push(c);
        } else if !open.as_str().is_empty() {
            let ghost before = out.deep_view();
            let ghost word = open@;
            out.push(open);
            open = String::new();
            assert(out.deep_view() =~= before.push(word));
            assert(open@ =~= Seq::<char>::empty());
        }
        i = i + 1;
    }
    assert(x@.take(i as int) =~= x@);
    if !open.as_str().is_empty() {
        let ghost before = out.deep_view();
        let ghost word = open@;
        out.push(open);
        assert(out.deep_view() =~= before.push(word));
    }
    out
}

// ---------------------------------------------------------------------------
// Chunks
// ---------------------------------------------------------------------------

/// Chunks on their way: those that are complete, and the one that still grows.
pub struct Chunks {
    pub done: Seq<Seq<char>>,
    pub current: Seq<char>,
}

impl Chunks {
    /// The chunks with the growing one completed, where it has begun.
    pub open spec fn closed(self) -> Chunks {
        if self.current.len() > 0 {
            Chunks { done: self.done.push(text::trim(self.current)), current: Seq::empty() }
        } else {
            self
        }
    }

    /// The chunks with a piece added: to the growing one where it stays within
    /// `max` characters, else to a new one.
    pub open spec fn with_piece(self, piece: Seq<char>, max: nat) -> Chunks {
        let before = if self.current.len() > 0 && self.current.len() + 1 + piece.len() > max {
            self.closed()
        } else {
            self
        };
        Chunks {
            done: before.done,
            current: if before.current.len() > 0 {
                before.current.push(' ') + piece
            } else {
                piece
            },
        }
    }

    /// The chunks with pieces added, from first to last.
    pub open spec fn with_pieces(self, pieces: Seq<Seq<char>>, max: nat) -> Chunks
        decreases pieces.len(),
    {
        if pieces.len() == 0 {
            self
        } else {
            self.with_pieces(pieces.drop_last(), max).with_piece(pieces.last(), max)
        }
    }

    /// The chunks with a sentence added: whole, or where it is longer than
    /// `max` characters word by word from a new chunk on.
    pub open spec fn with_sentence(self, sentence: Seq<char>, max: nat) -> Chunks {
        if sentence.len() > max {
            self.closed().with_pieces(words(sentence), max)
        } else {
            self.with_piece(sentence, max)
        }
    }

    /// The chunks with sentences added, from first to last.
    pub open spec fn with_sentences(self, list: Seq<Seq<char>>, max: nat) -> Chunks
        decreases list.len(),
    {
        if list.len() == 0 {
            self
        } else {
            self.with_sentences(list.drop_last(), max).with_sentence(list.last(), max)
        }
    }

    /// No chunk at all.
    pub open spec fn none() -> Chunks {
        Chunks { done: Seq::empty(), current: Seq::empty() }
    }
}

/// The chunks of a text.
pub open spec fn chunks(s: Seq<char>, max: nat) -> Seq<Seq<char>> {
    Chunks::none().with_sentences(sentences(s), max).closed().done
}

struct Splitter {
    done: Vec<String>,
    current: String,
}

impl DeepView for Splitter {
    type V = Chunks;

    closed spec fn deep_view(&self) -> Chunks {
        Chunks { done: self.done.deep_view(), current: self.current@ }
    }
}

impl Splitter {
    fn close(&mut self)
        ensures
            final(self).deep_view() == old(self).deep_view().closed(),
    {
        if !self.current.as_str().is_empty() {
            let ghost before = self.done.deep_view();
            let chunk = text::trimmed(&self.current).to_owned();
            self.done.push(chunk);
            assert(self.done.deep_view() =~= before.push(chunk@));
            self.current = String::new();
            assert(self.current@ =~= Seq::<char>::empty());
        }
    }

    fn add_piece(&mut self, piece: &str, max: usize)
        ensures
            final(self).deep_view() == old(self).deep_view().with_piece(piece@, max as nat),
    {
        let total: u128 = text::char_count(&self.current) as u128 + 1 + text::char_count(
            piece,
        ) as u128;
        if !self.current.as_str().is_empty() && total > max as u128 {
            self.close();
        }
        if !self.current.as_str().is_empty() {
            self.current.push(' ');
            self.current.append(piece);
        } else {
            self.current = piece.to_owned();
        }
    }

    fn add_pieces(&mut self, pieces: &Vec<String>, max: usize)
        ensures
            final(self).deep_view() == old(self).deep_view().with_pieces(
                pieces.deep_view(),
                max as nat,
            ),
    {
        let ghost start = self.deep_view();
        let ghost all = pieces.deep_view();
        let mut i: usize = 0;
        while i < pieces.len()
            invariant
                i <= pieces@.len(),
                all == pieces.deep_view(),
                self.deep_view() == start.with_pieces(all.take(i as int), max as nat),
            decreases pieces@.len() - i,
        {
            assert(all.take(i + 1).drop_last() =~= all.take(i as int));
            self.add_piece(&pieces[i], max);
            i = i + 1;
        }
        assert(all.take(i as int) =~= all);
    }
}

/// Splits a text into chunks of at most `max_chars` characters, between
/// sentences where it can, else between words. Only a word that is longer than
/// that makes a longer chunk.
pub fn split_long_text(s: &str, max_chars: usize) -> (out: Vec<String>)
    ensures
        out.deep_view() == chunks(s@, max_chars as nat),
{
    let list = sentences_of(s);
    let ghost all = list.deep_view();
    let mut splitter = Splitter { done: Vec::new(), current: String::new() };
    assert(splitter.done.deep_view() =~= Seq::empty());
    assert(splitter.current@ =~= Seq::<char>::empty());
    let mut i: usize = 0;
    while i < list.len()
        invariant
            i <= list@.len(),
            all == list.deep_view(),
            splitter.deep_view() == Chunks::none().with_sentences(
                all.take(i as int),
                max_chars as nat,
            ),
        decreases list@.len() - i,
    {
        assert(all.take(i + 1).drop_last() =~= all.take(i as int));
        if text::char_count(&list[i]) > max_chars {
            splitter.close();
            splitter.add_pieces(&words_of(&list[i]), max_chars);
        } else {
            splitter.add_piece(&list[i], max_chars);
        }
        i = i + 1;
    }
    assert(all.take(i as int) =~= all);
    splitter.close();
    splitter.done
}

// ---------------------------------------------------------------------------
// Nothing is lost
// ---------------------------------------------------------------------------

/// The characters of a text that are not white space, in order.
pub open spec fn solid(s: Seq<char>) -> Seq<char>
    decreases s.len(),
{
    if s.len() == 0 {
        Seq::empty()
    } else if text::is_white_space(s.last()) {
        solid(s.drop_last())
    } else {
        solid(s.drop_last()).push(s.last())
    }
}

proof fn lemma_solid_add(a: Seq<char>, b: Seq<char>)
    ensures
        solid(a + b) == solid(a) + solid(b),
    decreases b.len(),
{
    if b.len() == 0 {
        assert(a + b =~= a);
        assert(solid(a) + solid(b) =~= solid(a));
    } else {
        assert((a + b).drop_last() =~= a + b.drop_last());
        lemma_solid_add(a, b.drop_last());
        assert(solid(a + b) =~= solid(a) + solid(b));
    }
}

proof fn lemma_solid_trim_start(s: Seq<char>)
    ensures
        solid(text::trim_start(s)) == solid(s),
        text::trim_start(s).len() <= s.len(),
    decreases s.len(),
{
    if s.len() > 0 && text::is_white_space(s.first()) {
        lemma_solid_trim_start(s.drop_first());
        let head = seq![s.first()];
        assert(s =~= head + s.drop_first());
        lemma_solid_add(head, s.drop_first());
        assert(solid(head) =~= Seq::<char>::empty()) by {
            reveal_with_fuel(solid, 2);
        }
        assert(solid(head) + solid(s.drop_first()) =~= solid(s.drop_first()));
    }
}

proof fn lemma_solid_trim_end(s: Seq<char>)
    ensures
        solid(text::trim_end(s)) == solid(s),
        text::trim_end(s).len() <= s.len(),
    decreases s.len(),
{
    if s.len() > 0 && text::is_white_space(s.last()) {
        lemma_solid_trim_end(s.drop_last());
    }
}

proof fn lemma_solid_trim(s: Seq<char>)
    ensures
        solid(text::trim(s)) == solid(s),
        text::trim(s).len() <= s.len(),
        text::is_blank(s) ==> solid(s).len() == 0,
{
    lemma_solid_trim_start(s);
    lemma_solid_trim_end(text::trim_start(s));
}

proof fn lemma_concat_push(parts: Seq<Seq<char>>, part: Seq<char>)
    ensures
        text::concat(parts.push(part)) == text::concat(parts) + part,
{
    assert(parts.push(part).drop_last() =~= parts);
}

proof fn lemma_sentence_cut(s: Seq<char>)
    ensures
        text::concat(sentence_cut(s).done) + sentence_cut(s).open == s,
    decreases s.len(),
{
    let cut = sentence_cut(s);
    if s.len() == 0 {
        assert(text::concat(cut.done) + cut.open =~= s);
    } else {
        let before = sentence_cut(s.drop_last());
        lemma_sentence_cut(s.drop_last());
        lemma_concat_push(before.done, before.open.push(s.last()));
        assert(text::concat(cut.done) + cut.open =~= s.drop_last().push(s.last()));
        assert(s.drop_last().push(s.last()) =~= s);
    }
}

proof fn lemma_solid_pieces(pieces: Seq<Seq<char>>)
    ensures
        solid(text::concat(solid_pieces(pieces))) == solid(text::concat(pieces)),
    decreases pieces.len(),
{
    if pieces.len() > 0 {
        let head = pieces.drop_last();
        let last = pieces.last();
        lemma_solid_pieces(head);
        lemma_solid_add(text::concat(head), last);
        lemma_solid_trim(last);
        if text::is_blank(last) {
            assert(solid(text::concat(head)) + solid(last) =~= solid(text::concat(head)));
        } else {
            lemma_concat_push(solid_pieces(head), text::trim(last));
            lemma_solid_add(text::concat(solid_pieces(head)), text::trim(last));
        }
    }
}

proof fn lemma_sentences_solid(s: Seq<char>)
    ensures
        solid(text::concat(sentences(s))) == solid(s),
{
    let cut = sentence_cut(s);
    lemma_sentence_cut(s);
    lemma_concat_push(cut.done, cut.open);
    lemma_solid_pieces(cut.all());
}

proof fn lemma_word_cut(s: Seq<char>)
    ensures
        solid(text::concat(word_cut(s).done)) + word_cut(s).open == solid(s),
        solid(word_cut(s).open) == word_cut(s).open,
    decreases s.len(),
{
    let cut = word_cut(s);
    if s.len() == 0 {
        assert(solid(text::concat(cut.done)) + cut.open =~= solid(s));
    } else {
        let before = word_cut(s.drop_last());
        lemma_word_cut(s.drop_last());
        if !text::is_white_space(s.last()) {
            assert(cut.open.drop_last() =~= before.open);
            assert(solid(text::concat(cut.done)) + cut.open =~= solid(s));
        } else if before.open.len() > 0 {
            lemma_concat_push(before.done, before.open);
            lemma_solid_add(text::concat(before.done), before.open);
            assert(solid(text::concat(cut.done)) + cut.open =~= solid(s));
        }
    }
}

proof fn lemma_words_solid(s: Seq<char>)
    ensures
        solid(text::concat(words(s))) == solid(s),
{
    let cut = word_cut(s);
    lemma_word_cut(s);
    lemma_concat_push(cut.done, cut.open);
    lemma_solid_add(text::concat(cut.done), cut.open);
    if cut.open.len() == 0 {
        assert(solid(text::concat(cut.done)) + cut.open =~= solid(text::concat(cut.done)));
    }
}

spec fn content(c: Chunks) -> Seq<char> {
    solid(text::concat(c.done)) + solid(c.current)
}

proof fn lemma_closed_content(c: Chunks)
    ensures
        content(c.closed()) == content(c),
{
    if c.current.len() > 0 {
        lemma_concat_push(c.done, text::trim(c.current));
        lemma_solid_add(text::concat(c.done), text::trim(c.current));
        lemma_solid_trim(c.current);
        assert(content(c.closed()) =~= content(c));
    }
}

proof fn lemma_piece_content(c: Chunks, piece: Seq<char>, max: nat)
    ensures
        content(c.with_piece(piece, max)) == content(c) + solid(piece),
{
    let before = if c.current.len() > 0 && c.current.len() + 1 + piece.len() > max {
        c.closed()
    } else {
        c
    };
    lemma_closed_content(c);
    let joined = before.current.push(' ');
    assert(joined.drop_last() =~= before.current);
    lemma_solid_add(joined, piece);
    assert(content(c.with_piece(piece, max)) =~= content(before) + solid(piece));
}

proof fn lemma_pieces_content(c: Chunks, pieces: Seq<Seq<char>>, max: nat)
    ensures
        content(c.with_pieces(pieces, max)) == content(c) + solid(text::concat(pieces)),
    decreases pieces.len(),
{
    if pieces.len() == 0 {
        assert(content(c) + solid(text::concat(pieces)) =~= content(c));
    } else {
        lemma_pieces_content(c, pieces.drop_last(), max);
        lemma_piece_content(c.with_pieces(pieces.drop_last(), max), pieces.last(), max);
        lemma_solid_add(text::concat(pieces.drop_last()), pieces.last());
        assert(content(c.with_pieces(pieces, max)) =~= content(c) + solid(text::concat(pieces)));
    }
}

proof fn lemma_sentences_content(c: Chunks, list: Seq<Seq<char>>, max: nat)
    ensures
        content(c.with_sentences(list, max)) == content(c) + solid(text::concat(list)),
    decreases list.len(),
{
    if list.len() == 0 {
        assert(content(c) + solid(text::concat(list)) =~= content(c));
    } else {
        let before = c.with_sentences(list.drop_last(), max);
        lemma_sentences_content(c, list.drop_last(), max);
        lemma_closed_content(before);
        lemma_pieces_content(before.closed(), words(list.last()), max);
        lemma_words_solid(list.last());
        lemma_piece_content(before, list.last(), max);
        lemma_solid_add(text::concat(list.drop_last()), list.last());
        assert(content(c.with_sentences(list, max)) =~= content(c) + solid(text::concat(list)));
    }
}

/// The chunks hold every character of the text that is not white space, in
/// order, and no other such character.
pub proof fn law_chunks_lose_nothing(s: Seq<char>, max: nat)
    ensures
        solid(text::concat(chunks(s, max))) == solid(s),
{
    let list = sentences(s);
    let all = Chunks::none().with_sentences(list, max);
    lemma_sentences_content(Chunks::none(), list, max);
    lemma_sentences_solid(s);
    lemma_closed_content(all);
    assert(content(Chunks::none()) =~= Seq::<char>::empty());
    assert(content(Chunks::none()) + solid(text::concat(list)) =~= solid(s));
    assert(all.closed().current.len() == 0);
    assert(content(all.closed()) =~= solid(text::concat(all.closed().done)));
}

// ---------------------------------------------------------------------------
// No chunk is blank or too long
// ---------------------------------------------------------------------------

/// Whether a text is one word: no character of it is white space.
pub open spec fn is_one_word(s: Seq<char>) -> bool {
    forall|i: int| 0 <= i < s.len() ==> !text::is_white_space(#[trigger] s[i])
}

/// Whether a text makes a good chunk: not blank, and not longer than `max`
/// characters unless it is one word.
pub open spec fn is_good_chunk(s: Seq<char>, max: nat) -> bool {
    !text::is_blank(s) && (s.len() <= max || is_one_word(s))
}

proof fn lemma_blank(s: Seq<char>)
    ensures
        text::is_blank(s) <==> solid(s).len() == 0,
    decreases s.len(),
{
    lemma_solid_trim(s);
    if solid(s).len() == 0 {
        lemma_no_solid(s);
        lemma_trim_start_blank(s);
    }
}

proof fn lemma_no_solid(s: Seq<char>)
    requires
        solid(s).len() == 0,
    ensures
        forall|i: int| 0 <= i < s.len() ==> text::is_white_space(#[trigger] s[i]),
    decreases s.len(),
{
    if s.len() > 0 {
        lemma_no_solid(s.drop_last());
        assert forall|i: int| 0 <= i < s.len() implies text::is_white_space(#[trigger] s[i]) by {
            if i < s.len() - 1 {
                assert(s.drop_last()[i] == s[i]);
            }
        }
    }
}

proof fn lemma_trim_start_blank(s: Seq<char>)
    requires
        forall|i: int| 0 <= i < s.len() ==> text::is_white_space(#[trigger] s[i]),
    ensures
        text::trim_start(s).len() == 0,
    decreases s.len(),
{
    if s.len() > 0 {
        assert(text::is_white_space(s[0]));
        assert forall|i: int| 0 <= i < s.drop_first().len() implies text::is_white_space(
            #[trigger] s.drop_first()[i],
        ) by {
            assert(s.drop_first()[i] == s[i + 1]);
        }
        lemma_trim_start_blank(s.drop_first());
    }
}

proof fn lemma_trim_one_word(s: Seq<char>)
    requires
        is_one_word(s),
    ensures
        text::trim(s) == s,
{
    if s.len() > 0 {
        assert(!text::is_white_space(s[0]));
        assert(!text::is_white_space(s[s.len() - 1]));
    }
}

spec fn is_good(c: Chunks, max: nat) -> bool {
    &&& forall|i: int| 0 <= i < c.done.len() ==> is_good_chunk(#[trigger] c.done[i], max)
    &&& c.current.len() > 0 ==> is_good_chunk(c.current, max)
}

proof fn lemma_closed_good(c: Chunks, max: nat)
    requires
        is_good(c, max),
    ensures
        is_good(c.closed(), max),
{
    if c.current.len() > 0 {
        lemma_solid_trim(c.current);
        lemma_blank(c.current);
        lemma_blank(text::trim(c.current));
        if is_one_word(c.current) {
            lemma_trim_one_word(c.current);
        }
    }
}

proof fn lemma_piece_good(c: Chunks, piece: Seq<char>, max: nat)
    requires
        is_good(c, max),
        is_good_chunk(piece, max),
    ensures
        is_good(c.with_piece(piece, max), max),
{
    lemma_closed_good(c, max);
    let before = if c.current.len() > 0 && c.current.len() + 1 + piece.len() > max {
        c.closed()
    } else {
        c
    };
    let joined = before.current.push(' ') + piece;
    lemma_solid_add(before.current.push(' '), piece);
    lemma_blank(piece);
    lemma_blank(joined);
}

proof fn lemma_pieces_good(c: Chunks, pieces: Seq<Seq<char>>, max: nat)
    requires
        is_good(c, max),
        forall|i: int| 0 <= i < pieces.len() ==> is_good_chunk(#[trigger] pieces[i], max),
    ensures
        is_good(c.with_pieces(pieces, max), max),
    decreases pieces.len(),
{
    if pieces.len() > 0 {
        assert forall|i: int| 0 <= i < pieces.drop_last().len() implies is_good_chunk(
            #[trigger] pieces.drop_last()[i],
            max,
        ) by {
            assert(pieces.drop_last()[i] == pieces[i]);
        }
        lemma_pieces_good(c, pieces.drop_last(), max);
        assert(is_good_chunk(pieces[pieces.len() - 1], max));
        lemma_piece_good(c.with_pieces(pieces.drop_last(), max), pieces.last(), max);
    }
}

proof fn lemma_word_cut_good(s: Seq<char>, max: nat)
    ensures
        forall|i: int|
            0 <= i < word_cut(s).done.len() ==> is_good_chunk(#[trigger] word_cut(s).done[i], max),
        is_one_word(word_cut(s).open),
        word_cut(s).open.len() > 0 ==> is_good_chunk(word_cut(s).open, max),
    decreases s.len(),
{
    if s.len() > 0 {
        lemma_word_cut_good(s.drop_last(), max);
        let open = word_cut(s).open;
        if open.len() > 0 {
            lemma_trim_one_word(open);
        }
    }
}

proof fn lemma_solid_pieces_nonblank(pieces: Seq<Seq<char>>)
    ensures
        forall|i: int|
            0 <= i < solid_pieces(pieces).len() ==> !text::is_blank(
                #[trigger] solid_pieces(pieces)[i],
            ),
    decreases pieces.len(),
{
    if pieces.len() > 0 {
        let before = solid_pieces(pieces.drop_last());
        lemma_solid_pieces_nonblank(pieces.drop_last());
        lemma_solid_trim(pieces.last());
        lemma_blank(pieces.last());
        lemma_blank(text::trim(pieces.last()));
        assert forall|i: int| 0 <= i < solid_pieces(pieces).len() implies !text::is_blank(
            #[trigger] solid_pieces(pieces)[i],
        ) by {
            if i < before.len() {
                assert(solid_pieces(pieces)[i] == before[i]);
            }
        }
    }
}

proof fn lemma_sentences_good(c: Chunks, list: Seq<Seq<char>>, max: nat)
    requires
        is_good(c, max),
        forall|i: int| 0 <= i < list.len() ==> !text::is_blank(#[trigger] list[i]),
    ensures
        is_good(c.with_sentences(list, max), max),
    decreases list.len(),
{
    if list.len() > 0 {
        assert forall|i: int| 0 <= i < list.drop_last().len() implies !text::is_blank(
            #[trigger] list.drop_last()[i],
        ) by {
            assert(list.drop_last()[i] == list[i]);
        }
        lemma_sentences_good(c, list.drop_last(), max);
        let before = c.with_sentences(list.drop_last(), max);
        let sentence = list.last();
        assert(!text::is_blank(list[list.len() - 1]));
        if sentence.len() > max {
            lemma_closed_good(before, max);
            lemma_word_cut_good(sentence, max);
            lemma_pieces_good(before.closed(), words(sentence), max);
        } else {
            lemma_piece_good(before, sentence, max);
        }
    }
}

/// No chunk is blank, and none is longer than `max` characters unless it is a
/// single word.
pub proof fn law_chunks_are_within_the_limit(s: Seq<char>, max: nat)
    ensures
        forall|i: int|
            0 <= i < chunks(s, max).len() ==> is_good_chunk(#[trigger] chunks(s, max)[i], max),
{
    lemma_solid_pieces_nonblank(sentence_cut(s).all());
    lemma_sentences_good(Chunks::none(), sentences(s), max);
    lemma_closed_good(Chunks::none().with_sentences(sentences(s), max), max);
}

// ---------------------------------------------------------------------------
// Sentences stay whole
// ---------------------------------------------------------------------------

/// Sentences in groups: those that are complete, and the one that still grows.
pub struct Groups {
    pub done: Seq<Seq<Seq<char>>>,
    pub open: Seq<Seq<char>>,
}

/// Sentences with a space between each two.
pub open spec fn spaced(list: Seq<Seq<char>>) -> Seq<char> {
    text::join(list, seq![' '])
}

impl Groups {
    /// The groups with a sentence added: to the growing one where its text
    /// stays within `max` characters, else to a new one.
    pub open spec fn with_sentence(self, sentence: Seq<char>, max: nat) -> Groups {
        if self.open.len() > 0 && spaced(self.open).len() + 1 + sentence.len() > max {
            Groups { done: self.done.push(self.open), open: seq![sentence] }
        } else {
            Groups { done: self.done, open: self.open.push(sentence) }
        }
    }

    /// All groups, the growing one last where it has begun.
    pub open spec fn all(self) -> Seq<Seq<Seq<char>>> {
        if self.open.len() > 0 {
            self.done.push(self.open)
        } else {
            self.done
        }
    }
}

/// Sentences in groups, from first to last.
pub open spec fn grouped(list: Seq<Seq<char>>, max: nat) -> Groups
    decreases list.len(),
{
    if list.len() == 0 {
        Groups { done: Seq::empty(), open: Seq::empty() }
    } else {
        grouped(list.drop_last(), max).with_sentence(list.last(), max)
    }
}

/// The sentences of groups, one after another.
pub open spec fn ungrouped(groups: Seq<Seq<Seq<char>>>) -> Seq<Seq<char>>
    decreases groups.len(),
{
    if groups.len() == 0 {
        Seq::empty()
    } else {
        ungrouped(groups.drop_last()) + groups.last()
    }
}

/// The texts of groups.
pub open spec fn group_texts(groups: Seq<Seq<Seq<char>>>) -> Seq<Seq<char>> {
    Seq::new(groups.len(), |i: int| spaced(groups[i]))
}

/// Whether a text is its own trimmed form and not blank.
spec fn is_trimmed(s: Seq<char>) -> bool {
    s.len() > 0 && !text::is_white_space(s.first()) && !text::is_white_space(s.last())
}

proof fn lemma_trim_ends(s: Seq<char>)
    ensures
        text::trim_start(s).len() > 0 ==> !text::is_white_space(text::trim_start(s).first()),
        text::trim_end(s).len() > 0 ==> !text::is_white_space(text::trim_end(s).last())
            && text::trim_end(s).first() == s.first(),
    decreases s.len(),
{
    if s.len() > 0 {
        lemma_trim_ends(s.drop_first());
        lemma_trim_ends(s.drop_last());
    }
}

proof fn lemma_solid_pieces_trimmed(pieces: Seq<Seq<char>>)
    ensures
        forall|i: int|
            0 <= i < solid_pieces(pieces).len() ==> is_trimmed(#[trigger] solid_pieces(pieces)[i]),
    decreases pieces.len(),
{
    if pieces.len() > 0 {
        let before = solid_pieces(pieces.drop_last());
        lemma_solid_pieces_trimmed(pieces.drop_last());
        let last = pieces.last();
        lemma_trim_ends(last);
        lemma_trim_ends(text::trim_start(last));
        assert forall|i: int| 0 <= i < solid_pieces(pieces).len() implies is_trimmed(
            #[trigger] solid_pieces(pieces)[i],
        ) by {
            if i < before.len() {
                assert(solid_pieces(pieces)[i] == before[i]);
            }
        }
    }
}

proof fn lemma_spaced_push(list: Seq<Seq<char>>, s: Seq<char>)
    ensures
        spaced(list.push(s)) == if list.len() == 0 {
            s
        } else {
            spaced(list).push(' ') + s
        },
{
    assert(list.push(s).drop_last() =~= list);
    if list.len() > 0 {
        assert(spaced(list) + seq![' '] =~= spaced(list).push(' '));
    }
}

/// What groups and chunks have in common on their way: the chunks are the texts
/// of the groups.
spec fn agree(c: Chunks, g: Groups) -> bool {
    &&& c.done == group_texts(g.done)
    &&& c.current == spaced(g.open)
    &&& g.open.len() == 0 <==> c.current.len() == 0
    &&& c.current.len() > 0 ==> is_trimmed(c.current)
}

proof fn lemma_agree(list: Seq<Seq<char>>, max: nat)
    requires
        forall|i: int|
            0 <= i < list.len() ==> is_trimmed(#[trigger] list[i]) && list[i].len() <= max,
    ensures
        agree(Chunks::none().with_sentences(list, max), grouped(list, max)),
        ungrouped(grouped(list, max).all()) == list,
    decreases list.len(),
{
    if list.len() == 0 {
        assert(group_texts(Seq::empty()) =~= Seq::<Seq<char>>::empty());
        assert(ungrouped(grouped(list, max).all()) =~= list);
    } else {
        let head = list.drop_last();
        let s = list.last();
        assert forall|i: int| 0 <= i < head.len() implies is_trimmed(#[trigger] head[i])
            && head[i].len() <= max by {
            assert(head[i] == list[i]);
        }
        assert(is_trimmed(list[list.len() - 1]));
        lemma_agree(head, max);
        let c = Chunks::none().with_sentences(head, max);
        let g = grouped(head, max);
        let next = g.with_sentence(s, max);
        lemma_spaced_push(g.open, s);
        lemma_spaced_push(Seq::empty(), s);
        assert(seq![s] =~= Seq::<Seq<char>>::empty().push(s));
        if g.open.len() > 0 && spaced(g.open).len() + 1 + s.len() > max {
            text::lemma_trim_solid(c.current);
            assert(group_texts(g.done.push(g.open)) =~= group_texts(g.done).push(spaced(g.open)));
            assert(next.all().drop_last() =~= g.all());
            assert(ungrouped(next.all()) =~= list);
        } else {
            if g.open.len() > 0 {
                let joined = c.current.push(' ') + s;
                assert(joined.first() == c.current.first());
                assert(joined.last() == s.last());
                assert(g.all().drop_last() =~= g.done);
            }
            assert(next.all().drop_last() =~= g.done);
            assert(ungrouped(g.done) + g.open =~= head);
            assert(head.push(s) =~= list);
            assert(ungrouped(next.all()) =~= head.push(s));
        }
    }
}

/// Where no sentence is longer than the limit, no sentence is cut: the chunks
/// are groups of sentences that follow each other, with a space between each
/// two.
pub proof fn law_fitting_sentences_are_grouped(s: Seq<char>, max: nat)
    requires
        forall|i: int| 0 <= i < sentences(s).len() ==> (#[trigger] sentences(s)[i]).len() <= max,
    ensures
        chunks(s, max) == group_texts(grouped(sentences(s), max).all()),
        ungrouped(grouped(sentences(s), max).all()) == sentences(s),
{
    let list = sentences(s);
    lemma_solid_pieces_trimmed(sentence_cut(s).all());
    lemma_agree(list, max);
    let c = Chunks::none().with_sentences(list, max);
    let g = grouped(list, max);
    if g.open.len() > 0 {
        text::lemma_trim_solid(c.current);
        assert(group_texts(g.done.push(g.open)) =~= group_texts(g.done).push(spaced(g.open)));
    }
}

proof fn lemma_contains_in_longer(a: Seq<char>, b: Seq<char>, part: Seq<char>)
    ensures
        text::contains(a, part) ==> text::contains(a + b, part),
        text::contains(a + b, b),
{
    if text::contains(a, part) {
        let at = choose|at: int| text::occurs_at(a, part, at);
        assert((a + b).subrange(at, at + part.len()) =~= a.subrange(at, at + part.len()));
        assert(text::occurs_at(a + b, part, at));
    }
    assert((a + b).subrange(a.len() as int, (a.len() + b.len()) as int) =~= b);
    assert(text::occurs_at(a + b, b, a.len() as int));
}

/// Whether a text lies inside one of the chunks.
pub open spec fn is_in_one(chunks: Seq<Seq<char>>, part: Seq<char>) -> bool {
    exists|j: int| 0 <= j < chunks.len() && text::contains(#[trigger] chunks[j], part)
}

spec fn holds(c: Chunks, part: Seq<char>) -> bool {
    is_in_one(c.done, part) || text::contains(c.current, part)
}

spec fn is_ready(c: Chunks) -> bool {
    c.current.len() > 0 ==> is_trimmed(c.current)
}

proof fn lemma_closed_holds(c: Chunks, part: Seq<char>)
    requires
        is_ready(c),
        part.len() > 0,
    ensures
        is_ready(c.closed()),
        holds(c, part) ==> is_in_one(c.closed().done, part),
{
    let done = c.closed().done;
    if c.current.len() > 0 {
        text::lemma_trim_solid(c.current);
        assert(done[done.len() - 1] == c.current);
    }
    if is_in_one(c.done, part) {
        let j = choose|j: int|
            0 <= j < c.done.len() && text::contains(#[trigger] c.done[j], part);
        assert(done[j] == c.done[j]);
    }
}

proof fn lemma_piece_holds(c: Chunks, piece: Seq<char>, max: nat, part: Seq<char>)
    requires
        is_ready(c),
        is_trimmed(piece),
        part.len() > 0,
    ensures
        is_ready(c.with_piece(piece, max)),
        holds(c, part) || part == piece ==> holds(c.with_piece(piece, max), part),
{
    let before = if c.current.len() > 0 && c.current.len() + 1 + piece.len() > max {
        c.closed()
    } else {
        c
    };
    lemma_closed_holds(c, part);
    let head = if before.current.len() > 0 {
        before.current.push(' ')
    } else {
        before.current
    };
    let current = c.with_piece(piece, max).current;
    assert(current =~= head + piece);
    assert(current.last() == piece.last());
    assert(current.first() == if head.len() > 0 {
        before.current.first()
    } else {
        piece.first()
    });
    lemma_contains_in_longer(head, piece, part);
    if before.current.len() > 0 {
        lemma_contains_in_longer(before.current, seq![' '], part);
        assert(before.current + seq![' '] =~= head);
    }
}

proof fn lemma_pieces_hold(c: Chunks, pieces: Seq<Seq<char>>, max: nat, part: Seq<char>)
    requires
        is_ready(c),
        forall|i: int| 0 <= i < pieces.len() ==> is_trimmed(#[trigger] pieces[i]),
        part.len() > 0,
    ensures
        is_ready(c.with_pieces(pieces, max)),
        holds(c, part) ==> holds(c.with_pieces(pieces, max), part),
    decreases pieces.len(),
{
    if pieces.len() > 0 {
        let head = pieces.drop_last();
        assert forall|i: int| 0 <= i < head.len() implies is_trimmed(#[trigger] head[i]) by {
            assert(head[i] == pieces[i]);
        }
        lemma_pieces_hold(c, head, max, part);
        assert(is_trimmed(pieces[pieces.len() - 1]));
        lemma_piece_holds(c.with_pieces(head, max), pieces.last(), max, part);
    }
}

proof fn lemma_words_trimmed(s: Seq<char>)
    ensures
        forall|i: int| 0 <= i < words(s).len() ==> is_trimmed(#[trigger] words(s)[i]),
{
    lemma_word_cut_good(s, 0);
    assert forall|i: int| 0 <= i < words(s).len() implies is_trimmed(#[trigger] words(s)[i]) by {
        let word = words(s)[i];
        assert(is_good_chunk(word, 0)) by {
            if i < word_cut(s).done.len() {
                assert(word == word_cut(s).done[i]);
            }
        }
        lemma_solid_trim(word);
        lemma_blank(word);
        assert(word.len() > 0);
        assert(!text::is_white_space(word[0]));
        assert(!text::is_white_space(word[word.len() - 1]));
    }
}

proof fn lemma_sentences_hold(list: Seq<Seq<char>>, max: nat, k: int)
    requires
        forall|i: int| 0 <= i < list.len() ==> is_trimmed(#[trigger] list[i]),
        0 <= k < list.len(),
    ensures
        is_ready(Chunks::none().with_sentences(list, max)),
        list[k].len() <= max ==> holds(Chunks::none().with_sentences(list, max), list[k]),
    decreases list.len(),
{
    let head = list.drop_last();
    let last = list.last();
    let part = list[k];
    let before = Chunks::none().with_sentences(head, max);
    assert forall|i: int| 0 <= i < head.len() implies is_trimmed(#[trigger] head[i]) by {
        assert(head[i] == list[i]);
    }
    assert(is_trimmed(list[list.len() - 1]));
    if head.len() > 0 {
        let before_k = if k < head.len() {
            k
        } else {
            0
        };
        lemma_sentences_hold(head, max, before_k);
        assert(head[before_k] == list[before_k]);
    }
    assert(is_ready(before));
    lemma_piece_holds(before, last, max, part);
    lemma_closed_holds(before, part);
    lemma_words_trimmed(last);
    lemma_pieces_hold(before.closed(), words(last), max, part);
}

/// A sentence that is not longer than the limit is not cut, whatever the other
/// sentences are: it lies inside one chunk.
pub proof fn law_short_sentences_stay_whole(s: Seq<char>, max: nat)
    ensures
        forall|k: int|
            0 <= k < sentences(s).len() && (#[trigger] sentences(s)[k]).len() <= max ==> is_in_one(
                chunks(s, max),
                sentences(s)[k],
            ),
{
    let list = sentences(s);
    lemma_solid_pieces_trimmed(sentence_cut(s).all());
    assert forall|k: int| 0 <= k < list.len() && (#[trigger] list[k]).len() <= max implies is_in_one(
        chunks(s, max),
        list[k],
    ) by {
        lemma_sentences_hold(list, max, k);
        lemma_closed_holds(Chunks::none().with_sentences(list, max), list[k]);
    }
}

// ---------------------------------------------------------------------------
// Where sentences end
// ---------------------------------------------------------------------------

/// No sentence goes on after its end: it holds a full stop, an exclamation mark, a
/// question mark or a line end nowhere but as its last character.
pub proof fn law_sentence_ends_once(s: Seq<char>, k: int, i: int)
    requires
        0 <= k < sentences(s).len(),
        0 <= i < sentences(s)[k].len() - 1,
    ensures
        sentences(s)[k][i] != '.',
        sentences(s)[k][i] != '!',
        sentences(s)[k][i] != '?',
        sentences(s)[k][i] != '\n',
{
    lemma_cut_ends(s);
    lemma_solid_pieces_from(sentence_cut(s).all());
    let piece = choose|j: int|
        0 <= j < sentence_cut(s).all().len() && sentences(s)[k] == text::trim(
            #[trigger] sentence_cut(s).all()[j],
        );
    let p = sentence_cut(s).all()[piece];
    text::law_trimmed_text(p);
    let (a, b) = choose|a: Seq<char>, b: Seq<char>|
        text::is_white(a) && text::is_white(b) && p == #[trigger] (a + text::trim(p) + b);
    assert(p[a.len() + i] == sentences(s)[k][i]);
    assert(has_no_end_inside(p));
}

spec fn has_no_end_inside(p: Seq<char>) -> bool {
    forall|i: int|
        0 <= i < p.len() - 1 ==> (#[trigger] p[i]) != '.' && p[i] != '!' && p[i] != '?' && p[i]
            != '\n'
}

proof fn lemma_cut_ends(s: Seq<char>)
    ensures
        forall|j: int|
            0 <= j < sentence_cut(s).all().len() ==> has_no_end_inside(
                #[trigger] sentence_cut(s).all()[j],
            ),
        forall|i: int|
            0 <= i < sentence_cut(s).open.len() ==> (#[trigger] sentence_cut(s).open[i]) != '.'
                && sentence_cut(s).open[i] != '!' && sentence_cut(s).open[i] != '?'
                && sentence_cut(s).open[i] != '\n',
    decreases s.len(),
{
    if s.len() > 0 {
        let before = sentence_cut(s.drop_last());
        let cut = sentence_cut(s);
        lemma_cut_ends(s.drop_last());
        let longer = before.open.push(s.last());
        assert(has_no_end_inside(longer)) by {
            assert forall|i: int| 0 <= i < longer.len() - 1 implies (#[trigger] longer[i]) != '.'
                && longer[i] != '!' && longer[i] != '?' && longer[i] != '\n' by {
                assert(longer[i] == before.open[i]);
            }
        }
        assert forall|j: int| 0 <= j < cut.all().len() implies has_no_end_inside(
            #[trigger] cut.all()[j],
        ) by {
            if j < before.done.len() {
                assert(cut.all()[j] == before.all()[j]);
            }
        }
        assert forall|i: int| 0 <= i < cut.open.len() implies (#[trigger] cut.open[i]) != '.'
            && cut.open[i] != '!' && cut.open[i] != '?' && cut.open[i] != '\n' by {
            if i < before.open.len() {
                assert(cut.open[i] == before.open[i]);
            }
        }
    }
}

proof fn lemma_solid_pieces_from(pieces: Seq<Seq<char>>)
    ensures
        forall|k: int|
            0 <= k < solid_pieces(pieces).len() ==> exists|j: int|
                0 <= j < pieces.len() && (#[trigger] solid_pieces(pieces)[k]) == text::trim(
                    #[trigger] pieces[j],
                ),
        forall|j: int|
            0 <= j < pieces.len() && !text::is_blank(#[trigger] pieces[j]) ==> solid_pieces(
                pieces,
            ).contains(text::trim(pieces[j])),
    decreases pieces.len(),
{
    if pieces.len() > 0 {
        let before = pieces.drop_last();
        lemma_solid_pieces_from(before);
        let old = solid_pieces(before);
        let new = solid_pieces(pieces);
        assert forall|k: int| 0 <= k < new.len() implies exists|j: int|
            0 <= j < pieces.len() && (#[trigger] new[k]) == text::trim(#[trigger] pieces[j]) by {
            if k < old.len() {
                assert(new[k] == old[k]);
                let j = choose|j: int|
                    0 <= j < before.len() && old[k] == text::trim(#[trigger] before[j]);
                assert(pieces[j] == before[j]);
            } else {
                assert(new[k] == text::trim(pieces[pieces.len() - 1]));
            }
        }
        assert forall|j: int| 0 <= j < pieces.len() && !text::is_blank(#[trigger] pieces[j]) implies
            new.contains(text::trim(pieces[j])) by {
            if j < before.len() {
                assert(before[j] == pieces[j]);
                let k = old.index_of(text::trim(pieces[j]));
                assert(new[k] == text::trim(pieces[j]));
            } else {
                assert(new[new.len() - 1] == text::trim(pieces[j]));
            }
        }
    }
}

/// Whether a character is a full stop, an exclamation mark, a question mark or a
/// line end.
pub open spec fn is_end(c: char) -> bool {
    c == '.' || c == '!' || c == '?' || c == '\n'
}

/// Whether the characters `a..b` of a text go from one end of a sentence to the
/// next: the text begins there or a sentence ended before, no sentence ends inside,
/// and one ends with the last character unless the text does.
pub open spec fn is_sentence_span(s: Seq<char>, a: int, b: int) -> bool {
    &&& 0 <= a < b <= s.len()
    &&& a == 0 || is_end(s[a - 1])
    &&& b == s.len() || is_end(s[b - 1])
    &&& forall|i: int| a <= i < b - 1 ==> !is_end(#[trigger] s[i])
}

proof fn lemma_cut_spans(s: Seq<char>, a: int, b: int)
    requires
        0 <= a <= b <= s.len(),
        a == 0 || is_end(s[a - 1]),
        forall|i: int| a <= i < b - 1 ==> !is_end(#[trigger] s[i]),
    ensures
        a < b && is_end(s[b - 1]) ==> sentence_cut(s).done.contains(s.subrange(a, b)),
        b == s.len() && (a == b || !is_end(s[b - 1])) ==> sentence_cut(s).open == s.subrange(a, b),
    decreases s.len(),
{
    if s.len() == 0 {
        assert(s.subrange(a, b) =~= sentence_cut(s).open);
    } else {
        let t = s.drop_last();
        let before = sentence_cut(t);
        let cut = sentence_cut(s);
        if b < s.len() {
            assert(t.subrange(a, b) =~= s.subrange(a, b));
            if a < b && is_end(s[b - 1]) {
                lemma_cut_spans(t, a, b);
                let k = before.done.index_of(s.subrange(a, b));
                assert(cut.done[k] == s.subrange(a, b));
            }
        } else if a == b {
            assert(is_end(s.last()));
            assert(s.subrange(a, b) =~= cut.open);
        } else {
            assert(a < s.len() && b == s.len());
            assert(a == t.len() || !is_end(t[t.len() - 1])) by {
                if a < t.len() {
                    assert(!is_end(s[b - 2]));
                }
            }
            lemma_cut_spans(t, a, b - 1);
            assert(t.subrange(a, b - 1).push(s.last()) =~= s.subrange(a, b));
            if is_end(s.last()) {
                assert(cut.done[cut.done.len() - 1] == s.subrange(a, b));
            }
        }
    }
}

/// A sentence ends wherever a full stop, an exclamation mark, a question mark or a
/// line end stands, and nowhere else: what lies between two such ends, trimmed, is
/// a sentence where it is not blank.
pub proof fn law_every_span_is_a_sentence(s: Seq<char>, a: int, b: int)
    requires
        is_sentence_span(s, a, b),
        !text::is_white(s.subrange(a, b)),
    ensures
        sentences(s).contains(text::trim(s.subrange(a, b))),
{
    lemma_cut_spans(s, a, b);
    text::law_blank_text(s.subrange(a, b));
    let cut = sentence_cut(s);
    lemma_solid_pieces_from(cut.all());
    if is_end(s[b - 1]) {
        let k = cut.done.index_of(s.subrange(a, b));
        assert(cut.all()[k] == s.subrange(a, b));
    } else {
        assert(cut.all()[cut.done.len() as int] == s.subrange(a, b));
    }
}

/// A line or a sentence that is within the limit is not cut: what lies between two
/// sentence ends of the text, trimmed, lies inside one chunk.
pub proof fn law_fitting_span_lies_in_one_chunk(s: Seq<char>, max: nat, a: int, b: int)
    requires
        is_sentence_span(s, a, b),
        !text::is_white(s.subrange(a, b)),
        text::trim(s.subrange(a, b)).len() <= max,
    ensures
        exists|j: int, at: int|
            0 <= j < chunks(s, max).len() && #[trigger] text::occurs_at(
                chunks(s, max)[j],
                text::trim(s.subrange(a, b)),
                at,
            ),
{
    law_every_span_is_a_sentence(s, a, b);
    law_short_sentences_stay_whole(s, max);
    let part = text::trim(s.subrange(a, b));
    let k = sentences(s).index_of(part);
    assert(sentences(s)[k] == part);
    assert(is_in_one(chunks(s, max), part));
    let j = choose|j: int|
        0 <= j < chunks(s, max).len() && text::contains(#[trigger] chunks(s, max)[j], part);
    let at = choose|at: int| text::occurs_at(chunks(s, max)[j], part, at);
    assert(text::occurs_at(chunks(s, max)[j], part, at));
}

proof fn lemma_grouped_greedy(list: Seq<Seq<char>>, max: nat)
    ensures
        forall|i: int|
            0 <= i < grouped(list, max).all().len() ==> (#[trigger] grouped(list, max).all()[i]).len()
                > 0,
        forall|i: int|
            0 <= i < grouped(list, max).all().len() - 1 ==> spaced(
                #[trigger] grouped(list, max).all()[i],
            ).len() + 1 + grouped(list, max).all()[i + 1][0].len() > max,
    decreases list.len(),
{
    if list.len() > 0 {
        lemma_grouped_greedy(list.drop_last(), max);
        let g = grouped(list.drop_last(), max);
        let n = grouped(list, max);
        assert forall|i: int| 0 <= i < n.all().len() implies (#[trigger] n.all()[i]).len() > 0 by {
            if i < g.done.len() {
                assert(n.all()[i] == g.all()[i]);
            } else if i < n.done.len() {
                assert(n.all()[i] == g.open);
            }
        }
        assert forall|i: int| 0 <= i < n.all().len() - 1 implies spaced(
            #[trigger] n.all()[i],
        ).len() + 1 + n.all()[i + 1][0].len() > max by {
            if i + 1 < g.done.len() {
                assert(n.all()[i] == g.all()[i]);
                assert(n.all()[i + 1] == g.all()[i + 1]);
            } else if i + 1 == g.done.len() {
                assert(n.all()[i] == g.all()[i]);
                if g.open.len() > 0 {
                    assert(g.all()[i + 1] == g.open);
                    assert(n.all()[i + 1][0] == g.open[0]);
                } else {
                    lemma_grouped_open(list.drop_last(), max);
                }
            }
        }
    }
}

proof fn lemma_grouped_open(list: Seq<Seq<char>>, max: nat)
    ensures
        grouped(list, max).open.len() == 0 ==> list.len() == 0 && grouped(list, max).done.len()
            == 0,
{
}

proof fn lemma_spaced_first(list: Seq<Seq<char>>)
    requires
        list.len() > 0,
    ensures
        text::starts_with(spaced(list), list[0]),
    decreases list.len(),
{
    if list.len() == 1 {
        assert(spaced(list) =~= list[0]);
        assert(list[0].take(list[0].len() as int) =~= list[0]);
    } else {
        lemma_spaced_first(list.drop_last());
        let n = list[0].len() as int;
        assert(spaced(list).take(n) =~= spaced(list.drop_last()).take(n));
    }
}

/// No more chunks are made than needed: where no sentence is longer than the
/// limit, the sentence that a chunk begins with would have made the chunk before it
/// too long.
pub proof fn law_chunks_are_filled(s: Seq<char>, max: nat, i: int)
    requires
        forall|k: int| 0 <= k < sentences(s).len() ==> (#[trigger] sentences(s)[k]).len() <= max,
        0 <= i < chunks(s, max).len() - 1,
    ensures
        exists|k: int|
            0 <= k < sentences(s).len() && text::starts_with(
                chunks(s, max)[i + 1],
                #[trigger] sentences(s)[k],
            ) && chunks(s, max)[i].len() + 1 + sentences(s)[k].len() > max,
{
    law_fitting_sentences_are_grouped(s, max);
    lemma_grouped_greedy(sentences(s), max);
    let all = grouped(sentences(s), max).all();
    assert(all[i].len() > 0);
    lemma_spaced_first(all[i + 1]);
    lemma_ungrouped_has(all, i + 1);
    let k = ungrouped(all).index_of(all[i + 1][0]);
    assert(sentences(s)[k] == all[i + 1][0]);
}

proof fn lemma_ungrouped_has(groups: Seq<Seq<Seq<char>>>, i: int)
    requires
        0 <= i < groups.len(),
        groups[i].len() > 0,
    ensures
        ungrouped(groups).contains(groups[i][0]),
    decreases groups.len(),
{
    let before = ungrouped(groups.drop_last());
    if i < groups.len() - 1 {
        lemma_ungrouped_has(groups.drop_last(), i);
        let k = before.index_of(groups[i][0]);
        assert(ungrouped(groups)[k] == groups[i][0]);
    } else {
        assert(ungrouped(groups)[before.len() as int] == groups[i][0]);
    }
}

// ---------------------------------------------------------------------------
// Where words end
// ---------------------------------------------------------------------------

/// The words of a text hold no white space and are not empty; and what lies
/// between white space in the text is a word of it.
pub proof fn law_words_of_a_text(s: Seq<char>)
    ensures
        forall|k: int|
            0 <= k < words(s).len() ==> (#[trigger] words(s)[k]).len() > 0 && is_one_word(
                words(s)[k],
            ),
        forall|a: int, b: int| #[trigger] is_word_span(s, a, b) ==> words(s).contains(s.subrange(a, b)),
{
    lemma_words_trimmed(s);
    lemma_word_cut_good(s, 0);
    assert forall|k: int| 0 <= k < words(s).len() implies (#[trigger] words(s)[k]).len() > 0
        && is_one_word(words(s)[k]) by {
        let word = words(s)[k];
        assert(is_trimmed(word));
        assert(is_good_chunk(word, 0)) by {
            if k < word_cut(s).done.len() {
                assert(word == word_cut(s).done[k]);
            }
        }
    }
    assert forall|a: int, b: int| #[trigger] is_word_span(s, a, b) implies words(s).contains(
        s.subrange(a, b),
    ) by {
        lemma_word_spans(s, a, b);
        if b < s.len() {
            let k = word_cut(s).done.index_of(s.subrange(a, b));
            assert(words(s)[k] == s.subrange(a, b));
        } else {
            assert(words(s)[word_cut(s).done.len() as int] == s.subrange(a, b));
        }
    }
}

/// Whether the characters `a..b` of a text are a word: there is at least one, none
/// is white space, and white space or an end of the text is on either side.
pub open spec fn is_word_span(s: Seq<char>, a: int, b: int) -> bool {
    &&& 0 <= a < b <= s.len()
    &&& a == 0 || text::is_white_space(s[a - 1])
    &&& b == s.len() || text::is_white_space(s[b])
    &&& forall|i: int| a <= i < b ==> !text::is_white_space(#[trigger] s[i])
}

proof fn lemma_word_open(s: Seq<char>, a: int)
    requires
        0 <= a <= s.len(),
        a == 0 || text::is_white_space(s[a - 1]),
        forall|i: int| a <= i < s.len() ==> !text::is_white_space(#[trigger] s[i]),
    ensures
        word_cut(s).open == s.skip(a),
    decreases s.len(),
{
    if s.len() > 0 && a < s.len() {
        assert(!text::is_white_space(s[s.len() - 1]));
        lemma_word_open(s.drop_last(), a);
        assert(s.drop_last().skip(a).push(s.last()) =~= s.skip(a));
    } else {
        assert(s.skip(a) =~= Seq::<char>::empty());
    }
}

proof fn lemma_word_spans(s: Seq<char>, a: int, b: int)
    requires
        is_word_span(s, a, b),
    ensures
        b < s.len() ==> word_cut(s).done.contains(s.subrange(a, b)),
        b == s.len() ==> word_cut(s).open == s.subrange(a, b),
    decreases s.len(),
{
    if b == s.len() {
        lemma_word_open(s, a);
        assert(s.skip(a) =~= s.subrange(a, b));
    } else {
        let t = s.drop_last();
        let before = word_cut(t);
        assert(t.subrange(a, b) =~= s.subrange(a, b));
        lemma_word_spans(t, a, b);
        if b < t.len() {
            let k = before.done.index_of(s.subrange(a, b));
            assert(word_cut(s).done[k] == s.subrange(a, b));
        } else {
            assert(text::is_white_space(s.last()));
            assert(before.open.len() > 0);
            assert(word_cut(s).done[before.done.len() as int] == s.subrange(a, b));
        }
    }
}

// ---------------------------------------------------------------------------
// Chunks are as full as they can be
// ---------------------------------------------------------------------------

/// Whether `start` is how a chunk begins with `piece`, which is a sentence of the
/// list or a word of a sentence that is longer than the limit: with all of it, or
/// with its first word where it is such a sentence.
pub open spec fn may_begin(
    list: Seq<Seq<char>>,
    piece: Seq<char>,
    start: Seq<char>,
    max: nat,
) -> bool {
    exists|k: int|
        0 <= k < list.len() && {
            ||| piece == #[trigger] list[k] && piece.len() <= max && start == piece
            ||| piece == list[k] && piece.len() > max && words(piece).len() > 0 && start == words(
                piece,
            )[0]
            ||| list[k].len() > max && words(list[k]).contains(piece) && start == piece
        }
}

/// Whether a chunk had no room for what the next one begins with.
pub open spec fn had_no_room(
    chunk: Seq<char>,
    next: Seq<char>,
    list: Seq<Seq<char>>,
    max: nat,
) -> bool {
    exists|piece: Seq<char>, start: Seq<char>| #[trigger]
        may_begin(list, piece, start, max) && chunk.len() + 1 + piece.len() > max
            && text::starts_with(next, start)
}

spec fn is_filled(c: Chunks, list: Seq<Seq<char>>, max: nat) -> bool {
    &&& forall|i: int|
        0 <= i < c.done.len() - 1 ==> had_no_room(#[trigger] c.done[i], c.done[i + 1], list, max)
    &&& c.done.len() > 0 && c.current.len() > 0 ==> had_no_room(
        c.done.last(),
        c.current,
        list,
        max,
    )
    &&& c.current.len() > 0 ==> is_trimmed(c.current)
}

proof fn lemma_room_in_longer(
    chunk: Seq<char>,
    next: Seq<char>,
    more: Seq<char>,
    list: Seq<Seq<char>>,
    longer: Seq<Seq<char>>,
    max: nat,
)
    requires
        had_no_room(chunk, next, list, max),
        list.is_prefix_of(longer),
    ensures
        had_no_room(chunk, next + more, longer, max),
{
    let (piece, start) = choose|piece: Seq<char>, start: Seq<char>| #[trigger]
        may_begin(list, piece, start, max) && chunk.len() + 1 + piece.len() > max
            && text::starts_with(next, start);
    let k = choose|k: int|
        0 <= k < list.len() && {
            ||| piece == #[trigger] list[k] && piece.len() <= max && start == piece
            ||| piece == list[k] && piece.len() > max && words(piece).len() > 0 && start == words(
                piece,
            )[0]
            ||| list[k].len() > max && words(list[k]).contains(piece) && start == piece
        };
    assert(longer[k] == list[k]);
    assert(may_begin(longer, piece, start, max));
    assert((next + more).take(start.len() as int) =~= next.take(start.len() as int));
}

proof fn lemma_filled_longer(c: Chunks, list: Seq<Seq<char>>, longer: Seq<Seq<char>>, max: nat)
    requires
        is_filled(c, list, max),
        list.is_prefix_of(longer),
    ensures
        is_filled(c, longer, max),
{
    let none = Seq::<char>::empty();
    assert forall|i: int| 0 <= i < c.done.len() - 1 implies had_no_room(
        #[trigger] c.done[i],
        c.done[i + 1],
        longer,
        max,
    ) by {
        lemma_room_in_longer(c.done[i], c.done[i + 1], none, list, longer, max);
        assert(c.done[i + 1] + none =~= c.done[i + 1]);
    }
    if c.done.len() > 0 && c.current.len() > 0 {
        lemma_room_in_longer(c.done.last(), c.current, none, list, longer, max);
        assert(c.current + none =~= c.current);
    }
}

proof fn lemma_filled_closed(c: Chunks, list: Seq<Seq<char>>, max: nat)
    requires
        is_filled(c, list, max),
    ensures
        is_filled(c.closed(), list, max),
        c.current.len() > 0 ==> c.closed().done == c.done.push(c.current),
{
    if c.current.len() > 0 {
        text::lemma_trim_solid(c.current);
        let d = c.closed();
        assert forall|i: int| 0 <= i < d.done.len() - 1 implies had_no_room(
            #[trigger] d.done[i],
            d.done[i + 1],
            list,
            max,
        ) by {
            if i < c.done.len() - 1 {
                assert(d.done[i] == c.done[i]);
                assert(d.done[i + 1] == c.done[i + 1]);
            }
        }
    }
}

proof fn lemma_filled_piece(
    c: Chunks,
    piece: Seq<char>,
    start: Seq<char>,
    list: Seq<Seq<char>>,
    max: nat,
    long: Seq<char>,
)
    requires
        is_filled(c, list, max),
        is_trimmed(piece),
        c.current.len() > 0 || c.done.len() == 0 ==> may_begin(list, piece, start, max) && start
            == piece,
        c.current.len() == 0 && c.done.len() > 0 ==> may_begin(list, long, piece, max) && long.len()
            > max,
    ensures
        is_filled(c.with_piece(piece, max), list, max),
        c.with_piece(piece, max).current.len() > 0,
{
    let next = c.with_piece(piece, max);
    assert(piece.take(piece.len() as int) =~= piece);
    if c.current.len() > 0 && c.current.len() + 1 + piece.len() > max {
        lemma_filled_closed(c, list, max);
        assert(had_no_room(c.current, piece, list, max));
        assert(next.done.last() == c.current);
    } else if c.current.len() > 0 {
        let more = seq![' '] + piece;
        assert(c.current.push(' ') + piece =~= c.current + more);
        if c.done.len() > 0 {
            lemma_room_in_longer(c.done.last(), c.current, more, list, list, max);
        }
        assert(next.current.first() == c.current.first());
        assert(next.current.last() == piece.last());
    } else if c.done.len() > 0 {
        assert(may_begin(list, long, piece, max));
        assert(had_no_room(c.done.last(), piece, list, max));
    }
}

proof fn lemma_filled_words(
    c: Chunks,
    pieces: Seq<Seq<char>>,
    n: int,
    list: Seq<Seq<char>>,
    max: nat,
    k: int,
)
    requires
        is_filled(c, list, max),
        c.current.len() == 0,
        0 <= k < list.len(),
        list[k].len() > max,
        pieces == words(list[k]),
        0 <= n <= pieces.len(),
    ensures
        is_filled(c.with_pieces(pieces.take(n), max), list, max),
        n > 0 ==> c.with_pieces(pieces.take(n), max).current.len() > 0,
    decreases n,
{
    if n > 0 {
        lemma_filled_words(c, pieces, n - 1, list, max, k);
        assert(pieces.take(n).drop_last() =~= pieces.take(n - 1));
        assert(pieces.take(n).last() == pieces[n - 1]);
        lemma_words_trimmed(list[k]);
        let before = c.with_pieces(pieces.take(n - 1), max);
        if n == 1 {
            assert(pieces.take(0) =~= Seq::<Seq<char>>::empty());
        }
        assert(words(list[k]).contains(pieces[n - 1]));
        assert(may_begin(list, pieces[n - 1], pieces[n - 1], max));
        assert(may_begin(list, list[k], pieces[0], max));
        lemma_filled_piece(before, pieces[n - 1], pieces[n - 1], list, max, list[k]);
    }
}

proof fn lemma_words_some(s: Seq<char>)
    requires
        is_trimmed(s),
    ensures
        words(s).len() > 0,
{
    assert(!text::is_white_space(s[s.len() - 1]));
    assert(word_cut(s).open.len() > 0);
}

proof fn lemma_sentences_filled(list: Seq<Seq<char>>, max: nat)
    requires
        forall|i: int| 0 <= i < list.len() ==> is_trimmed(#[trigger] list[i]),
    ensures
        is_filled(Chunks::none().with_sentences(list, max), list, max),
        list.len() > 0 ==> Chunks::none().with_sentences(list, max).current.len() > 0,
        list.len() == 0 ==> Chunks::none().with_sentences(list, max).done.len() == 0,
    decreases list.len(),
{
    if list.len() > 0 {
        let head = list.drop_last();
        let last = list.last();
        assert forall|i: int| 0 <= i < head.len() implies is_trimmed(#[trigger] head[i]) by {
            assert(head[i] == list[i]);
        }
        lemma_sentences_filled(head, max);
        let before = Chunks::none().with_sentences(head, max);
        lemma_filled_longer(before, head, list, max);
        let k = list.len() - 1;
        assert(is_trimmed(list[k]));
        if last.len() > max {
            lemma_filled_closed(before, list, max);
            lemma_words_some(last);
            let pieces = words(last);
            lemma_filled_words(before.closed(), pieces, pieces.len() as int, list, max, k);
            assert(pieces.take(pieces.len() as int) =~= pieces);
        } else {
            assert(may_begin(list, list[k], list[k], max));
            lemma_filled_piece(before, last, last, list, max, last);
        }
    }
}

/// A chunk ends only where it has to: it had no room for the sentence that the next
/// one begins with, or, of a sentence that is longer than the limit, for the whole
/// of it or for the word that the next one begins with.
pub proof fn law_chunk_ends_where_it_must(s: Seq<char>, max: nat, i: int)
    requires
        0 <= i < chunks(s, max).len() - 1,
    ensures
        had_no_room(chunks(s, max)[i], chunks(s, max)[i + 1], sentences(s), max),
{
    let list = sentences(s);
    lemma_solid_pieces_trimmed(sentence_cut(s).all());
    lemma_sentences_filled(list, max);
    let c = Chunks::none().with_sentences(list, max);
    lemma_filled_closed(c, list, max);
    assert(c.closed().done == chunks(s, max));
    assert(had_no_room(c.closed().done[i], c.closed().done[i + 1], list, max));
}

} // verus!
