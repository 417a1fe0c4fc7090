//! Text primitives: character classes, trimming, splitting, joining and
//! number formatting, each stated over the characters of the string.

use vstd::prelude::*;

verus! {

/// Trusts `String::push`: it appends the given character to the end.
pub assume_specification[ String::push ](s: &mut String, c: char)
    ensures
        final(s)@ == old(s)@.push(c),
;

// ---------------------------------------------------------------------------
// Characters
// ---------------------------------------------------------------------------

/// Unicode's `White_Space` property.
pub open spec fn is_white_space(c: char) -> bool {
    let n = c as u32;
    ||| 0x9 <= n <= 0xd
    ||| n == 0x20
    ||| n == 0x85
    ||| n == 0xa0
    ||| n == 0x1680
    ||| 0x2000 <= n <= 0x200a
    ||| n == 0x2028
    ||| n == 0x2029
    ||| n == 0x202f
    ||| n == 0x205f
    ||| n == 0x3000
}

pub fn char_is_white_space(c: char) -> (r: bool)
    ensures
        r == is_white_space(c),
{
    let n: u32 = c as u32;
    (0x9 <= n && n <= 0xd) || n == 0x20 || n == 0x85 || n == 0xa0 || n == 0x1680
        || (0x2000 <= n && n <= 0x200a) || n == 0x2028 || n == 0x2029 || n == 0x202f
        || n == 0x205f || n == 0x3000
}

/// An ASCII capital becomes its small letter; every other character stays.
pub open spec fn lower_char(c: char) -> char {
    if 'A' <= c <= 'Z' {
        ((c as u32 + 32) as u32) as char
    } else {
        c
    }
}

fn char_to_lower(c: char) -> (r: char)
    ensures
        r == lower_char(c),
{
    if 'A' <= c && c <= 'Z' {
        (c as u8 + 32) as char
    } else {
        c
    }
}

/// `s` with every ASCII capital made small.
pub open spec fn lower(s: Seq<char>) -> Seq<char> {
    Seq::new(s.len(), |i: int| lower_char(s[i]))
}

// ---------------------------------------------------------------------------
// Strings and characters
// ---------------------------------------------------------------------------

/// The characters of `s`, in order.
pub fn chars_of(s: &str) -> (out: Vec<char>)
    ensures
        out@ == s@,
{
    let mut out: Vec<char> = Vec::new();
    for c in it: s.chars()
        invariant
            out@ == it.seq().take(it.index() as int),
            it.seq() == s@,
    {
        out.push(c);
    }
    out
}

/// The characters `from..to` of `chars` as a string.
pub fn string_of(chars: &Vec<char>, from: usize, to: usize) -> (out: String)
    requires
        from <= to <= chars@.len(),
    ensures
        out@ == chars@.subrange(from as int, to as int),
{
    let mut out = String::new();
    let mut i: usize = from;
    while i < to
        invariant
            from <= i <= to <= chars@.len(),
            out@ == chars@.subrange(from as int, i as int),
        decreases to - i,
    {
        out.push(chars[i]);
        i = i + 1;
    }
    out
}

/// Whether `a` and `b` hold the same characters.
pub fn same(a: &str, b: &str) -> (r: bool)
    ensures
        r == (a@ == b@),
{
    let x = chars_of(a);
    let y = chars_of(b);
    if x.len() != y.len() {
        return false;
    }
    let mut i: usize = 0;
    while i < x.len()
        invariant
            i <= x@.len(),
            x@.len() == y@.len(),
            x@ == a@,
            y@ == b@,
            forall|j: int| 0 <= j < i ==> x@[j] == y@[j],
        decreases x@.len() - i,
    {
        if x[i] != y[i] {
            return false;
        }
        i = i + 1;
    }
    assert(x@ =~= y@);
    true
}

/// Whether `a` and `b` are both absent or hold the same characters.
pub fn same_option(a: &Option<String>, b: &Option<String>) -> (r: bool)
    ensures
        r == (a.deep_view() == b.deep_view()),
{
    match (a, b) {
        (Some(x), Some(y)) => same(x, y),
        (None, None) => true,
        _ => false,
    }
}

/// A copy of `s`.
pub fn copied(s: &Option<String>) -> (r: Option<String>)
    ensures
        r.deep_view() == s.deep_view(),
{
    match s {
        Some(t) => Some(t.clone()),
        None => None,
    }
}

/// A copy of the list.
pub fn copied_list(texts: &Vec<String>) -> (r: Vec<String>)
    ensures
        r.deep_view() == texts.deep_view(),
{
    let r = texts.clone();
    assert(r.deep_view() =~= texts.deep_view());
    r
}

/// The texts as a list of their own.
pub fn list(texts: &[&str]) -> (r: Vec<String>)
    ensures
        r.deep_view() == texts.deep_view(),
{
    let mut r: Vec<String> = Vec::new();
    let mut i: usize = 0;
    while i < texts.len()
        invariant
            i <= texts@.len(),
            r@.len() == i,
            forall|j: int| 0 <= j < i ==> (#[trigger] r@[j])@ == texts@[j]@,
        decreases texts@.len() - i,
    {
        r.push(texts[i].to_owned());
        i = i + 1;
    }
    assert(r.deep_view() =~= texts.deep_view());
    r
}

/// The text, or `default` where there is none.
pub open spec fn or(s: Option<Seq<char>>, default: Seq<char>) -> Seq<char> {
    match s {
        Some(t) => t,
        None => default,
    }
}

pub fn text_or(s: &Option<String>, default: &str) -> (r: String)
    ensures
        r@ == or(s.deep_view(), default@),
{
    match s {
        Some(t) => t.clone(),
        None => default.to_owned(),
    }
}

/// The number of characters of `s`.
pub fn char_count(s: &str) -> (n: usize)
    ensures
        n == s@.len(),
{
    chars_of(s).len()
}

pub fn to_lower(s: &str) -> (out: String)
    ensures
        out@ == lower(s@),
{
    let mut out = String::new();
    for c in it: s.chars()
        invariant
            out@ == lower(it.seq().take(it.index() as int)),
            it.seq() == s@,
    {
        out.push(char_to_lower(c));
        assert(out@ =~= lower(it.seq().take(it.index() as int + 1)));
    }
    assert(s@.take(s@.len() as int) =~= s@);
    out
}

/// Whether `a` and `b` differ in the case of ASCII letters at most.
pub fn same_ignoring_case(a: &str, b: &str) -> (r: bool)
    ensures
        r == (lower(a@) == lower(b@)),
{
    same(&to_lower(a), &to_lower(b))
}

/// Whether the first `p.len()` characters of `s` are `p`.
pub open spec fn starts_with(s: Seq<char>, p: Seq<char>) -> bool {
    p.len() <= s.len() && s.take(p.len() as int) == p
}

pub fn has_prefix(s: &str, p: &str) -> (r: bool)
    ensures
        r == starts_with(s@, p@),
{
    let x = chars_of(s);
    let y = chars_of(p);
    found_at(&x, &y, 0)
}

/// Whether `p` stands in `s` at offset `at`.
pub open spec fn occurs_at(s: Seq<char>, p: Seq<char>, at: int) -> bool {
    0 <= at && at + p.len() <= s.len() && s.subrange(at, at + p.len()) == p
}

/// Whether `p` stands somewhere in `s`.
pub open spec fn contains(s: Seq<char>, p: Seq<char>) -> bool {
    exists|at: int| occurs_at(s, p, at)
}

fn found_at(s: &Vec<char>, p: &Vec<char>, at: usize) -> (r: bool)
    requires
        at <= s@.len(),
    ensures
        r == occurs_at(s@, p@, at as int),
        at == 0 ==> r == starts_with(s@, p@),
{
    assert(s@.take(p@.len() as int) =~= s@.subrange(0, 0 + p@.len() as int));
    if p.len() > s.len() - at {
        return false;
    }
    let mut i: usize = 0;
    while i < p.len()
        invariant
            i <= p@.len(),
            at + p@.len() <= s.len(),
            forall|j: int| 0 <= j < i ==> s@[at + j] == p@[j],
        decreases p@.len() - i,
    {
        if s[at + i] != p[i] {
            assert(s@.subrange(at as int, at + p@.len())[i as int] != p@[i as int]);
            return false;
        }
        i = i + 1;
    }
    assert(s@.subrange(at as int, at + p@.len()) =~= p@);
    true
}

pub fn has_part(s: &str, p: &str) -> (r: bool)
    ensures
        r == contains(s@, p@),
{
    let x = chars_of(s);
    let y = chars_of(p);
    let mut at: usize = 0;
    while at < x.len()
        invariant
            at <= x@.len(),
            x@ == s@,
            y@ == p@,
            forall|k: int| 0 <= k < at ==> !occurs_at(x@, y@, k),
        decreases x@.len() - at,
    {
        if found_at(&x, &y, at) {
            return true;
        }
        at = at + 1;
    }
    let last = found_at(&x, &y, at);
    if !last {
        assert forall|k: int| !occurs_at(x@, y@, k) by {
            if k == at {
            }
        }
    }
    last
}

// ---------------------------------------------------------------------------
// Trimming
// ---------------------------------------------------------------------------

pub open spec fn trim_start(s: Seq<char>) -> Seq<char>
    decreases s.len(),
{
    if s.len() > 0 && is_white_space(s.first()) {
        trim_start(s.drop_first())
    } else {
        s
    }
}

pub open spec fn trim_end(s: Seq<char>) -> Seq<char>
    decreases s.len(),
{
    if s.len() > 0 && is_white_space(s.last()) {
        trim_end(s.drop_last())
    } else {
        s
    }
}

/// `s` without the white space at its two ends.
pub open spec fn trim(s: Seq<char>) -> Seq<char> {
    trim_end(trim_start(s))
}

/// Whether `s` holds nothing but white space.
pub open spec fn is_blank(s: Seq<char>) -> bool {
    trim(s).len() == 0
}

/// Text with no white space at its ends is its own trimmed form.
pub proof fn lemma_trim_solid(s: Seq<char>)
    requires
        s.len() > 0,
        !is_white_space(s.first()),
        !is_white_space(s.last()),
    ensures
        trim(s) == s,
{
}

proof fn lemma_trim_ends_len(s: Seq<char>)
    ensures
        trim_start(s).len() <= s.len(),
        trim_end(s).len() <= s.len(),
    decreases s.len(),
{
    if s.len() > 0 {
        lemma_trim_ends_len(s.drop_first());
        lemma_trim_ends_len(s.drop_last());
    }
}

/// Trimming makes no text longer.
pub proof fn lemma_trim_len(s: Seq<char>)
    ensures
        trim(s).len() <= s.len(),
{
    lemma_trim_ends_len(s);
    lemma_trim_ends_len(trim_start(s));
}

fn count_leading(x: &Vec<char>) -> (n: usize)
    ensures
        n <= x@.len(),
        trim_start(x@) == x@.subrange(n as int, x@.len() as int),
{
    let mut i: usize = 0;
    assert(x@.subrange(0, x@.len() as int) =~= x@);
    while i < x.len() && char_is_white_space(x[i])
        invariant
            i <= x@.len(),
            trim_start(x@) == trim_start(x@.subrange(i as int, x@.len() as int)),
        decreases x@.len() - i,
    {
        assert(x@.subrange(i as int, x@.len() as int).drop_first() =~= x@.subrange(
            i + 1,
            x@.len() as int,
        ));
        i = i + 1;
    }
    i
}

fn count_to_last(x: &Vec<char>, from: usize) -> (n: usize)
    requires
        from <= x@.len(),
    ensures
        from <= n <= x@.len(),
        trim_end(x@.subrange(from as int, x@.len() as int)) == x@.subrange(from as int, n as int),
{
    let mut j: usize = x.len();
    while j > from && char_is_white_space(x[j - 1])
        invariant
            from <= j <= x@.len(),
            trim_end(x@.subrange(from as int, x@.len() as int)) == trim_end(
                x@.subrange(from as int, j as int),
            ),
        decreases j,
    {
        assert(x@.subrange(from as int, j as int).drop_last() =~= x@.subrange(
            from as int,
            j - 1,
        ));
        j = j - 1;
    }
    j
}

pub fn trimmed(s: &str) -> (r: &str)
    ensures
        r@ == trim(s@),
{
    let x = chars_of(s);
    let i = count_leading(&x);
    let j = count_to_last(&x, i);
    s.substring_char(i, j)
}

pub fn trimmed_end(s: &str) -> (r: &str)
    ensures
        r@ == trim_end(s@),
{
    let x = chars_of(s);
    let j = count_to_last(&x, 0);
    assert(x@.subrange(0, x@.len() as int) =~= x@);
    s.substring_char(0, j)
}

pub fn blank(s: &str) -> (r: bool)
    ensures
        r == is_blank(s@),
{
    trimmed(s).is_empty()
}

/// `s` without the copies of `c` at its end.
pub open spec fn strip_end(s: Seq<char>, c: char) -> Seq<char>
    decreases s.len(),
{
    if s.len() > 0 && s.last() == c {
        strip_end(s.drop_last(), c)
    } else {
        s
    }
}

pub fn stripped_end(s: &str, c: char) -> (r: &str)
    ensures
        r@ == strip_end(s@, c),
{
    let x = chars_of(s);
    let mut j: usize = x.len();
    assert(x@.subrange(0, j as int) =~= s@);
    while j > 0 && x[j - 1] == c
        invariant
            j <= x@.len(),
            x@ == s@,
            strip_end(s@, c) == strip_end(x@.subrange(0, j as int), c),
        decreases j,
    {
        assert(x@.subrange(0, j as int).drop_last() =~= x@.subrange(0, j - 1));
        j = j - 1;
    }
    s.substring_char(0, j)
}

// ---------------------------------------------------------------------------
// Splitting and joining
// ---------------------------------------------------------------------------

/// The pieces of `s` between the copies of `sep`: one more than there are
/// copies.
pub open spec fn split(s: Seq<char>, sep: char) -> Seq<Seq<char>>
    decreases s.len(),
{
    if s.len() == 0 {
        seq![Seq::empty()]
    } else {
        let before = split(s.drop_last(), sep);
        if s.last() == sep {
            before.push(Seq::empty())
        } else {
            before.drop_last().push(before.last().push(s.last()))
        }
    }
}

pub proof fn lemma_split_nonempty(s: Seq<char>, sep: char)
    ensures
        split(s, sep).len() > 0,
    decreases s.len(),
{
    if s.len() > 0 {
        lemma_split_nonempty(s.drop_last(), sep);
    }
}

pub fn pieces(s: &str, sep: char) -> (out: Vec<String>)
    ensures
        out.deep_view() == split(s@, sep),
{
    let x = chars_of(s);
    let mut done: Vec<String> = Vec::new();
    let mut cur = String::new();
    let mut i: usize = 0;
    assert(x@.take(0).len() == 0);
    assert(done.deep_view().push(cur@) =~= split(x@.take(0), sep));
    while i < x.len()
        invariant
            i <= x@.len(),
            done.deep_view().push(cur@) == split(x@.take(i as int), sep),
        decreases x@.len() - i,
    {
        let ghost prev = done.deep_view();
        let ghost pcur = cur@;
        assert(x@.take(i + 1).drop_last() =~= x@.take(i as int));
        if x[i] == sep {
            done.push(cur);
            cur = String::new();
            assert(done.deep_view() =~= prev.push(pcur));
            assert(done.deep_view().push(cur@) =~= prev.push(pcur).push(Seq::empty()));
        } else {
            cur.push(x[i]);
            assert(prev.push(pcur).drop_last() =~= prev);
            assert(done.deep_view().push(cur@) =~= prev.push(pcur.push(x@[i as int])));
        }
        i = i + 1;
    }
    let ghost prev = done.deep_view();
    let ghost pcur = cur@;
    done.push(cur);
    assert(done.deep_view() =~= prev.push(pcur));
    assert(x@.take(x@.len() as int) =~= x@);
    done
}

/// The parts in order, with `sep` between each two.
pub open spec fn join(parts: Seq<Seq<char>>, sep: Seq<char>) -> Seq<char>
    decreases parts.len(),
{
    if parts.len() == 0 {
        Seq::empty()
    } else if parts.len() == 1 {
        parts[0]
    } else {
        join(parts.drop_last(), sep) + sep + parts.last()
    }
}

pub fn joined(parts: &Vec<String>, sep: &str) -> (out: String)
    ensures
        out@ == join(parts.deep_view(), sep@),
{
    let mut out = String::new();
    let mut i: usize = 0;
    while i < parts.len()
        invariant
            i <= parts@.len(),
            out@ == join(parts.deep_view().take(i as int), sep@),
        decreases parts@.len() - i,
    {
        assert(parts.deep_view().take(i + 1).drop_last() =~= parts.deep_view().take(i as int));
        if i > 0 {
            out.append(sep);
        }
        out.append(&parts[i]);
        assert(out@ =~= join(parts.deep_view().take(i + 1), sep@));
        i = i + 1;
    }
    assert(parts.deep_view().take(parts@.len() as int) =~= parts.deep_view());
    out
}

/// The parts in order with nothing between them.
pub open spec fn concat(parts: Seq<Seq<char>>) -> Seq<char>
    decreases parts.len(),
{
    if parts.len() == 0 {
        Seq::empty()
    } else {
        concat(parts.drop_last()) + parts.last()
    }
}

// ---------------------------------------------------------------------------
// Numbers
// ---------------------------------------------------------------------------

/// The digit `d` as a character.
pub open spec fn digit(d: nat) -> char {
    (('0' as u32 + d) as u32) as char
}

/// The decimal digits of `n`, without leading zeros.
pub open spec fn decimal(n: nat) -> Seq<char>
    decreases n,
{
    if n < 10 {
        seq![digit(n)]
    } else {
        decimal(n / 10).push(digit(n % 10))
    }
}

pub fn decimal_text(n: u128) -> (out: String)
    ensures
        out@ == decimal(n as nat),
    decreases n,
{
    if n < 10 {
        let mut out = String::new();
        out.push((48 + n as u8) as char);
        assert(out@ =~= decimal(n as nat));
        out
    } else {
        let mut out = decimal_text(n / 10);
        out.push((48 + (n % 10) as u8) as char);
        out
    }
}

/// `n` copies of `c`.
pub open spec fn repeat(c: char, n: nat) -> Seq<char> {
    Seq::new(n, |i: int| c)
}

/// `s` after as many copies of `c` as it lacks of `width` characters.
pub open spec fn pad_left(s: Seq<char>, c: char, width: nat) -> Seq<char> {
    if s.len() < width {
        repeat(c, (width - s.len()) as nat) + s
    } else {
        s
    }
}

/// `s` before as many spaces as it lacks of `width` characters.
pub open spec fn pad_right(s: Seq<char>, width: nat) -> Seq<char> {
    if s.len() < width {
        s + repeat(' ', (width - s.len()) as nat)
    } else {
        s
    }
}

fn copies(c: char, n: usize) -> (out: String)
    ensures
        out@ == repeat(c, n as nat),
{
    let mut out = String::new();
    let mut i: usize = 0;
    while i < n
        invariant
            i <= n,
            out@ =~= repeat(c, i as nat),
        decreases n - i,
    {
        out.push(c);
        i = i + 1;
    }
    out
}

/// `n` in decimal with leading zeros up to `width` digits.
pub fn zero_padded(n: u128, width: usize) -> (out: String)
    ensures
        out@ == pad_left(decimal(n as nat), '0', width as nat),
{
    let digits = decimal_text(n);
    let len = char_count(&digits);
    if len < width {
        let mut out = copies('0', width - len);
        out.append(&digits);
        out
    } else {
        digits
    }
}

pub fn padded_right(s: &str, width: usize) -> (out: String)
    ensures
        out@ == pad_right(s@, width as nat),
{
    let len = char_count(s);
    let mut out = s.to_owned();
    if len < width {
        out.append(&copies(' ', width - len));
    }
    out
}

// ---------------------------------------------------------------------------
// Laws
// ---------------------------------------------------------------------------

/// The characters that count as white space.
pub proof fn law_white_space(c: char)
    ensures
        is_white_space(c) <==> c == '\t' || c == '\n' || c == '\u{b}' || c == '\u{c}' || c == '\r'
            || c == ' ' || c == '\u{85}' || c == '\u{a0}' || c == '\u{1680}' || '\u{2000}' <= c
            <= '\u{200a}' || c == '\u{2028}' || c == '\u{2029}' || c == '\u{202f}' || c
            == '\u{205f}' || c == '\u{3000}',
{
}

/// Lowering keeps the length of a text and every character but the capitals `A`
/// to `Z`, each of which becomes its own small letter.
pub proof fn law_lowered_text(s: Seq<char>)
    ensures
        lower(s).len() == s.len(),
        forall|i: int|
            0 <= i < s.len() ==> if 'A' <= s[i] <= 'Z' {
                'a' <= #[trigger] lower(s)[i] <= 'z' && lower(s)[i] as u32 - 'a' as u32 == s[i]
                    as u32 - 'A' as u32
            } else {
                lower(s)[i] == s[i]
            },
{
}

/// Whether a text holds white space alone.
pub open spec fn is_white(s: Seq<char>) -> bool {
    forall|i: int| 0 <= i < s.len() ==> is_white_space(#[trigger] s[i])
}

proof fn lemma_trim_start_parts(s: Seq<char>) -> (a: Seq<char>)
    ensures
        s == a + trim_start(s),
        is_white(a),
        trim_start(s).len() > 0 ==> !is_white_space(trim_start(s).first()),
    decreases s.len(),
{
    if s.len() > 0 && is_white_space(s.first()) {
        let rest = lemma_trim_start_parts(s.drop_first());
        let a = seq![s.first()] + rest;
        assert(s =~= seq![s.first()] + (rest + trim_start(s.drop_first())));
        assert(s =~= a + trim_start(s.drop_first()));
        assert forall|i: int| 0 <= i < a.len() implies is_white_space(#[trigger] a[i]) by {
            if i > 0 {
                assert(a[i] == rest[i - 1]);
            }
        }
        a
    } else {
        assert(s =~= Seq::<char>::empty() + s);
        Seq::empty()
    }
}

proof fn lemma_trim_end_parts(s: Seq<char>) -> (b: Seq<char>)
    ensures
        s == trim_end(s) + b,
        is_white(b),
        trim_end(s).len() > 0 ==> !is_white_space(trim_end(s).last()) && trim_end(s).first()
            == s.first(),
    decreases s.len(),
{
    if s.len() > 0 && is_white_space(s.last()) {
        let rest = lemma_trim_end_parts(s.drop_last());
        let b = rest.push(s.last());
        assert(s =~= (trim_end(s.drop_last()) + rest).push(s.last()));
        assert(s =~= trim_end(s.drop_last()) + b);
        assert forall|i: int| 0 <= i < b.len() implies is_white_space(#[trigger] b[i]) by {
            if i < rest.len() {
                assert(b[i] == rest[i]);
            }
        }
        b
    } else {
        assert(s =~= s + Seq::<char>::empty());
        Seq::empty()
    }
}

/// Trimming takes off white space at the two ends of a text, all of it and
/// nothing else.
pub proof fn law_trimmed_text(s: Seq<char>)
    ensures
        trim(s).len() > 0 ==> !is_white_space(trim(s).first()) && !is_white_space(trim(s).last()),
        exists|a: Seq<char>, b: Seq<char>|
            is_white(a) && is_white(b) && s == #[trigger] (a + trim(s) + b),
        trim_end(s).len() > 0 ==> !is_white_space(trim_end(s).last()),
        exists|b: Seq<char>| is_white(b) && s == #[trigger] (trim_end(s) + b),
{
    let a = lemma_trim_start_parts(s);
    let b = lemma_trim_end_parts(trim_start(s));
    assert(s =~= a + trim(s) + b);
    let c = lemma_trim_end_parts(s);
    assert(s == trim_end(s) + c);
}

/// A text is blank exactly where all its characters are white space.
pub proof fn law_blank_text(s: Seq<char>)
    ensures
        is_blank(s) <==> is_white(s),
{
    let a = lemma_trim_start_parts(s);
    let b = lemma_trim_end_parts(trim_start(s));
    assert(s =~= a + trim(s) + b);
    if is_blank(s) {
        assert(s =~= a + b);
        assert forall|i: int| 0 <= i < s.len() implies is_white_space(#[trigger] s[i]) by {
            if i < a.len() {
                assert(s[i] == a[i]);
            } else {
                assert(s[i] == b[i - a.len()]);
            }
        }
    } else {
        assert(s[a.len() as int] == trim(s).first());
        assert(trim_start(s).first() == trim(s).first());
    }
}

proof fn lemma_join_last(parts: Seq<Seq<char>>, sep: Seq<char>, c: char)
    requires
        parts.len() > 0,
    ensures
        join(parts.drop_last().push(parts.last().push(c)), sep) == join(parts, sep).push(c),
{
    let longer = parts.drop_last().push(parts.last().push(c));
    assert(longer.drop_last() =~= parts.drop_last());
    if parts.len() == 1 {
        assert(longer[0] == parts[0].push(c));
    } else {
        assert(join(longer, sep) =~= join(parts, sep).push(c));
    }
}

/// The pieces of a text hold no separator, and with a separator between each two
/// they are the text.
pub proof fn law_pieces_make_the_text(s: Seq<char>, sep: char)
    ensures
        split(s, sep).len() > 0,
        join(split(s, sep), seq![sep]) == s,
        forall|i: int, j: int|
            0 <= i < split(s, sep).len() && 0 <= j < split(s, sep)[i].len()
                ==> #[trigger] split(s, sep)[i][j] != sep,
    decreases s.len(),
{
    if s.len() == 0 {
        assert(split(s, sep) =~= seq![Seq::<char>::empty()]);
        assert(join(split(s, sep), seq![sep]) =~= s);
    } else {
        let before = split(s.drop_last(), sep);
        law_pieces_make_the_text(s.drop_last(), sep);
        if s.last() == sep {
            let after = before.push(Seq::empty());
            assert(after.drop_last() =~= before);
            assert(join(after, seq![sep]) =~= s);
            assert forall|i: int, j: int|
                0 <= i < after.len() && 0 <= j < after[i].len() implies #[trigger] after[i][j]
                != sep by {
                assert(after[i] == before[i]);
            }
        } else {
            lemma_join_last(before, seq![sep], s.last());
            let after = before.drop_last().push(before.last().push(s.last()));
            assert(join(after, seq![sep]) =~= s);
            assert forall|i: int, j: int|
                0 <= i < after.len() && 0 <= j < after[i].len() implies #[trigger] after[i][j]
                != sep by {
                if i < before.len() - 1 {
                    assert(after[i] == before[i]);
                } else if j < before.last().len() {
                    assert(after[i][j] == before[i][j]);
                }
            }
        }
    }
}

/// Parts that hold no separator are the pieces of the text that they are joined
/// to.
pub proof fn law_joined_parts_are_its_pieces(parts: Seq<Seq<char>>, sep: char)
    requires
        parts.len() > 0,
        forall|i: int, j: int|
            0 <= i < parts.len() && 0 <= j < parts[i].len() ==> #[trigger] parts[i][j] != sep,
    ensures
        split(join(parts, seq![sep]), sep) == parts,
    decreases parts.len(), parts.last().len(),
{
    let s = join(parts, seq![sep]);
    if parts.last().len() > 0 {
        let c = parts.last().last();
        let shorter = parts.drop_last().push(parts.last().drop_last());
        assert(shorter.drop_last() =~= parts.drop_last());
        assert(shorter.drop_last().push(shorter.last().push(c)) =~= parts) by {
            assert(shorter.last().push(c) =~= parts.last());
        }
        lemma_join_last(shorter, seq![sep], c);
        assert forall|i: int, j: int|
            0 <= i < shorter.len() && 0 <= j < shorter[i].len() implies #[trigger] shorter[i][j]
            != sep by {
            assert(shorter[i][j] == parts[i][j]);
        }
        assert(parts[parts.len() - 1][parts.last().len() - 1] != sep);
        law_joined_parts_are_its_pieces(shorter, sep);
        assert(s.drop_last() =~= join(shorter, seq![sep]));
        assert(s.last() == c);
        assert(split(s, sep) =~= parts);
    } else if parts.len() == 1 {
        assert(s =~= Seq::<char>::empty());
        assert(split(s, sep) =~= parts);
    } else {
        let rest = parts.drop_last();
        assert forall|i: int, j: int|
            0 <= i < rest.len() && 0 <= j < rest[i].len() implies #[trigger] rest[i][j] != sep by {
            assert(rest[i][j] == parts[i][j]);
        }
        law_joined_parts_are_its_pieces(rest, sep);
        assert(s =~= join(rest, seq![sep]).push(sep));
        assert(s.drop_last() =~= join(rest, seq![sep]));
        assert(parts.last() =~= Seq::<char>::empty());
        assert(split(s, sep) =~= rest.push(Seq::empty()));
        assert(split(s, sep) =~= parts);
    }
}

/// Joining puts every part into the text, in order: a text that is joined from
/// two lists of parts is one after the other, with the separator between them.
pub proof fn law_joining_two_lists(a: Seq<Seq<char>>, b: Seq<Seq<char>>, sep: Seq<char>)
    requires
        a.len() > 0,
        b.len() > 0,
    ensures
        join(a + b, sep) == join(a, sep) + sep + join(b, sep),
        join(seq![a[0]], sep) == a[0],
    decreases b.len(),
{
    assert((a + b).drop_last() =~= a + b.drop_last());
    if b.len() == 1 {
        assert(a + b.drop_last() =~= a);
        assert(join(a + b, sep) =~= join(a, sep) + sep + join(b, sep));
    } else {
        law_joining_two_lists(a, b.drop_last(), sep);
        assert(join(a + b, sep) =~= join(a, sep) + sep + join(b, sep));
    }
}

/// Padding puts only copies of the character before the text, and no more than
/// make up the width.
pub proof fn law_padded_text(s: Seq<char>, c: char, width: nat)
    ensures
        pad_left(s, c, width).len() == if s.len() < width {
            width
        } else {
            s.len()
        },
        pad_left(s, c, width).skip(pad_left(s, c, width).len() - s.len()) == s,
        forall|i: int|
            0 <= i < pad_left(s, c, width).len() - s.len() ==> #[trigger] pad_left(s, c, width)[i]
                == c,
        pad_right(s, width).len() == if s.len() < width {
            width
        } else {
            s.len()
        },
        pad_right(s, width).take(s.len() as int) == s,
        forall|i: int|
            s.len() <= i < pad_right(s, width).len() ==> #[trigger] pad_right(s, width)[i] == ' ',
{
    assert(pad_left(s, c, width).skip(pad_left(s, c, width).len() - s.len()) =~= s);
    assert(pad_right(s, width).take(s.len() as int) =~= s);
}

/// A text that may be there counts where it is there, and the default where it is not.
pub proof fn law_text_or_default(s: Option<Seq<char>>, default: Seq<char>)
    ensures
        s matches Some(t) ==> or(s, default) == t,
        s is None ==> or(s, default) == default,
{
}

/// Stripping takes off the copies of the character at the end, all of them and nothing
/// else.
pub proof fn law_stripped_text(s: Seq<char>, c: char)
    ensures
        strip_end(s, c).len() <= s.len(),
        strip_end(s, c) == s.take(strip_end(s, c).len() as int),
        strip_end(s, c).len() > 0 ==> strip_end(s, c).last() != c,
        forall|i: int| strip_end(s, c).len() <= i < s.len() ==> (#[trigger] s[i]) == c,
    decreases s.len(),
{
    if s.len() > 0 && s.last() == c {
        let t = s.drop_last();
        law_stripped_text(t, c);
        assert(t.take(strip_end(t, c).len() as int) =~= s.take(strip_end(t, c).len() as int));
        assert forall|i: int| strip_end(s, c).len() <= i < s.len() implies (#[trigger] s[i])
            == c by {
            if i < t.len() {
                assert(t[i] == s[i]);
            }
        }
    } else {
        assert(s.take(s.len() as int) =~= s);
    }
}

/// A text holds another where its characters stand in it, one after another.
pub proof fn law_text_held_in_another(s: Seq<char>, p: Seq<char>)
    ensures
        contains(s, p) <==> exists|a: Seq<char>, b: Seq<char>| s == #[trigger] (a + p + b),
        starts_with(s, p) <==> exists|b: Seq<char>| s == #[trigger] (p + b),
{
    if contains(s, p) {
        let at = choose|at: int| occurs_at(s, p, at);
        let a = s.take(at);
        let b = s.skip(at + p.len());
        assert(s =~= a + s.subrange(at, at + p.len()) + b);
    }
    if exists|a: Seq<char>, b: Seq<char>| s == #[trigger] (a + p + b) {
        let (a, b) = choose|a: Seq<char>, b: Seq<char>| s == #[trigger] (a + p + b);
        assert(s.subrange(a.len() as int, (a.len() + p.len()) as int) =~= p);
        assert(occurs_at(s, p, a.len() as int));
    }
    if starts_with(s, p) {
        assert(s =~= p + s.skip(p.len() as int));
    }
    if exists|b: Seq<char>| s == #[trigger] (p + b) {
        let b = choose|b: Seq<char>| s == #[trigger] (p + b);
        assert(s.take(p.len() as int) =~= p);
    }
}

} // verus!
