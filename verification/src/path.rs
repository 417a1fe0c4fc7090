//! File paths as text: the parts that naming an output needs, in the style of
//! the system that the paths are for.

use crate::text;
use vstd::prelude::*;

verus! {

/// How a system writes paths.
#[derive(Debug, Clone, Copy, PartialEq, Eq, Structural)]
pub enum Style {
    /// Components are separated by `/`.
    Unix,
    /// Components are separated by `\` or `/`, and a path may begin with a
    /// prefix: a drive, a server and a share, a device, or a verbatim prefix,
    /// after which only `\` separates components.
    Windows,
}

impl Style {
    /// Whether a character separates components outside verbatim paths.
    pub open spec fn separates(self, c: char) -> bool {
        c == '/' || (self == Style::Windows && c == '\\')
    }

    /// Whether a character separates components, in a verbatim path or not.
    pub open spec fn divides(self, verbatim: bool, c: char) -> bool {
        if verbatim {
            c == '\\'
        } else {
            self.separates(c)
        }
    }

    /// The character that is put between components.
    pub open spec fn separator(self) -> char {
        match self {
            Style::Unix => '/',
            Style::Windows => '\\',
        }
    }

    fn is_separator(self, c: char) -> (r: bool)
        ensures
            r == self.separates(c),
    {
        c == '/' || (matches!(self, Style::Windows) && c == '\\')
    }

    fn is_divider(self, verbatim: bool, c: char) -> (r: bool)
        ensures
            r == self.divides(verbatim, c),
    {
        if verbatim {
            c == '\\'
        } else {
            self.is_separator(c)
        }
    }

    fn main_separator(self) -> (r: char)
        ensures
            r == self.separator(),
    {
        match self {
            Style::Unix => '/',
            Style::Windows => '\\',
        }
    }
}

// ---------------------------------------------------------------------------
// File names
// ---------------------------------------------------------------------------

/// The offset of the last `.` of `name`, or -1.
pub open spec fn last_dot(name: Seq<char>) -> int
    decreases name.len(),
{
    if name.len() == 0 {
        -1
    } else if name.last() == '.' {
        name.len() - 1
    } else {
        last_dot(name.drop_last())
    }
}

/// A file name without its final extension. A name whose only dot comes first
/// has no extension.
pub open spec fn stem(name: Seq<char>) -> Seq<char> {
    if last_dot(name) > 0 {
        name.take(last_dot(name))
    } else {
        name
    }
}

/// The final extension of a file name, without its dot.
pub open spec fn extension(name: Seq<char>) -> Option<Seq<char>> {
    if last_dot(name) > 0 {
        Some(name.skip(last_dot(name) + 1))
    } else {
        None
    }
}

fn dot_of(x: &Vec<char>) -> (r: Option<usize>)
    ensures
        match r {
            Some(d) => last_dot(x@) == d && d < x.len(),
            None => last_dot(x@) == -1,
        },
{
    let mut n: usize = x.len();
    assert(x@.take(n as int) =~= x@);
    while n > 0
        invariant
            n <= x@.len(),
            last_dot(x@.take(n as int)) == last_dot(x@),
        decreases n,
    {
        assert(x@.take(n as int).drop_last() =~= x@.take(n - 1));
        if x[n - 1] == '.' {
            return Some(n - 1);
        }
        n = n - 1;
    }
    None
}

/// The file name `name` without its final extension.
pub fn stem_of(name: &str) -> (r: String)
    ensures
        r@ == stem(name@),
{
    let x = text::chars_of(name);
    match dot_of(&x) {
        Some(d) if d > 0 => text::string_of(&x, 0, d),
        _ => name.to_owned(),
    }
}

/// The final extension of the file name `name`.
pub fn extension_of(name: &str) -> (r: Option<String>)
    ensures
        r.deep_view() == extension(name@),
{
    let x = text::chars_of(name);
    match dot_of(&x) {
        Some(d) if d > 0 => {
            let e = text::string_of(&x, d + 1, x.len());
            assert(e@ =~= name@.skip(d + 1));
            Some(e)
        },
        _ => None,
    }
}

/// A file name that has an extension is its stem, a dot and that extension.
pub proof fn law_stem_and_extension_make_the_name(name: Seq<char>)
    ensures
        match extension(name) {
            Some(e) => name == stem(name).push('.') + e,
            None => name == stem(name),
        },
{
    lemma_last_dot(name);
    let d = last_dot(name);
    if d > 0 {
        assert(name =~= name.take(d).push('.') + name.skip(d + 1));
    }
}

proof fn lemma_last_dot(name: Seq<char>)
    ensures
        -1 <= last_dot(name) < name.len(),
        last_dot(name) >= 0 ==> name[last_dot(name)] == '.',
        forall|i: int| last_dot(name) < i < name.len() ==> name[i] != '.',
    decreases name.len(),
{
    if name.len() > 0 && name.last() != '.' {
        lemma_last_dot(name.drop_last());
        assert forall|i: int| last_dot(name) < i < name.len() implies name[i] != '.' by {
            if i < name.len() - 1 {
                assert(name.drop_last()[i] == name[i]);
            }
        }
    }
}

// ---------------------------------------------------------------------------
// Prefixes
// ---------------------------------------------------------------------------

/// What kind of prefix a path has.
#[derive(Debug, Clone, Copy, PartialEq, Eq, Structural)]
pub enum PrefixKind {
    Absent,
    /// A drive, such as `C:`. What follows it may be relative.
    Drive,
    /// A server and a share, such as `\\server\share`, or a device, such as
    /// `\\.\COM1`. What follows it is absolute.
    Share,
    /// A prefix that begins with `\\?\`. What follows it is taken as it is.
    Verbatim,
}

/// The prefix of a path: its kind and how many characters it takes up.
pub struct Prefix {
    pub kind: PrefixKind,
    pub len: int,
}

/// The offset of the first separator at or after `from`, or the length of the
/// path.
pub open spec fn next_divider(path: Seq<char>, from: int, verbatim: bool) -> int
    decreases path.len() - from,
{
    if from < 0 || from >= path.len() || Style::Windows.divides(verbatim, path[from]) {
        from
    } else {
        next_divider(path, from + 1, verbatim)
    }
}

/// The end of two components that begin at `from`, or of one where there is no
/// second.
pub open spec fn two_components(path: Seq<char>, from: int, verbatim: bool) -> int {
    let first = next_divider(path, from, verbatim);
    if first >= path.len() {
        first
    } else if next_divider(path, first + 1, verbatim) == first + 1 {
        first
    } else {
        next_divider(path, first + 1, verbatim)
    }
}

/// Whether the letter of a drive and a colon stand at an offset.
pub open spec fn is_drive_at(path: Seq<char>, at: int) -> bool {
    path.len() >= at + 2 && path[at + 1] == ':' && ('a' <= path[at] <= 'z' || 'A' <= path[at]
        <= 'Z')
}

/// Whether two separators, a character and another separator begin a path.
pub open spec fn is_marked(path: Seq<char>, c: char) -> bool {
    path.len() >= 4 && Style::Windows.separates(path[0]) && Style::Windows.separates(path[1])
        && path[2] == c && Style::Windows.separates(path[3])
}

/// The prefix of a path.
pub open spec fn prefix(path: Seq<char>, style: Style) -> Prefix {
    let w = Style::Windows;
    if style == Style::Unix {
        Prefix { kind: PrefixKind::Absent, len: 0 }
    } else if is_marked(path, '?') && path[0] == '\\' && path[1] == '\\' && path[3] == '\\' {
        Prefix {
            kind: PrefixKind::Verbatim,
            len: if path.len() >= 8 && path[4] == 'U' && path[5] == 'N' && path[6] == 'C'
                && w.separates(path[7]) {
                two_components(path, 8, true)
            } else if is_drive_at(path, 4) && (path.len() == 6 || w.separates(path[6])) {
                6
            } else {
                next_divider(path, 4, true)
            },
        }
    } else if is_marked(path, '.') {
        Prefix { kind: PrefixKind::Share, len: next_divider(path, 4, false) }
    } else if path.len() >= 2 && w.separates(path[0]) && w.separates(path[1]) {
        let server = next_divider(path, 2, false);
        let share = two_components(path, 2, false);
        if server > 2 && share > server {
            Prefix { kind: PrefixKind::Share, len: share }
        } else {
            Prefix { kind: PrefixKind::Absent, len: 0 }
        }
    } else if is_drive_at(path, 0) {
        Prefix { kind: PrefixKind::Drive, len: 2 }
    } else {
        Prefix { kind: PrefixKind::Absent, len: 0 }
    }
}

/// Whether a path is verbatim.
pub open spec fn is_verbatim(path: Seq<char>, style: Style) -> bool {
    prefix(path, style).kind == PrefixKind::Verbatim
}

proof fn lemma_next_divider(path: Seq<char>, from: int, verbatim: bool)
    requires
        0 <= from <= path.len(),
    ensures
        from <= next_divider(path, from, verbatim) <= path.len(),
        next_divider(path, from, verbatim) < path.len() ==> Style::Windows.divides(
            verbatim,
            path[next_divider(path, from, verbatim)],
        ),
        forall|i: int|
            from <= i < next_divider(path, from, verbatim) ==> !Style::Windows.divides(
                verbatim,
                #[trigger] path[i],
            ),
    decreases path.len() - from,
{
    if from < path.len() && !Style::Windows.divides(verbatim, path[from]) {
        lemma_next_divider(path, from + 1, verbatim);
    }
}

proof fn lemma_prefix_len(path: Seq<char>, style: Style)
    ensures
        0 <= prefix(path, style).len <= path.len(),
        prefix(path, style).kind == PrefixKind::Absent <==> prefix(path, style).len == 0,
{
    if path.len() >= 2 {
        lemma_next_divider(path, 2, false);
        let server = next_divider(path, 2, false);
        if server < path.len() {
            lemma_next_divider(path, server + 1, false);
        }
    }
    if path.len() >= 4 {
        lemma_next_divider(path, 4, false);
        lemma_next_divider(path, 4, true);
    }
    if path.len() >= 8 {
        lemma_next_divider(path, 8, true);
        let server = next_divider(path, 8, true);
        if server < path.len() {
            lemma_next_divider(path, server + 1, true);
        }
    }
}

proof fn lemma_next_divider_take(path: Seq<char>, from: int, verbatim: bool, k: int)
    requires
        0 <= from <= k <= path.len(),
    ensures
        next_divider(path.take(k), from, verbatim) == if next_divider(path, from, verbatim) < k {
            next_divider(path, from, verbatim)
        } else {
            k
        },
    decreases k - from,
{
    if from < k && !Style::Windows.divides(verbatim, path[from]) {
        lemma_next_divider_take(path, from + 1, verbatim, k);
    }
    lemma_next_divider(path, from, verbatim);
}

proof fn lemma_two_components_take(path: Seq<char>, from: int, verbatim: bool, k: int)
    requires
        0 <= from <= two_components(path, from, verbatim) <= k <= path.len(),
    ensures
        two_components(path.take(k), from, verbatim) == two_components(path, from, verbatim),
        next_divider(path.take(k), from, verbatim) == next_divider(path, from, verbatim),
{
    let first = next_divider(path, from, verbatim);
    lemma_next_divider(path, from, verbatim);
    lemma_next_divider_take(path, from, verbatim, k);
    if first < path.len() {
        lemma_next_divider(path, first + 1, verbatim);
    }
    if first < k {
        lemma_next_divider_take(path, first + 1, verbatim, k);
    }
}

/// A path that is cut off behind its prefix keeps the prefix.
proof fn lemma_prefix_take(path: Seq<char>, k: int, style: Style)
    requires
        prefix(path, style).kind != PrefixKind::Absent,
        prefix(path, style).len <= k <= path.len(),
    ensures
        prefix(path.take(k), style) == prefix(path, style),
{
    let start = path.take(k);
    let n = prefix(path, style).len;
    let w = Style::Windows;
    if is_marked(path, '?') && path[0] == '\\' && path[1] == '\\' && path[3] == '\\' {
        lemma_next_divider(path, 4, true);
        if path.len() >= 8 && path[4] == 'U' && path[5] == 'N' && path[6] == 'C' && w.separates(
            path[7],
        ) {
            lemma_next_divider(path, 8, true);
            let first = next_divider(path, 8, true);
            if first < path.len() {
                lemma_next_divider(path, first + 1, true);
            }
            assert(n >= 8);
            lemma_two_components_take(path, 8, true, k);
        } else if is_drive_at(path, 4) && (path.len() == 6 || w.separates(path[6])) {
            assert(n == 6);
        } else {
            assert(n == next_divider(path, 4, true));
            lemma_next_divider_take(path, 4, true, k);
            if k >= 8 {
                assert(start[7] == path[7]);
            }
            if is_drive_at(start, 4) {
                assert(!w.divides(true, path[4]) && !w.divides(true, path[5]));
                assert(n >= 6);
                assert(path.len() > 6 && !w.divides(true, path[6]));
                assert(n >= 7);
            }
        }
    } else if is_marked(path, '.') {
        lemma_next_divider(path, 4, false);
        lemma_next_divider_take(path, 4, false, k);
    } else if path.len() >= 2 && w.separates(path[0]) && w.separates(path[1]) {
        lemma_next_divider(path, 2, false);
        lemma_two_components_take(path, 2, false, k);
        assert(n >= 4);
    }
}

fn next_divider_of(x: &Vec<char>, n: usize, from: usize, verbatim: bool) -> (r: usize)
    requires
        from <= n <= x@.len(),
    ensures
        r == next_divider(x@.take(n as int), from as int, verbatim),
        from <= r <= n,
{
    let mut i: usize = from;
    while i < n && !Style::Windows.is_divider(verbatim, x[i])
        invariant
            from <= i <= n <= x@.len(),
            next_divider(x@.take(n as int), from as int, verbatim) == next_divider(
                x@.take(n as int),
                i as int,
                verbatim,
            ),
        decreases n - i,
    {
        i = i + 1;
    }
    i
}

fn two_components_of(x: &Vec<char>, n: usize, from: usize, verbatim: bool) -> (r: usize)
    requires
        from <= n <= x@.len(),
    ensures
        r == two_components(x@.take(n as int), from as int, verbatim),
        from <= r <= n,
{
    let first = next_divider_of(x, n, from, verbatim);
    if first >= n {
        return first;
    }
    let second = next_divider_of(x, n, first + 1, verbatim);
    if second == first + 1 {
        first
    } else {
        second
    }
}

fn drive_at(x: &Vec<char>, n: usize, at: usize) -> (r: bool)
    requires
        at <= n <= x@.len(),
    ensures
        r == is_drive_at(x@.take(n as int), at as int),
{
    n - at >= 2 && x[at + 1] == ':' && (('a' <= x[at] && x[at] <= 'z') || ('A' <= x[at] && x[at]
        <= 'Z'))
}

fn marked(x: &Vec<char>, n: usize, c: char) -> (r: bool)
    requires
        n <= x@.len(),
    ensures
        r == is_marked(x@.take(n as int), c),
{
    let w = Style::Windows;
    n >= 4 && w.is_separator(x[0]) && w.is_separator(x[1]) && x[2] == c && w.is_separator(x[3])
}

/// The kind of the prefix of a path, and how many characters it takes up.
fn prefix_of(x: &Vec<char>, n: usize, style: Style) -> (r: (PrefixKind, usize))
    requires
        n <= x@.len(),
    ensures
        r.0 == prefix(x@.take(n as int), style).kind,
        r.1 == prefix(x@.take(n as int), style).len,
        r.1 <= n,
{
    let w = Style::Windows;
    if matches!(style, Style::Unix) {
        (PrefixKind::Absent, 0)
    } else if marked(x, n, '?') && x[0] == '\\' && x[1] == '\\' && x[3] == '\\' {
        let len: usize = if n >= 8 && x[4] == 'U' && x[5] == 'N' && x[6] == 'C' && w.is_separator(
            x[7],
        ) {
            two_components_of(x, n, 8, true)
        } else if drive_at(x, n, 4) && (n == 6 || w.is_separator(x[6])) {
            6
        } else {
            next_divider_of(x, n, 4, true)
        };
        (PrefixKind::Verbatim, len)
    } else if marked(x, n, '.') {
        (PrefixKind::Share, next_divider_of(x, n, 4, false))
    } else if n >= 2 && w.is_separator(x[0]) && w.is_separator(x[1]) {
        let server = next_divider_of(x, n, 2, false);
        let share = two_components_of(x, n, 2, false);
        if server > 2 && share > server {
            (PrefixKind::Share, share)
        } else {
            (PrefixKind::Absent, 0)
        }
    } else if drive_at(x, n, 0) {
        (PrefixKind::Drive, 2)
    } else {
        (PrefixKind::Absent, 0)
    }
}

// ---------------------------------------------------------------------------
// Components
// ---------------------------------------------------------------------------

/// Whether a separator follows the prefix of a path.
pub open spec fn is_rooted(path: Seq<char>, style: Style) -> bool {
    let n = prefix(path, style).len;
    path.len() > n && style.separates(path[n])
}

/// How many characters come before the components of a path: its prefix, and
/// after that the separator of an absolute path, or the `.` that a relative one
/// begins with as a component of its own.
pub open spec fn body_start(path: Seq<char>, style: Style) -> int {
    let n = prefix(path, style).len;
    let relative = prefix(path, style).kind == PrefixKind::Absent || prefix(path, style).kind
        == PrefixKind::Drive;
    if is_rooted(path, style) {
        n + 1
    } else if relative && path.len() > n && path[n] == '.' && (path.len() == n + 1
        || style.separates(path[n + 1])) {
        n + 1
    } else {
        n
    }
}

/// The offset of the last separator at or after `from`, or -1.
pub open spec fn last_divider(path: Seq<char>, from: int, style: Style, verbatim: bool) -> int
    decreases path.len(),
{
    if path.len() <= from || path.len() == 0 {
        -1
    } else if style.divides(verbatim, path.last()) {
        path.len() - 1
    } else {
        last_divider(path.drop_last(), from, style, verbatim)
    }
}

/// The offset of the separator before the last component of a path, or -1.
pub open spec fn before_component(path: Seq<char>, style: Style) -> int {
    last_divider(path, body_start(path, style), style, is_verbatim(path, style))
}

/// Where the last component of a path begins.
pub open spec fn component_start(path: Seq<char>, style: Style) -> int {
    if before_component(path, style) < 0 {
        body_start(path, style)
    } else {
        before_component(path, style) + 1
    }
}

/// A path without its last component and the separator before that.
pub open spec fn without_component(path: Seq<char>, style: Style) -> Seq<char> {
    if before_component(path, style) < 0 {
        path.take(body_start(path, style))
    } else {
        path.take(before_component(path, style))
    }
}

/// A path without the empty components at its end, nor the `.` components
/// unless it is verbatim.
pub open spec fn tidy(path: Seq<char>, style: Style) -> Seq<char>
    decreases path.len(),
{
    let last = path.skip(component_start(path, style));
    if path.len() <= body_start(path, style) {
        path
    } else if last.len() == 0 || (last == seq!['.'] && !is_verbatim(path, style)) {
        if without_component(path, style).len() < path.len() {
            tidy(without_component(path, style), style)
        } else {
            path
        }
    } else {
        path
    }
}

/// The name that a path ends in: its last component, unless that is `.` or
/// `..`.
pub open spec fn file_name(path: Seq<char>, style: Style) -> Option<Seq<char>> {
    let p = tidy(path, style);
    let last = p.skip(component_start(p, style));
    if p.len() <= body_start(p, style) || last == seq!['.'] || last == seq!['.', '.'] {
        None
    } else {
        Some(last)
    }
}

/// The directory that a path lies in: the path without its last component. A
/// root, a prefix and the empty path lie in none.
pub open spec fn parent(path: Seq<char>, style: Style) -> Option<Seq<char>> {
    let p = tidy(path, style);
    if p.len() > body_start(p, style) {
        Some(tidy(without_component(p, style), style))
    } else if p == seq!['.'] {
        Some(Seq::empty())
    } else {
        None
    }
}

/// A text cut at separators: the components that are complete, and the one that
/// goes on.
pub struct Cut {
    pub done: Seq<Seq<char>>,
    pub open: Seq<char>,
}

impl Cut {
    /// The components with the open one completed, where it has begun.
    pub open spec fn closed(self) -> Seq<Seq<char>> {
        if self.open.len() > 0 {
            self.done.push(self.open)
        } else {
            self.done
        }
    }
}

/// A text cut at its separators.
pub open spec fn cut(s: Seq<char>, style: Style, verbatim: bool) -> Cut
    decreases s.len(),
{
    if s.len() == 0 {
        Cut { done: Seq::empty(), open: Seq::empty() }
    } else {
        let before = cut(s.drop_last(), style, verbatim);
        if style.divides(verbatim, s.last()) {
            Cut { done: before.closed(), open: Seq::empty() }
        } else {
            Cut { done: before.done, open: before.open.push(s.last()) }
        }
    }
}

/// The components of a text that are not empty.
pub open spec fn components(s: Seq<char>, style: Style, verbatim: bool) -> Seq<Seq<char>> {
    cut(s, style, verbatim).closed()
}

/// Components with others walked from them: `.` stays, and `..` goes back where
/// there is a name to go back from.
pub open spec fn walked(from: Seq<Seq<char>>, steps: Seq<Seq<char>>) -> Seq<Seq<char>>
    decreases steps.len(),
{
    if steps.len() == 0 {
        from
    } else {
        let before = walked(from, steps.drop_last());
        let step = steps.last();
        if step == seq!['.'] {
            before
        } else if step == seq!['.', '.'] {
            if before.len() > 0 && before.last() != seq!['.'] && before.last() != seq!['.', '.'] {
                before.drop_last()
            } else {
                before
            }
        } else {
            before.push(step)
        }
    }
}

/// The path of a name, which is not empty, in a verbatim directory: it is made
/// anew of the components of both.
pub open spec fn verbatim_join(dir: Seq<char>, name: Seq<char>) -> Seq<char> {
    let w = Style::Windows;
    let start = dir.take(prefix(dir, w).len);
    let from = if w.separates(name[0]) {
        Seq::empty()
    } else {
        components(dir.skip(body_start(dir, w)), w, true)
    };
    let all = walked(from, components(name, w, false));
    if all.len() > 0 || is_rooted(dir, w) || w.separates(name[0]) {
        start.push('\\') + text::join(all, seq!['\\'])
    } else {
        start
    }
}

/// A directory ready for a name to be appended.
pub open spec fn opened(dir: Seq<char>, style: Style) -> Seq<char> {
    if dir.len() == 0 || style.separates(dir.last()) || (prefix(dir, style).kind
        == PrefixKind::Drive && dir.len() == 2) {
        dir
    } else {
        dir.push(style.separator())
    }
}

/// The path of `name` in the directory `dir`. A name with a prefix stands alone,
/// and an absolute one keeps no more than the prefix of `dir`.
pub open spec fn join(dir: Seq<char>, name: Seq<char>, style: Style) -> Seq<char> {
    if prefix(name, style).kind != PrefixKind::Absent {
        name
    } else if is_verbatim(dir, style) && name.len() > 0 {
        verbatim_join(dir, name)
    } else if name.len() > 0 && style.separates(name[0]) {
        dir.take(prefix(dir, style).len) + name
    } else {
        opened(dir, style) + name
    }
}

/// A path with the final extension of its name replaced by `ext`, or given it
/// where there was none. A path that ends in no name stays as it is.
pub open spec fn with_extension(path: Seq<char>, ext: Seq<char>, style: Style) -> Seq<char> {
    let p = tidy(path, style);
    match file_name(path, style) {
        Some(name) => p.take(component_start(p, style)) + stem(name) + (if ext.len() > 0 {
            seq!['.'] + ext
        } else {
            Seq::empty()
        }),
        None => path,
    }
}

fn body_start_of(x: &Vec<char>, n: usize, style: Style) -> (r: usize)
    requires
        n <= x@.len(),
    ensures
        r == body_start(x@.take(n as int), style),
        r <= n,
{
    let (kind, d) = prefix_of(x, n, style);
    if n > d && style.is_separator(x[d]) {
        d + 1
    } else if matches!(kind, PrefixKind::Absent | PrefixKind::Drive) && n > d && x[d] == '.' && (n
        == d + 1 || style.is_separator(x[d + 1])) {
        d + 1
    } else {
        d
    }
}

fn verbatim_path(x: &Vec<char>, n: usize, style: Style) -> (r: bool)
    requires
        n <= x@.len(),
    ensures
        r == is_verbatim(x@.take(n as int), style),
{
    matches!(prefix_of(x, n, style).0, PrefixKind::Verbatim)
}

fn last_divider_of(x: &Vec<char>, n: usize, from: usize, style: Style, verbatim: bool) -> (r:
    Option<usize>)
    requires
        n <= x@.len(),
    ensures
        match r {
            Some(i) => last_divider(x@.take(n as int), from as int, style, verbatim) == i && from
                <= i < n,
            None => last_divider(x@.take(n as int), from as int, style, verbatim) < 0,
        },
{
    let mut m: usize = n;
    while m > from
        invariant
            m <= n <= x@.len(),
            last_divider(x@.take(n as int), from as int, style, verbatim) == last_divider(
                x@.take(m as int),
                from as int,
                style,
                verbatim,
            ),
        decreases m,
    {
        assert(x@.take(m as int).drop_last() =~= x@.take(m - 1));
        if style.is_divider(verbatim, x[m - 1]) {
            return Some(m - 1);
        }
        m = m - 1;
    }
    None
}

fn tidy_len(x: &Vec<char>, n: usize, style: Style) -> (r: usize)
    requires
        n <= x@.len(),
    ensures
        r <= n,
        tidy(x@.take(n as int), style) == x@.take(r as int),
    decreases n,
{
    let start = body_start_of(x, n, style);
    if n <= start {
        return n;
    }
    let verbatim = verbatim_path(x, n, style);
    let (from, end) = match last_divider_of(x, n, start, style, verbatim) {
        Some(i) => (i + 1, i),
        None => (start, start),
    };
    let ghost path = x@.take(n as int);
    assert(path.skip(component_start(path, style)) =~= x@.subrange(from as int, n as int));
    assert(without_component(path, style) =~= x@.take(end as int));
    if from == n || (from == n - 1 && x[from] == '.' && !verbatim) {
        if from == n - 1 {
            assert(path.skip(component_start(path, style)) =~= seq!['.']);
        }
        tidy_len(x, end, style)
    } else {
        if from == n - 1 && x[from] != '.' {
            assert(path.skip(component_start(path, style))[0] != '.');
        }
        n
    }
}

/// Where the name that a path ends in begins and ends, where it ends in one.
fn name_span(x: &Vec<char>, style: Style) -> (r: Option<(usize, usize)>)
    ensures
        match r {
            Some((from, to)) => {
                &&& from <= to <= x@.len()
                &&& x@.take(to as int) == tidy(x@, style)
                &&& from == component_start(tidy(x@, style), style)
                &&& file_name(x@, style) == Some(x@.subrange(from as int, to as int))
            },
            None => file_name(x@, style) is None,
        },
{
    assert(x@.take(x@.len() as int) =~= x@);
    let n = tidy_len(x, x.len(), style);
    let ghost p = x@.take(n as int);
    let start = body_start_of(x, n, style);
    if n <= start {
        return None;
    }
    let from = match last_divider_of(x, n, start, style, verbatim_path(x, n, style)) {
        Some(i) => i + 1,
        None => start,
    };
    let ghost last = x@.subrange(from as int, n as int);
    assert(p.skip(component_start(p, style)) =~= last);
    if n - from == 1 && x[from] == '.' {
        assert(last =~= seq!['.']);
        return None;
    }
    if n - from == 2 && x[from] == '.' && x[from + 1] == '.' {
        assert(last =~= seq!['.', '.']);
        return None;
    }
    assert(last != seq!['.'] && last != seq!['.', '.']) by {
        if last == seq!['.'] {
            assert(last[0] == '.');
        }
        if last == seq!['.', '.'] {
            assert(last[0] == '.' && last[1] == '.');
        }
    }
    Some((from, n))
}

/// The name that `path` ends in.
pub fn name_of(path: &str, style: Style) -> (r: Option<String>)
    ensures
        r.deep_view() == file_name(path@, style),
{
    let x = text::chars_of(path);
    match name_span(&x, style) {
        Some((from, to)) => Some(text::string_of(&x, from, to)),
        None => None,
    }
}

/// The directory that `path` lies in.
pub fn parent_of(path: &str, style: Style) -> (r: Option<String>)
    ensures
        r.deep_view() == parent(path@, style),
{
    let x = text::chars_of(path);
    assert(x@.take(x@.len() as int) =~= x@);
    let n = tidy_len(&x, x.len(), style);
    let start = body_start_of(&x, n, style);
    let ghost p = x@.take(n as int);
    if n > start {
        let end = match last_divider_of(&x, n, start, style, verbatim_path(&x, n, style)) {
            Some(i) => i,
            None => start,
        };
        assert(without_component(p, style) =~= x@.take(end as int));
        let m = tidy_len(&x, end, style);
        let dir = text::string_of(&x, 0, m);
        assert(dir@ =~= x@.take(m as int));
        Some(dir)
    } else if n == 1 && x[0] == '.' {
        assert(p =~= seq!['.']);
        let dir = String::new();
        assert(dir@ =~= Seq::<char>::empty());
        Some(dir)
    } else {
        assert(p != seq!['.']) by {
            if p == seq!['.'] {
                assert(p[0] == '.');
            }
        }
        None
    }
}

fn components_of(x: &Vec<char>, from: usize, style: Style, verbatim: bool) -> (r: Vec<String>)
    requires
        from <= x@.len(),
    ensures
        r.deep_view() == components(x@.skip(from as int), style, verbatim),
{
    let ghost all = x@.skip(from as int);
    let mut done: Vec<String> = Vec::new();
    let mut open = String::new();
    let mut i: usize = from;
    assert(done.deep_view() =~= Seq::empty());
    assert(all.take(0).len() == 0);
    while i < x.len()
        invariant
            from <= i <= x@.len(),
            all == x@.skip(from as int),
            done.deep_view() == cut(all.take(i - from), style, verbatim).done,
            open@ == cut(all.take(i - from), style, verbatim).open,
        decreases x@.len() - i,
    {
        assert(all.take(i + 1 - from).drop_last() =~= all.take(i - from));
        assert(all.take(i + 1 - from).last() == x@[i as int]);
        if !style.is_divider(verbatim, x[i]) {
            open.push(x[i]);
        } else {
            if !open.as_str().is_empty() {
                let ghost before = done.deep_view();
                let ghost part = open@;
                done.push(open);
                assert(done.deep_view() =~= before.push(part));
            }
            open = String::new();
            assert(open@ =~= Seq::<char>::empty());
        }
        i = i + 1;
    }
    assert(all.take(i - from) =~= all);
    if !open.as_str().is_empty() {
        let ghost before = done.deep_view();
        let ghost part = open@;
        done.push(open);
        assert(done.deep_view() =~= before.push(part));
    }
    done
}

fn is_dots(s: &str, n: usize) -> (r: bool)
    requires
        1 <= n <= 2,
    ensures
        r == (s@ == if n == 1 {
            seq!['.']
        } else {
            seq!['.', '.']
        }),
{
    let x = text::chars_of(s);
    if x.len() != n {
        return false;
    }
    if n == 1 {
        assert(x[0] == '.' ==> x@ =~= seq!['.']);
        x[0] == '.'
    } else {
        assert(x[0] == '.' && x[1] == '.' ==> x@ =~= seq!['.', '.']);
        x[0] == '.' && x[1] == '.'
    }
}

fn walk(parts: &mut Vec<String>, steps: &Vec<String>)
    ensures
        final(parts).deep_view() == walked(old(parts).deep_view(), steps.deep_view()),
{
    let ghost start = parts.deep_view();
    let ghost all = steps.deep_view();
    let mut i: usize = 0;
    assert(all.take(0).len() == 0);
    while i < steps.len()
        invariant
            i <= steps@.len(),
            all == steps.deep_view(),
            parts.deep_view() == walked(start, all.take(i as int)),
        decreases steps@.len() - i,
    {
        assert(all.take(i + 1).drop_last() =~= all.take(i as int));
        let ghost before = parts.deep_view();
        let step = &steps[i];
        assert(all.take(i + 1).last() == step@);
        if is_dots(step, 2) {
            assert(step@ != seq!['.']) by {
                assert(step@.len() == 2);
            }
            if parts.len() > 0 {
                let last = &parts[parts.len() - 1];
                assert(before.last() == last@);
                if !is_dots(last, 1) && !is_dots(last, 2) {
                    let _ = parts.pop();
                    assert(parts.deep_view() =~= before.drop_last());
                }
            }
        } else if !is_dots(step, 1) {
            parts.push(step.clone());
            assert(parts.deep_view() =~= before.push(step@));
        }
        i = i + 1;
    }
    assert(all.take(i as int) =~= all);
}

fn join_verbatim(x: &Vec<char>, y: &Vec<char>) -> (r: String)
    requires
        is_verbatim(x@, Style::Windows),
        y@.len() > 0,
    ensures
        r@ == verbatim_join(x@, y@),
{
    let w = Style::Windows;
    assert(x@.take(x@.len() as int) =~= x@);
    let (_, d) = prefix_of(x, x.len(), w);
    let start = body_start_of(x, x.len(), w);
    let absolute = w.is_separator(y[0]);
    let mut parts = if absolute {
        let none: Vec<String> = Vec::new();
        assert(none.deep_view() =~= Seq::empty());
        none
    } else {
        components_of(x, start, w, true)
    };
    assert(y@.skip(0) =~= y@);
    walk(&mut parts, &components_of(y, 0, w, false));
    let mut out = text::string_of(x, 0, d);
    assert(out@ =~= x@.take(d as int));
    if parts.len() > 0 || (x.len() > d && w.is_separator(x[d])) || absolute {
        out.push('\\');
        proof {
            reveal_strlit("\\");
            assert("\\"@ =~= seq!['\\']);
        }
        out.append(&text::joined(&parts, "\\"));
    }
    out
}

/// The path of `name` in the directory `dir`.
pub fn joined(dir: &str, name: &str, style: Style) -> (r: String)
    ensures
        r@ == join(dir@, name@, style),
{
    let x = text::chars_of(dir);
    let y = text::chars_of(name);
    assert(x@.take(x@.len() as int) =~= x@);
    assert(y@.take(y@.len() as int) =~= y@);
    if !matches!(prefix_of(&y, y.len(), style).0, PrefixKind::Absent) {
        return name.to_owned();
    }
    let (kind, d) = prefix_of(&x, x.len(), style);
    if matches!(kind, PrefixKind::Verbatim) && y.len() > 0 {
        return join_verbatim(&x, &y);
    }
    if y.len() > 0 && style.is_separator(y[0]) {
        let mut out = text::string_of(&x, 0, d);
        assert(out@ =~= dir@.take(d as int));
        out.append(name);
        return out;
    }
    let mut out = dir.to_owned();
    let open = x.len() == 0 || style.is_separator(x[x.len() - 1]) || (matches!(
        kind,
        PrefixKind::Drive
    ) && x.len() == 2);
    if !open {
        out.push(style.main_separator());
    }
    out.append(name);
    out
}

/// `path` with the final extension of its name replaced by `ext`.
pub fn extended(path: &str, ext: &str, style: Style) -> (r: String)
    ensures
        r@ == with_extension(path@, ext@, style),
{
    let x = text::chars_of(path);
    let (from, to) = match name_span(&x, style) {
        Some(span) => span,
        None => {
            return path.to_owned();
        },
    };
    let name = text::string_of(&x, from, to);
    let mut out = text::string_of(&x, 0, from);
    assert(out@ =~= x@.take(to as int).take(from as int));
    out.append(&stem_of(&name));
    let ghost head = out@;
    if !ext.is_empty() {
        out.push('.');
        out.append(ext);
    }
    assert(out@ =~= head + (if ext@.len() > 0 {
        seq!['.'] + ext@
    } else {
        Seq::empty()
    }));
    out
}

// ---------------------------------------------------------------------------
// Laws of joined paths
// ---------------------------------------------------------------------------

/// Whether a text can be the name of a file as it stands: it is not empty, has
/// no separator and no prefix, and is neither `.` nor `..`.
pub open spec fn is_plain(name: Seq<char>, style: Style) -> bool {
    &&& name.len() > 0
    &&& prefix(name, style).kind == PrefixKind::Absent
    &&& forall|i: int| 0 <= i < name.len() ==> !style.separates(#[trigger] name[i])
    &&& name != seq!['.']
    &&& name != seq!['.', '.']
}

/// Whether a directory keeps its prefix when a name is joined to it. In paths of
/// the Unix style every one does.
pub open spec fn keeps_prefix(dir: Seq<char>, name: Seq<char>, style: Style) -> bool {
    prefix(join(dir, name, style), style) == prefix(dir, style)
}

proof fn lemma_last_divider(path: Seq<char>, from: int, style: Style, verbatim: bool)
    requires
        0 <= from,
    ensures
        -1 <= last_divider(path, from, style, verbatim) < path.len(),
        last_divider(path, from, style, verbatim) >= 0 ==> last_divider(
            path,
            from,
            style,
            verbatim,
        ) >= from,
        forall|i: int|
            last_divider(path, from, style, verbatim) < i < path.len() && from <= i
                ==> !style.divides(verbatim, #[trigger] path[i]),
    decreases path.len(),
{
    if path.len() > from && !style.divides(verbatim, path.last()) {
        lemma_last_divider(path.drop_last(), from, style, verbatim);
        assert forall|i: int|
            last_divider(path, from, style, verbatim) < i < path.len() && from
                <= i implies !style.divides(verbatim, #[trigger] path[i]) by {
            if i < path.len() - 1 {
                assert(path.drop_last()[i] == path[i]);
            }
        }
    }
}

proof fn lemma_divider_before_plain_tail(
    head: Seq<char>,
    tail: Seq<char>,
    from: int,
    style: Style,
    verbatim: bool,
)
    requires
        forall|i: int| 0 <= i < tail.len() ==> !style.divides(verbatim, #[trigger] tail[i]),
    ensures
        last_divider(head + tail, from, style, verbatim) == last_divider(
            head,
            from,
            style,
            verbatim,
        ),
    decreases tail.len(),
{
    if tail.len() == 0 {
        assert(head + tail =~= head);
    } else {
        assert((head + tail).drop_last() =~= head + tail.drop_last());
        assert((head + tail).last() == tail.last());
        assert(!style.divides(verbatim, tail[tail.len() - 1]));
        lemma_divider_before_plain_tail(head, tail.drop_last(), from, style, verbatim);
    }
}

proof fn lemma_components_tail(head: Seq<char>, tail: Seq<char>, style: Style, verbatim: bool)
    requires
        head.len() == 0 || style.divides(verbatim, head.last()),
        forall|i: int| 0 <= i < tail.len() ==> !style.divides(verbatim, #[trigger] tail[i]),
    ensures
        cut(head + tail, style, verbatim).done == components(head, style, verbatim),
        cut(head + tail, style, verbatim).open == tail,
    decreases tail.len(),
{
    let all = head + tail;
    if tail.len() == 0 {
        assert(all =~= head);
        assert(cut(head, style, verbatim).open =~= tail);
    } else {
        lemma_components_tail(head, tail.drop_last(), style, verbatim);
        assert(all.drop_last() =~= head + tail.drop_last());
        assert(all.last() == tail.last());
        assert(!style.divides(verbatim, tail[tail.len() - 1]));
        assert(tail.drop_last().push(tail.last()) =~= tail);
    }
}

/// Whether every part of a list is a component.
spec fn are_components(parts: Seq<Seq<char>>, style: Style, verbatim: bool) -> bool {
    forall|i: int| 0 <= i < parts.len() ==> is_component(#[trigger] parts[i], style, verbatim)
}

spec fn is_component(part: Seq<char>, style: Style, verbatim: bool) -> bool {
    part.len() > 0 && forall|i: int|
        0 <= i < part.len() ==> !style.divides(verbatim, #[trigger] part[i])
}

proof fn lemma_components(s: Seq<char>, style: Style, verbatim: bool)
    ensures
        are_components(cut(s, style, verbatim).done, style, verbatim),
        cut(s, style, verbatim).open.len() > 0 ==> is_component(
            cut(s, style, verbatim).open,
            style,
            verbatim,
        ),
        are_components(components(s, style, verbatim), style, verbatim),
    decreases s.len(),
{
    if s.len() > 0 {
        lemma_components(s.drop_last(), style, verbatim);
    }
}

/// The components of joined components are these.
proof fn lemma_components_joined(parts: Seq<Seq<char>>)
    requires
        are_components(parts, Style::Windows, true),
    ensures
        components(text::join(parts, seq!['\\']), Style::Windows, true) == parts,
    decreases parts.len(),
{
    let w = Style::Windows;
    let sep = seq!['\\'];
    let all = text::join(parts, sep);
    if parts.len() == 0 {
        assert(components(all, w, true) =~= parts);
    } else {
        let before = parts.drop_last();
        let last = parts.last();
        assert(is_component(parts[parts.len() - 1], w, true));
        assert(are_components(before, w, true)) by {
            assert forall|i: int| 0 <= i < before.len() implies is_component(
                #[trigger] before[i],
                w,
                true,
            ) by {
                assert(before[i] == parts[i]);
            }
        }
        lemma_components_joined(before);
        let head = if parts.len() == 1 {
            Seq::<char>::empty()
        } else {
            text::join(before, sep) + sep
        };
        assert(all =~= head + last);
        if parts.len() > 1 {
            assert(head.drop_last() =~= text::join(before, sep));
        }
        assert(components(head, w, true) =~= before);
        lemma_components_tail(head, last, w, true);
        assert(before.push(last) =~= parts);
    }
}

/// What comes before the name in a path that is joined from `dir` and a plain
/// name.
spec fn before_name(dir: Seq<char>, style: Style) -> Seq<char> {
    if is_verbatim(dir, style) {
        let from = components(dir.skip(body_start(dir, style)), style, true);
        let start = dir.take(prefix(dir, style).len).push('\\');
        if from.len() == 0 {
            start
        } else {
            (start + text::join(from, seq!['\\'])).push('\\')
        }
    } else {
        opened(dir, style)
    }
}

proof fn lemma_join_plain(dir: Seq<char>, name: Seq<char>, style: Style)
    requires
        is_plain(name, style),
    ensures
        join(dir, name, style) == before_name(dir, style) + name,
{
    assert(!style.separates(name[0]));
    if is_verbatim(dir, style) {
        let w = Style::Windows;
        let from = components(dir.skip(body_start(dir, w)), w, true);
        let none = Seq::<char>::empty();
        assert(none + name =~= name);
        assert forall|i: int| 0 <= i < name.len() implies !w.divides(
            false,
            #[trigger] name[i],
        ) by {
            assert(!style.separates(name[i]));
        }
        lemma_components_tail(none, name, w, false);
        let steps = components(name, w, false);
        assert(steps =~= seq![name]);
        assert(steps.drop_last() =~= Seq::<Seq<char>>::empty());
        assert(walked(from, steps.drop_last()) == from);
        assert(walked(from, steps) == from.push(name));
        assert(from.push(name).drop_last() =~= from);
        let start = dir.take(prefix(dir, w).len).push('\\');
        assert(join(dir, name, style) == start + text::join(from.push(name), seq!['\\']));
        assert(join(dir, name, style) =~= before_name(dir, style) + name);
    }
}

proof fn lemma_joined(dir: Seq<char>, name: Seq<char>, style: Style)
    requires
        is_plain(name, style),
        keeps_prefix(dir, name, style),
    ensures
        ({
            let p = join(dir, name, style);
            let head = before_name(dir, style);
            &&& p == head + name
            &&& body_start(p, style) <= head.len()
            &&& before_component(p, style) == if head.len() <= body_start(p, style) {
                -1
            } else {
                head.len() - 1
            }
            &&& tidy(p, style) == p
            &&& p.skip(component_start(p, style)) == name
        }),
{
    let p = join(dir, name, style);
    let head = before_name(dir, style);
    let d = prefix(dir, style).len;
    let verbatim = is_verbatim(dir, style);
    lemma_join_plain(dir, name, style);
    lemma_prefix_len(dir, style);
    assert(!style.separates(name[0]));
    assert(head.len() >= d);
    if name.len() == 1 && name[0] == '.' {
        assert(name =~= seq!['.']);
    }
    if head.len() == d {
        assert(p[d] == name[0]);
        if name.len() > 1 {
            assert(p[d + 1] == name[1]);
            assert(!style.separates(name[1]));
        }
    } else {
        assert(p[d] == head[d]);
        assert(style.divides(verbatim, head.last()));
    }
    assert forall|i: int| 0 <= i < name.len() implies !style.divides(verbatim, #[trigger] name[i]) by {
        assert(!style.separates(name[i]));
        assert(verbatim ==> style == Style::Windows);
    }
    lemma_divider_before_plain_tail(head, name, body_start(p, style), style, verbatim);
    assert(p.skip(component_start(p, style)) =~= name);
}

/// The name that a joined path ends in is the name that was joined to it, unless
/// they make a prefix together.
pub proof fn law_joined_path_ends_in_its_name(dir: Seq<char>, name: Seq<char>, style: Style)
    requires
        is_plain(name, style),
        keeps_prefix(dir, name, style),
    ensures
        file_name(join(dir, name, style), style) == Some(name),
{
    lemma_joined(dir, name, style);
}

proof fn lemma_tidy(path: Seq<char>, style: Style)
    ensures
        tidy(path, style).len() <= path.len(),
        tidy(tidy(path, style), style) == tidy(path, style),
    decreases path.len(),
{
    let last = path.skip(component_start(path, style));
    if path.len() > body_start(path, style) && (last.len() == 0 || (last == seq!['.']
        && !is_verbatim(path, style))) && without_component(path, style).len() < path.len() {
        lemma_tidy(without_component(path, style), style);
    }
}

/// What a verbatim directory is made anew as.
spec fn renewed(dir: Seq<char>) -> Seq<char> {
    let w = Style::Windows;
    dir.take(prefix(dir, w).len).push('\\') + text::join(
        components(dir.skip(body_start(dir, w)), w, true),
        seq!['\\'],
    )
}

proof fn lemma_renewed(dir: Seq<char>, p: Seq<char>)
    requires
        is_verbatim(dir, Style::Windows),
        prefix(p, Style::Windows) == prefix(dir, Style::Windows),
        renewed(dir).is_prefix_of(p),
    ensures
        prefix(renewed(dir), Style::Windows) == prefix(dir, Style::Windows),
        body_start(renewed(dir), Style::Windows) == prefix(dir, Style::Windows).len + 1,
        tidy(renewed(dir), Style::Windows) == renewed(dir),
        before_name(renewed(dir), Style::Windows) == before_name(dir, Style::Windows),
{
    let style = Style::Windows;
    let sep = seq!['\\'];
    let d = prefix(dir, style).len;
    let from = components(dir.skip(body_start(dir, style)), style, true);
    let start = dir.take(d).push('\\');
    let w = renewed(dir);
    lemma_prefix_len(dir, style);
    lemma_components(dir.skip(body_start(dir, style)), style, true);
    assert(w =~= p.take(w.len() as int));
    lemma_prefix_take(p, w.len() as int, style);
    assert(w[d] == '\\');
    assert(w.skip(d + 1) =~= text::join(from, sep));
    lemma_components_joined(from);
    assert(w.take(d) =~= dir.take(d));
    if from.len() > 0 {
        let last = from.last();
        assert(is_component(from[from.len() - 1], style, true));
        let rest = if from.len() == 1 {
            start
        } else {
            start + text::join(from.drop_last(), sep) + sep
        };
        assert(w =~= rest + last);
        assert(rest.last() == '\\');
        lemma_divider_before_plain_tail(rest, last, d + 1, style, true);
        assert(w.skip(component_start(w, style)) =~= last);
    } else {
        assert(w =~= start);
    }
}

proof fn lemma_rejoined_verbatim(dir: Seq<char>, name: Seq<char>, style: Style)
    requires
        is_plain(name, style),
        keeps_prefix(dir, name, style),
        is_verbatim(dir, style),
    ensures
        ({
            let p = join(dir, name, style);
            parent(p, style) is Some && join(parent(p, style)->Some_0, name, style) == p
        }),
{
    let d = prefix(dir, style).len;
    let p = join(dir, name, style);
    let head = before_name(dir, style);
    let w = renewed(dir);
    let from = components(dir.skip(body_start(dir, style)), style, true);
    lemma_joined(dir, name, style);
    lemma_prefix_len(dir, style);
    lemma_components(dir.skip(body_start(dir, style)), style, true);
    if from.len() == 0 {
        assert(w =~= head);
    } else {
        assert(is_component(from[0], style, true));
        assert(head =~= w.push('\\'));
    }
    assert(w.is_prefix_of(p));
    assert(p[d] == head[d]);
    assert(head[d] == '\\');
    lemma_renewed(dir, p);
    if from.len() > 0 {
        lemma_join_len(from);
    }
    assert(without_component(p, style) =~= w);
    lemma_join_plain(w, name, style);
}

proof fn lemma_join_len(parts: Seq<Seq<char>>)
    requires
        parts.len() > 0,
        are_components(parts, Style::Windows, true),
    ensures
        text::join(parts, seq!['\\']).len() > 0,
{
    assert(is_component(parts[parts.len() - 1], Style::Windows, true));
}

proof fn lemma_rejoined(dir: Seq<char>, name: Seq<char>, style: Style)
    requires
        is_plain(name, style),
        keeps_prefix(dir, name, style),
        !is_verbatim(dir, style),
        tidy(dir, style) == dir,
    ensures
        ({
            let p = join(dir, name, style);
            parent(p, style) is Some && join(parent(p, style)->Some_0, name, style) == p
        }),
{
    let p = join(dir, name, style);
    let head = before_name(dir, style);
    let d = prefix(dir, style).len;
    lemma_joined(dir, name, style);
    lemma_prefix_len(dir, style);
    lemma_join_plain(dir, name, style);
    if head.len() > dir.len() {
        assert(head.drop_last() =~= dir);
        if head.len() > body_start(p, style) {
            assert(without_component(p, style) =~= dir);
        } else {
            assert(dir.len() == d);
            assert(without_component(p, style) =~= head);
            assert(p.take(d + 1) =~= head);
            lemma_prefix_take(p, d + 1, style);
            assert(tidy(head, style) == head);
            lemma_join_plain(head, name, style);
        }
    } else {
        if dir.len() > d && dir.len() > body_start(dir, style) {
            assert(before_component(dir, style) == dir.len() - 1);
            lemma_tidy(without_component(dir, style), style);
            assert(false);
        }
        assert(without_component(p, style) =~= dir);
    }
}

/// A path that was joined from the directory of another path and a name is
/// joined again from its own directory and that name, unless directory and name
/// make a prefix together.
pub proof fn law_joined_path_is_joined_again(path: Seq<char>, name: Seq<char>, style: Style)
    requires
        is_plain(name, style),
        keeps_prefix(text::or(parent(path, style), Seq::empty()), name, style),
    ensures
        ({
            let dir = text::or(parent(path, style), Seq::empty());
            let p = join(dir, name, style);
            parent(p, style) is Some && join(parent(p, style)->Some_0, name, style) == p
        }),
{
    let dir = text::or(parent(path, style), Seq::empty());
    lemma_tidy(without_component(tidy(path, style), style), style);
    assert(tidy(Seq::empty(), style) =~= Seq::<char>::empty());
    if is_verbatim(dir, style) {
        lemma_rejoined_verbatim(dir, name, style);
    } else {
        lemma_rejoined(dir, name, style);
    }
}

/// The name that a path ends in is not empty and has no separator.
pub proof fn lemma_file_name(path: Seq<char>, style: Style)
    ensures
        file_name(path, style) matches Some(n) ==> {
            &&& n.len() > 0
            &&& forall|i: int|
                0 <= i < n.len() ==> !style.divides(is_verbatim(tidy(path, style), style), #[trigger] n[i])
        },
{
    let p = tidy(path, style);
    let start = body_start(p, style);
    lemma_tidy(path, style);
    lemma_prefix_len(p, style);
    lemma_last_divider(p, start, style, is_verbatim(p, style));
    if let Some(n) = file_name(path, style) {
        let from = component_start(p, style);
        assert forall|i: int| 0 <= i < n.len() implies !style.divides(
            is_verbatim(p, style),
            #[trigger] n[i],
        ) by {
            assert(n[i] == p[from + i]);
        }
        if n.len() == 0 {
            lemma_tidy(without_component(p, style), style);
        }
    }
}

/// Whether a text is a relative path that ends in the name of a file.
pub open spec fn is_relative(name: Seq<char>, style: Style) -> bool {
    let k = last_divider(name, 0, style, false) + 1;
    prefix(name, style).kind == PrefixKind::Absent && is_plain(name.skip(k), style)
}

proof fn lemma_prefix_of_longer(name: Seq<char>, more: Seq<char>, style: Style)
    requires
        is_relative(name, style),
        more.len() > 0,
        more[0] == '.',
        forall|i: int| 0 <= i < more.len() ==> !style.separates(#[trigger] more[i]),
    ensures
        prefix(name + more, style).kind == PrefixKind::Absent,
{
    let part = name + more;
    let k = last_divider(name, 0, style, false) + 1;
    let w = Style::Windows;
    lemma_last_divider(name, 0, style, false);
    assert(name.skip(k).len() > 0);
    assert(name.len() > k);
    assert(!style.separates(name.last())) by {
        assert(name.skip(k)[name.len() - 1 - k] == name.last());
    }
    assert(part.take(name.len() as int) =~= name);
    assert(part[name.len() as int] == '.');
    assert(forall|i: int| 0 <= i < name.len() ==> part[i] == name[i]);
    if style == Style::Windows && name.len() >= 2 && w.separates(name[0]) && w.separates(name[1]) {
        lemma_next_divider_take(part, 2, false, name.len() as int);
        lemma_next_divider(part, 2, false);
        lemma_next_divider(name, 2, false);
        let server = next_divider(name, 2, false);
        assert forall|i: int| name.len() <= i < part.len() implies !w.divides(
            false,
            #[trigger] part[i],
        ) by {
            assert(part[i] == more[i - name.len()]);
        }
        if server < name.len() {
            lemma_next_divider(name, server + 1, false);
            lemma_next_divider_take(part, server + 1, false, name.len() as int);
            lemma_next_divider(part, server + 1, false);
        }
    }
}

/// A relative path and the same with more at the end of its name are different
/// paths in every directory.
pub proof fn lemma_longer_name(dir: Seq<char>, name: Seq<char>, more: Seq<char>, style: Style)
    requires
        is_relative(name, style),
        more.len() > 1,
        more[0] == '.',
        forall|i: int| 0 <= i < more.len() ==> !style.separates(#[trigger] more[i]),
        more[1] != '.',
    ensures
        join(dir, name + more, style) != join(dir, name, style),
{
    let part = name + more;
    let k = last_divider(name, 0, style, false) + 1;
    lemma_last_divider(name, 0, style, false);
    lemma_prefix_of_longer(name, more, style);
    assert(part[0] == name[0]);
    if is_verbatim(dir, style) {
        let w = Style::Windows;
        let head = name.take(k);
        let tail = name.skip(k);
        let longer = tail + more;
        assert(name =~= head + tail);
        assert(part =~= head + longer);
        assert forall|i: int| 0 <= i < longer.len() implies !w.divides(
            false,
            #[trigger] longer[i],
        ) by {
            if i >= tail.len() {
                assert(longer[i] == more[i - tail.len()]);
            } else {
                assert(longer[i] == tail[i]);
            }
        }
        assert forall|i: int| 0 <= i < tail.len() implies !w.divides(false, #[trigger] tail[i]) by {
            assert(!style.separates(tail[i]));
        }
        assert(head.len() > 0 ==> w.divides(false, head.last())) by {
            if head.len() > 0 {
                lemma_at_last_divider(name, 0, style, false);
            }
        }
        lemma_components_tail(head, tail, w, false);
        lemma_components_tail(head, longer, w, false);
        let steps = components(head, w, false);
        assert(components(name, w, false) == steps.push(tail));
        assert(components(part, w, false) == steps.push(longer));
        assert(steps.push(tail).drop_last() =~= steps);
        assert(steps.push(longer).drop_last() =~= steps);
        assert(longer.len() >= 3);
        let from = if w.separates(name[0]) {
            Seq::empty()
        } else {
            components(dir.skip(body_start(dir, w)), w, true)
        };
        let before = walked(from, steps);
        assert(walked(from, steps.push(tail)) == before.push(tail));
        assert(walked(from, steps.push(longer)) == before.push(longer));
        assert(before.push(tail).drop_last() =~= before);
        assert(before.push(longer).drop_last() =~= before);
        assert(text::join(before.push(longer), seq!['\\']).len() == text::join(
            before.push(tail),
            seq!['\\'],
        ).len() + more.len());
        assert(join(dir, part, style).len() == join(dir, name, style).len() + more.len());
    } else {
        assert(join(dir, part, style).len() == join(dir, name, style).len() + more.len());
    }
}

proof fn lemma_at_last_divider(path: Seq<char>, from: int, style: Style, verbatim: bool)
    requires
        last_divider(path, from, style, verbatim) >= 0,
    ensures
        last_divider(path, from, style, verbatim) < path.len(),
        style.divides(verbatim, path[last_divider(path, from, style, verbatim)]),
    decreases path.len(),
{
    if !style.divides(verbatim, path.last()) {
        lemma_at_last_divider(path.drop_last(), from, style, verbatim);
    }
}

/// The stem of a name is a beginning of it, and not empty where the name is not.
pub proof fn lemma_stem(name: Seq<char>)
    ensures
        stem(name).is_prefix_of(name),
        name.len() > 0 ==> stem(name).len() > 0,
{
    lemma_last_dot(name);
}

/// A name with an extension that holds no dot has that extension, and its stem
/// is what comes before.
pub proof fn lemma_stem_of_extended(start: Seq<char>, ext: Seq<char>)
    requires
        start.len() > 0,
        forall|i: int| 0 <= i < ext.len() ==> ext[i] != '.',
    ensures
        stem(start.push('.') + ext) == start,
        extension(start.push('.') + ext) == Some(ext),
{
    let name = start.push('.') + ext;
    lemma_last_dot(name);
    let d = last_dot(name);
    assert(name[start.len() as int] == '.');
    if d > start.len() {
        assert(name[d] == ext[d - start.len() - 1]);
    }
    assert(name.take(d) =~= start);
    assert(name.skip(d + 1) =~= ext);
}

// ---------------------------------------------------------------------------
// Laws of names
// ---------------------------------------------------------------------------

/// The stem of a name goes up to its last dot, unless that dot comes first or
/// there is none: then it is the whole name. The extension is what comes after
/// that dot.
pub proof fn law_stem_ends_at_the_last_dot(name: Seq<char>)
    ensures
        ({
            let k = stem(name).len() as int;
            &&& k <= name.len()
            &&& stem(name) == name.take(k)
            &&& k < name.len() ==> k > 0 && name[k] == '.' && extension(name) == Some(
                name.skip(k + 1),
            )
            &&& k == name.len() ==> extension(name) is None
            &&& forall|i: int| 0 < i < name.len() && i > k ==> (#[trigger] name[i]) != '.'
            &&& k == name.len() ==> forall|i: int| 0 < i < name.len() ==> (#[trigger] name[i]) != '.'
        }),
{
    lemma_last_dot(name);
    assert(name.take(name.len() as int) =~= name);
}

// ---------------------------------------------------------------------------
// Laws of paths of the Unix style
// ---------------------------------------------------------------------------

/// Whether a text is the name of a file: it is not empty, holds no `/`, and is neither
/// `.` nor `..`.
pub open spec fn is_name(name: Seq<char>) -> bool {
    &&& name.len() > 0
    &&& forall|i: int| 0 <= i < name.len() ==> (#[trigger] name[i]) != '/'
    &&& name != seq!['.']
    &&& name != seq!['.', '.']
}

/// The name that a path ends in is what follows its last `/`, or all of it where there
/// is none, whatever directory comes before.
pub proof fn law_name_after_the_last_slash(dir: Seq<char>, name: Seq<char>)
    requires
        is_name(name),
    ensures
        file_name(dir.push('/') + name, Style::Unix) == Some(name),
        file_name(name, Style::Unix) == Some(name),
{
    let u = Style::Unix;
    assert(is_plain(name, u));
    law_joined_path_ends_in_its_name(dir.push('/'), name, u);
    assert(join(dir.push('/'), name, u) == dir.push('/') + name);
    let none = Seq::<char>::empty();
    law_joined_path_ends_in_its_name(none, name, u);
    assert(join(none, name, u) =~= name);
}

/// A name is put into a directory after exactly one `/`, and stands alone where there
/// is no directory or where it is absolute.
pub proof fn law_name_in_a_directory(dir: Seq<char>, name: Seq<char>)
    ensures
        name.len() > 0 && name[0] == '/' ==> join(dir, name, Style::Unix) == name,
        (name.len() == 0 || name[0] != '/') && dir.len() == 0 ==> join(dir, name, Style::Unix)
            == name,
        (name.len() == 0 || name[0] != '/') && dir.len() > 0 && dir.last() == '/' ==> join(
            dir,
            name,
            Style::Unix,
        ) == dir + name,
        (name.len() == 0 || name[0] != '/') && dir.len() > 0 && dir.last() != '/' ==> join(
            dir,
            name,
            Style::Unix,
        ) == dir.push('/') + name,
{
    assert(dir.take(0) + name =~= name);
    assert(Seq::<char>::empty() + name =~= name);
    if dir.len() == 0 {
        assert(dir + name =~= name);
    }
}

/// Both `\` and `/` separate the components of a path of the Windows style, and only
/// `/` those of the Unix style; each style has its own separator to put between.
pub proof fn law_separators(c: char)
    ensures
        Style::Unix.separates(c) <==> c == '/',
        Style::Windows.separates(c) <==> c == '/' || c == '\\',
        Style::Unix.separator() == '/',
        Style::Windows.separator() == '\\',
{
}

/// A new extension replaces the last one of the name that a path ends in, and changes
/// nothing else of it.
pub proof fn law_replaced_extension(dir: Seq<char>, name: Seq<char>, ext: Seq<char>)
    requires
        is_name(name),
        ext.len() > 0,
    ensures
        with_extension(dir.push('/') + name, ext, Style::Unix) == dir.push('/') + stem(name) + seq![
            '.',
        ] + ext,
{
    let u = Style::Unix;
    let p = dir.push('/') + name;
    law_name_after_the_last_slash(dir, name);
    lemma_slash_before_name(dir, name);
    assert(tidy(p, u) == p);
    assert(p.take(component_start(p, u)) =~= dir.push('/'));
    assert(dir.push('/') + stem(name) + (seq!['.'] + ext) =~= dir.push('/') + stem(name) + seq!['.']
        + ext);
}

proof fn lemma_last_slash(p: Seq<char>, k: int, from: int)
    requires
        0 <= k < p.len(),
        from <= k,
        p[k] == '/',
        forall|i: int| k < i < p.len() ==> (#[trigger] p[i]) != '/',
    ensures
        last_divider(p, from, Style::Unix, false) == k,
    decreases p.len(),
{
    if k < p.len() - 1 {
        let q = p.drop_last();
        assert(p[p.len() - 1] != '/');
        assert forall|i: int| k < i < q.len() implies (#[trigger] q[i]) != '/' by {
            assert(q[i] == p[i]);
        }
        lemma_last_slash(q, k, from);
    }
}

proof fn lemma_no_slash(p: Seq<char>, from: int)
    requires
        from >= 0,
        forall|i: int| from <= i < p.len() ==> (#[trigger] p[i]) != '/',
    ensures
        last_divider(p, from, Style::Unix, false) == -1,
    decreases p.len(),
{
    if p.len() > from && p.len() > 0 {
        let q = p.drop_last();
        assert(p[p.len() - 1] != '/');
        assert forall|i: int| from <= i < q.len() implies (#[trigger] q[i]) != '/' by {
            assert(q[i] == p[i]);
        }
        lemma_no_slash(q, from);
    }
}

proof fn lemma_slash_before_name(dir: Seq<char>, name: Seq<char>)
    requires
        is_name(name),
    ensures
        component_start(dir.push('/') + name, Style::Unix) == dir.len() + 1,
        tidy(dir.push('/') + name, Style::Unix) == dir.push('/') + name,
{
    let u = Style::Unix;
    let p = dir.push('/') + name;
    let k = dir.len() as int;
    let b = body_start(p, u);
    assert forall|i: int| k < i < p.len() implies (#[trigger] p[i]) != '/' by {
        assert(p[i] == name[i - k - 1]);
    }
    assert(0 <= b <= 1);
    if b <= k {
        lemma_last_slash(p, k, b);
    } else {
        assert(k == 0);
        lemma_no_slash(p, b);
    }
    assert(p.skip(k + 1) =~= name);
}

/// The directory that a file lies in is what comes before the last `/`, where that does
/// not itself end in `/` or a `.` component.
pub proof fn law_directory_before_the_last_slash(dir: Seq<char>, name: Seq<char>)
    requires
        is_name(name),
        dir.len() > 0,
        dir.last() != '/',
        dir.last() != '.',
    ensures
        parent(dir.push('/') + name, Style::Unix) == Some(dir),
{
    let u = Style::Unix;
    let p = dir.push('/') + name;
    lemma_slash_before_name(dir, name);
    let k = dir.len() as int;
    let b = body_start(p, u);
    assert(0 <= b <= 1 <= k);
    assert forall|i: int| k < i < p.len() implies (#[trigger] p[i]) != '/' by {
        assert(p[i] == name[i - k - 1]);
    }
    lemma_last_slash(p, k, b);
    assert(p.take(k) =~= dir);
    assert(without_component(p, u) == dir);
    let last = dir.skip(component_start(dir, u));
    lemma_component_start_bounds(dir);
    assert(tidy(dir, u) == dir) by {
        if dir.len() > body_start(dir, u) {
            assert(last.len() > 0 ==> last.last() == dir.last());
        }
    }
}

proof fn lemma_component_start_bounds(p: Seq<char>)
    requires
        p.len() > 0,
        p.last() != '/',
    ensures
        component_start(p, Style::Unix) <= p.len(),
        component_start(p, Style::Unix) == p.len() ==> body_start(p, Style::Unix) == p.len(),
{
    let u = Style::Unix;
    lemma_last_divider_bounds(p, body_start(p, u));
}

proof fn lemma_last_divider_bounds(p: Seq<char>, from: int)
    ensures
        last_divider(p, from, Style::Unix, false) < p.len(),
        last_divider(p, from, Style::Unix, false) >= 0 ==> p[last_divider(
            p,
            from,
            Style::Unix,
            false,
        )] == '/',
    decreases p.len(),
{
    if p.len() > from && p.len() > 0 && p.last() != '/' {
        lemma_last_divider_bounds(p.drop_last(), from);
    }
}

// ---------------------------------------------------------------------------
// Laws of paths of the Windows style
// ---------------------------------------------------------------------------

/// A path of the Unix style has no prefix. One of the Windows style begins with a drive
/// where a letter and a colon come first, and is verbatim where `\\?\` does.
pub proof fn law_prefixes(path: Seq<char>)
    ensures
        prefix(path, Style::Unix).kind == PrefixKind::Absent && prefix(path, Style::Unix).len == 0,
        path.len() >= 2 && path[1] == ':' && ('a' <= path[0] <= 'z' || 'A' <= path[0] <= 'Z')
            ==> prefix(path, Style::Windows).kind == PrefixKind::Drive && prefix(
            path,
            Style::Windows,
        ).len == 2,
        path.len() >= 4 && path[0] == '\\' && path[1] == '\\' && path[2] == '?' && path[3] == '\\'
            <==> prefix(path, Style::Windows).kind == PrefixKind::Verbatim,
        prefix(path, Style::Windows).kind == PrefixKind::Share ==> path.len() >= 2 && (path[0]
            == '\\' || path[0] == '/') && (path[1] == '\\' || path[1] == '/'),
        prefix(path, Style::Windows).kind == PrefixKind::Drive ==> path.len() >= 2 && path[1]
            == ':',
        path.len() < 2 ==> prefix(path, Style::Windows).kind == PrefixKind::Absent,
{
}

/// The name that a path ends in is what follows its last `\`, where the name has no
/// separator and does not change the prefix of the path.
pub proof fn law_name_after_the_last_backslash(dir: Seq<char>, name: Seq<char>)
    requires
        is_name(name),
        forall|i: int| 0 <= i < name.len() ==> (#[trigger] name[i]) != '\\',
        prefix(name, Style::Windows).kind == PrefixKind::Absent,
        prefix(dir.push('\\') + name, Style::Windows) == prefix(dir.push('\\'), Style::Windows),
        prefix(dir.push('\\'), Style::Windows).kind != PrefixKind::Verbatim,
    ensures
        file_name(dir.push('\\') + name, Style::Windows) == Some(name),
{
    let w = Style::Windows;
    let d = dir.push('\\');
    assert(is_plain(name, w));
    assert(opened(d, w) == d);
    assert(join(d, name, w) == d + name);
    law_joined_path_ends_in_its_name(d, name, w);
}

// ---------------------------------------------------------------------------
// Laws of ends and steps
// ---------------------------------------------------------------------------

proof fn lemma_tidy_slash(path: Seq<char>)
    requires
        path.len() > 0,
    ensures
        tidy(path.push('/'), Style::Unix) == tidy(path, Style::Unix),
{
    let u = Style::Unix;
    let q = path.push('/');
    let b = body_start(q, u);
    assert(b <= 1);
    assert(q.drop_last() =~= path);
    assert(q[q.len() - 1] == '/');
    lemma_last_slash(q, q.len() - 1, b);
    assert(q.skip(q.len() as int).len() == 0);
    assert(q.take(q.len() - 1) =~= path);
    assert(without_component(q, u) == path);
}

proof fn lemma_tidy_dot(path: Seq<char>)
    requires
        path.len() > 0,
    ensures
        tidy(path.push('/').push('.'), Style::Unix) == tidy(path, Style::Unix),
{
    let u = Style::Unix;
    let q = path.push('/').push('.');
    let b = body_start(q, u);
    let k = path.len() as int;
    assert(b <= 1);
    lemma_last_slash(q, k, b);
    assert(q.skip(k + 1) =~= seq!['.']);
    assert(q.take(k) =~= path);
    assert(without_component(q, u) == path);
}

/// A `/` or `/.` at the end of a path changes neither the name that it ends in nor the
/// directory that it lies in, where something comes before.
pub proof fn law_end_of_a_path(path: Seq<char>)
    requires
        path.len() > 0,
    ensures
        file_name(path.push('/'), Style::Unix) == file_name(path, Style::Unix),
        file_name(path.push('/').push('.'), Style::Unix) == file_name(path, Style::Unix),
        path != seq!['.'] ==> parent(path.push('/'), Style::Unix) == parent(path, Style::Unix),
{
    lemma_tidy_slash(path);
    lemma_tidy_dot(path);
}

/// Walking from components, `.` stays where it is, `..` goes back from a name, and
/// anything else goes on into it.
pub proof fn law_steps(from: Seq<Seq<char>>, steps: Seq<Seq<char>>, step: Seq<char>)
    ensures
        walked(from, Seq::<Seq<char>>::empty()) == from,
        step == seq!['.'] ==> walked(from, steps.push(step)) == walked(from, steps),
        step != seq!['.'] && step != seq!['.', '.'] ==> walked(from, steps.push(step)) == walked(
            from,
            steps,
        ).push(step),
        step == seq!['.', '.'] && walked(from, steps).len() > 0 && walked(from, steps).last()
            != seq!['.'] && walked(from, steps).last() != seq!['.', '.'] ==> walked(
            from,
            steps.push(step),
        ) == walked(from, steps).drop_last(),
{
    assert(steps.push(step).drop_last() =~= steps);
    assert(seq!['.'].len() != seq!['.', '.'].len());
}

proof fn lemma_next_backslash(path: Seq<char>, from: int, to: int)
    requires
        0 <= from <= to <= path.len(),
        forall|i: int| from <= i < to ==> (#[trigger] path[i]) != '\\' && path[i] != '/',
        to < path.len() ==> path[to] == '\\' || path[to] == '/',
    ensures
        next_divider(path, from, false) == to,
    decreases to - from,
{
    if from < to {
        assert(path[from] != '\\' && path[from] != '/');
        lemma_next_backslash(path, from + 1, to);
    }
}

/// Two separators, a server, a separator and a share begin a path as its prefix, up to
/// the next separator or the end.
pub proof fn law_server_and_share(server: Seq<char>, share: Seq<char>, rest: Seq<char>)
    requires
        server.len() > 1,
        share.len() > 0,
        forall|i: int| 0 <= i < server.len() ==> (#[trigger] server[i]) != '\\' && server[i] != '/',
        forall|i: int| 0 <= i < share.len() ==> (#[trigger] share[i]) != '\\' && share[i] != '/',
        rest.len() > 0 ==> rest[0] == '\\' || rest[0] == '/',
    ensures
        ({
            let p = seq!['\\', '\\'] + server + seq!['\\'] + share + rest;
            &&& prefix(p, Style::Windows).kind == PrefixKind::Share
            &&& prefix(p, Style::Windows).len == 3 + server.len() + share.len()
        }),
{
    let p = seq!['\\', '\\'] + server + seq!['\\'] + share + rest;
    let a = 2 + server.len() as int;
    let b = a + 1 + share.len();
    assert(p[0] == '\\' && p[1] == '\\');
    assert(p[3] == server[1]);
    assert forall|i: int| 2 <= i < a implies (#[trigger] p[i]) != '\\' && p[i] != '/' by {
        assert(p[i] == server[i - 2]);
    }
    assert(p[a] == '\\');
    assert forall|i: int| a + 1 <= i < b implies (#[trigger] p[i]) != '\\' && p[i] != '/' by {
        assert(p[i] == share[i - a - 1]);
    }
    if b < p.len() {
        assert(p[b] == rest[0]);
    }
    lemma_next_backslash(p, 2, a);
    lemma_next_backslash(p, a + 1, b);
}

} // verus!
