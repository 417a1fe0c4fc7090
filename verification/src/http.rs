//! Shared HTTP vocabulary: one request shape and one mapping from status codes
//! to [`CoreError`], so every adapter reports failures the same way.

use crate::domain::{AudioSource, SourceView};
use crate::error::{CoreError, CoreResult, Failure};
use crate::json::Json;
use crate::path::Style;
use crate::text;
use serde_json::Value;
use vstd::prelude::*;

verus! {

// ---------------------------------------------------------------------------
// Requests
// ---------------------------------------------------------------------------

#[derive(Debug, Clone, Copy, PartialEq, Eq, Structural)]
pub enum Method {
    Get,
    Post,
    Patch,
    Delete,
}

/// A name with a value: a header, a query parameter or a form field.
#[derive(Debug)]
pub struct Field {
    pub name: String,
    pub value: String,
}

/// What a [`Field`] says.
pub struct FieldView {
    pub name: Seq<char>,
    pub value: Seq<char>,
}

impl DeepView for Field {
    type V = FieldView;

    open spec fn deep_view(&self) -> FieldView {
        FieldView { name: self.name@, value: self.value@ }
    }
}

/// A file to send.
#[derive(Debug)]
pub struct Upload {
    pub data: Vec<u8>,
    pub file_name: String,
    pub mime: String,
}

/// What an [`Upload`] holds.
pub struct UploadView {
    pub data: Seq<u8>,
    pub file_name: Seq<char>,
    pub mime: Seq<char>,
}

impl DeepView for Upload {
    type V = UploadView;

    open spec fn deep_view(&self) -> UploadView {
        UploadView { data: self.data@, file_name: self.file_name@, mime: self.mime@ }
    }
}

/// A part of a multipart form.
#[derive(Debug)]
pub enum Part {
    Text(Field),
    File { name: String, upload: Upload },
}

/// What a [`Part`] holds.
pub enum PartView {
    Text(FieldView),
    File { name: Seq<char>, upload: UploadView },
}

impl DeepView for Part {
    type V = PartView;

    open spec fn deep_view(&self) -> PartView {
        match *self {
            Part::Text(f) => PartView::Text(f.deep_view()),
            Part::File { name, upload } => PartView::File {
                name: name@,
                upload: upload.deep_view(),
            },
        }
    }
}

#[derive(Debug)]
pub enum Body {
    Empty,
    Json(Value),
    Form(Vec<Part>),
}

/// What a [`Body`] holds.
pub enum BodyView {
    Empty,
    Json(Json),
    Form(Seq<PartView>),
}

impl DeepView for Body {
    type V = BodyView;

    open spec fn deep_view(&self) -> BodyView {
        match *self {
            Body::Empty => BodyView::Empty,
            Body::Json(v) => BodyView::Json(crate::json::json_of(v)),
            Body::Form(parts) => BodyView::Form(parts.deep_view()),
        }
    }
}

/// A request to send: the query parameters are still to be encoded into the
/// address.
#[derive(Debug)]
pub struct HttpRequest {
    pub method: Method,
    pub url: String,
    pub headers: Vec<Field>,
    pub query: Vec<Field>,
    pub body: Body,
}

/// What an [`HttpRequest`] asks.
pub struct HttpView {
    pub method: Method,
    pub url: Seq<char>,
    pub headers: Seq<FieldView>,
    pub query: Seq<FieldView>,
    pub body: BodyView,
}

impl DeepView for HttpRequest {
    type V = HttpView;

    open spec fn deep_view(&self) -> HttpView {
        HttpView {
            method: self.method,
            url: self.url@,
            headers: self.headers.deep_view(),
            query: self.query.deep_view(),
            body: self.body.deep_view(),
        }
    }
}

/// The header that carries a bearer token.
pub open spec fn bearer(token: Seq<char>) -> FieldView {
    FieldView { name: "Authorization"@, value: "Bearer "@ + token }
}

pub fn bearer_header(token: &str) -> (r: Field)
    ensures
        r.deep_view() == bearer(token@),
{
    let mut value = "Bearer ".to_owned();
    value.append(token);
    Field { name: "Authorization".to_owned(), value }
}

pub fn field(name: &str, value: &str) -> (r: Field)
    ensures
        r.deep_view() == (FieldView { name: name@, value: value@ }),
{
    Field { name: name.to_owned(), value: value.to_owned() }
}

/// The form field `name` with `value`.
pub open spec fn text_part(name: Seq<char>, value: Seq<char>) -> PartView {
    PartView::Text(FieldView { name, value })
}

/// Appends the form field `name` with `value`.
pub fn push_text(form: &mut Vec<Part>, name: &str, value: &str)
    ensures
        final(form).deep_view() == old(form).deep_view().push(text_part(name@, value@)),
{
    let ghost before = form.deep_view();
    form.push(Part::Text(field(name, value)));
    assert(form.deep_view() =~= before.push(text_part(name@, value@)));
}

/// Appends the file part `name`.
pub fn push_file(form: &mut Vec<Part>, name: &str, upload: Upload)
    ensures
        final(form).deep_view() == old(form).deep_view().push(
            PartView::File { name: name@, upload: upload.deep_view() },
        ),
{
    let ghost before = form.deep_view();
    let ghost part = PartView::File { name: name@, upload: upload.deep_view() };
    form.push(Part::File { name: name.to_owned(), upload });
    assert(form.deep_view() =~= before.push(part));
}

/// The list that holds one field.
pub fn one_field(f: Field) -> (r: Vec<Field>)
    ensures
        r.deep_view() == seq![f.deep_view()],
{
    let mut r: Vec<Field> = Vec::new();
    r.push(f);
    assert(r.deep_view() =~= seq![f.deep_view()]);
    r
}

/// The list that holds no field.
pub fn no_fields() -> (r: Vec<Field>)
    ensures
        r.deep_view() == Seq::<FieldView>::empty(),
{
    let r: Vec<Field> = Vec::new();
    assert(r.deep_view() =~= Seq::<FieldView>::empty());
    r
}

/// A form without parts.
pub fn empty_form() -> (r: Vec<Part>)
    ensures
        r.deep_view() == Seq::<PartView>::empty(),
{
    let r: Vec<Part> = Vec::new();
    assert(r.deep_view() =~= Seq::<PartView>::empty());
    r
}

// ---------------------------------------------------------------------------
// Failures
// ---------------------------------------------------------------------------

/// The most bytes of an answer that an error quotes.
pub const MAX_QUOTED_BYTES: usize = 600;

/// The longest beginning of a text that takes up no more bytes than an error
/// quotes.
pub open spec fn shortened(message: Seq<char>) -> Seq<char>
    decreases message.len(),
{
    if vstd::utf8::encode_utf8(message).len() <= MAX_QUOTED_BYTES || message.len() == 0 {
        message
    } else {
        shortened(message.drop_last())
    }
}

/// As much of a text as an error quotes: all of it, or as much of its beginning
/// as the limit allows and an ellipsis.
pub open spec fn quoted(message: Seq<char>) -> Seq<char> {
    if vstd::utf8::encode_utf8(message).len() > MAX_QUOTED_BYTES {
        shortened(message).push('\u{2026}')
    } else {
        message
    }
}

/// The failure that a status other than success stands for.
pub open spec fn failure_for(
    provider: Seq<char>,
    status: u16,
    status_text: Seq<char>,
    body: Seq<char>,
) -> Failure {
    let message = if text::is_blank(body) {
        status_text
    } else {
        "HTTP "@ + text::decimal(status as nat) + ": "@ + quoted(text::trim(body))
    };
    if status == 401 || status == 403 {
        Failure::Auth { provider, message }
    } else if status == 429 {
        Failure::RateLimited { provider, message }
    } else {
        Failure::Provider { provider, message }
    }
}

proof fn lemma_encode_push(s: Seq<char>, c: char)
    ensures
        vstd::utf8::encode_utf8(s.push(c)) == vstd::utf8::encode_utf8(s)
            + vstd::utf8::encode_scalar(c as u32),
    decreases s.len(),
{
    let both = s.push(c);
    if s.len() == 0 {
        assert(both.drop_first() =~= Seq::<char>::empty());
        reveal_with_fuel(vstd::utf8::encode_utf8, 2);
        assert(vstd::utf8::encode_utf8(both) =~= vstd::utf8::encode_utf8(s)
            + vstd::utf8::encode_scalar(c as u32));
    } else {
        assert(both.drop_first() =~= s.drop_first().push(c));
        lemma_encode_push(s.drop_first(), c);
        assert(vstd::utf8::encode_utf8(both) =~= vstd::utf8::encode_utf8(s)
            + vstd::utf8::encode_scalar(c as u32));
    }
}

proof fn lemma_encode_last(s: Seq<char>)
    requires
        s.len() > 0,
    ensures
        vstd::utf8::encode_utf8(s).len() == vstd::utf8::encode_utf8(s.drop_last()).len()
            + vstd::utf8::encode_scalar(s.last() as u32).len(),
{
    assert(s.drop_last().push(s.last()) =~= s);
    lemma_encode_push(s.drop_last(), s.last());
}

proof fn lemma_shortened(s: Seq<char>, n: int)
    requires
        0 <= n < s.len(),
        vstd::utf8::encode_utf8(s.take(n)).len() <= MAX_QUOTED_BYTES,
        vstd::utf8::encode_utf8(s.take(n + 1)).len() > MAX_QUOTED_BYTES,
    ensures
        shortened(s) == s.take(n),
        vstd::utf8::encode_utf8(s).len() > MAX_QUOTED_BYTES,
    decreases s.len(),
{
    let before = s.drop_last();
    if n + 1 == s.len() {
        assert(s.take(n + 1) =~= s);
        assert(before =~= s.take(n));
        assert(shortened(before) == before);
    } else {
        assert(before.take(n) =~= s.take(n));
        assert(before.take(n + 1) =~= s.take(n + 1));
        lemma_shortened(before, n);
        lemma_encode_last(s);
    }
}

proof fn lemma_shortened_is_a_beginning(s: Seq<char>)
    ensures
        shortened(s).is_prefix_of(s),
        vstd::utf8::encode_utf8(shortened(s)).len() <= MAX_QUOTED_BYTES,
        vstd::utf8::encode_utf8(s).len() > MAX_QUOTED_BYTES ==> shortened(s).len() < s.len()
            && vstd::utf8::encode_utf8(s.take((shortened(s).len() + 1) as int)).len() > MAX_QUOTED_BYTES,
    decreases s.len(),
{
    if vstd::utf8::encode_utf8(s).len() > MAX_QUOTED_BYTES {
        let before = s.drop_last();
        lemma_shortened_is_a_beginning(before);
        if vstd::utf8::encode_utf8(before).len() <= MAX_QUOTED_BYTES {
            assert(s.take((before.len() + 1) as int) =~= s);
        } else {
            assert(before.take((shortened(s).len() + 1) as int) =~= s.take((shortened(s).len() + 1) as int));
        }
    }
}

/// An error quotes a text whole where it fits the limit. Of any other it quotes
/// a beginning that fits, which with one more character would not, and an
/// ellipsis.
pub proof fn law_quotes_are_short(message: Seq<char>)
    ensures
        vstd::utf8::encode_utf8(quoted(message)).len() <= MAX_QUOTED_BYTES + 3,
        if vstd::utf8::encode_utf8(message).len() <= MAX_QUOTED_BYTES {
            quoted(message) == message
        } else {
            let head = quoted(message).drop_last();
            &&& quoted(message).last() == '\u{2026}'
            &&& head.len() < message.len()
            &&& head == message.take(head.len() as int)
            &&& vstd::utf8::encode_utf8(head).len() <= MAX_QUOTED_BYTES
            &&& vstd::utf8::encode_utf8(message.take((head.len() + 1) as int)).len() > MAX_QUOTED_BYTES
        },
{
    if vstd::utf8::encode_utf8(message).len() > MAX_QUOTED_BYTES {
        let head = shortened(message);
        lemma_shortened_is_a_beginning(message);
        assert(quoted(message).drop_last() =~= head);
        assert(head =~= message.take(head.len() as int));
        lemma_encode_push(head, '\u{2026}');
        assert(vstd::utf8::encode_scalar('\u{2026}' as u32).len() == 3);
    }
}

/// How many bytes a character takes up.
fn width(c: char) -> (n: usize)
    ensures
        n == vstd::utf8::encode_scalar(c as u32).len(),
        n <= 4,
{
    let code: u32 = c as u32;
    if code <= 0x7f {
        1
    } else if code <= 0x7ff {
        2
    } else if code <= 0xffff {
        3
    } else {
        4
    }
}

fn quote(message: &str) -> (r: String)
    ensures
        r@ == quoted(message@),
{
    let chars = text::chars_of(message);
    let mut size: usize = 0;
    let mut i: usize = 0;
    assert(chars@.take(0).len() == 0);
    while i < chars.len()
        invariant
            i <= chars@.len(),
            chars@ == message@,
            size == vstd::utf8::encode_utf8(chars@.take(i as int)).len(),
            size <= MAX_QUOTED_BYTES,
        decreases chars@.len() - i,
    {
        let n = width(chars[i]);
        proof {
            lemma_encode_last(chars@.take(i + 1));
            assert(chars@.take(i + 1).drop_last() =~= chars@.take(i as int));
        }
        if size + n > MAX_QUOTED_BYTES {
            proof {
                lemma_shortened(chars@, i as int);
            }
            let mut r = text::string_of(&chars, 0, i);
            assert(r@ =~= chars@.take(i as int));
            r.push('\u{2026}');
            return r;
        }
        size = size + n;
        i = i + 1;
    }
    assert(chars@.take(i as int) =~= message@);
    message.to_owned()
}

/// Map a non-success answer to a [`CoreError`], with its body for context
/// (truncated so errors stay readable).
pub fn error_for(provider: &str, status: u16, status_text: &str, body: &str) -> (r: CoreError)
    ensures
        r.deep_view() == failure_for(provider@, status, status_text@, body@),
{
    let trimmed = text::trimmed(body);
    let message = if trimmed.is_empty() {
        status_text.to_owned()
    } else {
        let mut m = "HTTP ".to_owned();
        m.append(&text::decimal_text(status as u128));
        m.append(": ");
        m.append(&quote(trimmed));
        m
    };
    let provider = provider.to_owned();
    if status == 401 || status == 403 {
        CoreError::Auth { provider, message }
    } else if status == 429 {
        CoreError::RateLimited { provider, message }
    } else {
        CoreError::Provider { provider, message }
    }
}

/// The error of `provider` with a message made of a prefix and a cause.
pub fn provider_error(provider: &str, what: &str, cause: &str) -> (r: CoreError)
    ensures
        r.deep_view() == (Failure::Provider { provider: provider@, message: what@ + cause@ }),
{
    let mut message = what.to_owned();
    message.append(cause);
    CoreError::Provider { provider: provider.to_owned(), message }
}

// ---------------------------------------------------------------------------
// Uploads
// ---------------------------------------------------------------------------

/// The media type of a file extension.
pub open spec fn mime_of(ext: Seq<char>) -> Seq<char> {
    if ext == "mp3"@ || ext == "mpga"@ {
        "audio/mpeg"@
    } else if ext == "wav"@ {
        "audio/wav"@
    } else if ext == "ogg"@ || ext == "oga"@ {
        "audio/ogg"@
    } else if ext == "opus"@ {
        "audio/opus"@
    } else if ext == "flac"@ {
        "audio/flac"@
    } else if ext == "m4a"@ {
        "audio/mp4"@
    } else if ext == "mp4"@ {
        "video/mp4"@
    } else if ext == "aac"@ {
        "audio/aac"@
    } else if ext == "webm"@ {
        "audio/webm"@
    } else if ext == "mkv"@ {
        "video/x-matroska"@
    } else {
        "application/octet-stream"@
    }
}

pub fn guess_mime(ext: &str) -> (r: &'static str)
    ensures
        r@ == mime_of(ext@),
{
    if text::same(ext, "mp3") || text::same(ext, "mpga") {
        "audio/mpeg"
    } else if text::same(ext, "wav") {
        "audio/wav"
    } else if text::same(ext, "ogg") || text::same(ext, "oga") {
        "audio/ogg"
    } else if text::same(ext, "opus") {
        "audio/opus"
    } else if text::same(ext, "flac") {
        "audio/flac"
    } else if text::same(ext, "m4a") {
        "audio/mp4"
    } else if text::same(ext, "mp4") {
        "video/mp4"
    } else if text::same(ext, "aac") {
        "audio/aac"
    } else if text::same(ext, "webm") {
        "audio/webm"
    } else if text::same(ext, "mkv") {
        "video/x-matroska"
    } else {
        "application/octet-stream"
    }
}

/// What is uploaded of a source, given what reading its file brought. A source
/// in memory is uploaded as it is.
pub open spec fn upload_of(
    source: SourceView,
    contents: Result<Seq<u8>, Seq<char>>,
    style: Style,
) -> Result<UploadView, Failure> {
    match source {
        SourceView::File(path) => match contents {
            Ok(data) => Ok(
                UploadView {
                    data,
                    file_name: source.name(style),
                    mime: mime_of(
                        match source.extension(style) {
                            Some(e) => e,
                            None => Seq::empty(),
                        },
                    ),
                },
            ),
            Err(e) => Err(Failure::Io("reading "@ + path + ": "@ + e)),
        },
        SourceView::Bytes { data, file_name, mime } => Ok(UploadView { data, file_name, mime }),
    }
}

/// Materialize an [`AudioSource`] for a multipart upload. `contents` is what
/// reading its file brought, where it is one.
pub fn source_parts(
    source: &AudioSource,
    contents: Result<Vec<u8>, String>,
    style: Style,
) -> (r: CoreResult<Upload>)
    ensures
        crate::error::outcome(r) == upload_of(
            source.deep_view(),
            crate::encoding::decoding(contents),
            style,
        ),
{
    match source {
        AudioSource::File(path) => match contents {
            Ok(data) => {
                let file_name = source.file_name(style);
                let mime = match source.extension(style) {
                    Some(e) => guess_mime(&e).to_owned(),
                    None => {
                        proof {
                            reveal_strlit("");
                            assert(""@ =~= Seq::<char>::empty());
                        }
                        guess_mime("").to_owned()
                    },
                };
                Ok(Upload { data, file_name, mime })
            },
            Err(e) => {
                let mut m = "reading ".to_owned();
                m.append(path);
                m.append(": ");
                m.append(&e);
                Err(CoreError::Io(m))
            },
        },
        AudioSource::Bytes { data, file_name, mime } => {
            let copy = data.clone();
            assert(copy@ =~= data@);
            Ok(Upload { data: copy, file_name: file_name.clone(), mime: mime.clone() })
        },
    }
}

// ---------------------------------------------------------------------------
// Laws of forms, failures and uploads
// ---------------------------------------------------------------------------

/// The values of the text fields of a form that have this name, in order.
pub open spec fn values_of(form: Seq<PartView>, name: Seq<char>) -> Seq<Seq<char>>
    decreases form.len(),
{
    if form.len() == 0 {
        Seq::empty()
    } else {
        match form.last() {
            PartView::Text(f) => if f.name == name {
                values_of(form.drop_last(), name).push(f.value)
            } else {
                values_of(form.drop_last(), name)
            },
            PartView::File { .. } => values_of(form.drop_last(), name),
        }
    }
}

/// The files of a form, by the name of their part, in order.
pub open spec fn files_of(form: Seq<PartView>) -> Seq<(Seq<char>, UploadView)>
    decreases form.len(),
{
    if form.len() == 0 {
        Seq::empty()
    } else {
        match form.last() {
            PartView::Text(_) => files_of(form.drop_last()),
            PartView::File { name, upload } => files_of(form.drop_last()).push((name, upload)),
        }
    }
}

pub proof fn lemma_values_add(a: Seq<PartView>, b: Seq<PartView>, name: Seq<char>)
    ensures
        values_of(a + b, name) == values_of(a, name) + values_of(b, name),
        files_of(a + b) == files_of(a) + files_of(b),
    decreases b.len(),
{
    if b.len() == 0 {
        assert(a + b =~= a);
        assert(values_of(a, name) + values_of(b, name) =~= values_of(a, name));
        assert(files_of(a) + files_of(b) =~= files_of(a));
    } else {
        lemma_values_add(a, b.drop_last(), name);
        assert((a + b).drop_last() =~= a + b.drop_last());
        assert(values_of(a + b, name) =~= values_of(a, name) + values_of(b, name));
        assert(files_of(a + b) =~= files_of(a) + files_of(b));
    }
}

pub proof fn lemma_values_push(form: Seq<PartView>, part: PartView, name: Seq<char>)
    ensures
        values_of(form.push(part), name) == match part {
            PartView::Text(f) => if f.name == name {
                values_of(form, name).push(f.value)
            } else {
                values_of(form, name)
            },
            PartView::File { .. } => values_of(form, name),
        },
        files_of(form.push(part)) == match part {
            PartView::Text(_) => files_of(form),
            PartView::File { name, upload } => files_of(form).push((name, upload)),
        },
        values_of(Seq::<PartView>::empty(), name) == Seq::<Seq<char>>::empty(),
        files_of(Seq::<PartView>::empty()) == Seq::<(Seq<char>, UploadView)>::empty(),
{
    assert(form.push(part).drop_last() =~= form);
}

pub proof fn lemma_values_one(part: PartView, name: Seq<char>)
    ensures
        values_of(seq![part], name) == match part {
            PartView::Text(f) => if f.name == name {
                seq![f.value]
            } else {
                Seq::empty()
            },
            PartView::File { .. } => Seq::empty(),
        },
        files_of(seq![part]) == match part {
            PartView::Text(_) => Seq::<(Seq<char>, UploadView)>::empty(),
            PartView::File { name, upload } => seq![(name, upload)],
        },
        values_of(Seq::<PartView>::empty(), name) == Seq::<Seq<char>>::empty(),
        files_of(Seq::<PartView>::empty()) == Seq::<(Seq<char>, UploadView)>::empty(),
{
    lemma_values_push(Seq::empty(), part, name);
    assert(seq![part] =~= Seq::<PartView>::empty().push(part));
    assert(values_of(seq![part], name) =~= match part {
        PartView::Text(f) => if f.name == name {
            seq![f.value]
        } else {
            Seq::empty()
        },
        PartView::File { .. } => Seq::empty(),
    });
    assert(files_of(seq![part]) =~= match part {
        PartView::Text(_) => Seq::<(Seq<char>, UploadView)>::empty(),
        PartView::File { name, upload } => seq![(name, upload)],
    });
}

/// Fields with one name and these values.
pub proof fn lemma_values_of_list(parts: Seq<PartView>, field: Seq<char>, values: Seq<Seq<char>>, name: Seq<char>)
    requires
        parts.len() == values.len(),
        forall|i: int| 0 <= i < parts.len() ==> (#[trigger] parts[i]) == text_part(field, values[i]),
    ensures
        values_of(parts, name) == if field == name {
            values
        } else {
            Seq::empty()
        },
        files_of(parts) == Seq::<(Seq<char>, UploadView)>::empty(),
    decreases parts.len(),
{
    if parts.len() > 0 {
        let head = parts.drop_last();
        let rest = values.drop_last();
        assert forall|i: int| 0 <= i < head.len() implies (#[trigger] head[i]) == text_part(
            field,
            rest[i],
        ) by {
            assert(head[i] == parts[i]);
        }
        lemma_values_of_list(head, field, rest, name);
        assert(parts[parts.len() - 1] == parts.last());
        assert(rest.push(values.last()) =~= values);
    } else {
        assert(values =~= Seq::<Seq<char>>::empty());
    }
}

/// A status of 401 or 403 stands for missing or wrong credentials, 429 for too many
/// requests, and any other for a failure of the provider. The failure names the
/// provider, and its message is what the service said where it said anything.
pub proof fn law_failure_of_a_status(
    provider: Seq<char>,
    status: u16,
    status_text: Seq<char>,
    body: Seq<char>,
)
    ensures
        failure_for(provider, status, status_text, body) is Auth <==> status == 401 || status
            == 403,
        failure_for(provider, status, status_text, body) is RateLimited <==> status == 429,
        match failure_for(provider, status, status_text, body) {
            Failure::Auth { provider: p, message } => p == provider && says(
                message,
                status,
                status_text,
                body,
            ),
            Failure::RateLimited { provider: p, message } => p == provider && says(
                message,
                status,
                status_text,
                body,
            ),
            Failure::Provider { provider: p, message } => p == provider && says(
                message,
                status,
                status_text,
                body,
            ),
            _ => false,
        },
{
    text::law_blank_text(body);
    reveal_strlit("HTTP ");
    reveal_strlit(": ");
    assert("HTTP "@ =~= seq!['H', 'T', 'T', 'P', ' ']);
    assert(": "@ =~= seq![':', ' ']);
}

/// Whether a message tells of a status: by its text where nothing else was said,
/// and else by its number and by what was said.
pub open spec fn says(
    message: Seq<char>,
    status: u16,
    status_text: Seq<char>,
    body: Seq<char>,
) -> bool {
    if text::is_white(body) {
        message == status_text
    } else {
        message == seq!['H', 'T', 'T', 'P', ' '] + text::decimal(status as nat) + seq![':', ' ']
            + quoted(text::trim(body))
    }
}

/// What is uploaded of a source is all of its audio, under its name; audio in memory
/// keeps its media type, and a file has that of its extension.
pub proof fn law_upload_is_the_source(
    source: SourceView,
    contents: Result<Seq<u8>, Seq<char>>,
    style: Style,
)
    ensures
        match source {
            SourceView::Bytes { data, file_name, mime } => match upload_of(source, contents, style) {
                Ok(u) => u.data == data && u.file_name == file_name && u.mime == mime,
                Err(_) => false,
            },
            SourceView::File(path) => match (upload_of(source, contents, style), contents) {
                (Ok(u), Ok(data)) => u.data == data && u.file_name == source.name(style) && (
                source.extension(style) matches Some(e) ==> u.mime == mime_of(e)),
                (Err(f), Err(_)) => f is Io,
                _ => false,
            },
        },
{
}

/// The media type of each extension that is known, and of no other.
pub proof fn law_media_types(ext: Seq<char>)
    ensures
        mime_of(ext) == "audio/mpeg"@ <==> ext == "mp3"@ || ext == "mpga"@,
        mime_of(ext) == "audio/wav"@ <==> ext == "wav"@,
        mime_of(ext) == "audio/ogg"@ <==> ext == "ogg"@ || ext == "oga"@,
        mime_of(ext) == "audio/opus"@ <==> ext == "opus"@,
        mime_of(ext) == "audio/flac"@ <==> ext == "flac"@,
        mime_of(ext) == "audio/mp4"@ <==> ext == "m4a"@,
        mime_of(ext) == "video/mp4"@ <==> ext == "mp4"@,
        mime_of(ext) == "audio/aac"@ <==> ext == "aac"@,
        mime_of(ext) == "audio/webm"@ <==> ext == "webm"@,
        mime_of(ext) == "video/x-matroska"@ <==> ext == "mkv"@,
        mime_of(ext) == "application/octet-stream"@ <==> !(ext == "mp3"@ || ext == "mpga"@ || ext
            == "wav"@ || ext == "ogg"@ || ext == "oga"@ || ext == "opus"@ || ext == "flac"@ || ext
            == "m4a"@ || ext == "mp4"@ || ext == "aac"@ || ext == "webm"@ || ext == "mkv"@),
{
    lemma_media_types();
    lemma_extensions();
}

proof fn lemma_media_types()
    ensures
        "audio/mpeg"@ != "audio/wav"@,
        "audio/mpeg"@ != "audio/ogg"@,
        "audio/mpeg"@ != "audio/opus"@,
        "audio/mpeg"@ != "audio/flac"@,
        "audio/mpeg"@ != "audio/mp4"@,
        "audio/mpeg"@ != "video/mp4"@,
        "audio/mpeg"@ != "audio/aac"@,
        "audio/mpeg"@ != "audio/webm"@,
        "audio/mpeg"@ != "video/x-matroska"@,
        "audio/mpeg"@ != "application/octet-stream"@,
        "audio/wav"@ != "audio/ogg"@,
        "audio/wav"@ != "audio/opus"@,
        "audio/wav"@ != "audio/flac"@,
        "audio/wav"@ != "audio/mp4"@,
        "audio/wav"@ != "video/mp4"@,
        "audio/wav"@ != "audio/aac"@,
        "audio/wav"@ != "audio/webm"@,
        "audio/wav"@ != "video/x-matroska"@,
        "audio/wav"@ != "application/octet-stream"@,
        "audio/ogg"@ != "audio/opus"@,
        "audio/ogg"@ != "audio/flac"@,
        "audio/ogg"@ != "audio/mp4"@,
        "audio/ogg"@ != "video/mp4"@,
        "audio/ogg"@ != "audio/aac"@,
        "audio/ogg"@ != "audio/webm"@,
        "audio/ogg"@ != "video/x-matroska"@,
        "audio/ogg"@ != "application/octet-stream"@,
        "audio/opus"@ != "audio/flac"@,
        "audio/opus"@ != "audio/mp4"@,
        "audio/opus"@ != "video/mp4"@,
        "audio/opus"@ != "audio/aac"@,
        "audio/opus"@ != "audio/webm"@,
        "audio/opus"@ != "video/x-matroska"@,
        "audio/opus"@ != "application/octet-stream"@,
        "audio/flac"@ != "audio/mp4"@,
        "audio/flac"@ != "video/mp4"@,
        "audio/flac"@ != "audio/aac"@,
        "audio/flac"@ != "audio/webm"@,
        "audio/flac"@ != "video/x-matroska"@,
        "audio/flac"@ != "application/octet-stream"@,
        "audio/mp4"@ != "video/mp4"@,
        "audio/mp4"@ != "audio/aac"@,
        "audio/mp4"@ != "audio/webm"@,
        "audio/mp4"@ != "video/x-matroska"@,
        "audio/mp4"@ != "application/octet-stream"@,
        "video/mp4"@ != "audio/aac"@,
        "video/mp4"@ != "audio/webm"@,
        "video/mp4"@ != "video/x-matroska"@,
        "video/mp4"@ != "application/octet-stream"@,
        "audio/aac"@ != "audio/webm"@,
        "audio/aac"@ != "video/x-matroska"@,
        "audio/aac"@ != "application/octet-stream"@,
        "audio/webm"@ != "video/x-matroska"@,
        "audio/webm"@ != "application/octet-stream"@,
        "video/x-matroska"@ != "application/octet-stream"@,
{
    reveal_strlit("audio/mpeg");
    reveal_strlit("audio/wav");
    reveal_strlit("audio/ogg");
    reveal_strlit("audio/opus");
    reveal_strlit("audio/flac");
    reveal_strlit("audio/mp4");
    reveal_strlit("video/mp4");
    reveal_strlit("audio/aac");
    reveal_strlit("audio/webm");
    reveal_strlit("video/x-matroska");
    reveal_strlit("application/octet-stream");
    assert("audio/mpeg"@.len() == 10);
    assert("audio/wav"@.len() == 9);
    assert("audio/ogg"@.len() == 9);
    assert("audio/opus"@.len() == 10);
    assert("audio/flac"@.len() == 10);
    assert("audio/mp4"@.len() == 9);
    assert("video/mp4"@.len() == 9);
    assert("audio/aac"@.len() == 9);
    assert("audio/webm"@.len() == 10);
    assert("video/x-matroska"@.len() == 16);
    assert("application/octet-stream"@.len() == 24);
    assert("audio/mpeg"@[6] == 'm');
    assert("audio/opus"@[6] == 'o');
    assert("audio/flac"@[6] == 'f');
    assert("audio/webm"@[6] == 'w');
    assert("audio/wav"@[6] == 'w');
    assert("audio/ogg"@[6] == 'o');
    assert("audio/mp4"@[6] == 'm');
    assert("audio/wav"@[0] == 'a');
    assert("video/mp4"@[0] == 'v');
    assert("audio/aac"@[6] == 'a');
    assert("audio/ogg"@[0] == 'a');
    assert("audio/mp4"@[0] == 'a');
    assert("audio/aac"@[0] == 'a');
}

proof fn lemma_extensions()
    ensures
        "mp3"@ != "mpga"@,
        "mp3"@ != "wav"@,
        "mp3"@ != "ogg"@,
        "mp3"@ != "oga"@,
        "mp3"@ != "opus"@,
        "mp3"@ != "flac"@,
        "mp3"@ != "m4a"@,
        "mp3"@ != "mp4"@,
        "mp3"@ != "aac"@,
        "mp3"@ != "webm"@,
        "mp3"@ != "mkv"@,
        "mpga"@ != "wav"@,
        "mpga"@ != "ogg"@,
        "mpga"@ != "oga"@,
        "mpga"@ != "opus"@,
        "mpga"@ != "flac"@,
        "mpga"@ != "m4a"@,
        "mpga"@ != "mp4"@,
        "mpga"@ != "aac"@,
        "mpga"@ != "webm"@,
        "mpga"@ != "mkv"@,
        "wav"@ != "ogg"@,
        "wav"@ != "oga"@,
        "wav"@ != "opus"@,
        "wav"@ != "flac"@,
        "wav"@ != "m4a"@,
        "wav"@ != "mp4"@,
        "wav"@ != "aac"@,
        "wav"@ != "webm"@,
        "wav"@ != "mkv"@,
        "ogg"@ != "oga"@,
        "ogg"@ != "opus"@,
        "ogg"@ != "flac"@,
        "ogg"@ != "m4a"@,
        "ogg"@ != "mp4"@,
        "ogg"@ != "aac"@,
        "ogg"@ != "webm"@,
        "ogg"@ != "mkv"@,
        "oga"@ != "opus"@,
        "oga"@ != "flac"@,
        "oga"@ != "m4a"@,
        "oga"@ != "mp4"@,
        "oga"@ != "aac"@,
        "oga"@ != "webm"@,
        "oga"@ != "mkv"@,
        "opus"@ != "flac"@,
        "opus"@ != "m4a"@,
        "opus"@ != "mp4"@,
        "opus"@ != "aac"@,
        "opus"@ != "webm"@,
        "opus"@ != "mkv"@,
        "flac"@ != "m4a"@,
        "flac"@ != "mp4"@,
        "flac"@ != "aac"@,
        "flac"@ != "webm"@,
        "flac"@ != "mkv"@,
        "m4a"@ != "mp4"@,
        "m4a"@ != "aac"@,
        "m4a"@ != "webm"@,
        "m4a"@ != "mkv"@,
        "mp4"@ != "aac"@,
        "mp4"@ != "webm"@,
        "mp4"@ != "mkv"@,
        "aac"@ != "webm"@,
        "aac"@ != "mkv"@,
        "webm"@ != "mkv"@,
{
    reveal_strlit("mp3");
    reveal_strlit("mpga");
    reveal_strlit("wav");
    reveal_strlit("ogg");
    reveal_strlit("oga");
    reveal_strlit("opus");
    reveal_strlit("flac");
    reveal_strlit("m4a");
    reveal_strlit("mp4");
    reveal_strlit("aac");
    reveal_strlit("webm");
    reveal_strlit("mkv");
    assert("mp3"@.len() == 3);
    assert("mpga"@.len() == 4);
    assert("wav"@.len() == 3);
    assert("ogg"@.len() == 3);
    assert("oga"@.len() == 3);
    assert("opus"@.len() == 4);
    assert("flac"@.len() == 4);
    assert("m4a"@.len() == 3);
    assert("mp4"@.len() == 3);
    assert("aac"@.len() == 3);
    assert("webm"@.len() == 4);
    assert("mkv"@.len() == 3);
    assert("mp3"@[0] == 'm');
    assert("wav"@[0] == 'w');
    assert("ogg"@[0] == 'o');
    assert("oga"@[0] == 'o');
    assert("mp3"@[1] == 'p');
    assert("m4a"@[1] == '4');
    assert("mp3"@[2] == '3');
    assert("mp4"@[2] == '4');
    assert("aac"@[0] == 'a');
    assert("mkv"@[1] == 'k');
    assert("mpga"@[0] == 'm');
    assert("opus"@[0] == 'o');
    assert("flac"@[0] == 'f');
    assert("webm"@[0] == 'w');
    assert("m4a"@[0] == 'm');
    assert("mp4"@[0] == 'm');
    assert("mkv"@[0] == 'm');
    assert("ogg"@[2] == 'g');
    assert("oga"@[2] == 'a');
    assert("mp4"@[1] == 'p');
}

/// A bearer token is sent whole, after the word that announces it.
pub proof fn law_bearer_header(token: Seq<char>)
    ensures
        bearer(token).name == "Authorization"@,
        bearer(token).value == seq!['B', 'e', 'a', 'r', 'e', 'r', ' '] + token,
{
    reveal_strlit("Bearer ");
    assert("Bearer "@ =~= seq!['B', 'e', 'a', 'r', 'e', 'r', ' ']);
}

/// The views of a request and its parts show each field as it is.
pub proof fn law_views_of_requests(r: HttpRequest, f: Field, u: Upload, p: Part)
    ensures
        r.deep_view().method == r.method,
        r.deep_view().url == r.url@,
        r.deep_view().headers.len() == r.headers@.len(),
        forall|i: int|
            0 <= i < r.headers@.len() ==> (#[trigger] r.deep_view().headers[i])
                == r.headers@[i].deep_view(),
        r.deep_view().query.len() == r.query@.len(),
        forall|i: int|
            0 <= i < r.query@.len() ==> (#[trigger] r.deep_view().query[i])
                == r.query@[i].deep_view(),
        match (r.body, r.deep_view().body) {
            (Body::Empty, BodyView::Empty) => true,
            (Body::Json(v), BodyView::Json(j)) => j == crate::json::json_of(v),
            (Body::Form(a), BodyView::Form(b)) => b == a.deep_view(),
            _ => false,
        },
        f.deep_view().name == f.name@,
        f.deep_view().value == f.value@,
        u.deep_view().data == u.data@,
        u.deep_view().file_name == u.file_name@,
        u.deep_view().mime == u.mime@,
        match (p, p.deep_view()) {
            (Part::Text(a), PartView::Text(b)) => b == a.deep_view(),
            (Part::File { name, upload }, PartView::File { name: n, upload: v }) => n == name@ && v
                == upload.deep_view(),
            _ => false,
        },
{
}

/// An error quotes up to 600 bytes of what a service said: a text of that length is
/// quoted whole, and of a longer one a beginning of at most that length.
pub proof fn law_quotes_have_a_limit(message: Seq<char>)
    ensures
        vstd::utf8::encode_utf8(message).len() <= 600 ==> quoted(message) == message,
        vstd::utf8::encode_utf8(message).len() > 600 ==> {
            let head = quoted(message).drop_last();
            &&& quoted(message).len() > 0
            &&& quoted(message).last() == '\u{2026}'
            &&& head == message.take(head.len() as int)
            &&& vstd::utf8::encode_utf8(head).len() <= 600
            &&& vstd::utf8::encode_utf8(message.take((head.len() + 1) as int)).len() > 600
        },
{
    law_quotes_are_short(message);
}

} // verus!
