//! Custom voices of the xAI service: the requests that list, read, create,
//! change and delete them, and what the answers mean.

use crate::domain::AudioSource;
use crate::error::{CoreError, CoreResult, Failure};
use crate::http;
use crate::http::{
    Body, BodyView, Field, FieldView, HttpRequest, HttpView, Method, Part, PartView, Upload,
    UploadView,
};
use crate::json;
use crate::json::Json;
use crate::text;
use crate::xai::XaiProvider;
use serde_json::Value;
use vstd::prelude::*;

verus! {

/// Built-in voices: identifier, name and description.
pub const XAI_BUILT_IN_VOICES: [(&'static str, &'static str, &'static str); 5] = [
    ("eve", "Eve", "Energetic, upbeat"),
    ("ara", "Ara", "Warm, friendly"),
    ("rex", "Rex", "Confident, clear"),
    ("sal", "Sal", "Smooth, balanced"),
    ("leo", "Leo", "Authoritative, strong"),
];

#[derive(Debug, Clone)]
pub struct XaiVoice {
    pub voice_id: String,
    pub name: Option<String>,
    pub description: Option<String>,
    pub gender: Option<String>,
    pub accent: Option<String>,
    pub age: Option<String>,
    pub language: Option<String>,
    pub use_case: Option<String>,
    pub tone: Option<String>,
    pub created_at: Option<String>,
}

#[derive(Debug, Clone)]
pub struct CustomVoiceList {
    pub voices: Vec<XaiVoice>,
    pub pagination_token: Option<String>,
}

#[derive(Debug, Clone)]
pub struct CustomVoiceCreateRequest {
    pub file: AudioSource,
    pub name: String,
    pub description: Option<String>,
    pub gender: Option<String>,
    pub accent: Option<String>,
    pub age: Option<String>,
    pub language: Option<String>,
    pub use_case: Option<String>,
    pub tone: Option<String>,
}

#[derive(Debug, Clone, Default)]
pub struct CustomVoiceUpdateRequest {
    pub name: Option<String>,
    pub description: Option<String>,
    pub gender: Option<String>,
    pub accent: Option<String>,
    pub age: Option<String>,
    pub language: Option<String>,
    pub use_case: Option<String>,
    pub tone: Option<String>,
}

// ---------------------------------------------------------------------------
// Forms and bodies
// ---------------------------------------------------------------------------

/// The form field of a text that is there and not blank.
pub open spec fn optional_part(name: Seq<char>, value: Option<Seq<char>>) -> Seq<PartView> {
    match value {
        Some(v) => if text::is_blank(v) {
            Seq::empty()
        } else {
            seq![http::text_part(name, v)]
        },
        None => Seq::empty(),
    }
}

/// Appends a form field for a text that is there and not blank.
pub fn text_field(form: &mut Vec<Part>, name: &str, value: &Option<String>)
    ensures
        final(form).deep_view() == old(form).deep_view() + optional_part(
            name@,
            value.deep_view(),
        ),
{
    let ghost before = form.deep_view();
    if let Some(v) = value {
        if !text::blank(v) {
            http::push_text(form, name, v);
        }
    }
    assert(form.deep_view() =~= before + optional_part(name@, value.deep_view()));
}

/// The form that creates a custom voice: its fields, and the file last.
pub open spec fn create_form(request: CustomVoiceCreateRequest, upload: UploadView) -> Seq<
    PartView,
> {
    (seq![http::text_part("name"@, request.name@)] + optional_part(
        "description"@,
        request.description.deep_view(),
    ) + optional_part("gender"@, request.gender.deep_view()) + optional_part(
        "accent"@,
        request.accent.deep_view(),
    ) + optional_part("age"@, request.age.deep_view()) + optional_part(
        "language"@,
        request.language.deep_view(),
    ) + optional_part("use_case"@, request.use_case.deep_view()) + optional_part(
        "tone"@,
        request.tone.deep_view(),
    )).push(PartView::File { name: "file"@, upload })
}

/// The body that changes a custom voice: the fields that are there.
pub open spec fn update_body(request: CustomVoiceUpdateRequest) -> Json {
    Json::empty().with_option("name"@, Json::text_option(request.name.deep_view())).with_option(
        "description"@,
        Json::text_option(request.description.deep_view()),
    ).with_option("gender"@, Json::text_option(request.gender.deep_view())).with_option(
        "accent"@,
        Json::text_option(request.accent.deep_view()),
    ).with_option("age"@, Json::text_option(request.age.deep_view())).with_option(
        "language"@,
        Json::text_option(request.language.deep_view()),
    ).with_option("use_case"@, Json::text_option(request.use_case.deep_view())).with_option(
        "tone"@,
        Json::text_option(request.tone.deep_view()),
    )
}

/// Whether an update changes nothing.
pub open spec fn is_empty_update(request: CustomVoiceUpdateRequest) -> bool {
    request.name is None && request.description is None && request.gender is None
        && request.accent is None && request.age is None && request.language is None
        && request.use_case is None && request.tone is None
}

// ---------------------------------------------------------------------------
// Requests
// ---------------------------------------------------------------------------

/// The query of a listing: the limit, then the token of the next page.
pub open spec fn list_query(limit: Option<u32>, pagination_token: Option<Seq<char>>) -> Seq<
    FieldView,
> {
    let first = match limit {
        Some(n) => seq![FieldView { name: "limit"@, value: text::decimal(n as nat) }],
        None => Seq::empty(),
    };
    let second = match pagination_token {
        Some(t) => seq![FieldView { name: "pagination_token"@, value: t }],
        None => Seq::empty(),
    };
    first + second
}

impl XaiProvider {
    /// A request on the custom voices, or on one of them.
    pub open spec fn voice_request(
        self,
        method: Method,
        path: Seq<char>,
        query: Seq<FieldView>,
        body: BodyView,
    ) -> HttpView {
        HttpView {
            method,
            url: self.settings.base_url@ + "/v1/custom-voices"@ + path,
            headers: seq![http::bearer(self.api_key@)],
            query,
            body,
        }
    }

    fn make_voice_request(
        &self,
        method: Method,
        voice_id: Option<&str>,
        query: Vec<Field>,
        body: Body,
    ) -> (r: HttpRequest)
        ensures
            r.deep_view() == self.voice_request(
                method,
                match voice_id {
                    Some(id) => "/"@ + id@,
                    None => Seq::empty(),
                },
                query.deep_view(),
                body.deep_view(),
            ),
    {
        let mut url = self.settings.base_url.clone();
        url.append("/v1/custom-voices");
        if let Some(id) = voice_id {
            url.append("/");
            url.append(id);
        }
        proof {
            let base = self.settings.base_url@ + "/v1/custom-voices"@;
            assert(base + Seq::<char>::empty() =~= base);
            if let Some(id) = voice_id {
                assert(base + "/"@ + id@ =~= base + ("/"@ + id@));
            }
        }
        HttpRequest {
            method,
            url,
            headers: http::one_field(http::bearer_header(&self.api_key)),
            query,
            body,
        }
    }

    /// The request that lists custom voices.
    pub fn list_custom_voices(&self, limit: Option<u32>, pagination_token: Option<&str>) -> (r:
        HttpRequest)
        ensures
            r.deep_view() == self.voice_request(
                Method::Get,
                Seq::empty(),
                list_query(limit, pagination_token.deep_view()),
                BodyView::Empty,
            ),
    {
        let mut query = http::no_fields();
        if let Some(n) = limit {
            query = http::one_field(http::field("limit", &text::decimal_text(n as u128)));
        }
        if let Some(t) = pagination_token {
            query.push(http::field("pagination_token", t));
        }
        assert(query.deep_view() =~= list_query(limit, pagination_token.deep_view()));
        self.make_voice_request(Method::Get, None, query, Body::Empty)
    }

    /// The request that reads one custom voice.
    pub fn get_custom_voice(&self, voice_id: &str) -> (r: HttpRequest)
        ensures
            r.deep_view() == self.voice_request(
                Method::Get,
                "/"@ + voice_id@,
                Seq::empty(),
                BodyView::Empty,
            ),
    {
        self.make_voice_request(Method::Get, Some(voice_id), http::no_fields(), Body::Empty)
    }

    /// The request that creates a custom voice from an upload.
    pub fn create_custom_voice(&self, request: &CustomVoiceCreateRequest, upload: Upload) -> (r:
        HttpRequest)
        ensures
            r.deep_view() == self.voice_request(
                Method::Post,
                Seq::empty(),
                Seq::empty(),
                BodyView::Form(create_form(*request, upload.deep_view())),
            ),
    {
        let mut form = http::empty_form();
        http::push_text(&mut form, "name", &request.name);
        assert(form.deep_view() =~= seq![http::text_part("name"@, request.name@)]);
        text_field(&mut form, "description", &request.description);
        text_field(&mut form, "gender", &request.gender);
        text_field(&mut form, "accent", &request.accent);
        text_field(&mut form, "age", &request.age);
        text_field(&mut form, "language", &request.language);
        text_field(&mut form, "use_case", &request.use_case);
        text_field(&mut form, "tone", &request.tone);
        http::push_file(&mut form, "file", upload);
        self.make_voice_request(Method::Post, None, http::no_fields(), Body::Form(form))
    }

    /// The request that changes a custom voice. At least one field has to be
    /// there.
    pub fn update_custom_voice(&self, voice_id: &str, request: &CustomVoiceUpdateRequest) -> (r:
        CoreResult<HttpRequest>)
        ensures
            crate::error::outcome(r) == if is_empty_update(*request) {
                Err(Failure::InvalidInput("provide at least one field to update"@))
            } else {
                Ok(
                    self.voice_request(
                        Method::Patch,
                        "/"@ + voice_id@,
                        Seq::empty(),
                        BodyView::Json(update_body(*request)),
                    ),
                )
            },
    {
        if request.name.is_none() && request.description.is_none() && request.gender.is_none()
            && request.accent.is_none() && request.age.is_none() && request.language.is_none()
            && request.use_case.is_none() && request.tone.is_none() {
            return Err(
                CoreError::InvalidInput("provide at least one field to update".to_owned()),
            );
        }
        let mut body = json::object();
        json::put_text_option(&mut body, "name", &request.name);
        json::put_text_option(&mut body, "description", &request.description);
        json::put_text_option(&mut body, "gender", &request.gender);
        json::put_text_option(&mut body, "accent", &request.accent);
        json::put_text_option(&mut body, "age", &request.age);
        json::put_text_option(&mut body, "language", &request.language);
        json::put_text_option(&mut body, "use_case", &request.use_case);
        json::put_text_option(&mut body, "tone", &request.tone);
        Ok(
            self.make_voice_request(
                Method::Patch,
                Some(voice_id),
                http::no_fields(),
                Body::Json(body),
            ),
        )
    }

    /// The request that deletes a custom voice.
    pub fn delete_custom_voice(&self, voice_id: &str) -> (r: HttpRequest)
        ensures
            r.deep_view() == self.voice_request(
                Method::Delete,
                "/"@ + voice_id@,
                Seq::empty(),
                BodyView::Empty,
            ),
    {
        self.make_voice_request(Method::Delete, Some(voice_id), http::no_fields(), Body::Empty)
    }
}

// ---------------------------------------------------------------------------
// Answers
// ---------------------------------------------------------------------------

/// The voices of a listing, or the failure to read it.
pub fn voices_listed(answer: Result<CustomVoiceList, String>) -> (r: CoreResult<CustomVoiceList>)
    ensures
        match answer {
            Ok(a) => r == Ok::<CustomVoiceList, CoreError>(a),
            Err(e) => r is Err && r->Err_0.deep_view() == (Failure::Provider {
                provider: "xai"@,
                message: "decoding custom voices: "@ + e@,
            }),
        },
{
    match answer {
        Ok(a) => Ok(a),
        Err(e) => Err(http::provider_error("xai", "decoding custom voices: ", &e)),
    }
}

/// The voice that was read, created or changed, or the failure to read it.
pub fn voice_received(answer: Result<XaiVoice, String>) -> (r: CoreResult<XaiVoice>)
    ensures
        match answer {
            Ok(a) => r == Ok::<XaiVoice, CoreError>(a),
            Err(e) => r is Err && r->Err_0.deep_view() == (Failure::Provider {
                provider: "xai"@,
                message: "decoding custom voice: "@ + e@,
            }),
        },
{
    match answer {
        Ok(a) => Ok(a),
        Err(e) => Err(http::provider_error("xai", "decoding custom voice: ", &e)),
    }
}

/// Whether a deletion took place: what the answer says under `deleted`, and
/// yes where it does not say.
pub open spec fn says_deleted(answer: Result<Json, Seq<char>>) -> Result<bool, Failure> {
    match answer {
        Ok(j) => Ok(
            match j.entry("deleted"@) {
                Some(Json::Bool(b)) => b,
                _ => true,
            },
        ),
        Err(e) => Err(
            Failure::Provider { provider: "xai"@, message: "decoding delete response: "@ + e },
        ),
    }
}

/// Whether a deletion took place, given what reading the answer brought.
pub fn deletion(answer: Result<Value, String>) -> (r: CoreResult<bool>)
    ensures
        crate::error::outcome(r) == says_deleted(json::reading(answer)),
{
    match answer {
        Ok(value) => match json::get(&value, "deleted") {
            Some(v) => match json::as_bool(v) {
                Some(b) => Ok(b),
                None => Ok(true),
            },
            None => Ok(true),
        },
        Err(e) => Err(http::provider_error("xai", "decoding delete response: ", &e)),
    }
}

/// Whether a deletion took place, from the status and body of a successful
/// answer.
pub fn deleted(status: u16, body: &str) -> (r: CoreResult<bool>)
    ensures
        crate::error::outcome(r) == if status == 204 || text::is_blank(body@) {
            Ok(true)
        } else {
            says_deleted(json::json_parsed(body@))
        },
{
    if status == 204 || text::blank(body) {
        return Ok(true);
    }
    deletion(json::parse(body))
}

/// The file is the last part of the form that creates a voice.
pub proof fn law_voice_file_is_the_last_part(request: CustomVoiceCreateRequest, upload: UploadView)
    ensures
        create_form(request, upload).last() == (PartView::File { name: "file"@, upload }),
        forall|i: int|
            0 <= i < create_form(request, upload).len() - 1 ==> #[trigger] create_form(
                request,
                upload,
            )[i] is Text,
{
}

// ---------------------------------------------------------------------------
// Laws of requests
// ---------------------------------------------------------------------------

proof fn lemma_optional_part(field: Seq<char>, value: Option<Seq<char>>, name: Seq<char>)
    ensures
        http::values_of(optional_part(field, value), name) == match value {
            Some(v) => if field == name && !text::is_white(v) {
                seq![v]
            } else {
                Seq::empty()
            },
            None => Seq::empty(),
        },
        http::files_of(optional_part(field, value)) == Seq::<(Seq<char>, UploadView)>::empty(),
{
    let v = text::or(value, Seq::empty());
    text::law_blank_text(v);
    http::lemma_values_one(http::text_part(field, v), name);
}

/// What a form says of a text that may be there: the text itself, where it is there
/// and not blank.
pub open spec fn said(value: Option<String>) -> Seq<Seq<char>> {
    match value {
        Some(v) if !text::is_white(v@) => seq![v@],
        _ => Seq::empty(),
    }
}

/// The form that creates a voice says all that was asked, each under its own name:
/// the name of the voice, every other field that is there and not blank, and the
/// upload as its only file.
pub proof fn law_creation_says_what_was_asked(
    request: CustomVoiceCreateRequest,
    upload: UploadView,
)
    ensures
        http::files_of(create_form(request, upload)) == seq![("file"@, upload)],
        http::values_of(create_form(request, upload), "name"@) == seq![request.name@],
        http::values_of(create_form(request, upload), "description"@) == said(request.description),
        http::values_of(create_form(request, upload), "gender"@) == said(request.gender),
        http::values_of(create_form(request, upload), "accent"@) == said(request.accent),
        http::values_of(create_form(request, upload), "age"@) == said(request.age),
        http::values_of(create_form(request, upload), "language"@) == said(request.language),
        http::values_of(create_form(request, upload), "use_case"@) == said(request.use_case),
        http::values_of(create_form(request, upload), "tone"@) == said(request.tone),
{
    lemma_field_names();
    lemma_form_values(request, upload, "name"@);
    lemma_form_values(request, upload, "description"@);
    lemma_form_values(request, upload, "gender"@);
    lemma_form_values(request, upload, "accent"@);
    lemma_form_values(request, upload, "age"@);
    lemma_form_values(request, upload, "language"@);
    lemma_form_values(request, upload, "use_case"@);
    lemma_form_values(request, upload, "tone"@);
}

spec fn field_values(request: CustomVoiceCreateRequest, name: Seq<char>) -> Seq<Seq<char>> {
    (if name == "name"@ {
        seq![request.name@]
    } else {
        Seq::empty()
    }) + (if name == "description"@ {
        said(request.description)
    } else {
        Seq::empty()
    }) + (if name == "gender"@ {
        said(request.gender)
    } else {
        Seq::empty()
    }) + (if name == "accent"@ {
        said(request.accent)
    } else {
        Seq::empty()
    }) + (if name == "age"@ {
        said(request.age)
    } else {
        Seq::empty()
    }) + (if name == "language"@ {
        said(request.language)
    } else {
        Seq::empty()
    }) + (if name == "use_case"@ {
        said(request.use_case)
    } else {
        Seq::empty()
    }) + (if name == "tone"@ {
        said(request.tone)
    } else {
        Seq::empty()
    })
}

proof fn lemma_form_values(request: CustomVoiceCreateRequest, upload: UploadView, name: Seq<char>)
    ensures
        http::values_of(create_form(request, upload), name) == field_values(request, name),
        http::files_of(create_form(request, upload)) == seq![("file"@, upload)],
{
    lemma_field_names();
    let f0 = seq![http::text_part("name"@, request.name@)];
    http::lemma_values_one(http::text_part("name"@, request.name@), name);
    let p1 = optional_part("description"@, request.description.deep_view());
    let f1 = f0 + p1;
    lemma_optional_part("description"@, request.description.deep_view(), name);
    http::lemma_values_add(f0, p1, name);
    let p2 = optional_part("gender"@, request.gender.deep_view());
    let f2 = f1 + p2;
    lemma_optional_part("gender"@, request.gender.deep_view(), name);
    http::lemma_values_add(f1, p2, name);
    let p3 = optional_part("accent"@, request.accent.deep_view());
    let f3 = f2 + p3;
    lemma_optional_part("accent"@, request.accent.deep_view(), name);
    http::lemma_values_add(f2, p3, name);
    let p4 = optional_part("age"@, request.age.deep_view());
    let f4 = f3 + p4;
    lemma_optional_part("age"@, request.age.deep_view(), name);
    http::lemma_values_add(f3, p4, name);
    let p5 = optional_part("language"@, request.language.deep_view());
    let f5 = f4 + p5;
    lemma_optional_part("language"@, request.language.deep_view(), name);
    http::lemma_values_add(f4, p5, name);
    let p6 = optional_part("use_case"@, request.use_case.deep_view());
    let f6 = f5 + p6;
    lemma_optional_part("use_case"@, request.use_case.deep_view(), name);
    http::lemma_values_add(f5, p6, name);
    let p7 = optional_part("tone"@, request.tone.deep_view());
    let f7 = f6 + p7;
    lemma_optional_part("tone"@, request.tone.deep_view(), name);
    http::lemma_values_add(f6, p7, name);
    http::lemma_values_push(f7, PartView::File { name: "file"@, upload }, name);
    assert(create_form(request, upload) == f7.push(PartView::File { name: "file"@, upload }));
    assert(http::values_of(create_form(request, upload), name) =~= field_values(request, name));
    assert(http::files_of(create_form(request, upload)) =~= seq![("file"@, upload)]);
}

proof fn lemma_field_names()
    ensures
        "name"@ != "description"@,
        "name"@ != "gender"@,
        "name"@ != "accent"@,
        "name"@ != "age"@,
        "name"@ != "language"@,
        "name"@ != "use_case"@,
        "name"@ != "tone"@,
        "name"@ != "file"@,
        "description"@ != "gender"@,
        "description"@ != "accent"@,
        "description"@ != "age"@,
        "description"@ != "language"@,
        "description"@ != "use_case"@,
        "description"@ != "tone"@,
        "description"@ != "file"@,
        "gender"@ != "accent"@,
        "gender"@ != "age"@,
        "gender"@ != "language"@,
        "gender"@ != "use_case"@,
        "gender"@ != "tone"@,
        "gender"@ != "file"@,
        "accent"@ != "age"@,
        "accent"@ != "language"@,
        "accent"@ != "use_case"@,
        "accent"@ != "tone"@,
        "accent"@ != "file"@,
        "age"@ != "language"@,
        "age"@ != "use_case"@,
        "age"@ != "tone"@,
        "age"@ != "file"@,
        "language"@ != "use_case"@,
        "language"@ != "tone"@,
        "language"@ != "file"@,
        "use_case"@ != "tone"@,
        "use_case"@ != "file"@,
        "tone"@ != "file"@,
{
    reveal_strlit("name");
    reveal_strlit("description");
    reveal_strlit("gender");
    reveal_strlit("accent");
    reveal_strlit("age");
    reveal_strlit("language");
    reveal_strlit("use_case");
    reveal_strlit("tone");
    reveal_strlit("file");
    assert("name"@.len() == 4);
    assert("description"@.len() == 11);
    assert("gender"@.len() == 6);
    assert("accent"@.len() == 6);
    assert("age"@.len() == 3);
    assert("language"@.len() == 8);
    assert("use_case"@.len() == 8);
    assert("tone"@.len() == 4);
    assert("file"@.len() == 4);
    assert("name"@[0] == 'n');
    assert("tone"@[0] == 't');
    assert("file"@[0] == 'f');
    assert("gender"@[0] == 'g');
    assert("accent"@[0] == 'a');
    assert("language"@[0] == 'l');
    assert("use_case"@[0] == 'u');
}

/// The body that changes a voice holds every field that is given under its own name,
/// and no other; a change is empty exactly where it gives none.
pub proof fn law_update_says_what_was_asked(request: CustomVoiceUpdateRequest)
    ensures
        match request.name {
            Some(s) => update_body(request).entry("name"@) == Some(Json::Text(s@)),
            None => update_body(request).entry("name"@) is None,
        },
        match request.description {
            Some(s) => update_body(request).entry("description"@) == Some(Json::Text(s@)),
            None => update_body(request).entry("description"@) is None,
        },
        match request.gender {
            Some(s) => update_body(request).entry("gender"@) == Some(Json::Text(s@)),
            None => update_body(request).entry("gender"@) is None,
        },
        match request.accent {
            Some(s) => update_body(request).entry("accent"@) == Some(Json::Text(s@)),
            None => update_body(request).entry("accent"@) is None,
        },
        match request.age {
            Some(s) => update_body(request).entry("age"@) == Some(Json::Text(s@)),
            None => update_body(request).entry("age"@) is None,
        },
        match request.language {
            Some(s) => update_body(request).entry("language"@) == Some(Json::Text(s@)),
            None => update_body(request).entry("language"@) is None,
        },
        match request.use_case {
            Some(s) => update_body(request).entry("use_case"@) == Some(Json::Text(s@)),
            None => update_body(request).entry("use_case"@) is None,
        },
        match request.tone {
            Some(s) => update_body(request).entry("tone"@) == Some(Json::Text(s@)),
            None => update_body(request).entry("tone"@) is None,
        },
        is_empty_update(request) <==> request.name is None && request.description is None && request.gender is None && request.accent is None && request.age is None && request.language is None && request.use_case is None && request.tone is None,
{
    lemma_field_names();
}

/// A listing asks for a page of the size that is given, and for the page that the
/// token stands for, where they are given.
pub proof fn law_listing_query(limit: Option<u32>, token: Option<Seq<char>>)
    ensures
        list_query(limit, token).len() == (if limit is Some {
            1int
        } else {
            0
        }) + (if token is Some {
            1int
        } else {
            0
        }),
        limit matches Some(n) ==> list_query(limit, token)[0].name == "limit"@ && list_query(
            limit,
            token,
        )[0].value == text::decimal(n as nat),
        token matches Some(t) ==> list_query(limit, token).last().name == "pagination_token"@
            && list_query(limit, token).last().value == t,
{
}

/// A request on custom voices goes to their address on the service, or to that of one
/// of them, with the token.
pub proof fn law_voice_requests(
    p: XaiProvider,
    method: Method,
    path: Seq<char>,
    query: Seq<FieldView>,
    body: BodyView,
)
    ensures
        ({
            let r = p.voice_request(method, path, query, body);
            &&& r.method == method
            &&& r.url == p.settings.base_url@ + "/v1/custom-voices"@ + path
            &&& r.headers == seq![http::bearer(p.api_key@)]
            &&& r.query == query
            &&& r.body == body
        }),
{
}

/// A deletion is taken to have happened unless the answer says that it has not.
pub proof fn law_deletion(answer: Result<Json, Seq<char>>)
    ensures
        match answer {
            Ok(j) => says_deleted(answer) == Ok::<bool, Failure>(
                j.entry("deleted"@) != Some(Json::Bool(false)),
            ),
            Err(_) => says_deleted(answer) matches Err(f) && f is Provider,
        },
{
}

/// An answer to a deletion that cannot be read is told as that.
pub proof fn law_unreadable_deletion(e: Seq<char>)
    ensures
        says_deleted(Err(e)) == Err::<bool, Failure>(
            Failure::Provider { provider: "xai"@, message: "decoding delete response: "@ + e },
        ),
{
}

} // verus!
