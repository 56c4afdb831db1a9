//! What each decision of the webmachine graph decides, from the request, what the resource
//! declares, and the answer of the resource's callback that the decision asks for.
use vstd::prelude::*;
use crate::context::{
    WebmachineContext, WebmachineRequest, HttpDate, HeaderListModel, header_values, has_value, lookup_ci,
    put, later, lookup, lemma_put_lookup_same,
};
use crate::headers::{HeaderValue, HeaderValueModel, is_weak, weak_tag, is_quoted, unquote};
use crate::content_negotiation::{
    best_media_type, negotiated_value, tokens_of, with_default, media_rank, TokenKind,
    matching_content_type, matching_language, matching_charset, matching_encoding, acceptable_content_type,
};
use crate::decisions::{Decision, DecisionResult, transition_of, Transition, next_of};
use crate::dates::{rfc2822_date, parse_rfc2822};
use crate::paths::{joined_path, segments, sanitise_path, join_paths};
use crate::text::{eq_ignore_case, string_from, str_eq_ignore_case, str_eq};

verus! {

/// What a resource declares about itself, as opposed to what its callbacks answer.
#[derive(Debug)]
pub struct ResourceProfile {
    /// The methods the resource knows; others are answered with 501.
    pub known_methods: Vec<String>,
    /// The methods the resource allows; others are answered with 405.
    pub allowed_methods: Vec<String>,
    /// The content types the resource accepts in a `PUT` or `POST` body.
    pub acceptable_content_types: Vec<String>,
    /// The media types the resource can produce.
    pub produces: Vec<String>,
    /// The languages the resource can produce.
    pub languages_provided: Vec<String>,
    /// The charsets the resource can produce.
    pub charsets_provided: Vec<String>,
    /// The encodings the resource can produce.
    pub encodings_provided: Vec<String>,
    /// The headers that the response varies by.
    pub variances: Vec<String>,
}

/// Owned copies of the given texts.
pub fn owned_vec(items: &[&str]) -> (r: Vec<String>)
    ensures
        r.deep_view() == items@.map_values(|s: &str| s@),
{
    let mut r: Vec<String> = Vec::new();
    let mut i: usize = 0;
    while i < items.len()
        invariant
            i <= items@.len(),
            r.deep_view() == items@.map_values(|s: &str| s@).take(i as int),
        decreases items.len() - i,
    {
        let ghost before = r.deep_view();
        let s = string_from(items[i]);
        r.push(s);
        assert(r.deep_view() =~= before.push(items@[i as int]@));
        assert(r.deep_view() =~= items@.map_values(|s: &str| s@).take(i + 1));
        i = i + 1;
    }
    assert(items@.map_values(|s: &str| s@).take(items@.len() as int) =~= items@.map_values(|s: &str| s@));
    r
}

fn strings(items: Vec<&str>) -> (r: Vec<String>)
    ensures
        r.deep_view() == items.deep_view(),
{
    let mut r: Vec<String> = Vec::new();
    let mut i: usize = 0;
    while i < items.len()
        invariant
            i <= items@.len(),
            r.deep_view() == items.deep_view().take(i as int),
        decreases items.len() - i,
    {
        let ghost before = r.deep_view();
        let s = string_from(items[i]);
        r.push(s);
        assert(r.deep_view() =~= before.push(items@[i as int]@));
        assert(items.deep_view().take(i + 1) =~= items.deep_view().take(i as int).push(items@[i as int]@));
        i = i + 1;
    }
    assert(items.deep_view().take(items@.len() as int) =~= items.deep_view());
    r
}

impl Default for ResourceProfile {
    fn default() -> (r: Self)
        ensures
            r.known_methods.deep_view() == seq![
                "OPTIONS"@,
                "GET"@,
                "POST"@,
                "PUT"@,
                "DELETE"@,
                "HEAD"@,
                "TRACE"@,
                "CONNECT"@,
                "PATCH"@,
            ],
            r.allowed_methods.deep_view() == seq!["OPTIONS"@, "GET"@, "HEAD"@],
            r.acceptable_content_types.deep_view() == seq!["application/json"@],
            r.produces.deep_view() == seq!["application/json"@],
            r.languages_provided@.len() == 0,
            r.charsets_provided@.len() == 0,
            r.encodings_provided.deep_view() == seq!["identity"@],
            r.variances@.len() == 0,
    {
        let known = vec!["OPTIONS", "GET", "POST", "PUT", "DELETE", "HEAD", "TRACE", "CONNECT", "PATCH"];
        assert(known.deep_view() =~= seq![
            "OPTIONS"@,
            "GET"@,
            "POST"@,
            "PUT"@,
            "DELETE"@,
            "HEAD"@,
            "TRACE"@,
            "CONNECT"@,
            "PATCH"@,
        ]);
        let allowed = vec!["OPTIONS", "GET", "HEAD"];
        assert(allowed.deep_view() =~= seq!["OPTIONS"@, "GET"@, "HEAD"@]);
        let json = vec!["application/json"];
        assert(json.deep_view() =~= seq!["application/json"@]);
        let json2 = vec!["application/json"];
        assert(json2.deep_view() =~= seq!["application/json"@]);
        let identity = vec!["identity"];
        assert(identity.deep_view() =~= seq!["identity"@]);
        ResourceProfile {
            known_methods: strings(known),
            allowed_methods: strings(allowed),
            acceptable_content_types: strings(json),
            produces: strings(json2),
            languages_provided: Vec::new(),
            charsets_provided: Vec::new(),
            encodings_provided: strings(identity),
            variances: Vec::new(),
        }
    }
}

/// What a decision asks of the resource's callbacks.
#[derive(Debug, Clone, Copy, PartialEq, Eq, Structural)]
pub enum Question {
    /// Nothing: the decision goes by the request and the resource's declarations.
    Nothing,
    Available,
    UriTooLong,
    MalformedRequest,
    /// The realm to challenge with, if the request is not authorized.
    NotAuthorized,
    Forbidden,
    UnsupportedContentHeaders,
    ValidEntityLength,
    ResourceExists,
    /// The resource's entity tag, if it has one.
    GenerateEtag,
    /// When the resource was last modified, if known.
    LastModified,
    /// The current time.
    Now,
    /// Where the resource has moved to for good, if it has.
    MovedPermanently,
    /// Where the resource has moved to for now, if it has.
    MovedTemporarily,
    PreviouslyExisted,
    AllowMissingPost,
    IsConflict,
    /// Delete the resource: whether the deletion was enacted, or a status code.
    DeleteResource,
    /// Carry out a `POST`: when `post_is_create`, the path of the new resource from
    /// `create_path` (or a status code); else the outcome of `process_post`.
    Post,
    /// Carry out a `PUT`: its outcome, or a status code.
    ProcessPut,
    MultipleChoices,
}

/// The resource's answer to a question.
#[derive(Debug)]
pub enum Answer {
    Nothing,
    Flag(bool),
    Text(Option<String>),
    Date(Option<HttpDate>),
    Status(Result<bool, u16>),
    Created(Result<String, u16>),
}

/// The question the decision asks, for this request.
pub open spec fn question_of(d: Decision, req: WebmachineRequest) -> Question {
    match d {
        Decision::B13Available => Question::Available,
        Decision::B11UriTooLong => Question::UriTooLong,
        Decision::B9MalformedRequest => Question::MalformedRequest,
        Decision::B8Authorized => Question::NotAuthorized,
        Decision::B7Forbidden => Question::Forbidden,
        Decision::B6UnsupportedContentHeader => Question::UnsupportedContentHeaders,
        Decision::B4RequestEntityTooLarge => if req.method_is("PUT"@) || req.method_is("POST"@) {
            Question::ValidEntityLength
        } else {
            Question::Nothing
        },
        Decision::G7ResourceExists => Question::ResourceExists,
        Decision::G11EtagInIfMatch => Question::GenerateEtag,
        Decision::H12LastModifiedGreaterThanUMS => Question::LastModified,
        Decision::I4HasMovedPermanently => Question::MovedPermanently,
        Decision::K13ETagInIfNoneMatch => Question::GenerateEtag,
        Decision::K5HasMovedPermanently => Question::MovedPermanently,
        Decision::K7ResourcePreviouslyExisted => Question::PreviouslyExisted,
        Decision::L5HasMovedTemporarily => Question::MovedTemporarily,
        Decision::L15IfModifiedSinceGreaterThanNow => Question::Now,
        Decision::L17IfLastModifiedGreaterThanMS => Question::LastModified,
        Decision::M7PostToMissingResource => Question::AllowMissingPost,
        Decision::M20DeleteEnacted => Question::DeleteResource,
        Decision::N5PostToMissingResource => Question::AllowMissingPost,
        Decision::N11Redirect => Question::Post,
        Decision::O14Conflict => Question::IsConflict,
        Decision::P3Conflict => Question::IsConflict,
        Decision::P11NewResource => if req.method_is("PUT"@) {
            Question::ProcessPut
        } else {
            Question::Nothing
        },
        Decision::O18MultipleRepresentations => Question::MultipleChoices,
        _ => Question::Nothing,
    }
}

/// The answer is of the kind the question asks for.
pub open spec fn fits(q: Question, a: Answer) -> bool {
    match q {
        Question::Nothing => a is Nothing,
        Question::NotAuthorized | Question::GenerateEtag | Question::MovedPermanently
        | Question::MovedTemporarily => a is Text,
        Question::LastModified | Question::Now => a is Date,
        Question::DeleteResource | Question::ProcessPut => a is Status,
        Question::Post => a is Status || a is Created,
        _ => a is Flag,
    }
}

/// The question the decision asks, for this request.
pub fn question(d: Decision, req: &WebmachineRequest) -> (r: Question)
    ensures
        r == question_of(d, *req),
{
    match d {
        Decision::B13Available => Question::Available,
        Decision::B11UriTooLong => Question::UriTooLong,
        Decision::B9MalformedRequest => Question::MalformedRequest,
        Decision::B8Authorized => Question::NotAuthorized,
        Decision::B7Forbidden => Question::Forbidden,
        Decision::B6UnsupportedContentHeader => Question::UnsupportedContentHeaders,
        Decision::B4RequestEntityTooLarge => if req.is_put_or_post() {
            Question::ValidEntityLength
        } else {
            Question::Nothing
        },
        Decision::G7ResourceExists => Question::ResourceExists,
        Decision::G11EtagInIfMatch => Question::GenerateEtag,
        Decision::H12LastModifiedGreaterThanUMS => Question::LastModified,
        Decision::I4HasMovedPermanently => Question::MovedPermanently,
        Decision::K13ETagInIfNoneMatch => Question::GenerateEtag,
        Decision::K5HasMovedPermanently => Question::MovedPermanently,
        Decision::K7ResourcePreviouslyExisted => Question::PreviouslyExisted,
        Decision::L5HasMovedTemporarily => Question::MovedTemporarily,
        Decision::L15IfModifiedSinceGreaterThanNow => Question::Now,
        Decision::L17IfLastModifiedGreaterThanMS => Question::LastModified,
        Decision::M7PostToMissingResource => Question::AllowMissingPost,
        Decision::M20DeleteEnacted => Question::DeleteResource,
        Decision::N5PostToMissingResource => Question::AllowMissingPost,
        Decision::N11Redirect => Question::Post,
        Decision::O14Conflict => Question::IsConflict,
        Decision::P3Conflict => Question::IsConflict,
        Decision::P11NewResource => if req.is_put() {
            Question::ProcessPut
        } else {
            Question::Nothing
        },
        Decision::O18MultipleRepresentations => Question::MultipleChoices,
        _ => Question::Nothing,
    }
}

/// Whether the answer is of the kind the question asks for.
pub fn answer_fits(q: Question, a: &Answer) -> (r: bool)
    ensures
        r == fits(q, *a),
{
    match q {
        Question::Nothing => matches!(a, Answer::Nothing),
        Question::NotAuthorized | Question::GenerateEtag | Question::MovedPermanently
        | Question::MovedTemporarily => matches!(a, Answer::Text(_)),
        Question::LastModified | Question::Now => matches!(a, Answer::Date(_)),
        Question::DeleteResource | Question::ProcessPut => matches!(a, Answer::Status(_)),
        Question::Post => matches!(a, Answer::Status(_)) || matches!(a, Answer::Created(_)),
        _ => matches!(a, Answer::Flag(_)),
    }
}

/// The parts of the context that decisions change.
#[verifier::ext_equal]
pub struct Effects {
    pub response_headers: HeaderListModel,
    pub request_path: Seq<char>,
    pub media_type: Option<Seq<char>>,
    pub language: Option<Seq<char>>,
    pub charset: Option<Seq<char>>,
    pub encoding: Option<Seq<char>>,
    pub if_unmodified_since: Option<HttpDate>,
    pub if_modified_since: Option<HttpDate>,
    pub new_resource: bool,
}

/// The parts of the context that decisions change, as they stand.
pub open spec fn effects_of(c: WebmachineContext) -> Effects {
    Effects {
        response_headers: c.response.headers.deep_view(),
        request_path: c.request.request_path@,
        media_type: c.selected_media_type.deep_view(),
        language: c.selected_language.deep_view(),
        charset: c.selected_charset.deep_view(),
        encoding: c.selected_encoding.deep_view(),
        if_unmodified_since: c.if_unmodified_since,
        if_modified_since: c.if_modified_since,
        new_resource: c.new_resource,
    }
}

/// Everything that decisions do not change is the same in `a` and `b`.
pub open spec fn frame(a: WebmachineContext, b: WebmachineContext) -> bool {
    &&& a.request.base_path == b.request.base_path
    &&& a.request.sub_path == b.request.sub_path
    &&& a.request.path_vars == b.request.path_vars
    &&& a.request.method == b.request.method
    &&& a.request.headers == b.request.headers
    &&& a.request.body == b.request.body
    &&& a.request.query == b.request.query
    &&& a.response.status == b.response.status
    &&& a.response.body == b.response.body
    &&& a.redirect == b.redirect
    &&& a.metadata == b.metadata
}

/// `b` as an outcome.
pub open spec fn wrap(b: bool) -> DecisionResult {
    if b {
        DecisionResult::True
    } else {
        DecisionResult::False
    }
}

/// Some text of the list equals `m`, ignoring ASCII case.
pub open spec fn listed(list: Seq<Seq<char>>, m: Seq<char>) -> bool {
    exists|i: int| 0 <= i < list.len() && eq_ignore_case(#[trigger] list[i], m)
}

/// A header value with the text `s` and nothing else.
pub open spec fn basic_value(s: Seq<char>) -> HeaderValueModel {
    HeaderValueModel { value: s, params: Seq::empty(), quote: false }
}

/// A plain header value for each text.
pub open spec fn basic_values(list: Seq<Seq<char>>) -> Seq<HeaderValueModel> {
    Seq::new(list.len(), |i: int| basic_value(list[i]))
}

/// The values of the request header `name`.
pub open spec fn req_values(c: WebmachineContext, name: Seq<char>) -> Seq<HeaderValueModel> {
    header_values(c.request.headers.deep_view(), name)
}

/// The request has the header `name`.
pub open spec fn req_has(c: WebmachineContext, name: Seq<char>) -> bool {
    lookup_ci(c.request.headers.deep_view(), name) is Some
}

/// The request's content type: the first value of its `Content-Type` header, or
/// `application/json` when there is none.
pub open spec fn content_type_of(c: WebmachineContext) -> Seq<char> {
    if req_values(c, "Content-Type"@).len() > 0 {
        req_values(c, "Content-Type"@)[0].value
    } else {
        "application/json"@
    }
}

/// Some type of the list accepts the request's content type.
pub open spec fn content_type_acceptable(c: WebmachineContext, p: ResourceProfile) -> bool {
    exists|k: int|
        0 <= k < p.acceptable_content_types@.len() && media_rank(
            content_type_of(c),
            (#[trigger] p.acceptable_content_types@[k])@,
        ) < 3
}

/// The date in the first value of the request header `name`, if `chrono` reads one.
pub open spec fn date_in(c: WebmachineContext, name: Seq<char>) -> Option<HttpDate> {
    if req_values(c, name).len() > 0 {
        rfc2822_date(req_values(c, name)[0].value)
    } else {
        None
    }
}

/// Some value is the strong entity tag `e`.
pub open spec fn strong_etag_in(values: Seq<HeaderValueModel>, e: Seq<char>) -> bool {
    exists|i: int| 0 <= i < values.len() && !is_weak((#[trigger] values[i]).value) && values[i].value == e
}

/// Some value is the entity tag `e`, weak or strong.
pub open spec fn etag_in(values: Seq<HeaderValueModel>, e: Seq<char>) -> bool {
    exists|i: int|
        0 <= i < values.len() && if is_weak((#[trigger] values[i]).value) {
            weak_tag(values[i].value) == e
        } else {
            values[i].value == e
        }
}

/// The media type chosen for the response.
pub open spec fn media_choice(c: WebmachineContext, p: ResourceProfile) -> Option<Seq<char>> {
    best_media_type(p.produces.deep_view(), req_values(c, "Accept"@))
}

/// The language chosen for the response.
pub open spec fn language_choice(c: WebmachineContext, p: ResourceProfile) -> Option<Seq<char>> {
    negotiated_value(TokenKind::Language, tokens_of(req_values(c, "Accept-Language"@)), p.languages_provided.deep_view())
}

/// The charset chosen for the response.
pub open spec fn charset_choice(c: WebmachineContext, p: ResourceProfile) -> Option<Seq<char>> {
    if p.charsets_provided@.len() == 0 {
        Some("ISO-8859-1"@)
    } else {
        negotiated_value(
            TokenKind::Charset,
            with_default(tokens_of(req_values(c, "Accept-Charset"@)), "ISO-8859-1"@),
            p.charsets_provided.deep_view(),
        )
    }
}

/// The encoding chosen for the response.
pub open spec fn encoding_choice(c: WebmachineContext, p: ResourceProfile) -> Option<Seq<char>> {
    if p.encodings_provided@.len() == 0 {
        Some("identity"@)
    } else {
        negotiated_value(
            TokenKind::Encoding,
            with_default(tokens_of(req_values(c, "Accept-Encoding"@)), "identity"@),
            p.encodings_provided.deep_view(),
        )
    }
}

/// The flag of a flag answer.
pub open spec fn flag(a: Answer) -> bool {
    match a {
        Answer::Flag(b) => b,
        _ => false,
    }
}

/// The text of a text answer.
pub open spec fn text(a: Answer) -> Option<Seq<char>> {
    match a {
        Answer::Text(t) => t.deep_view(),
        _ => None,
    }
}

/// The date of a date answer.
pub open spec fn date(a: Answer) -> Option<HttpDate> {
    match a {
        Answer::Date(d) => d,
        _ => None,
    }
}

/// The outcome of each decision, from the context it is taken in, the resource's
/// declarations and the resource's answer.
pub open spec fn decision_result(d: Decision, c: WebmachineContext, p: ResourceProfile, a: Answer) -> DecisionResult {
    let req = c.request;
    match d {
        Decision::B13Available => wrap(flag(a)),
        Decision::B12KnownMethod => wrap(listed(p.known_methods.deep_view(), req.method@)),
        Decision::B11UriTooLong => wrap(flag(a)),
        Decision::B10MethodAllowed => wrap(listed(p.allowed_methods.deep_view(), req.method@)),
        Decision::B9MalformedRequest => wrap(flag(a)),
        Decision::B8Authorized => wrap(text(a) is None),
        Decision::B7Forbidden => wrap(flag(a)),
        Decision::B6UnsupportedContentHeader => wrap(flag(a)),
        Decision::B5UnknownContentType => wrap(
            (req.method_is("PUT"@) || req.method_is("POST"@)) && !content_type_acceptable(c, p),
        ),
        Decision::B4RequestEntityTooLarge => wrap(
            (req.method_is("PUT"@) || req.method_is("POST"@)) && !flag(a),
        ),
        Decision::B3Options => wrap(req.method_is("OPTIONS"@)),
        Decision::C3AcceptExists => wrap(req_has(c, "Accept"@)),
        Decision::C4AcceptableMediaTypeAvailable => wrap(media_choice(c, p) is Some),
        Decision::D4AcceptLanguageExists => wrap(req_has(c, "Accept-Language"@)),
        Decision::D5AcceptableLanguageAvailable => wrap(language_choice(c, p) is Some),
        Decision::E5AcceptCharsetExists => wrap(req_has(c, "Accept-Charset"@)),
        Decision::E6AcceptableCharsetAvailable => wrap(charset_choice(c, p) is Some),
        Decision::F6AcceptEncodingExists => wrap(req_has(c, "Accept-Encoding"@)),
        Decision::F7AcceptableEncodingAvailable => wrap(encoding_choice(c, p) is Some),
        Decision::G7ResourceExists => wrap(flag(a)),
        Decision::G8IfMatchExists => wrap(req_has(c, "If-Match"@)),
        Decision::G9IfMatchStarExists => wrap(has_value(c.request.headers.deep_view(), "If-Match"@, "*"@)),
        Decision::G11EtagInIfMatch => match text(a) {
            Some(e) => wrap(strong_etag_in(req_values(c, "If-Match"@), e)),
            None => DecisionResult::False,
        },
        Decision::H7IfMatchStarExists => wrap(has_value(c.request.headers.deep_view(), "If-Match"@, "*"@)),
        Decision::H10IfUnmodifiedSinceExists => wrap(req_has(c, "If-Unmodified-Since"@)),
        Decision::H11IfUnmodifiedSinceValid => wrap(date_in(c, "If-Unmodified-Since"@) is Some),
        Decision::H12LastModifiedGreaterThanUMS => match (date(a), c.if_unmodified_since) {
            (Some(lm), Some(since)) => wrap(later(lm, since)),
            _ => DecisionResult::False,
        },
        Decision::I4HasMovedPermanently => wrap(text(a) is Some),
        Decision::I7Put => wrap(req.method_is("PUT"@)),
        Decision::I12IfNoneMatchExists => wrap(req_has(c, "If-None-Match"@)),
        Decision::I13IfNoneMatchStarExists => wrap(has_value(c.request.headers.deep_view(), "If-None-Match"@, "*"@)),
        Decision::J18GetHead => wrap(req.method_is("GET"@) || req.method_is("HEAD"@)),
        Decision::K13ETagInIfNoneMatch => match text(a) {
            Some(e) => wrap(etag_in(req_values(c, "If-None-Match"@), e)),
            None => DecisionResult::False,
        },
        Decision::K5HasMovedPermanently => wrap(text(a) is Some),
        Decision::K7ResourcePreviouslyExisted => wrap(flag(a)),
        Decision::L5HasMovedTemporarily => wrap(text(a) is Some),
        Decision::L7Post => wrap(req.method_is("POST"@)),
        Decision::L13IfModifiedSinceExists => wrap(req_has(c, "If-Modified-Since"@)),
        Decision::L14IfModifiedSinceValid => wrap(date_in(c, "If-Modified-Since"@) is Some),
        Decision::L15IfModifiedSinceGreaterThanNow => match (date(a), c.if_modified_since) {
            (Some(now), Some(since)) => wrap(later(since, now)),
            _ => DecisionResult::False,
        },
        Decision::L17IfLastModifiedGreaterThanMS => match (date(a), c.if_modified_since) {
            (Some(lm), Some(since)) => wrap(later(lm, since)),
            _ => DecisionResult::True,
        },
        Decision::M5Post => wrap(req.method_is("POST"@)),
        Decision::M7PostToMissingResource => wrap(flag(a)),
        Decision::M16Delete => wrap(req.method_is("DELETE"@)),
        Decision::M20DeleteEnacted => match a {
            Answer::Status(Ok(enacted)) => wrap(enacted),
            Answer::Status(Err(code)) => DecisionResult::StatusCode(code),
            _ => DecisionResult::False,
        },
        Decision::N5PostToMissingResource => wrap(flag(a)),
        Decision::N11Redirect => match a {
            Answer::Created(Err(code)) => DecisionResult::StatusCode(code),
            Answer::Status(Err(code)) => DecisionResult::StatusCode(code),
            _ => wrap(c.redirect),
        },
        Decision::N16Post => wrap(req.method_is("POST"@)),
        Decision::O14Conflict => wrap(flag(a)),
        Decision::O16Put => wrap(req.method_is("PUT"@)),
        Decision::O18MultipleRepresentations => wrap(flag(a)),
        Decision::O20ResponseHasBody => wrap(c.response.has_body_spec()),
        Decision::P3Conflict => wrap(flag(a)),
        Decision::P11NewResource => match a {
            Answer::Status(Err(code)) => DecisionResult::StatusCode(code),
            _ => wrap(c.new_resource),
        },
        _ => DecisionResult::False,
    }
}

/// What each decision changes in the context.
pub open spec fn decision_effects(d: Decision, c: WebmachineContext, p: ResourceProfile, a: Answer) -> Effects {
    let e = effects_of(c);
    match d {
        Decision::B10MethodAllowed => if listed(p.allowed_methods.deep_view(), c.request.method@) {
            e
        } else {
            Effects {
                response_headers: put(e.response_headers, "Allow"@, basic_values(p.allowed_methods.deep_view())),
                ..e
            }
        },
        Decision::B8Authorized => match text(a) {
            Some(realm) => Effects {
                response_headers: put(e.response_headers, "WWW-Authenticate"@, seq![basic_value(realm)]),
                ..e
            },
            None => e,
        },
        Decision::C4AcceptableMediaTypeAvailable => match media_choice(c, p) {
            Some(m) => Effects { media_type: Some(m), ..e },
            None => e,
        },
        Decision::D5AcceptableLanguageAvailable => match language_choice(c, p) {
            Some(l) => Effects {
                language: Some(l),
                response_headers: put(e.response_headers, "Content-Language"@, seq![basic_value(l)]),
                ..e
            },
            None => e,
        },
        Decision::E6AcceptableCharsetAvailable => match charset_choice(c, p) {
            Some(cs) => Effects { charset: Some(cs), ..e },
            None => e,
        },
        Decision::F7AcceptableEncodingAvailable => match encoding_choice(c, p) {
            Some(en) => Effects { encoding: Some(en), ..e },
            None => e,
        },
        Decision::G7ResourceExists => if flag(a) {
            e
        } else {
            Effects { new_resource: true, ..e }
        },
        Decision::H11IfUnmodifiedSinceValid => match date_in(c, "If-Unmodified-Since"@) {
            Some(dt) => Effects { if_unmodified_since: Some(dt), ..e },
            None => e,
        },
        Decision::L14IfModifiedSinceValid => match date_in(c, "If-Modified-Since"@) {
            Some(dt) => Effects { if_modified_since: Some(dt), ..e },
            None => e,
        },
        Decision::I4HasMovedPermanently | Decision::K5HasMovedPermanently | Decision::L5HasMovedTemporarily => match text(a) {
            Some(location) => Effects {
                response_headers: put(e.response_headers, "Location"@, seq![basic_value(location)]),
                ..e
            },
            None => e,
        },
        Decision::N11Redirect => match a {
            Answer::Created(Ok(path)) => Effects {
                request_path: path@,
                response_headers: put(
                    e.response_headers,
                    "Location"@,
                    seq![basic_value(joined_path(segments(c.request.base_path@) + segments(path@)))],
                ),
                new_resource: true,
                ..e
            },
            _ => e,
        },
        _ => e,
    }
}

/// Law: only `PUT` and `POST` requests have their body's type and length checked; any
/// other request passes both checks whatever the resource answers.
pub proof fn lemma_body_checks_only_for_put_or_post(c: WebmachineContext, p: ResourceProfile, a: Answer)
    requires
        !c.request.method_is("PUT"@),
        !c.request.method_is("POST"@),
    ensures
        next_of(Decision::B5UnknownContentType, decision_result(Decision::B5UnknownContentType, c, p, a))
            == Decision::B4RequestEntityTooLarge,
        next_of(Decision::B4RequestEntityTooLarge, decision_result(Decision::B4RequestEntityTooLarge, c, p, a))
            == Decision::B3Options,
{
}

/// Law: a method the resource does not know ends the request with 501, and one it does not
/// allow with 405 and an `Allow` header listing the allowed methods.
pub proof fn lemma_method_checks(c: WebmachineContext, p: ResourceProfile, a: Answer)
    ensures
        !listed(p.known_methods.deep_view(), c.request.method@) ==> next_of(
            Decision::B12KnownMethod,
            decision_result(Decision::B12KnownMethod, c, p, a),
        ) == Decision::End(501),
        !listed(p.allowed_methods.deep_view(), c.request.method@) ==> next_of(
            Decision::B10MethodAllowed,
            decision_result(Decision::B10MethodAllowed, c, p, a),
        ) == Decision::End(405) && lookup(
            decision_effects(Decision::B10MethodAllowed, c, p, a).response_headers,
            "Allow"@,
        ) == Some(basic_values(p.allowed_methods.deep_view())),
{
    lemma_put_lookup_same(c.response.headers.deep_view(), "Allow"@, basic_values(p.allowed_methods.deep_view()));
}

/// Law: a resource that names a realm refuses the request with 401 and a
/// `WWW-Authenticate` header holding that realm.
pub proof fn lemma_unauthorized_challenge(c: WebmachineContext, p: ResourceProfile, realm: String)
    ensures
        next_of(
            Decision::B8Authorized,
            decision_result(Decision::B8Authorized, c, p, Answer::Text(Some(realm))),
        ) == Decision::End(401),
        lookup(
            decision_effects(Decision::B8Authorized, c, p, Answer::Text(Some(realm))).response_headers,
            "WWW-Authenticate"@,
        ) == Some(seq![basic_value(realm@)]),
{
    lemma_put_lookup_same(c.response.headers.deep_view(), "WWW-Authenticate"@, seq![basic_value(realm@)]);
}

/// Law: when nothing the resource provides is acceptable, the request ends with 406; when
/// something is, the choice is recorded in the context.
pub proof fn lemma_not_acceptable(c: WebmachineContext, p: ResourceProfile, a: Answer)
    ensures
        next_of(
            Decision::C4AcceptableMediaTypeAvailable,
            decision_result(Decision::C4AcceptableMediaTypeAvailable, c, p, a),
        ) == if media_choice(c, p) is Some {
            Decision::D4AcceptLanguageExists
        } else {
            Decision::End(406)
        },
        decision_effects(Decision::C4AcceptableMediaTypeAvailable, c, p, a).media_type == if media_choice(c, p) is Some {
            media_choice(c, p)
        } else {
            c.selected_media_type.deep_view()
        },
        next_of(
            Decision::D5AcceptableLanguageAvailable,
            decision_result(Decision::D5AcceptableLanguageAvailable, c, p, a),
        ) == if language_choice(c, p) is Some {
            Decision::E5AcceptCharsetExists
        } else {
            Decision::End(406)
        },
        next_of(
            Decision::E6AcceptableCharsetAvailable,
            decision_result(Decision::E6AcceptableCharsetAvailable, c, p, a),
        ) == if charset_choice(c, p) is Some {
            Decision::F6AcceptEncodingExists
        } else {
            Decision::End(406)
        },
        next_of(
            Decision::F7AcceptableEncodingAvailable,
            decision_result(Decision::F7AcceptableEncodingAvailable, c, p, a),
        ) == if encoding_choice(c, p) is Some {
            Decision::G7ResourceExists
        } else {
            Decision::End(406)
        },
{
}

/// Law: a resource that has moved answers with its new location in a `Location` header:
/// 301 when it moved for good, 307 when for now.
pub proof fn lemma_moved_resource_location(c: WebmachineContext, p: ResourceProfile, location: String)
    ensures
        next_of(
            Decision::I4HasMovedPermanently,
            decision_result(Decision::I4HasMovedPermanently, c, p, Answer::Text(Some(location))),
        ) == Decision::End(301),
        next_of(
            Decision::K5HasMovedPermanently,
            decision_result(Decision::K5HasMovedPermanently, c, p, Answer::Text(Some(location))),
        ) == Decision::End(301),
        next_of(
            Decision::L5HasMovedTemporarily,
            decision_result(Decision::L5HasMovedTemporarily, c, p, Answer::Text(Some(location))),
        ) == Decision::End(307),
        lookup(
            decision_effects(Decision::L5HasMovedTemporarily, c, p, Answer::Text(Some(location))).response_headers,
            "Location"@,
        ) == Some(seq![basic_value(location@)]),
{
    lemma_put_lookup_same(c.response.headers.deep_view(), "Location"@, seq![basic_value(location@)]);
}

/// Law: a status code that the resource returns from deleting, posting or putting ends the
/// request with that code.
pub proof fn lemma_resource_status_ends_request(c: WebmachineContext, p: ResourceProfile, code: u16)
    ensures
        next_of(Decision::M20DeleteEnacted, decision_result(Decision::M20DeleteEnacted, c, p, Answer::Status(Err(code))))
            == Decision::End(code),
        next_of(Decision::N11Redirect, decision_result(Decision::N11Redirect, c, p, Answer::Status(Err(code))))
            == Decision::End(code),
        next_of(
            Decision::P11NewResource,
            decision_result(Decision::P11NewResource, c, p, Answer::Status(Err(code))),
        ) == Decision::End(code),
{
}

/// Law (If-Modified-Since, decision L17): a resource with a modification date no later than
/// the request's `If-Modified-Since` date ends the request with 304; a later date, no
/// modification date, or no `If-Modified-Since` date lets the request go on to M16.
pub proof fn lemma_if_modified_since(c: WebmachineContext, p: ResourceProfile, modified: Option<HttpDate>)
    ensures
        modified is None ==> next_of(
            Decision::L17IfLastModifiedGreaterThanMS,
            decision_result(Decision::L17IfLastModifiedGreaterThanMS, c, p, Answer::Date(modified)),
        ) == Decision::M16Delete,
        c.if_modified_since is None ==> next_of(
            Decision::L17IfLastModifiedGreaterThanMS,
            decision_result(Decision::L17IfLastModifiedGreaterThanMS, c, p, Answer::Date(modified)),
        ) == Decision::M16Delete,
        modified is Some && c.if_modified_since is Some ==> next_of(
            Decision::L17IfLastModifiedGreaterThanMS,
            decision_result(Decision::L17IfLastModifiedGreaterThanMS, c, p, Answer::Date(modified)),
        ) == if modified->0.seconds > c.if_modified_since->0.seconds || (modified->0.seconds
            == c.if_modified_since->0.seconds && modified->0.nanos > c.if_modified_since->0.nanos) {
            Decision::M16Delete
        } else {
            Decision::End(304)
        },
{
}

/// Law (If-Modified-Since in the future, decision L15): an `If-Modified-Since` date later
/// than now is ignored (the request goes on to M16); otherwise, or when the time is not
/// known, the modification date is compared next (L17).
pub proof fn lemma_if_modified_since_in_future(c: WebmachineContext, p: ResourceProfile, now: Option<HttpDate>)
    ensures
        now is Some && c.if_modified_since is Some ==> next_of(
            Decision::L15IfModifiedSinceGreaterThanNow,
            decision_result(Decision::L15IfModifiedSinceGreaterThanNow, c, p, Answer::Date(now)),
        ) == if c.if_modified_since->0.seconds > now->0.seconds || (c.if_modified_since->0.seconds
            == now->0.seconds && c.if_modified_since->0.nanos > now->0.nanos) {
            Decision::M16Delete
        } else {
            Decision::L17IfLastModifiedGreaterThanMS
        },
        now is None ==> next_of(
            Decision::L15IfModifiedSinceGreaterThanNow,
            decision_result(Decision::L15IfModifiedSinceGreaterThanNow, c, p, Answer::Date(now)),
        ) == Decision::L17IfLastModifiedGreaterThanMS,
{
}

/// Law (If-Unmodified-Since, decision H12): a modification date later than the request's
/// `If-Unmodified-Since` date ends the request with 412; a date no later, or no date, lets it
/// go on to I12.
pub proof fn lemma_if_unmodified_since(c: WebmachineContext, p: ResourceProfile, modified: Option<HttpDate>)
    ensures
        modified is None ==> next_of(
            Decision::H12LastModifiedGreaterThanUMS,
            decision_result(Decision::H12LastModifiedGreaterThanUMS, c, p, Answer::Date(modified)),
        ) == Decision::I12IfNoneMatchExists,
        modified is Some && c.if_unmodified_since is Some ==> next_of(
            Decision::H12LastModifiedGreaterThanUMS,
            decision_result(Decision::H12LastModifiedGreaterThanUMS, c, p, Answer::Date(modified)),
        ) == if modified->0.seconds > c.if_unmodified_since->0.seconds || (modified->0.seconds
            == c.if_unmodified_since->0.seconds && modified->0.nanos > c.if_unmodified_since->0.nanos) {
            Decision::End(412)
        } else {
            Decision::I12IfNoneMatchExists
        },
{
}

/// Law (If-Match, decision G11): when any value of `If-Match`, at any place in the header,
/// is the resource's entity tag (and not a weak tag), the request goes on (H10); when no
/// value is the tag, or the resource has no tag, it ends with 412.
pub proof fn lemma_if_match(c: WebmachineContext, p: ResourceProfile, tag: Option<String>, k: int)
    ensures
        ({
            let vs = req_values(c, "If-Match"@);
            tag is Some && 0 <= k < vs.len() && vs[k].value == tag->0@ && !(vs[k].value.len() >= 2
                && vs[k].value[0] == 'W' && vs[k].value[1] == '/') ==> next_of(
                Decision::G11EtagInIfMatch,
                decision_result(Decision::G11EtagInIfMatch, c, p, Answer::Text(tag)),
            ) == Decision::H10IfUnmodifiedSinceExists
        }),
        ({
            let vs = req_values(c, "If-Match"@);
            tag is Some && (forall|j: int| 0 <= j < vs.len() ==> (#[trigger] vs[j]).value != tag->0@)
                ==> next_of(
                Decision::G11EtagInIfMatch,
                decision_result(Decision::G11EtagInIfMatch, c, p, Answer::Text(tag)),
            ) == Decision::End(412)
        }),
        tag is None ==> next_of(
            Decision::G11EtagInIfMatch,
            decision_result(Decision::G11EtagInIfMatch, c, p, Answer::Text(tag)),
        ) == Decision::End(412),
{
    let vs = req_values(c, "If-Match"@);
    if tag is Some && 0 <= k < vs.len() && vs[k].value == tag->0@ && !(vs[k].value.len() >= 2 && vs[k].value[0]
        == 'W' && vs[k].value[1] == '/') {
        assert(strong_etag_in(vs, tag->0@));
    }
}

/// Law (If-None-Match, decision K13): when any value of `If-None-Match`, at any place in the
/// header, is the resource's entity tag, written strong (`"tag"`, read as `tag`) or weak
/// (`W/"tag"`), the request goes on to J18 (304 for `GET` and `HEAD`, else 412); when no
/// value mentions the tag, it goes on to L13.
pub proof fn lemma_if_none_match(c: WebmachineContext, p: ResourceProfile, tag: String, k: int)
    ensures
        ({
            let vs = req_values(c, "If-None-Match"@);
            0 <= k < vs.len() && (vs[k].value == seq!['W', '/', '"'] + tag@ + seq!['"'] || (vs[k].value == tag@
                && !(vs[k].value.len() >= 2 && vs[k].value[0] == 'W' && vs[k].value[1] == '/'))) ==> next_of(
                Decision::K13ETagInIfNoneMatch,
                decision_result(Decision::K13ETagInIfNoneMatch, c, p, Answer::Text(Some(tag))),
            ) == Decision::J18GetHead
        }),
        ({
            let vs = req_values(c, "If-None-Match"@);
            (forall|j: int|
                0 <= j < vs.len() ==> (#[trigger] vs[j]).value != tag@ && vs[j].value != seq!['W', '/'] + tag@
                    && vs[j].value != seq!['W', '/', '"'] + tag@ + seq!['"']) ==> next_of(
                Decision::K13ETagInIfNoneMatch,
                decision_result(Decision::K13ETagInIfNoneMatch, c, p, Answer::Text(Some(tag))),
            ) == Decision::L13IfModifiedSinceExists
        }),
{
    let vs = req_values(c, "If-None-Match"@);
    let e = tag@;
    assert(Answer::Text(Some(tag)) matches Answer::Text(t) && t.deep_view() == Some(e));
    if 0 <= k < vs.len() {
        let v = vs[k].value;
        if v == seq!['W', '/', '"'] + e + seq!['"'] {
            assert(is_weak(v));
            let s = v.skip(2);
            assert(s =~= seq!['"'] + e + seq!['"']);
            assert(is_quoted(s));
            assert(s.subrange(1, s.len() - 1) =~= e);
            assert(weak_tag(v) == e);
            assert(etag_in(vs, e));
        } else if v == e && !(v.len() >= 2 && v[0] == 'W' && v[1] == '/') {
            assert(etag_in(vs, e));
        }
    }
    if forall|j: int|
        0 <= j < vs.len() ==> (#[trigger] vs[j]).value != e && vs[j].value != seq!['W', '/'] + e && vs[j].value
            != seq!['W', '/', '"'] + e + seq!['"'] {
        if etag_in(vs, e) {
            let i = choose|i: int|
                0 <= i < vs.len() && if is_weak((#[trigger] vs[i]).value) {
                    weak_tag(vs[i].value) == e
                } else {
                    vs[i].value == e
                };
            let v = vs[i].value;
            if is_weak(v) {
                let s = v.skip(2);
                assert(v =~= seq!['W', '/'] + s);
                if is_quoted(s) {
                    assert(s =~= seq!['"'] + s.subrange(1, s.len() - 1) + seq!['"']);
                    assert(v =~= seq!['W', '/', '"'] + e + seq!['"']);
                } else {
                    assert(unquote(s) == s);
                }
            }
        }
    }
}

/// Law (`*` in If-Match and If-None-Match, decisions G9, H7, I13, J18): a `*` at any place
/// in `If-Match` lets a request to an existing resource go on to H10 and refuses one to a
/// missing resource with 412; a `*` at any place in `If-None-Match` leads to J18, which
/// answers `GET` and `HEAD` with 304 and any other method with 412.
pub proof fn lemma_star_conditions(c: WebmachineContext, p: ResourceProfile, a: Answer, k: int)
    ensures
        ({
            let vs = req_values(c, "If-Match"@);
            0 <= k < vs.len() && vs[k].value == seq!['*'] ==> next_of(
                Decision::G9IfMatchStarExists,
                decision_result(Decision::G9IfMatchStarExists, c, p, a),
            ) == Decision::H10IfUnmodifiedSinceExists && next_of(
                Decision::H7IfMatchStarExists,
                decision_result(Decision::H7IfMatchStarExists, c, p, a),
            ) == Decision::End(412)
        }),
        ({
            let vs = req_values(c, "If-None-Match"@);
            0 <= k < vs.len() && vs[k].value == seq!['*'] ==> next_of(
                Decision::I13IfNoneMatchStarExists,
                decision_result(Decision::I13IfNoneMatchStarExists, c, p, a),
            ) == Decision::J18GetHead
        }),
        next_of(Decision::J18GetHead, decision_result(Decision::J18GetHead, c, p, a)) == if c.request.method_is(
            "GET"@,
        ) || c.request.method_is("HEAD"@) {
            Decision::End(304)
        } else {
            Decision::End(412)
        },
{
    let h = c.request.headers.deep_view();
    reveal_strlit("*");
    let vs = req_values(c, "If-Match"@);
    if 0 <= k < vs.len() && vs[k].value == seq!['*'] {
        assert(vs[k].value == "*"@);
        assert(header_values(h, "If-Match"@)[k] == vs[k]);
        assert(has_value(h, "If-Match"@, "*"@));
    }
    let ws = req_values(c, "If-None-Match"@);
    if 0 <= k < ws.len() && ws[k].value == seq!['*'] {
        assert(ws[k].value == "*"@);
        assert(header_values(h, "If-None-Match"@)[k] == ws[k]);
        assert(has_value(h, "If-None-Match"@, "*"@));
    }
}

/// Whether some text of the list equals `m`, ignoring ASCII case.
fn is_listed(list: &Vec<String>, m: &str) -> (r: bool)
    ensures
        r == listed(list.deep_view(), m@),
{
    let mut i: usize = 0;
    while i < list.len()
        invariant
            i <= list@.len(),
            forall|j: int| 0 <= j < i ==> !eq_ignore_case(#[trigger] list.deep_view()[j], m@),
        decreases list.len() - i,
    {
        assert(list.deep_view()[i as int] == list@[i as int]@);
        if str_eq_ignore_case(list[i].as_str(), m) {
            return true;
        }
        i = i + 1;
    }
    false
}

/// A plain header value for each text.
fn basic_values_of(list: &Vec<String>) -> (r: Vec<HeaderValue>)
    ensures
        r.deep_view() == basic_values(list.deep_view()),
{
    let mut r: Vec<HeaderValue> = Vec::new();
    let mut i: usize = 0;
    while i < list.len()
        invariant
            i <= list@.len(),
            r.deep_view() == basic_values(list.deep_view()).take(i as int),
        decreases list.len() - i,
    {
        let ghost before = r.deep_view();
        let v = HeaderValue::basic(list[i].as_str());
        let ghost vv = v@;
        r.push(v);
        assert(r.deep_view() =~= before.push(vv));
        assert(list.deep_view()[i as int] == list@[i as int]@);
        assert(r.deep_view() =~= basic_values(list.deep_view()).take(i + 1));
        i = i + 1;
    }
    assert(basic_values(list.deep_view()).take(list@.len() as int) =~= basic_values(list.deep_view()));
    r
}

/// The date in the first value of the request header `name`.
fn first_date(c: &WebmachineContext, name: &str) -> (r: Option<HttpDate>)
    ensures
        r == date_in(*c, name@),
{
    let values = c.request.find_header(name);
    if values.len() > 0 {
        assert(values.deep_view()[0] == values@[0]@);
        parse_rfc2822(values[0].value.as_str())
    } else {
        None
    }
}

/// Whether some value is the strong entity tag `e`.
fn has_strong_etag(values: &Vec<HeaderValue>, e: &str) -> (r: bool)
    ensures
        r == strong_etag_in(values.deep_view(), e@),
{
    let mut i: usize = 0;
    while i < values.len()
        invariant
            i <= values@.len(),
            forall|j: int|
                0 <= j < i ==> !(!is_weak((#[trigger] values.deep_view()[j]).value) && values.deep_view()[j].value == e@),
        decreases values.len() - i,
    {
        assert(values.deep_view()[i as int] == values@[i as int]@);
        let weak = values[i].weak_etag();
        if weak.is_none() && str_eq(values[i].value.as_str(), e) {
            return true;
        }
        i = i + 1;
    }
    false
}

/// Whether some value is the entity tag `e`, weak or strong.
fn has_etag(values: &Vec<HeaderValue>, e: &str) -> (r: bool)
    ensures
        r == etag_in(values.deep_view(), e@),
{
    let mut i: usize = 0;
    while i < values.len()
        invariant
            i <= values@.len(),
            forall|j: int|
                0 <= j < i ==> !(if is_weak((#[trigger] values.deep_view()[j]).value) {
                    weak_tag(values.deep_view()[j].value) == e@
                } else {
                    values.deep_view()[j].value == e@
                }),
        decreases values.len() - i,
    {
        assert(values.deep_view()[i as int] == values@[i as int]@);
        let found = match values[i].weak_etag() {
            Some(tag) => str_eq(tag.as_str(), e),
            None => str_eq(values[i].value.as_str(), e),
        };
        if found {
            return true;
        }
        i = i + 1;
    }
    false
}

/// Takes the decision `d`: returns its outcome and makes its changes to the context, given
/// the resource's declarations and its answer to the decision's question.
pub fn execute_decision(d: Decision, ctx: &mut WebmachineContext, profile: &ResourceProfile, answer: Answer) -> (r: DecisionResult)
    requires
        transition_of(d) matches Some(Transition::Branch(_, _)),
        fits(question_of(d, old(ctx).request), answer),
    ensures
        r == decision_result(d, *old(ctx), *profile, answer),
        effects_of(*final(ctx)) == decision_effects(d, *old(ctx), *profile, answer),
        frame(*old(ctx), *final(ctx)),
{
    match d {
        Decision::B13Available | Decision::B11UriTooLong | Decision::B9MalformedRequest | Decision::B7Forbidden
        | Decision::B6UnsupportedContentHeader | Decision::G7ResourceExists | Decision::K7ResourcePreviouslyExisted
        | Decision::M7PostToMissingResource | Decision::N5PostToMissingResource | Decision::O14Conflict
        | Decision::P3Conflict | Decision::O18MultipleRepresentations => {
            let b = match answer {
                Answer::Flag(b) => b,
                _ => false,
            };
            if d == Decision::G7ResourceExists && !b {
                ctx.new_resource = true;
            }
            if b {
                DecisionResult::True
            } else {
                DecisionResult::False
            }
        },
        Decision::B12KnownMethod => {
            if is_listed(&profile.known_methods, ctx.request.method.as_str()) {
                DecisionResult::True
            } else {
                DecisionResult::False
            }
        },
        Decision::B10MethodAllowed => {
            if is_listed(&profile.allowed_methods, ctx.request.method.as_str()) {
                DecisionResult::True
            } else {
                let values = basic_values_of(&profile.allowed_methods);
                ctx.response.add_header("Allow", values);
                DecisionResult::False
            }
        },
        Decision::B8Authorized => match answer {
            Answer::Text(Some(realm)) => {
                let v = HeaderValue::basic(realm.as_str());
                let mut values: Vec<HeaderValue> = Vec::new();
                values.push(v);
                assert(values.deep_view() =~= seq![basic_value(realm@)]);
                ctx.response.add_header("WWW-Authenticate", values);
                DecisionResult::False
            },
            _ => DecisionResult::True,
        },
        Decision::B5UnknownContentType => {
            if ctx.request.is_put_or_post() {
                let values = ctx.request.find_header("Content-Type");
                let ct = if values.len() > 0 {
                    assert(values.deep_view()[0] == values@[0]@);
                    values[0].value.clone()
                } else {
                    string_from("application/json")
                };
                if acceptable_content_type(&profile.acceptable_content_types, ct.as_str()) {
                    DecisionResult::False
                } else {
                    DecisionResult::True
                }
            } else {
                DecisionResult::False
            }
        },
        Decision::B4RequestEntityTooLarge => {
            if ctx.request.is_put_or_post() {
                match answer {
                    Answer::Flag(valid) => if valid {
                        DecisionResult::False
                    } else {
                        DecisionResult::True
                    },
                    _ => DecisionResult::True,
                }
            } else {
                DecisionResult::False
            }
        },
        Decision::B3Options => if ctx.request.is_options() {
            DecisionResult::True
        } else {
            DecisionResult::False
        },
        Decision::C3AcceptExists | Decision::D4AcceptLanguageExists | Decision::E5AcceptCharsetExists
        | Decision::F6AcceptEncodingExists | Decision::G8IfMatchExists | Decision::H10IfUnmodifiedSinceExists
        | Decision::I12IfNoneMatchExists | Decision::L13IfModifiedSinceExists => {
            let name = match d {
                Decision::C3AcceptExists => "Accept",
                Decision::D4AcceptLanguageExists => "Accept-Language",
                Decision::E5AcceptCharsetExists => "Accept-Charset",
                Decision::F6AcceptEncodingExists => "Accept-Encoding",
                Decision::G8IfMatchExists => "If-Match",
                Decision::H10IfUnmodifiedSinceExists => "If-Unmodified-Since",
                Decision::I12IfNoneMatchExists => "If-None-Match",
                _ => "If-Modified-Since",
            };
            if ctx.request.has_header(name) {
                DecisionResult::True
            } else {
                DecisionResult::False
            }
        },
        Decision::C4AcceptableMediaTypeAvailable => {
            let accept = ctx.request.find_header("Accept");
            match matching_content_type(&profile.produces, &accept) {
                Some(m) => {
                    ctx.selected_media_type = Some(m);
                    DecisionResult::True
                },
                None => DecisionResult::False,
            }
        },
        Decision::D5AcceptableLanguageAvailable => {
            let accept = ctx.request.find_header("Accept-Language");
            match matching_language(&profile.languages_provided, &accept) {
                Some(l) => {
                    let v = HeaderValue::basic(l.as_str());
                    let mut values: Vec<HeaderValue> = Vec::new();
                    values.push(v);
                    assert(values.deep_view() =~= seq![basic_value(l@)]);
                    ctx.response.add_header("Content-Language", values);
                    ctx.selected_language = Some(l);
                    DecisionResult::True
                },
                None => DecisionResult::False,
            }
        },
        Decision::E6AcceptableCharsetAvailable => {
            let accept = ctx.request.find_header("Accept-Charset");
            match matching_charset(&profile.charsets_provided, &accept) {
                Some(cs) => {
                    ctx.selected_charset = Some(cs);
                    DecisionResult::True
                },
                None => DecisionResult::False,
            }
        },
        Decision::F7AcceptableEncodingAvailable => {
            let accept = ctx.request.find_header("Accept-Encoding");
            match matching_encoding(&profile.encodings_provided, &accept) {
                Some(en) => {
                    ctx.selected_encoding = Some(en);
                    DecisionResult::True
                },
                None => DecisionResult::False,
            }
        },
        Decision::G9IfMatchStarExists | Decision::H7IfMatchStarExists => {
            if ctx.request.has_header_value("If-Match", "*") {
                DecisionResult::True
            } else {
                DecisionResult::False
            }
        },
        Decision::I13IfNoneMatchStarExists => {
            if ctx.request.has_header_value("If-None-Match", "*") {
                DecisionResult::True
            } else {
                DecisionResult::False
            }
        },
        Decision::G11EtagInIfMatch => match answer {
            Answer::Text(Some(e)) => {
                let values = ctx.request.find_header("If-Match");
                if has_strong_etag(&values, e.as_str()) {
                    DecisionResult::True
                } else {
                    DecisionResult::False
                }
            },
            _ => DecisionResult::False,
        },
        Decision::K13ETagInIfNoneMatch => match answer {
            Answer::Text(Some(e)) => {
                let values = ctx.request.find_header("If-None-Match");
                if has_etag(&values, e.as_str()) {
                    DecisionResult::True
                } else {
                    DecisionResult::False
                }
            },
            _ => DecisionResult::False,
        },
        Decision::H11IfUnmodifiedSinceValid => match first_date(ctx, "If-Unmodified-Since") {
            Some(dt) => {
                ctx.if_unmodified_since = Some(dt);
                DecisionResult::True
            },
            None => DecisionResult::False,
        },
        Decision::L14IfModifiedSinceValid => match first_date(ctx, "If-Modified-Since") {
            Some(dt) => {
                ctx.if_modified_since = Some(dt);
                DecisionResult::True
            },
            None => DecisionResult::False,
        },
        Decision::H12LastModifiedGreaterThanUMS => match (answer, ctx.if_unmodified_since) {
            (Answer::Date(Some(lm)), Some(since)) => if lm.is_after(&since) {
                DecisionResult::True
            } else {
                DecisionResult::False
            },
            _ => DecisionResult::False,
        },
        Decision::L15IfModifiedSinceGreaterThanNow => match (answer, ctx.if_modified_since) {
            (Answer::Date(Some(now)), Some(since)) => if since.is_after(&now) {
                DecisionResult::True
            } else {
                DecisionResult::False
            },
            _ => DecisionResult::False,
        },
        Decision::L17IfLastModifiedGreaterThanMS => match (answer, ctx.if_modified_since) {
            (Answer::Date(Some(lm)), Some(since)) => if lm.is_after(&since) {
                DecisionResult::True
            } else {
                DecisionResult::False
            },
            _ => DecisionResult::True,
        },
        Decision::I4HasMovedPermanently | Decision::K5HasMovedPermanently | Decision::L5HasMovedTemporarily => match answer {
            Answer::Text(Some(location)) => {
                let v = HeaderValue::basic(location.as_str());
                let mut values: Vec<HeaderValue> = Vec::new();
                values.push(v);
                assert(values.deep_view() =~= seq![basic_value(location@)]);
                ctx.response.add_header("Location", values);
                DecisionResult::True
            },
            _ => DecisionResult::False,
        },
        Decision::I7Put | Decision::O16Put => if ctx.request.is_put() {
            DecisionResult::True
        } else {
            DecisionResult::False
        },
        Decision::L7Post | Decision::M5Post | Decision::N16Post => if ctx.request.is_post() {
            DecisionResult::True
        } else {
            DecisionResult::False
        },
        Decision::M16Delete => if ctx.request.is_delete() {
            DecisionResult::True
        } else {
            DecisionResult::False
        },
        Decision::J18GetHead => if ctx.request.is_get_or_head() {
            DecisionResult::True
        } else {
            DecisionResult::False
        },
        Decision::M20DeleteEnacted => match answer {
            Answer::Status(Ok(enacted)) => if enacted {
                DecisionResult::True
            } else {
                DecisionResult::False
            },
            Answer::Status(Err(code)) => DecisionResult::StatusCode(code),
            _ => DecisionResult::False,
        },
        Decision::N11Redirect => match answer {
            Answer::Created(Ok(path)) => {
                let base = sanitise_path(ctx.request.base_path.as_str());
                let rest = sanitise_path(path.as_str());
                let location = join_paths(&base, &rest);
                let v = HeaderValue::basic(location.as_str());
                let mut values: Vec<HeaderValue> = Vec::new();
                values.push(v);
                assert(values.deep_view() =~= seq![basic_value(location@)]);
                ctx.response.add_header("Location", values);
                ctx.request.request_path = path;
                ctx.new_resource = true;
                if ctx.redirect {
                    DecisionResult::True
                } else {
                    DecisionResult::False
                }
            },
            Answer::Created(Err(code)) => DecisionResult::StatusCode(code),
            Answer::Status(Err(code)) => DecisionResult::StatusCode(code),
            _ => if ctx.redirect {
                DecisionResult::True
            } else {
                DecisionResult::False
            },
        },
        Decision::O20ResponseHasBody => if ctx.response.has_body() {
            DecisionResult::True
        } else {
            DecisionResult::False
        },
        Decision::P11NewResource => match answer {
            Answer::Status(Err(code)) => DecisionResult::StatusCode(code),
            _ => if ctx.new_resource {
                DecisionResult::True
            } else {
                DecisionResult::False
            },
        },
        _ => DecisionResult::False,
    }
}

} // verus!
