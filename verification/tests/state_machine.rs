use chrono::{Duration, FixedOffset, Local};
use webmachine::context::{HttpDate, WebmachineContext, WebmachineRequest};
use webmachine::decisions::{is_terminal_decision, next_decision, transition, Decision, Transition};
use webmachine::finalise::{add_headers, end_status, finalise_headers};
use webmachine::headers::HeaderValue;
use webmachine::paths::dispatch_route;
use webmachine::state_machine::{answer_fits, execute_decision, owned_vec, question, Answer, Question, ResourceProfile};

/// A resource whose callbacks give fixed answers.
struct TestResource {
    profile: ResourceProfile,
    available: bool,
    uri_too_long: bool,
    malformed_request: bool,
    not_authorized: Option<String>,
    forbidden: bool,
    unsupported_content_headers: bool,
    valid_entity_length: bool,
    resource_exists: bool,
    generate_etag: Option<String>,
    last_modified: Option<HttpDate>,
    moved_permanently: Option<String>,
    moved_temporarily: Option<String>,
    previously_existed: bool,
    allow_missing_post: bool,
    is_conflict: bool,
    delete_resource: Result<bool, u16>,
    post_is_create: bool,
    create_path: Option<Result<String, u16>>,
    process_post: Result<bool, u16>,
    process_put: Result<bool, u16>,
    multiple_choices: bool,
    options: Option<Vec<(String, Vec<String>)>>,
    redirect_when_posting: bool,
    body_when_writing: bool,
}

impl Default for TestResource {
    fn default() -> Self {
        TestResource {
            profile: ResourceProfile::default(),
            available: true,
            uri_too_long: false,
            malformed_request: false,
            not_authorized: None,
            forbidden: false,
            unsupported_content_headers: false,
            valid_entity_length: true,
            resource_exists: true,
            generate_etag: None,
            last_modified: None,
            moved_permanently: None,
            moved_temporarily: None,
            previously_existed: false,
            allow_missing_post: false,
            is_conflict: false,
            delete_resource: Ok(true),
            post_is_create: false,
            create_path: None,
            process_post: Ok(false),
            process_put: Ok(true),
            multiple_choices: false,
            options: None,
            redirect_when_posting: false,
            body_when_writing: false,
        }
    }
}

fn now() -> HttpDate {
    date(Local::now().with_timezone(&FixedOffset::east_opt(10 * 3600).unwrap()))
}

fn date(d: chrono::DateTime<FixedOffset>) -> HttpDate {
    HttpDate { seconds: d.timestamp(), nanos: d.timestamp_subsec_nanos(), offset: d.offset().local_minus_utc() }
}

fn ask(resource: &TestResource, q: Question, context: &mut WebmachineContext) -> Answer {
    match q {
        Question::Nothing => Answer::Nothing,
        Question::Available => Answer::Flag(resource.available),
        Question::UriTooLong => Answer::Flag(resource.uri_too_long),
        Question::MalformedRequest => Answer::Flag(resource.malformed_request),
        Question::NotAuthorized => Answer::Text(resource.not_authorized.clone()),
        Question::Forbidden => Answer::Flag(resource.forbidden),
        Question::UnsupportedContentHeaders => Answer::Flag(resource.unsupported_content_headers),
        Question::ValidEntityLength => Answer::Flag(resource.valid_entity_length),
        Question::ResourceExists => Answer::Flag(resource.resource_exists),
        Question::GenerateEtag => Answer::Text(resource.generate_etag.clone()),
        Question::LastModified => Answer::Date(resource.last_modified),
        Question::Now => Answer::Date(Some(now())),
        Question::MovedPermanently => Answer::Text(resource.moved_permanently.clone()),
        Question::MovedTemporarily => Answer::Text(resource.moved_temporarily.clone()),
        Question::PreviouslyExisted => Answer::Flag(resource.previously_existed),
        Question::AllowMissingPost => Answer::Flag(resource.allow_missing_post),
        Question::IsConflict => Answer::Flag(resource.is_conflict),
        Question::DeleteResource => {
            if resource.body_when_writing {
                context.response.body = Some(b"body".to_vec());
            }
            Answer::Status(resource.delete_resource)
        }
        Question::Post => {
            if resource.redirect_when_posting {
                context.redirect = true;
            }
            if resource.post_is_create {
                Answer::Created(resource.create_path.clone().unwrap_or_else(|| Ok(context.request.request_path.clone())))
            } else {
                Answer::Status(resource.process_post)
            }
        }
        Question::ProcessPut => {
            if resource.body_when_writing {
                context.response.body = Some(b"body".to_vec());
            }
            Answer::Status(resource.process_put)
        }
        Question::MultipleChoices => Answer::Flag(resource.multiple_choices),
    }
}

fn execute_state_machine(context: &mut WebmachineContext, resource: &TestResource) {
    let mut state = Decision::Start;
    let mut steps = 0;
    while !is_terminal_decision(state) {
        steps += 1;
        assert!(steps < 100);
        state = match transition(state) {
            Some(Transition::To(next)) => next,
            Some(Transition::Branch(_, _)) => {
                let q = question(state, &context.request);
                let answer = ask(resource, q, context);
                assert!(answer_fits(q, &answer));
                let result = execute_decision(state, context, &resource.profile, answer);
                next_decision(state, result)
            }
            None => state,
        };
    }
    if let Some(status) = end_status(state) {
        context.response.status = status;
    }
    if state == Decision::A3Options {
        if let Some(headers) = &resource.options {
            add_headers(&mut context.response, headers);
        }
    }
}

fn finalise_response(context: &mut WebmachineContext, resource: &TestResource) {
    let (etag, last_modified) = if context.request.is_get_or_head() {
        (resource.generate_etag.clone(), resource.last_modified)
    } else {
        (None, None)
    };
    finalise_headers(context, &resource.profile, etag, None, last_modified);
}

fn context_with(method: &str, headers: Vec<(&str, Vec<HeaderValue>)>) -> WebmachineContext {
    WebmachineContext {
        request: WebmachineRequest {
            method: method.to_string(),
            headers: headers.into_iter().map(|(k, v)| (k.to_string(), v)).collect(),
            ..WebmachineRequest::default()
        },
        ..WebmachineContext::default()
    }
}

fn h(s: &str) -> HeaderValue {
    HeaderValue::parse_string(s)
}

fn header(context: &WebmachineContext, name: &str) -> Option<Vec<HeaderValue>> {
    context.response.header(name)
}

fn profile_with(allowed: &[&str]) -> ResourceProfile {
    ResourceProfile { allowed_methods: owned_vec(allowed), ..ResourceProfile::default() }
}

#[test]
fn dispatcher_returns_404_if_there_is_no_matching_resource() {
    let mut context = WebmachineContext::default();
    let routes = vec!["/some/path".to_string()];
    assert_eq!(dispatch_route(&routes, &mut context), None);
    assert_eq!(context.response.status, 404);
}

#[test]
fn execute_state_machine_returns_503_if_resource_indicates_not_available() {
    let mut context = WebmachineContext::default();
    let resource = TestResource { available: false, ..TestResource::default() };
    execute_state_machine(&mut context, &resource);
    assert_eq!(context.response.status, 503);
}

#[test]
fn execute_state_machine_returns_501_if_method_is_not_in_known_list() {
    let mut context = context_with("Blah", vec![]);
    execute_state_machine(&mut context, &TestResource::default());
    assert_eq!(context.response.status, 501);
}

#[test]
fn execute_state_machine_returns_414_if_uri_is_too_long() {
    let mut context = WebmachineContext::default();
    execute_state_machine(&mut context, &TestResource { uri_too_long: true, ..TestResource::default() });
    assert_eq!(context.response.status, 414);
}

#[test]
fn execute_state_machine_returns_405_if_method_is_not_allowed() {
    let mut context = context_with("TRACE", vec![]);
    execute_state_machine(&mut context, &TestResource::default());
    assert_eq!(context.response.status, 405);
    assert_eq!(
        header(&context, "Allow").unwrap(),
        vec![HeaderValue::basic("OPTIONS"), HeaderValue::basic("GET"), HeaderValue::basic("HEAD")]
    );
}

#[test]
fn execute_state_machine_returns_400_if_malformed_request() {
    let mut context = WebmachineContext::default();
    execute_state_machine(&mut context, &TestResource { malformed_request: true, ..TestResource::default() });
    assert_eq!(context.response.status, 400);
}

#[test]
fn execute_state_machine_returns_401_if_not_authorized() {
    let mut context = WebmachineContext::default();
    let resource = TestResource {
        not_authorized: Some("Basic realm=\"User Visible Realm\"".to_string()),
        ..TestResource::default()
    };
    execute_state_machine(&mut context, &resource);
    assert_eq!(context.response.status, 401);
    assert_eq!(
        header(&context, "WWW-Authenticate").unwrap(),
        vec![HeaderValue::basic("Basic realm=\"User Visible Realm\"")]
    );
}

#[test]
fn execute_state_machine_returns_403_if_forbidden() {
    let mut context = WebmachineContext::default();
    execute_state_machine(&mut context, &TestResource { forbidden: true, ..TestResource::default() });
    assert_eq!(context.response.status, 403);
}

#[test]
fn execute_state_machine_returns_501_if_there_is_an_unsupported_content_header() {
    let mut context = WebmachineContext::default();
    execute_state_machine(&mut context, &TestResource { unsupported_content_headers: true, ..TestResource::default() });
    assert_eq!(context.response.status, 501);
}

#[test]
fn execute_state_machine_returns_415_if_the_content_type_is_unknown() {
    let mut context = context_with("POST", vec![("Content-type", vec![HeaderValue::basic("application/xml")])]);
    let resource = TestResource {
        profile: ResourceProfile {
            acceptable_content_types: owned_vec(&["application/json"]),
            ..profile_with(&["POST"])
        },
        ..TestResource::default()
    };
    execute_state_machine(&mut context, &resource);
    assert_eq!(context.response.status, 415);
}

#[test]
fn execute_state_machine_returns_does_not_return_415_if_not_a_put_or_post() {
    let mut context = context_with("GET", vec![("Content-type", vec![HeaderValue::basic("application/xml")])]);
    execute_state_machine(&mut context, &TestResource::default());
    assert_ne!(context.response.status, 415);
}

#[test]
fn execute_state_machine_handles_content_types_with_parameters() {
    let mut context = context_with("POST", vec![("Content-type", vec![h("application/xml;charset=UTF-8")])]);
    let resource = TestResource {
        profile: ResourceProfile {
            acceptable_content_types: owned_vec(&["application/xml"]),
            ..profile_with(&["POST"])
        },
        ..TestResource::default()
    };
    execute_state_machine(&mut context, &resource);
    assert_ne!(context.response.status, 415);
}

#[test]
fn acceptable_content_types_may_hold_wild_cards() {
    let mut context = context_with("POST", vec![("Content-Type", vec![h("application/xml")])]);
    let resource = TestResource {
        profile: ResourceProfile { acceptable_content_types: owned_vec(&["application/*"]), ..profile_with(&["POST"]) },
        ..TestResource::default()
    };
    execute_state_machine(&mut context, &resource);
    assert_ne!(context.response.status, 415);
}

#[test]
fn execute_state_machine_returns_413_if_the_request_entity_is_too_large() {
    let mut context = context_with("POST", vec![]);
    let resource = TestResource { valid_entity_length: false, profile: profile_with(&["POST"]), ..TestResource::default() };
    execute_state_machine(&mut context, &resource);
    assert_eq!(context.response.status, 413);
}

#[test]
fn execute_state_machine_returns_does_not_return_413_if_not_a_put_or_post() {
    let mut context = WebmachineContext::default();
    execute_state_machine(&mut context, &TestResource { valid_entity_length: false, ..TestResource::default() });
    assert_ne!(context.response.status, 413);
}

#[test]
fn execute_state_machine_returns_headers_for_option_request() {
    let mut context = context_with("OPTIONS", vec![]);
    let resource = TestResource {
        profile: profile_with(&["OPTIONS"]),
        options: Some(vec![
            ("A".to_string(), vec!["B".to_string()]),
            ("C".to_string(), vec!["D;E=F".to_string()]),
        ]),
        ..TestResource::default()
    };
    execute_state_machine(&mut context, &resource);
    assert_eq!(context.response.status, 204);
    assert_eq!(header(&context, "A").unwrap(), vec![HeaderValue::basic("B")]);
    assert_eq!(header(&context, "C").unwrap(), vec![HeaderValue::basic("D;E=F")]);
}

#[test]
fn execute_state_machine_returns_406_if_the_request_does_not_have_an_acceptable_content_type() {
    let mut context = context_with("GET", vec![("Accept", vec![HeaderValue::basic("application/xml")])]);
    let resource = TestResource {
        profile: ResourceProfile { produces: owned_vec(&["application/javascript"]), ..ResourceProfile::default() },
        ..TestResource::default()
    };
    execute_state_machine(&mut context, &resource);
    assert_eq!(context.response.status, 406);
}

#[test]
fn execute_state_machine_sets_content_type_header_if_the_request_does_have_an_acceptable_content_type() {
    let mut context = context_with("GET", vec![("Accept", vec![HeaderValue::basic("application/xml")])]);
    let resource = TestResource {
        profile: ResourceProfile { produces: owned_vec(&["application/xml"]), ..ResourceProfile::default() },
        ..TestResource::default()
    };
    execute_state_machine(&mut context, &resource);
    finalise_response(&mut context, &resource);
    assert_eq!(context.response.status, 200);
    assert_eq!(header(&context, "Content-Type").unwrap(), vec![h("application/xml;charset=ISO-8859-1")]);
}

#[test]
fn media_types_are_chosen_by_the_closest_match() {
    let mut context = context_with("GET", vec![("Accept", vec![h("*/*"), h("text/*"), h("text/html"), h("image/png;q=0")])]);
    let resource = TestResource {
        profile: ResourceProfile {
            produces: owned_vec(&["image/png", "text/plain", "text/html"]),
            ..ResourceProfile::default()
        },
        ..TestResource::default()
    };
    execute_state_machine(&mut context, &resource);
    assert_eq!(context.selected_media_type, Some("text/html".to_string()));
}

#[test]
fn execute_state_machine_returns_406_if_the_request_does_not_have_an_acceptable_language() {
    let mut context = context_with("GET", vec![("Accept-Language", vec![HeaderValue::basic("da")])]);
    let resource = TestResource {
        profile: ResourceProfile { languages_provided: owned_vec(&["en"]), ..ResourceProfile::default() },
        ..TestResource::default()
    };
    execute_state_machine(&mut context, &resource);
    assert_eq!(context.response.status, 406);
}

#[test]
fn execute_state_machine_sets_the_language_header_if_the_request_does_have_an_acceptable_language() {
    let mut context = context_with("GET", vec![("Accept-Language", vec![HeaderValue::basic("en-gb")])]);
    let resource = TestResource {
        profile: ResourceProfile { languages_provided: owned_vec(&["en"]), ..ResourceProfile::default() },
        ..TestResource::default()
    };
    execute_state_machine(&mut context, &resource);
    assert_eq!(context.response.status, 200);
    assert_eq!(context.response.headers, vec![("Content-Language".to_string(), vec![h("en")])]);
}

#[test]
fn execute_state_machine_returns_406_if_the_request_does_not_have_an_acceptable_charset() {
    let mut context = context_with("GET", vec![("Accept-Charset", vec![h("iso-8859-5"), h("iso-8859-1;q=0")])]);
    let resource = TestResource {
        profile: ResourceProfile { charsets_provided: owned_vec(&["UTF-8", "US-ASCII"]), ..ResourceProfile::default() },
        ..TestResource::default()
    };
    execute_state_machine(&mut context, &resource);
    assert_eq!(context.response.status, 406);
}

#[test]
fn execute_state_machine_sets_the_charset_if_the_request_does_have_an_acceptable_charset() {
    let mut context = context_with("GET", vec![("Accept-Charset", vec![h("UTF-8"), h("iso-8859-1;q=0")])]);
    let resource = TestResource {
        profile: ResourceProfile { charsets_provided: owned_vec(&["UTF-8", "US-ASCII"]), ..ResourceProfile::default() },
        ..TestResource::default()
    };
    execute_state_machine(&mut context, &resource);
    finalise_response(&mut context, &resource);
    assert_eq!(context.response.status, 200);
    assert_eq!(header(&context, "Content-Type").unwrap(), vec![h("application/json;charset=UTF-8")]);
}

#[test]
fn iso_8859_1_is_acceptable_unless_refused() {
    let mut context = context_with("GET", vec![("Accept-Charset", vec![h("iso-8859-5")])]);
    let resource = TestResource {
        profile: ResourceProfile { charsets_provided: owned_vec(&["UTF-8", "ISO-8859-1"]), ..ResourceProfile::default() },
        ..TestResource::default()
    };
    execute_state_machine(&mut context, &resource);
    assert_eq!(context.response.status, 200);
    assert_eq!(context.selected_charset, Some("ISO-8859-1".to_string()));
}

#[test]
fn execute_state_machine_returns_406_if_the_request_does_not_have_an_acceptable_encoding() {
    let mut context = context_with("GET", vec![("Accept-Encoding", vec![h("compress"), h("*;q=0")])]);
    let resource = TestResource {
        profile: ResourceProfile { encodings_provided: owned_vec(&["identity"]), ..ResourceProfile::default() },
        ..TestResource::default()
    };
    execute_state_machine(&mut context, &resource);
    assert_eq!(context.response.status, 406);
}

#[test]
fn encodings_are_chosen_by_weight() {
    let mut context = context_with("GET", vec![("Accept-Encoding", vec![h("gzip;q=0.5"), h("br;q=0.8")])]);
    let resource = TestResource {
        profile: ResourceProfile { encodings_provided: owned_vec(&["gzip", "br"]), ..ResourceProfile::default() },
        ..TestResource::default()
    };
    execute_state_machine(&mut context, &resource);
    assert_eq!(context.selected_encoding, Some("br".to_string()));
}

#[test]
fn execute_state_machine_sets_the_vary_header_if_the_resource_has_variances() {
    let mut context = WebmachineContext::default();
    let resource = TestResource {
        profile: ResourceProfile { variances: owned_vec(&["HEADER-A", "HEADER-B"]), ..ResourceProfile::default() },
        ..TestResource::default()
    };
    execute_state_machine(&mut context, &resource);
    finalise_response(&mut context, &resource);
    assert_eq!(context.response.status, 200);
    assert_eq!(header(&context, "Content-Type"), Some(vec![h("application/json;charset=ISO-8859-1")]));
    assert_eq!(header(&context, "Vary"), Some(vec![h("HEADER-A"), h("HEADER-B")]));
}

#[test]
fn execute_state_machine_returns_404_if_the_resource_does_not_exist() {
    let mut context = WebmachineContext::default();
    execute_state_machine(&mut context, &TestResource { resource_exists: false, ..TestResource::default() });
    assert_eq!(context.response.status, 404);
}

#[test]
fn execute_state_machine_returns_412_if_the_resource_does_not_exist_and_there_is_an_if_match_header() {
    let mut context = context_with("GET", vec![("If-Match", vec![h("*")])]);
    execute_state_machine(&mut context, &TestResource { resource_exists: false, ..TestResource::default() });
    assert_eq!(context.response.status, 412);
}

#[test]
fn execute_state_machine_returns_301_and_sets_location_header_if_the_resource_has_moved_permanently() {
    let mut context = context_with("PUT", vec![]);
    let resource = TestResource {
        profile: profile_with(&["PUT"]),
        resource_exists: false,
        moved_permanently: Some("http://go.away.com/to/here".to_string()),
        ..TestResource::default()
    };
    execute_state_machine(&mut context, &resource);
    assert_eq!(context.response.status, 301);
    assert_eq!(context.response.headers, vec![("Location".to_string(), vec![h("http://go.away.com/to/here")])]);
}

#[test]
fn execute_state_machine_returns_409_if_the_put_request_is_a_conflict() {
    let mut context = context_with("PUT", vec![]);
    let resource = TestResource {
        profile: profile_with(&["PUT"]),
        resource_exists: false,
        is_conflict: true,
        ..TestResource::default()
    };
    execute_state_machine(&mut context, &resource);
    assert_eq!(context.response.status, 409);
}

#[test]
fn execute_state_machine_returns_404_if_the_resource_does_not_exist_and_does_not_except_posts_to_nonexistant_resources() {
    let mut context = context_with("POST", vec![]);
    let resource = TestResource { profile: profile_with(&["POST"]), resource_exists: false, ..TestResource::default() };
    execute_state_machine(&mut context, &resource);
    assert_eq!(context.response.status, 404);
}

#[test]
fn execute_state_machine_returns_301_and_sets_location_header_if_the_resource_has_moved_permanently_and_prev_existed_and_not_a_put() {
    let mut context = context_with("POST", vec![]);
    let resource = TestResource {
        profile: profile_with(&["POST"]),
        resource_exists: false,
        previously_existed: true,
        moved_permanently: Some("http://go.away.com/to/here".to_string()),
        ..TestResource::default()
    };
    execute_state_machine(&mut context, &resource);
    assert_eq!(context.response.status, 301);
    assert_eq!(context.response.headers, vec![("Location".to_string(), vec![h("http://go.away.com/to/here")])]);
}

#[test]
fn execute_state_machine_returns_307_and_sets_location_header_if_the_resource_has_moved_temporarily_and_not_a_put() {
    let mut context = WebmachineContext::default();
    let resource = TestResource {
        resource_exists: false,
        previously_existed: true,
        moved_temporarily: Some("http://go.away.com/to/here".to_string()),
        ..TestResource::default()
    };
    execute_state_machine(&mut context, &resource);
    assert_eq!(context.response.status, 307);
    assert_eq!(context.response.headers, vec![("Location".to_string(), vec![h("http://go.away.com/to/here")])]);
}

#[test]
fn execute_state_machine_returns_410_if_the_resource_has_prev_existed_and_not_a_post() {
    let mut context = WebmachineContext::default();
    let resource = TestResource { resource_exists: false, previously_existed: true, ..TestResource::default() };
    execute_state_machine(&mut context, &resource);
    assert_eq!(context.response.status, 410);
}

#[test]
fn execute_state_machine_returns_410_if_the_resource_has_prev_existed_and_a_post_and_posts_to_missing_resource_not_allowed() {
    let mut context = context_with("POST", vec![]);
    let resource = TestResource {
        profile: profile_with(&["POST"]),
        resource_exists: false,
        previously_existed: true,
        ..TestResource::default()
    };
    execute_state_machine(&mut context, &resource);
    assert_eq!(context.response.status, 410);
}

#[test]
fn execute_state_machine_returns_404_if_the_resource_has_not_prev_existed_and_a_post_and_posts_to_missing_resource_not_allowed() {
    let mut context = context_with("POST", vec![]);
    let resource = TestResource { profile: profile_with(&["POST"]), resource_exists: false, ..TestResource::default() };
    execute_state_machine(&mut context, &resource);
    assert_eq!(context.response.status, 404);
}

#[test]
fn execute_state_machine_returns_412_if_the_resource_etag_does_not_match_if_match_header() {
    let mut context = context_with("GET", vec![("If-Match", vec![h("\"1234567891\"")])]);
    let resource = TestResource { generate_etag: Some("1234567890".to_string()), ..TestResource::default() };
    execute_state_machine(&mut context, &resource);
    assert_eq!(context.response.status, 412);
}

#[test]
fn execute_state_machine_returns_412_if_the_resource_etag_does_not_match_if_match_header_weak_etag() {
    let mut context = context_with("GET", vec![("If-Match", vec![h("W/\"1234567891\"")])]);
    let resource = TestResource { generate_etag: Some("1234567890".to_string()), ..TestResource::default() };
    execute_state_machine(&mut context, &resource);
    assert_eq!(context.response.status, 412);
}

#[test]
fn matching_strong_etag_in_if_match_passes() {
    let mut context = context_with("GET", vec![("If-Match", vec![h("\"1234567890\"")])]);
    let resource = TestResource { generate_etag: Some("1234567890".to_string()), ..TestResource::default() };
    execute_state_machine(&mut context, &resource);
    assert_eq!(context.response.status, 200);
}

#[test]
fn execute_state_machine_returns_412_if_the_resource_last_modified_gt_unmodified_since() {
    let offset = FixedOffset::east_opt(10 * 3600).unwrap();
    let datetime = Local::now().with_timezone(&offset);
    let header_datetime = datetime - Duration::minutes(5);
    let mut context = context_with("GET", vec![(
        "If-Unmodified-Since",
        vec![h(&format!("\"{}\"", header_datetime.to_rfc2822()))],
    )]);
    let resource = TestResource { last_modified: Some(date(datetime)), ..TestResource::default() };
    execute_state_machine(&mut context, &resource);
    assert_eq!(context.response.status, 412);
}

#[test]
fn execute_state_machine_returns_304_if_non_match_star_exists_and_is_not_a_head_or_get() {
    let mut context = context_with("POST", vec![("If-None-Match", vec![h("*")])]);
    let resource = TestResource { profile: profile_with(&["POST"]), ..TestResource::default() };
    execute_state_machine(&mut context, &resource);
    assert_eq!(context.response.status, 412);
}

#[test]
fn execute_state_machine_returns_304_if_non_match_star_exists_and_is_a_head_or_get() {
    let mut context = context_with("HEAD", vec![("If-None-Match", vec![h("*")])]);
    let resource = TestResource { profile: profile_with(&["HEAD"]), ..TestResource::default() };
    execute_state_machine(&mut context, &resource);
    assert_eq!(context.response.status, 304);
}

#[test]
fn execute_state_machine_returns_412_if_resource_etag_in_if_non_match_and_is_not_a_head_or_get() {
    let mut context = context_with("POST", vec![("If-None-Match", vec![h("W/\"1234567890\""), h("W/\"1234567891\"")])]);
    let resource = TestResource {
        profile: profile_with(&["POST"]),
        generate_etag: Some("1234567890".to_string()),
        ..TestResource::default()
    };
    execute_state_machine(&mut context, &resource);
    assert_eq!(context.response.status, 412);
}

#[test]
fn execute_state_machine_returns_304_if_resource_etag_in_if_non_match_and_is_a_head_or_get() {
    let mut context = context_with("GET", vec![("If-None-Match", vec![h("\"1234567890\""), h("\"1234567891\"")])]);
    let resource = TestResource { generate_etag: Some("1234567890".to_string()), ..TestResource::default() };
    execute_state_machine(&mut context, &resource);
    assert_eq!(context.response.status, 304);
}

#[test]
fn execute_state_machine_returns_304_if_the_resource_last_modified_gt_modified_since() {
    let offset = FixedOffset::east_opt(10 * 3600).unwrap();
    let datetime = Local::now().with_timezone(&offset) - Duration::minutes(15);
    let header_datetime = datetime + Duration::minutes(5);
    let mut context = context_with("GET", vec![(
        "If-Modified-Since",
        vec![h(&format!("\"{}\"", header_datetime.to_rfc2822()))],
    )]);
    let resource = TestResource { last_modified: Some(date(datetime)), ..TestResource::default() };
    execute_state_machine(&mut context, &resource);
    assert_eq!(context.response.status, 304);
}

#[test]
fn execute_state_machine_returns_202_if_delete_was_not_enacted() {
    let mut context = context_with("DELETE", vec![]);
    let resource = TestResource { profile: profile_with(&["DELETE"]), delete_resource: Ok(false), ..TestResource::default() };
    execute_state_machine(&mut context, &resource);
    assert_eq!(context.response.status, 202);
}

#[test]
fn execute_state_machine_returns_a_resource_status_code_if_delete_fails() {
    let mut context = context_with("DELETE", vec![]);
    let resource = TestResource { profile: profile_with(&["DELETE"]), delete_resource: Err(500), ..TestResource::default() };
    execute_state_machine(&mut context, &resource);
    assert_eq!(context.response.status, 500);
}

#[test]
fn execute_state_machine_returns_a_resource_status_code_if_post_fails_and_post_is_create() {
    let mut context = context_with("POST", vec![]);
    let resource = TestResource {
        profile: profile_with(&["POST"]),
        post_is_create: true,
        create_path: Some(Err(500)),
        ..TestResource::default()
    };
    execute_state_machine(&mut context, &resource);
    assert_eq!(context.response.status, 500);
}

#[test]
fn execute_state_machine_returns_a_resource_status_code_if_post_fails_and_post_is_not_create() {
    let mut context = context_with("POST", vec![]);
    let resource = TestResource { profile: profile_with(&["POST"]), process_post: Err(500), ..TestResource::default() };
    execute_state_machine(&mut context, &resource);
    assert_eq!(context.response.status, 500);
}

#[test]
fn execute_state_machine_returns_303_and_post_is_create_and_redirect_is_set() {
    let mut context = WebmachineContext {
        request: WebmachineRequest {
            method: "POST".to_string(),
            base_path: "/base/path".to_string(),
            ..WebmachineRequest::default()
        },
        ..WebmachineContext::default()
    };
    let resource = TestResource {
        profile: profile_with(&["POST"]),
        post_is_create: true,
        create_path: Some(Ok("/new/path".to_string())),
        redirect_when_posting: true,
        ..TestResource::default()
    };
    execute_state_machine(&mut context, &resource);
    assert_eq!(context.response.status, 303);
    assert_eq!(context.response.headers, vec![("Location".to_string(), vec![h("/base/path/new/path")])]);
}

#[test]
fn execute_state_machine_returns_303_if_post_is_not_create_and_redirect_is_set() {
    let mut context = context_with("POST", vec![]);
    let resource = TestResource {
        profile: profile_with(&["POST"]),
        process_post: Ok(true),
        redirect_when_posting: true,
        ..TestResource::default()
    };
    execute_state_machine(&mut context, &resource);
    assert_eq!(context.response.status, 303);
}

#[test]
fn execute_state_machine_returns_303_if_post_to_missing_resource_and_redirect_is_set() {
    let mut context = context_with("POST", vec![]);
    let resource = TestResource {
        profile: profile_with(&["POST"]),
        resource_exists: false,
        allow_missing_post: true,
        process_post: Ok(true),
        redirect_when_posting: true,
        ..TestResource::default()
    };
    execute_state_machine(&mut context, &resource);
    assert_eq!(context.response.status, 303);
}

#[test]
fn execute_state_machine_returns_201_if_post_creates_new_resource() {
    let mut context = context_with("POST", vec![]);
    let resource = TestResource {
        profile: profile_with(&["POST"]),
        resource_exists: false,
        allow_missing_post: true,
        post_is_create: true,
        create_path: Some(Ok("/new/path".to_string())),
        ..TestResource::default()
    };
    execute_state_machine(&mut context, &resource);
    assert_eq!(context.response.status, 201);
    assert_eq!(context.response.headers, vec![("Location".to_string(), vec![h("/new/path")])]);
    assert_eq!(context.request.request_path, "/new/path");
}

#[test]
fn execute_state_machine_returns_201_if_put_to_new_resource() {
    let mut context = context_with("PUT", vec![]);
    let resource = TestResource { profile: profile_with(&["PUT"]), resource_exists: false, ..TestResource::default() };
    execute_state_machine(&mut context, &resource);
    assert_eq!(context.response.status, 201);
}

#[test]
fn execute_state_machine_returns_409_for_existing_resource_if_the_put_request_is_a_conflict() {
    let mut context = context_with("PUT", vec![]);
    let resource = TestResource { profile: profile_with(&["PUT"]), is_conflict: true, ..TestResource::default() };
    execute_state_machine(&mut context, &resource);
    assert_eq!(context.response.status, 409);
}

#[test]
fn execute_state_machine_returns_200_if_put_request_to_existing_resource() {
    let mut context = context_with("PUT", vec![]);
    let resource = TestResource { profile: profile_with(&["PUT"]), body_when_writing: true, ..TestResource::default() };
    execute_state_machine(&mut context, &resource);
    assert_eq!(context.response.status, 200);
}

#[test]
fn execute_state_machine_returns_204_if_put_request_to_existing_resource_with_no_response_body() {
    let mut context = context_with("PUT", vec![]);
    execute_state_machine(&mut context, &TestResource { profile: profile_with(&["PUT"]), ..TestResource::default() });
    assert_eq!(context.response.status, 204);
}

#[test]
fn execute_state_machine_returns_300_if_multiple_choices_is_true() {
    let mut context = WebmachineContext::default();
    execute_state_machine(&mut context, &TestResource { multiple_choices: true, ..TestResource::default() });
    assert_eq!(context.response.status, 300);
}

#[test]
fn execute_state_machine_returns_204_if_delete_was_enacted_and_response_has_no_body() {
    let mut context = context_with("DELETE", vec![]);
    execute_state_machine(&mut context, &TestResource { profile: profile_with(&["DELETE"]), ..TestResource::default() });
    assert_eq!(context.response.status, 204);
}

#[test]
fn execute_state_machine_returns_200_if_delete_was_enacted_and_response_has_a_body() {
    let mut context = context_with("DELETE", vec![]);
    let resource = TestResource { profile: profile_with(&["DELETE"]), body_when_writing: true, ..TestResource::default() };
    execute_state_machine(&mut context, &resource);
    assert_eq!(context.response.status, 200);
}

#[test]
fn get_responses_carry_the_quoted_etag() {
    let mut context = WebmachineContext::default();
    let resource = TestResource { generate_etag: Some("abc".to_string()), ..TestResource::default() };
    execute_state_machine(&mut context, &resource);
    finalise_response(&mut context, &resource);
    assert_eq!(header(&context, "ETag"), Some(vec![HeaderValue::basic("abc").quote()]));
}

#[test]
fn every_request_ends_within_the_transition_limit() {
    let mut state = Decision::Start;
    let mut steps = 0;
    while !is_terminal_decision(state) {
        state = next_decision(state, webmachine::decisions::DecisionResult::True);
        steps += 1;
    }
    assert!(steps <= 41);
    assert_eq!(steps, 4);
    assert_eq!(state, Decision::End(414));
}

#[test]
fn cors_headers_allow_any_origin() {
    let mut context = WebmachineContext::default();
    context.response.add_cors_headers(&owned_vec(&["GET", "POST"]));
    assert_eq!(header(&context, "Access-Control-Allow-Origin"), Some(vec![HeaderValue::basic("*")]));
    assert_eq!(
        header(&context, "Access-Control-Allow-Methods"),
        Some(vec![HeaderValue::basic("GET"), HeaderValue::basic("POST")])
    );
    assert_eq!(header(&context, "Access-Control-Allow-Headers"), Some(vec![HeaderValue::basic("Content-Type")]));
}

#[test]
fn vary_lists_each_value_once() {
    let mut context = WebmachineContext::default();
    let resource = TestResource {
        profile: ResourceProfile {
            variances: owned_vec(&["Accept", "HEADER-A", "HEADER-A"]),
            produces: owned_vec(&["application/json", "text/plain"]),
            ..ResourceProfile::default()
        },
        ..TestResource::default()
    };
    execute_state_machine(&mut context, &resource);
    finalise_response(&mut context, &resource);
    assert_eq!(header(&context, "Vary"), Some(vec![h("Accept"), h("HEADER-A")]));
}

#[test]
fn every_finalised_response_has_a_content_type() {
    let mut context = context_with("POST", vec![]);
    let resource = TestResource {
        profile: profile_with(&["POST"]),
        resource_exists: false,
        ..TestResource::default()
    };
    execute_state_machine(&mut context, &resource);
    finalise_response(&mut context, &resource);
    assert_eq!(context.response.status, 404);
    assert_eq!(header(&context, "Content-Type"), Some(vec![h("application/json;charset=ISO-8859-1")]));
    assert_eq!(header(&context, "ETag"), None);
}

#[test]
fn get_responses_carry_dates_in_rfc_2822_form() {
    let mut context = WebmachineContext::default();
    let modified = HttpDate { seconds: 1057049557, nanos: 0, offset: 7200 };
    let expires = HttpDate { seconds: 1057049557 + 3600, nanos: 0, offset: 0 };
    finalise_headers(&mut context, &ResourceProfile::default(), None, Some(expires), Some(modified));
    assert_eq!(header(&context, "Last-Modified"), Some(vec![HeaderValue::basic("Tue, 1 Jul 2003 10:52:37 +0200")]));
    assert_eq!(header(&context, "Expires"), Some(vec![HeaderValue::basic("Tue, 1 Jul 2003 09:52:37 +0000")]));
}

#[test]
fn modification_dates_are_read_from_rfc_2822_headers() {
    let mut context = context_with("GET", vec![("If-Modified-Since", vec![h("Tue, 1 Jul 2003 10:52:37 +0200")])]);
    let resource = TestResource {
        last_modified: Some(HttpDate { seconds: 1057049557 - 60, nanos: 0, offset: 0 }),
        ..TestResource::default()
    };
    execute_state_machine(&mut context, &resource);
    assert_eq!(context.response.status, 304);
    assert_eq!(context.if_modified_since, Some(HttpDate { seconds: 1057049557, nanos: 0, offset: 7200 }));
}

#[test]
fn dispatch_binds_the_longest_matching_route() {
    let mut context = WebmachineContext {
        request: WebmachineRequest { request_path: "/path2/1000/other".to_string(), ..WebmachineRequest::default() },
        ..WebmachineContext::default()
    };
    let routes = vec!["/".to_string(), "/path2".to_string(), "/path2/{id}".to_string(), "/path3".to_string()];
    assert_eq!(dispatch_route(&routes, &mut context), Some("/path2/{id}".to_string()));
    assert_eq!(context.request.base_path, "/path2/{id}");
    assert_eq!(context.request.path_vars, vec![("id".to_string(), "1000".to_string())]);
    assert_eq!(context.request.sub_path, Some("other".to_string()));
    assert_eq!(context.response.status, 200);
}

#[test]
fn dates_chrono_cannot_form_are_left_out() {
    let mut context = WebmachineContext::default();
    let bad_offset = HttpDate { seconds: 1057049557, nanos: 0, offset: 90000 };
    let bad_nanos = HttpDate { seconds: 1057049557, nanos: 1_500_000_000, offset: 0 };
    finalise_headers(&mut context, &ResourceProfile::default(), None, Some(bad_offset), Some(bad_nanos));
    assert_eq!(header(&context, "Expires"), None);
    assert_eq!(header(&context, "Last-Modified"), None);

    let mut context = WebmachineContext::default();
    let leap_second = HttpDate { seconds: 1057049579, nanos: 1_500_000_000, offset: 0 };
    finalise_headers(&mut context, &ResourceProfile::default(), None, None, Some(leap_second));
    assert!(header(&context, "Last-Modified").is_some());
}
