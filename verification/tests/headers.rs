use webmachine::headers::{header_line_of, parse_header_values, HeaderValue};
use webmachine::request::{header_text, headers_from_lines, request_from_parts};

fn s(v: &str) -> String {
    v.to_string()
}

fn lines(pairs: &[(&str, &str)]) -> Vec<(String, String)> {
    pairs.iter().map(|(k, v)| (k.to_string(), v.to_string())).collect()
}

#[test]
fn parse_header_test() {
    assert!(parse_header_values("").is_empty());
    assert_eq!(parse_header_values("HEADER A"), vec![HeaderValue::basic("HEADER A")]);
    assert_eq!(
        parse_header_values("HEADER A, header B"),
        vec![HeaderValue::basic("HEADER A"), HeaderValue::basic("header B")]
    );
    assert_eq!(
        parse_header_values("text/plain;  q=0.5,   text/html,text/x-dvi; q=0.8, text/x-c"),
        vec![
            HeaderValue { value: s("text/plain"), params: vec![(s("q"), s("0.5"))], quote: false },
            HeaderValue { value: s("text/html"), params: vec![], quote: false },
            HeaderValue { value: s("text/x-dvi"), params: vec![(s("q"), s("0.8"))], quote: false },
            HeaderValue { value: s("text/x-c"), params: vec![], quote: false },
        ]
    );
}

#[test]
fn parse_string_unquotes_values_and_reads_parameters() {
    let v = HeaderValue::parse_string("\"1234567890\"");
    assert_eq!(v, HeaderValue { value: s("1234567890"), params: vec![], quote: true });
    let ct = HeaderValue::parse_string("application/xml;charset=UTF-8; level = \"1\" ; flag");
    assert_eq!(ct.value, "application/xml");
    assert_eq!(ct.params, vec![(s("charset"), s("UTF-8")), (s("level"), s("1")), (s("flag"), s(""))]);
    assert!(!ct.quote);
}

#[test]
fn weak_etags_are_recognised() {
    assert_eq!(HeaderValue::parse_string("W/\"1234567891\"").weak_etag(), Some(s("1234567891")));
    assert_eq!(HeaderValue::parse_string("\"1234567891\"").weak_etag(), None);
}

#[test]
fn header_values_render_with_parameters_and_quotes() {
    let ct = HeaderValue { value: s("application/json"), params: vec![(s("charset"), s("UTF-8"))], quote: false };
    assert_eq!(ct.to_string(), "application/json; charset=UTF-8");
    assert_eq!(HeaderValue::basic("abc").quote().to_string(), "\"abc\"");
    assert_eq!(header_line_of(&vec![HeaderValue::basic("GET"), HeaderValue::basic("HEAD")]), "GET, HEAD");
    let parsed = HeaderValue::parse_string(&ct.to_string());
    assert_eq!(parsed, ct);
}

#[test]
fn headers_from_http_request_test_default() {
    assert_eq!(headers_from_lines(&Vec::new()), vec![]);
}

#[test]
fn headers_from_http_request_test_simple_case() {
    let result = headers_from_lines(&lines(&[("host", "example.com"), ("content-length", "123")]));
    assert_eq!(result, vec![
        (s("host"), vec![HeaderValue::parse_string("example.com")]),
        (s("content-length"), vec![HeaderValue::parse_string("123")]),
    ]);
}

#[test]
fn headers_from_http_request_test_multiple_values() {
    let result = headers_from_lines(&lines(&[("x-test", "hello"), ("x-test", "goodbye")]));
    assert_eq!(result, vec![(
        s("x-test"),
        vec![HeaderValue::parse_string("hello"), HeaderValue::parse_string("goodbye")],
    )]);
}

#[test]
fn headers_from_http_request_test_known_multi_value_headers() {
    let result = headers_from_lines(&lines(&[
        ("access-control-allow-methods", "OPTIONS, HEAD"),
        ("access-control-allow-methods", "GET, PUT"),
    ]));
    assert_eq!(result, vec![(
        s("access-control-allow-methods"),
        vec![
            HeaderValue::parse_string("OPTIONS"),
            HeaderValue::parse_string("HEAD"),
            HeaderValue::parse_string("GET"),
            HeaderValue::parse_string("PUT"),
        ],
    )]);
}

#[test]
fn request_from_http_request_test() {
    let request = request_from_parts(
        "PUT",
        "/path",
        "",
        &lines(&[("x-test", "x-test"), ("y-test", "y-test")]),
        b"Hello, World!".to_vec(),
    );
    assert_eq!(request.request_path, "/path");
    assert_eq!(request.base_path, "/");
    assert_eq!(request.sub_path, None);
    assert!(request.path_vars.is_empty());
    assert_eq!(request.method, "PUT");
    assert_eq!(request.headers, vec![
        (s("x-test"), vec![HeaderValue::parse_string("x-test")]),
        (s("y-test"), vec![HeaderValue::parse_string("y-test")]),
    ]);
    assert!(request.query.is_empty());
    assert_eq!(request.body, Some(b"Hello, World!".to_vec()));
}

#[test]
fn request_from_http_request_test_with_query() {
    let request = request_from_parts("PUT", "/path", "q1=a&q2=b", &Vec::new(), b"Hello, World!".to_vec());
    assert_eq!(request.query, vec![(s("q1"), vec![s("a")]), (s("q2"), vec![s("b")])]);
}

#[test]
fn request_from_http_request_test_with_no_body() {
    let request = request_from_parts("PUT", "/", "", &Vec::new(), Vec::new());
    assert_eq!(request.body, None);
}

#[test]
fn request_header_lookup_ignores_case() {
    let request = request_from_parts("GET", "/", "", &lines(&[("if-none-match", "\"a\", W/\"b\""), ("Accept", "*/*")]), Vec::new());
    assert!(request.has_header("If-None-Match"));
    assert!(request.has_header_value("IF-NONE-MATCH", "a"));
    assert!(!request.has_header_value("if-none-match", "b"));
    assert_eq!(request.find_header("accept"), vec![HeaderValue::basic("*/*")]);
    assert!(request.find_header("Accept-Language").is_empty());
    assert_eq!(request.content_type(), "application/json");
}

#[test]
fn quoted_values_keep_their_parameters_outside_the_quotes() {
    let v = HeaderValue { value: s("abc"), params: vec![(s("a"), s("b"))], quote: true };
    assert_eq!(v.to_string(), "\"abc\"; a=b");
    assert_eq!(HeaderValue::parse_string(&v.to_string()), v);
}

#[test]
fn a_header_line_parses_back_to_its_values() {
    let values = vec![
        HeaderValue { value: s("text/plain"), params: vec![(s("q"), s("0.5")), (s("level"), s("1"))], quote: false },
        HeaderValue::basic("1234").quote(),
        HeaderValue { value: s(""), params: vec![(s("x"), s(""))], quote: false },
        HeaderValue::basic("text/html"),
    ];
    let line = header_line_of(&values);
    assert_eq!(line, "text/plain; q=0.5; level=1, \"1234\", ; x=, text/html");
    assert_eq!(parse_header_values(&line), values);
    assert!(parse_header_values(&header_line_of(&Vec::new())).is_empty());
}

#[test]
fn repeated_header_lines_gather_under_one_name() {
    let result = headers_from_lines(&lines(&[("accept", "text/html"), ("x-a", "1"), ("accept", "text/plain, */*")]));
    assert_eq!(result, vec![
        (s("accept"), vec![HeaderValue::basic("text/html"), HeaderValue::basic("text/plain"), HeaderValue::basic("*/*")]),
        (s("x-a"), vec![HeaderValue::basic("1")]),
    ]);
}

#[test]
fn header_values_are_read_only_when_they_are_visible_ascii() {
    assert_eq!(header_text(b"text/html; q=0.5\tx"), Some(s("text/html; q=0.5\tx")));
    assert_eq!(header_text(b""), Some(s("")));
    assert_eq!(header_text(b"caf\xc3\xa9"), None);
    assert_eq!(header_text(b"a\nb"), None);
    assert_eq!(header_text(b"a\x7f"), None);
}

#[test]
fn a_later_parameter_replaces_an_earlier_one_of_the_same_name() {
    let v = HeaderValue::parse_string("text/plain; q=0.1; level=1; q=0.9");
    assert_eq!(v.params, vec![(s("q"), s("0.9")), (s("level"), s("1"))]);
    assert_eq!(webmachine::content_negotiation::weight_of(&v), 900);
}
