use webmachine::context::{HttpDate, MetaDataValue, WebmachineRequest, WebmachineResponse};
use webmachine::headers::HeaderValue;

fn request(method: &str, headers: Vec<(&str, Vec<HeaderValue>)>) -> WebmachineRequest {
    WebmachineRequest {
        method: method.to_string(),
        headers: headers.into_iter().map(|(k, v)| (k.to_string(), v)).collect(),
        ..WebmachineRequest::default()
    }
}

#[test]
fn metadata_values_render_as_text() {
    assert_eq!(MetaDataValue::Empty.to_string(), "");
    assert_eq!(MetaDataValue::String("abc".to_string()).to_string(), "abc");
    assert_eq!(MetaDataValue::UInteger(0).to_string(), "0");
    assert_eq!(MetaDataValue::UInteger(1234).to_string(), "1234");
    assert_eq!(MetaDataValue::UInteger(u64::MAX).to_string(), "18446744073709551615");
    assert_eq!(MetaDataValue::Integer(-42).to_string(), "-42");
    assert_eq!(MetaDataValue::Integer(i64::MIN).to_string(), "-9223372036854775808");
    assert_eq!(MetaDataValue::Integer(7).to_string(), "7");
    assert_eq!(MetaDataValue::Boolean(true).to_string(), "true");
    assert_eq!(MetaDataValue::Boolean(false).to_string(), "false");
}

#[test]
fn metadata_values_are_read_by_kind() {
    assert!(MetaDataValue::default().is_empty());
    assert!(!MetaDataValue::Boolean(false).is_empty());
    assert_eq!(MetaDataValue::String("x".to_string()).as_string(), Some("x".to_string()));
    assert_eq!(MetaDataValue::UInteger(3).as_string(), None);
    assert_eq!(MetaDataValue::UInteger(3).as_uint(), Some(3));
    assert_eq!(MetaDataValue::Integer(3).as_uint(), None);
    assert_eq!(MetaDataValue::Integer(-3).as_int(), Some(-3));
    assert_eq!(MetaDataValue::Boolean(true).as_bool(), Some(true));
    assert_eq!(MetaDataValue::Empty.as_bool(), None);
}

#[test]
fn request_methods_are_compared_ignoring_case() {
    assert!(request("put", vec![]).is_put());
    assert!(request("PUT", vec![]).is_put_or_post());
    assert!(request("POST", vec![]).is_put_or_post());
    assert!(!request("GET", vec![]).is_put_or_post());
    assert!(request("HEAD", vec![]).is_get_or_head());
    assert!(!request("HEAD", vec![]).is_get());
    assert!(request("options", vec![]).is_options());
    assert!(request("DELETE", vec![]).is_delete());
}

#[test]
fn request_accept_headers_are_found_by_name() {
    let r = request("GET", vec![
        ("accept-language", vec![HeaderValue::basic("en")]),
        ("Content-Type", vec![HeaderValue::parse_string("text/plain; charset=UTF-8")]),
    ]);
    assert!(r.has_accept_language_header());
    assert_eq!(r.accept_language(), vec![HeaderValue::basic("en")]);
    assert!(!r.has_accept_header());
    assert!(r.accept().is_empty());
    assert!(!r.has_accept_charset_header());
    assert!(!r.has_accept_encoding_header());
    assert_eq!(r.content_type(), "text/plain");
}

#[test]
fn response_headers_are_replaced_by_name() {
    let mut response = WebmachineResponse::default();
    assert_eq!(response.status, 200);
    assert!(!response.has_body());
    response.add_header("X-A", vec![HeaderValue::basic("1")]);
    response.add_header("X-B", vec![HeaderValue::basic("2")]);
    response.add_header("X-A", vec![HeaderValue::basic("3")]);
    assert_eq!(response.headers, vec![
        ("X-A".to_string(), vec![HeaderValue::basic("3")]),
        ("X-B".to_string(), vec![HeaderValue::basic("2")]),
    ]);
    assert!(response.has_header("x-a"));
    assert_eq!(response.header("X-B"), Some(vec![HeaderValue::basic("2")]));
    assert_eq!(response.header("x-b"), None);
    response.body = Some(Vec::new());
    assert!(!response.has_body());
    response.body = Some(b"x".to_vec());
    assert!(response.has_body());
}

#[test]
fn later_dates_are_recognised() {
    let a = HttpDate { seconds: 100, nanos: 5, offset: 3600 };
    let b = HttpDate { seconds: 100, nanos: 4, offset: 0 };
    assert!(a.is_after(&b));
    assert!(!b.is_after(&a));
    assert!(!a.is_after(&a));
}

#[test]
fn metadata_values_are_made_from_plain_values() {
    assert_eq!(MetaDataValue::from("abc".to_string()), MetaDataValue::String("abc".to_string()));
    assert_eq!(MetaDataValue::from(12u64), MetaDataValue::UInteger(12));
    assert_eq!(MetaDataValue::from(-12i64), MetaDataValue::Integer(-12));
    let flag: MetaDataValue = true.into();
    assert_eq!(flag, MetaDataValue::Boolean(true));
}
