use webmachine::query::parse_query;

fn s(v: &str) -> String {
    v.to_string()
}

#[test]
fn parse_query_string_test() {
    assert_eq!(parse_query("a=b&c=d"), vec![(s("a"), vec![s("b")]), (s("c"), vec![s("d")])]);
}

#[test]
fn parse_query_string_handles_empty_string() {
    assert_eq!(parse_query(""), vec![]);
}

#[test]
fn parse_query_string_handles_missing_values() {
    assert_eq!(parse_query("a=&c=d"), vec![(s("a"), vec![s("")]), (s("c"), vec![s("d")])]);
}

#[test]
fn parse_query_string_handles_equals_in_values() {
    assert_eq!(parse_query("a=b&c=d=e=f"), vec![(s("a"), vec![s("b")]), (s("c"), vec![s("d=e=f")])]);
}

#[test]
fn parse_query_string_decodes_values() {
    assert_eq!(parse_query("a=a%20b%20c"), vec![(s("a"), vec![s("a b c")])]);
}

#[test]
fn parse_query_keeps_repeated_names_once_with_values_in_order() {
    assert_eq!(parse_query("a=1&b=2&a=3&&a"), vec![(s("a"), vec![s("1"), s("3"), s("")]), (s("b"), vec![s("2")])]);
}

#[test]
fn parse_query_decodes_plus_names_and_leaves_bad_escapes() {
    assert_eq!(parse_query("x+y=1+2&p=%zz%4"), vec![(s("x y"), vec![s("1 2")]), (s("p"), vec![s("%zz%4")])]);
    assert_eq!(parse_query("c=%41%62"), vec![(s("c"), vec![s("Ab")])]);
}
