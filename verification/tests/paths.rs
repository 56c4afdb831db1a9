use webmachine::context::WebmachineRequest;
use webmachine::paths::{join_paths, longest_match, map_path, match_paths, sanitise_path, update_paths_for_resource};

fn resource(path: &str) -> WebmachineRequest {
    WebmachineRequest {
        request_path: path.to_string(),
        ..WebmachineRequest::default()
    }
}

fn s(v: &str) -> String {
    v.to_string()
}

fn routes() -> Vec<String> {
    vec![s("/"), s("/path1"), s("/path1/path3"), s("/path2"), s("/path2/{id}"), s("/path2/{id}/path3")]
}

#[test]
fn path_matcher_test() {
    let routes = routes();
    assert_eq!(match_paths(&routes, &resource("/path1")), vec![
        (s("/"), vec![(s("path1"), None)]),
        (s("/path1"), vec![(s("path1"), None)]),
    ]);
    assert_eq!(match_paths(&routes, &resource("/path1/")), vec![
        (s("/"), vec![(s("path1"), None)]),
        (s("/path1"), vec![(s("path1"), None)]),
    ]);
    assert_eq!(match_paths(&routes, &resource("/path1/path3")), vec![
        (s("/"), vec![(s("path1"), None), (s("path3"), None)]),
        (s("/path1"), vec![(s("path1"), None), (s("path3"), None)]),
        (s("/path1/path3"), vec![(s("path1"), None), (s("path3"), None)]),
    ]);
    assert_eq!(match_paths(&routes, &resource("/path1/path3/path4")), vec![
        (s("/"), vec![(s("path1"), None), (s("path3"), None), (s("path4"), None)]),
        (s("/path1"), vec![(s("path1"), None), (s("path3"), None), (s("path4"), None)]),
        (s("/path1/path3"), vec![(s("path1"), None), (s("path3"), None), (s("path4"), None)]),
    ]);
    assert_eq!(match_paths(&routes, &resource("/path1/other")), vec![
        (s("/"), vec![(s("path1"), None), (s("other"), None)]),
        (s("/path1"), vec![(s("path1"), None), (s("other"), None)]),
    ]);
    assert_eq!(match_paths(&routes, &resource("/path12")), vec![(s("/"), vec![(s("path12"), None)])]);
    assert_eq!(match_paths(&routes, &resource("/")), vec![(s("/"), vec![])]);
    assert_eq!(match_paths(&routes, &resource("/path2")), vec![
        (s("/"), vec![(s("path2"), None)]),
        (s("/path2"), vec![(s("path2"), None)]),
    ]);
    assert_eq!(match_paths(&routes, &resource("/path2/1000")), vec![
        (s("/"), vec![(s("path2"), None), (s("1000"), None)]),
        (s("/path2"), vec![(s("path2"), None), (s("1000"), None)]),
        (s("/path2/{id}"), vec![(s("path2"), None), (s("1000"), Some(s("id")))]),
    ]);
    assert_eq!(match_paths(&routes, &resource("/path2/1000/path3")), vec![
        (s("/"), vec![(s("path2"), None), (s("1000"), None), (s("path3"), None)]),
        (s("/path2"), vec![(s("path2"), None), (s("1000"), None), (s("path3"), None)]),
        (s("/path2/{id}"), vec![(s("path2"), None), (s("1000"), Some(s("id"))), (s("path3"), None)]),
        (s("/path2/{id}/path3"), vec![(s("path2"), None), (s("1000"), Some(s("id"))), (s("path3"), None)]),
    ]);
    assert_eq!(match_paths(&routes, &resource("/path2/1000/other")), vec![
        (s("/"), vec![(s("path2"), None), (s("1000"), None), (s("other"), None)]),
        (s("/path2"), vec![(s("path2"), None), (s("1000"), None), (s("other"), None)]),
        (s("/path2/{id}"), vec![(s("path2"), None), (s("1000"), Some(s("id"))), (s("other"), None)]),
    ]);
}

#[test]
fn sanitise_path_test() {
    assert!(sanitise_path("/").is_empty());
    assert!(sanitise_path("//").is_empty());
    assert_eq!(sanitise_path("/a/b/c"), vec!["a", "b", "c"]);
    assert_eq!(sanitise_path("/a/b/c/"), vec!["a", "b", "c"]);
    assert_eq!(sanitise_path("/a//b/c"), vec!["a", "b", "c"]);
}

#[test]
fn update_paths_for_resource_test_with_root() {
    let mut request = WebmachineRequest::default();
    update_paths_for_resource(&mut request, "/", &vec![]);
    assert_eq!(request.request_path, "/");
    assert_eq!(request.base_path, "/");
    assert_eq!(request.sub_path, None);
}

#[test]
fn update_paths_for_resource_test_with_subpath() {
    let mut request = resource("/subpath");
    update_paths_for_resource(&mut request, "/", &vec![]);
    assert_eq!(request.request_path, "/subpath");
    assert_eq!(request.base_path, "/");
    assert_eq!(request.sub_path, None);
}

#[test]
fn update_paths_for_resource_on_path() {
    let mut request = resource("/path");
    update_paths_for_resource(&mut request, "/path", &vec![(s("path"), None)]);
    assert_eq!(request.request_path, "/path");
    assert_eq!(request.base_path, "/path");
    assert_eq!(request.sub_path, None);
}

#[test]
fn update_paths_for_resource_on_path_with_subpath() {
    let mut request = resource("/path/path2");
    update_paths_for_resource(&mut request, "/path", &vec![(s("path"), None), (s("path2"), None)]);
    assert_eq!(request.request_path, "/path/path2");
    assert_eq!(request.base_path, "/path");
    assert_eq!(request.sub_path, Some(s("path2")));
}

#[test]
fn update_paths_for_resource_on_path_with_mapped_parts() {
    let mut request = resource("/path/1000");
    update_paths_for_resource(&mut request, "/path/{id}", &vec![(s("path"), None), (s("1000"), Some(s("id")))]);
    assert_eq!(request.request_path, "/path/1000");
    assert_eq!(request.base_path, "/path/{id}");
    assert_eq!(request.sub_path, None);
    assert_eq!(request.path_vars, vec![(s("id"), s("1000"))]);
}

#[test]
fn update_paths_for_resource_on_path_with_mapped_parts_and_sub_path() {
    let mut request = resource("/path/1000/other");
    update_paths_for_resource(&mut request, "/path/{id}", &vec![
        (s("path"), None),
        (s("1000"), Some(s("id"))),
        (s("other"), None),
    ]);
    assert_eq!(request.request_path, "/path/1000/other");
    assert_eq!(request.base_path, "/path/{id}");
    assert_eq!(request.sub_path, Some(s("other")));
    assert_eq!(request.path_vars, vec![(s("id"), s("1000"))]);
}

#[test]
fn join_paths_test() {
    assert_eq!(join_paths(&Vec::new(), &Vec::new()), "/");
    assert_eq!(join_paths(&vec![s("")], &Vec::new()), "/");
    assert_eq!(join_paths(&Vec::new(), &vec![s("")]), "/");
    assert_eq!(join_paths(&vec![s("a"), s("b"), s("c")], &Vec::new()), "/a/b/c");
    assert_eq!(join_paths(&vec![s("a"), s("b"), s("")], &Vec::new()), "/a/b");
    assert_eq!(join_paths(&Vec::new(), &vec![s("a"), s("b"), s("c")]), "/a/b/c");
    assert_eq!(
        join_paths(&vec![s("a"), s("b"), s("c")], &vec![s("d"), s("e"), s("f")]),
        "/a/b/c/d/e/f"
    );
}

#[test]
fn join_then_sanitise_gives_the_segments_back() {
    let parts = vec![s("a"), s(""), s("b")];
    let path = join_paths(&parts, &vec![s("c")]);
    assert_eq!(path, "/a/b/c");
    assert_eq!(sanitise_path(&path), vec!["a", "b", "c"]);
    let messy = "//x///y/";
    let again = join_paths(&sanitise_path(messy), &Vec::new());
    assert_eq!(sanitise_path(&again), sanitise_path(messy));
}

#[test]
fn map_path_refuses_longer_templates_and_other_segments() {
    let parts = vec![s("path2")];
    assert_eq!(map_path(&parts, "/path2/{id}"), None);
    assert_eq!(map_path(&vec![s("other")], "/path2"), None);
    assert_eq!(map_path(&vec![s("a"), s("b")], "/{x}/{y}"), Some(vec![(s("a"), Some(s("x"))), (s("b"), Some(s("y")))]));
}

#[test]
fn longest_match_prefers_the_longest_route_and_the_first_of_equals() {
    let matches = vec![(s("/"), 1), (s("/path2"), 2), (s("/path2/{id}"), 3), (s("/path2/abcd"), 4)];
    assert_eq!(longest_match(&matches), Some(2));
    let none: Vec<(String, u8)> = Vec::new();
    assert_eq!(longest_match(&none), None);
}

#[test]
fn update_paths_later_variables_replace_earlier_ones() {
    let mut request = resource("/a/b");
    update_paths_for_resource(&mut request, "/{v}/{v}", &vec![(s("a"), Some(s("v"))), (s("b"), Some(s("v")))]);
    assert_eq!(request.path_vars, vec![(s("v"), s("b"))]);
    assert_eq!(request.sub_path, None);
}

#[test]
fn each_route_variable_is_bound_to_its_segment() {
    let mut request = resource("/orders/1000/items/7/extra");
    let routes = vec![s("/orders/{order}/items/{item}")];
    let matches = match_paths(&routes, &request);
    assert_eq!(matches.len(), 1);
    update_paths_for_resource(&mut request, &matches[0].0, &matches[0].1);
    assert_eq!(request.path_vars, vec![(s("order"), s("1000")), (s("item"), s("7"))]);
    assert_eq!(request.sub_path, Some(s("extra")));
    assert_eq!(request.base_path, "/orders/{order}/items/{item}");
}
