use std::collections::HashMap;

use sincere::app::pattern::{compile_pattern, extract_named_params};

#[test]
fn compile() {
    let pattern = "{year:[0-9]{4}}/{title:[a-zA-Z\\-]+}";

    let (route, route_paths) = extract_named_params(pattern);
    assert_eq!(route, "([0-9]{4})/([a-zA-Z\\-]+)");
    let route_paths: HashMap<String, usize> = route_paths.into_iter().collect();
    let mut map: HashMap<String, usize> = HashMap::new();
    map.insert("title".to_string(), 2);
    map.insert("year".to_string(), 1);
    assert_eq!(route_paths, map);
}

#[test]
fn bare_parameter_captures_a_segment() {
    let (route, index) = extract_named_params("/user/{id}");
    assert_eq!(route, "/user/([^/]*)");
    assert_eq!(index, vec![("id".to_string(), 1)]);
    assert_eq!(compile_pattern(route), "^/user/([^/]*)$");
}

#[test]
fn inline_group_is_not_wrapped_again() {
    let (route, index) = extract_named_params("/{kind:(a|b)}/{n:[0-9]+}");
    assert_eq!(route, "/(a|b)/([0-9]+)");
    assert_eq!(index, vec![("kind".to_string(), 1), ("n".to_string(), 2)]);
}

#[test]
fn invalid_name_is_kept_as_written() {
    let (route, index) = extract_named_params("/a/{1x}/{ok}");
    assert_eq!(route, "/a/{1x}/([^/]*)");
    assert_eq!(index, vec![("ok".to_string(), 1)]);
    let (route, index) = extract_named_params("/a/{}");
    assert_eq!(route, "/a/{}");
    assert_eq!(index, vec![]);
    let (route, index) = extract_named_params("/a/{b c}");
    assert_eq!(route, "/a/{b c}");
    assert_eq!(index, vec![]);
}

#[test]
fn groups_of_the_pattern_take_capture_numbers() {
    let (route, index) = extract_named_params("/(x|y)/{id}");
    assert_eq!(route, "/(x|y)/([^/]*)");
    assert_eq!(index, vec![("id".to_string(), 2)]);
}

#[test]
fn special_characters_are_escaped_at_top_level() {
    let (route, _) = extract_named_params("/a.b+c|d#e");
    assert_eq!(route, "/a\\.b\\+c\\|d\\#e");
    let (route, _) = extract_named_params("/a\\.b");
    assert_eq!(route, "/a\\.b");
    let (route, _) = extract_named_params("/(a.b)");
    assert_eq!(route, "/(a.b)");
}

#[test]
fn literal_path_is_not_anchored() {
    assert_eq!(compile_pattern("/plain/path".to_string()), "/plain/path");
    assert_eq!(compile_pattern("/[ab]".to_string()), "^/[ab]$");
}

#[test]
fn empty_inline_expression_falls_back_to_a_segment() {
    let (route, index) = extract_named_params("/{name:}");
    assert_eq!(route, "/([^/]*)");
    assert_eq!(index, vec![("name".to_string(), 1)]);
}

#[test]
fn unbalanced_closers_switch_recognition_off() {
    let (route, index) = extract_named_params("/a}/{b}");
    assert_eq!(route, "/a}/{b}");
    assert_eq!(index, vec![]);
    let (route, index) = extract_named_params("/a)/{b}.c");
    assert_eq!(route, "/a)/{b}.c");
    assert_eq!(index, vec![]);
    let (route, index) = extract_named_params("");
    assert_eq!(route, "");
    assert_eq!(index, vec![]);
}

#[test]
fn braces_inside_a_group_are_left_alone() {
    let (route, index) = extract_named_params("/(a{2}).b/{c}");
    assert_eq!(route, "/(a{2})\\.b/([^/]*)");
    assert_eq!(index, vec![("c".to_string(), 2)]);
}

#[test]
fn duplicate_names_keep_their_own_groups() {
    let (route, index) = extract_named_params("/{a}/{b}/{a}");
    assert_eq!(route, "/([^/]*)/([^/]*)/([^/]*)");
    assert_eq!(
        index,
        vec![("a".to_string(), 1), ("b".to_string(), 2), ("a".to_string(), 3)]
    );
}

#[test]
fn any_text_can_be_anchored() {
    assert_eq!(compile_pattern("/caf\u{e9}/(x)".to_string()), "^/caf\u{e9}/(x)$");
    assert_eq!(compile_pattern("/caf\u{e9}".to_string()), "/caf\u{e9}");
}
