use rthttp::route_matcher::{Node, PathParams, RouteError};

fn assert_child_exists(node: &Node, key: &str) {
    let child = node.child(key);
    assert!(child.is_some());
    assert_eq!(child.unwrap().value, key);
}

fn check_node(node: &Node, key: &str, is_param: bool) {
    let child = node.child(key);
    assert!(child.is_some());
    assert!(child.unwrap().value.eq(key));
    assert_eq!(child.unwrap().is_param, is_param);
}

#[test]
fn strips_leading_slash_in_url_pattern() {
    let mut node = Node::new();
    node.append("/foo");
    assert_eq!(node.children.len(), 1);
    assert_eq!(node.value, String::new());
    assert_eq!(node.child("foo").unwrap().value, "foo".to_string());
}

#[test]
fn ignores_accidental_spaces_in_url() {
    let mut node = Node::new();
    node.append("   /foo");
    assert_eq!(node.children.len(), 1);
    assert!(node.child("foo").is_some());

    node = Node::new();
    node.append("/bar   /   baz/   foo");

    assert_child_exists(&node, "bar");
    assert_child_exists(node.child("bar").unwrap(), "baz");
    assert_child_exists(
        node.child("bar").unwrap().child("baz").unwrap(),
        "foo",
    );
}

#[test]
fn creates_a_tree_from_urls_without_path_params() {
    let mut node = Node::new();
    node.append("foo/bar/baz");
    assert_eq!(node.children.len(), 1);
    let child = node.child("foo");
    assert!(child.is_some());
    let child = child.unwrap().child("bar");
    assert!(child.is_some());
    let child = child.unwrap().child("baz");
    assert!(child.is_some());
    assert!(child.unwrap().is_terminal);

    node.append("foo/boo");
    assert_eq!(node.children.len(), 1);
    let child = node.child("foo").unwrap();
    assert_eq!(child.children.len(), 2);
    assert!(child.child("boo").is_some());
}

#[test]
fn matches_simple_urls() {
    let mut node = Node::new();
    node.append("/foo/bar/baz");
    assert_eq!(
        node.find_match("/foo/bar/baz"),
        Some(("/foo/bar/baz".into(), PathParams::new()))
    );
    assert_eq!(node.find_match("/foo/baz/bar"), None);
    assert_eq!(node.find_match("/foo/bar/baz/taz"), None);
    assert_eq!(
        node.find_match("/  foo/ bar  /baz"),
        Some(("/foo/bar/baz".into(), PathParams::new()))
    );
}

#[test]
fn appends_urls_with_path_params() {
    let mut node = Node::new();
    node.append("/foo/:id/bar/:id");

    check_node(&node, "foo", false);
    let child = node.child("foo").unwrap();
    check_node(child, ":id", true);
    let child = child.child(":id").unwrap();
    check_node(child, "bar", false);
    let child = child.child("bar").unwrap();
    check_node(child, ":id", true);
}

#[test]
fn match_path_params() {
    let mut node = Node::new();
    // simple param matching
    node.append("/echo/:param");
    assert!(node.find_match("/echo/foo").is_some());
    assert!(node.find_match("/echo/blabla/foo").is_none());

    // multi-level param matching
    node.append("/echo/blabla/:param");
    assert!(node.find_match("/echo/blabla/foo").is_some());
    let (pattern, params) = node.find_match("/echo/blabla/foo").unwrap();
    assert_eq!(pattern, "/echo/blabla/:param".to_string());
    let mut expected = PathParams::new();
    expected.insert("param".into(), "foo".into());
    assert_eq!(params, expected);

    // Of two patterns that could match a url, the one that matches it
    // exactly wins over the one with a parameter.
    node.append("/echo/blabla/foo");
    let (pattern, params) = node.find_match("/echo/blabla/foo").unwrap();
    assert_eq!(pattern, "/echo/blabla/foo".to_string());
    assert_eq!(params, PathParams::new());
}

#[test]
fn matches_index_handler_when_specified() {
    let mut node = Node::new();
    node.append("/");
    node.append("/path");
    node.append("/some/:other/path");

    let index_match = node.find_match("/");
    assert!(index_match.is_some());
    let (path, params) = index_match.unwrap();
    assert_eq!(path, "/");
    assert_eq!(params.len(), 0);

    let path_match = node.find_match("/path");
    assert!(path_match.is_some());
    let (path, params) = path_match.unwrap();
    assert_eq!(path, "/path");
    assert_eq!(params.len(), 0);

    let some_other_path_match = node.find_match("/some/foo/path");
    assert!(some_other_path_match.is_some());
    let (path, params) = some_other_path_match.unwrap();
    assert_eq!(path, "/some/:other/path");
    assert_eq!(params.len(), 1);
}

#[test]
fn does_not_matches_index_handler_when_not_specified() {
    let mut node = Node::new();
    node.append("/path");

    let index_match = node.find_match("/");
    assert!(index_match.is_none());

    let path_match = node.find_match("/path");
    assert!(path_match.is_some());
    let (path, params) = path_match.unwrap();
    assert_eq!(path, "/path");
    assert_eq!(params.len(), 0);
}

#[test]
fn matches_star_in_pathnames() {
    let mut node = Node::new();
    node.append("/static/*");

    let find_result = node.find_match("/static");
    assert!(find_result.is_some());
    let (pattern, _) = find_result.unwrap();
    assert_eq!(pattern, "/static/*");

    let find_result = node.find_match("/static/index.html");
    assert!(find_result.is_some());
    let (pattern, _) = find_result.unwrap();
    assert_eq!(pattern, "/static/*");

    let find_result = node.find_match("/static/assets/image.jpg");
    assert!(find_result.is_some());
    let (pattern, _) = find_result.unwrap();
    assert_eq!(pattern, "/static/*");
}

#[test]
fn matcher_respects_casing() {
    let mut node = Node::new();
    node.append("/Foo/BAR");
    let (pattern, params) = node.find_match("/fOO/bar").unwrap();
    assert_eq!(pattern, "/foo/bar");
    assert_eq!(params.len(), 0);
    assert!(node.child("foo").is_some());
    assert!(node.child("Foo").is_none());
}

#[test]
fn literal_child_wins_over_parameter() {
    let mut node = Node::new();
    node.append("/fruit/:name");
    node.append("/fruit/apple");
    let (pattern, params) = node.find_match("/fruit/apple").unwrap();
    assert_eq!(pattern, "/fruit/apple");
    assert_eq!(params.len(), 0);
    let (pattern, params) = node.find_match("/fruit/banana").unwrap();
    assert_eq!(pattern, "/fruit/:name");
    assert_eq!(params.get("name"), Some(&"banana".to_string()));
    assert_eq!(params.len(), 1);
}

#[test]
fn first_registered_parameter_wins() {
    let mut node = Node::new();
    node.append("/a/:x");
    node.append("/a/:y");
    let (pattern, params) = node.find_match("/a/7").unwrap();
    assert_eq!(pattern, "/a/:x");
    assert_eq!(params.get("x"), Some(&"7".to_string()));
    assert!(!params.contains_key("y"));
}

#[test]
fn parameter_value_keeps_inner_spaces_and_is_lowercased() {
    let mut node = Node::new();
    node.append("/a/:x/b");
    let (_, params) = node.find_match("/a/ Hi /b").unwrap();
    assert_eq!(params.get("x"), Some(&" hi ".to_string()));
}

#[test]
fn repeated_parameter_name_keeps_last_value() {
    let mut node = Node::new();
    node.append("/foo/:id/bar/:id");
    let (pattern, params) = node.find_match("/foo/1/bar/2").unwrap();
    assert_eq!(pattern, "/foo/:id/bar/:id");
    assert_eq!(params.len(), 1);
    assert_eq!(params.get("id"), Some(&"2".to_string()));
}

#[test]
fn shorter_pattern_after_longer_becomes_terminal() {
    let mut node = Node::new();
    node.append("/foo/bar");
    assert!(node.find_match("/foo").is_none());
    node.append("/foo");
    assert_eq!(node.find_match("/foo").unwrap().0, "/foo");
    assert_eq!(node.find_match("/foo/bar").unwrap().0, "/foo/bar");
    assert_eq!(node.children.len(), 1);
}

#[test]
fn empty_path_and_empty_trie_never_match() {
    let node = Node::new();
    assert!(node.find_match("").is_none());
    assert!(node.find_match("/").is_none());
    assert!(node.find_match("/x").is_none());
    let mut node = Node::new();
    node.append("");
    assert_eq!(node.children.len(), 0);
    node.append("/x");
    assert!(node.find_match("").is_none());
    assert!(node.find_match("   ").is_none());
}

#[test]
fn whitespace_and_leading_slash_are_immaterial() {
    let mut a = Node::new();
    a.append("  /foo");
    let mut b = Node::new();
    b.append("/foo");
    let mut c = Node::new();
    c.append("foo");
    for n in [&a, &b, &c] {
        assert_eq!(n.children.len(), 1);
        let child = n.child("foo").unwrap();
        assert!(child.is_terminal);
        assert!(!child.is_param);
        assert!(!child.is_wildcard);
        assert_eq!(child.children.len(), 0);
    }
    assert_eq!(a.child("foo").unwrap().url, b.child("foo").unwrap().url);
    assert_eq!(c.child("foo").unwrap().url, Some("foo".to_string()));
}

#[test]
fn wildcard_node_stops_the_branch() {
    let mut node = Node::new();
    node.append("/static/*");
    let child = node.child("static").unwrap();
    assert!(child.is_wildcard);
    assert!(!child.is_terminal);
    assert_eq!(child.children.len(), 0);
    assert_eq!(child.url, Some("/static/*".to_string()));
    assert!(node.child("static").unwrap().child("*").is_none());
    assert!(node.get_path_param_from_children().is_none());
}

#[test]
fn normalized_entry_points_agree() {
    let mut node = Node::new();
    node.append_normalized("/a/:b");
    assert_eq!(node.find_normalized("/a/c"), node.find_match("  /A/C "));
    assert_eq!(rthttp::route_matcher::normalize("  /A b/C "), "/a b/c");
    assert_eq!(rthttp::route_matcher::without_colons(":a:b:"), "ab");
    let segs = rthttp::route_matcher::segments("/a//b");
    assert_eq!(segs.len(), 3);
    assert_eq!(segs[1].len(), 0);
}

#[test]
fn register_refuses_what_already_resolves() {
    let mut node = Node::new();
    assert_eq!(node.register("/a/:b"), Ok(()));
    assert_eq!(node.register("/a/:b"), Err(RouteError::DuplicateRoute));
    assert_eq!(node.register(" /A/x "), Err(RouteError::DuplicateRoute));
    assert_eq!(node.child("a").unwrap().children.len(), 1);
    assert_eq!(node.register_normalized("/a"), Ok(()));
    assert_eq!(node.register_normalized("/a"), Err(RouteError::DuplicateRoute));
    assert_eq!(node.find_match("/a").unwrap().0, "/a");
    assert_eq!(node.children.len(), 1);
}
