use route_regexp::brace_indices;
use route_regexp::compile;
use route_regexp::find_first_query_key;
use route_regexp::RegexpType;
use route_regexp::RouteError;
use route_regexp::RouteRegexpOptions;

fn opts(strict_slash: bool, use_encoded_path: bool) -> RouteRegexpOptions {
    RouteRegexpOptions { strict_slash, use_encoded_path }
}

#[test]
fn users_id_route() {
    let r = compile("/users/{id:[0-9]+}", RegexpType::Path, opts(false, false)).unwrap();
    let m = r.route_match("/users/42").unwrap();
    assert_eq!(m, vec![("id".to_string(), "42".to_string())]);
    let m2 = r.route_match("/users/42/").unwrap();
    assert_eq!(m2, vec![("id".to_string(), "42".to_string())]);
    assert!(r.route_match("/users/abc").is_none());
    let built = r.build(&vec![("id".to_string(), "42".to_string())]).unwrap();
    assert_eq!(built, "/users/42");
    assert_eq!(
        r.build(&vec![("id".to_string(), "abc".to_string())]),
        Err(RouteError::InvalidVariable)
    );
}

#[test]
fn empty_template() {
    let p = compile("", RegexpType::Path, opts(false, false)).unwrap();
    assert!(p.route_match("/").is_some());
    assert!(p.route_match("").is_some());
    assert!(p.route_match("/x").is_none());
    let strict = compile("", RegexpType::Path, opts(true, false)).unwrap();
    assert!(strict.route_match("").is_some());
    assert!(strict.route_match("/").is_none());
    let h = compile("", RegexpType::Host, opts(false, false)).unwrap();
    assert!(h.route_match("").is_some());
    assert!(h.route_match("x").is_none());
    let pre = compile("", RegexpType::Prefix, opts(false, false)).unwrap();
    assert!(pre.route_match("anything/at/all").is_some());
}

#[test]
fn escaped_braces_in_subpattern() {
    let r = compile(r"/{v:a\{b\}c}", RegexpType::Path, opts(true, false)).unwrap();
    assert!(r.route_match("/a{b}c").is_some());
    assert!(r.route_match("/abc").is_none());
    let q = compile("/{d:[0-9]{2}}", RegexpType::Path, opts(true, false)).unwrap();
    assert!(q.route_match("/42").is_some());
    assert!(q.route_match("/4").is_none());
}

#[test]
fn host_port_wildcard() {
    let h = compile("{sub}.example.com:{port}", RegexpType::Host, opts(false, false)).unwrap();
    assert!(h.wildcard_host_port);
    let m = h.route_match("a.example.com").unwrap();
    assert_eq!(m[0], ("sub".to_string(), "a".to_string()));
    assert_eq!(m[1], ("port".to_string(), "".to_string()));
    let m2 = h.route_match("a.example.com:8080").unwrap();
    assert_eq!(m2[1], ("port".to_string(), "8080".to_string()));
    assert!(h.route_match("A.EXAMPLE.COM").is_some());
    assert!(h.route_match("a.other.org").is_none());
    let plain = compile("{sub}.example.com", RegexpType::Host, opts(false, false)).unwrap();
    assert!(!plain.wildcard_host_port);
    assert!(plain.route_match("a.example.com:8080").is_none());
}

#[test]
fn query_key_lookup() {
    assert_eq!(find_first_query_key("%61=1&b=2", "a"), ("1".to_string(), true));
    assert_eq!(find_first_query_key("a&b=2", "a"), ("".to_string(), true));
    assert_eq!(find_first_query_key("a=1;b=2", "b"), ("2".to_string(), true));
    assert_eq!(find_first_query_key("a=1&b=2", "c"), ("".to_string(), false));
    assert_eq!(find_first_query_key("", "a"), ("".to_string(), false));
    assert_eq!(find_first_query_key("&&a=x", "a"), ("x".to_string(), true));
    assert_eq!(find_first_query_key("a=%68%65y", "a"), ("hey".to_string(), true));
    assert_eq!(find_first_query_key("%ff=1&a=2", "a"), ("2".to_string(), true));
    assert_eq!(find_first_query_key("a=%ff&a=ok", "a"), ("ok".to_string(), true));
    assert_eq!(find_first_query_key("a=b+c", "a"), ("b+c".to_string(), true));
}

#[test]
fn brace_ranges() {
    assert_eq!(brace_indices("/a/{b}/c/{d:[0-9]+}").unwrap(), vec![(3, 6), (9, 19)]);
    assert_eq!(brace_indices("{a}{b}").unwrap(), vec![(0, 3), (3, 6)]);
    assert_eq!(brace_indices("none").unwrap(), vec![]);
    assert_eq!(brace_indices("{a{b}c}").unwrap(), vec![(0, 7)]);
    assert_eq!(brace_indices("{a"), Err(RouteError::UnbalancedBraces));
    assert_eq!(brace_indices("a}b"), Err(RouteError::UnbalancedBraces));
}

#[test]
fn brace_indices_byte_offsets() {
    let s = "é{a}";
    assert_eq!(brace_indices(s).unwrap(), vec![(2, 5)]);
    assert_eq!(&s[2..5], "{a}");
    let r = compile("/é/{x}", RegexpType::Path, opts(true, false)).unwrap();
    let m = r.route_match("/é/z").unwrap();
    assert_eq!(m, vec![("x".to_string(), "z".to_string())]);
}

#[test]
fn subpattern_capture_groups_rejected() {
    assert_eq!(
        compile("/x/{a:([0-9])}", RegexpType::Path, opts(true, false)).err(),
        Some(RouteError::InvalidSubPattern)
    );
    let r = compile("/x/{a:(?:[0-9])+}", RegexpType::Path, opts(true, false)).unwrap();
    let m = r.route_match("/x/42").unwrap();
    assert_eq!(m, vec![("a".to_string(), "42".to_string())]);
    let e = compile(r"/x/{a:\(}", RegexpType::Path, opts(true, false)).unwrap();
    assert!(e.route_match("/x/(").is_some());
}

#[test]
fn subpattern_checked_before_duplicates() {
    assert_eq!(
        compile("{a}/{a:[}", RegexpType::Path, opts(true, false)).err(),
        Some(RouteError::InvalidSubPattern)
    );
    assert_eq!(
        compile("{a}/{a:x}", RegexpType::Path, opts(true, false)).err(),
        Some(RouteError::DuplicateVariable)
    );
}

#[test]
fn compile_errors() {
    assert_eq!(
        compile("/x/{1bad}", RegexpType::Path, opts(true, false)).err(),
        Some(RouteError::InvalidTemplate)
    );
    assert_eq!(
        compile("/x/{}", RegexpType::Path, opts(true, false)).err(),
        Some(RouteError::InvalidTemplate)
    );
    assert_eq!(
        compile("/x/{a}/{a}", RegexpType::Path, opts(true, false)).err(),
        Some(RouteError::DuplicateVariable)
    );
    assert_eq!(
        compile("/x/{a:}", RegexpType::Path, opts(true, false)).err(),
        Some(RouteError::InvalidSubPattern)
    );
    assert_eq!(
        compile("/x/{a:[}", RegexpType::Path, opts(true, false)).err(),
        Some(RouteError::InvalidSubPattern)
    );
    assert_eq!(
        compile("/x/{a", RegexpType::Path, opts(true, false)).err(),
        Some(RouteError::UnbalancedBraces)
    );
    let r = compile("/x/{a}", RegexpType::Path, opts(true, false)).unwrap();
    assert_eq!(r.build(&Vec::new()), Err(RouteError::MissingVariable));
}

#[test]
fn query_route() {
    let q = compile("foo={v}", RegexpType::Query, opts(false, false)).unwrap();
    let (val, ok) = find_first_query_key("foo=bar&baz=1", "foo");
    assert!(ok);
    let seg = format!("foo={}", val);
    let m = q.route_match(&seg).unwrap();
    assert_eq!(m, vec![("v".to_string(), "bar".to_string())]);
    let empty = q.route_match("foo=").unwrap();
    assert_eq!(empty, vec![("v".to_string(), "".to_string())]);
    assert!(q.route_match("bar=1").is_none());
}

#[test]
fn prefix_route() {
    let p = compile("/api/{ver}", RegexpType::Prefix, opts(true, false)).unwrap();
    let m = p.route_match("/api/v1/users").unwrap();
    assert_eq!(m[0], ("ver".to_string(), "v1".to_string()));
    assert!(p.route_match("/other").is_none());
}

#[test]
fn reverse_template_and_build() {
    let r = compile("/a/{x}/b/{y}", RegexpType::Path, opts(true, false)).unwrap();
    assert_eq!(r.reverse, "/a/%s/b/%s");
    let bindings = vec![("y".to_string(), "2".to_string()), ("x".to_string(), "1".to_string())];
    assert_eq!(r.build(&bindings).unwrap(), "/a/1/b/2");
    assert_eq!(r.vars_names, vec!["x".to_string(), "y".to_string()]);
    assert_eq!(r.template, "/a/{x}/b/{y}");
    assert_eq!(r.pattern, "^/a/([^/]+)/b/([^/]+)$");
}

#[test]
fn literal_escaping() {
    let r = compile("/a.b/{x}", RegexpType::Path, opts(true, false)).unwrap();
    assert_eq!(r.pattern, "^/a\\.b/([^/]+)$");
    assert!(r.route_match("/a.b/z").is_some());
    assert!(r.route_match("/aXb/z").is_none());
}

#[test]
fn build_then_match_roundtrip() {
    let r = compile("/p/{a}/{b:[a-z]+}", RegexpType::Path, opts(true, false)).unwrap();
    let bindings = vec![("a".to_string(), "x1".to_string()), ("b".to_string(), "yz".to_string())];
    let url = r.build(&bindings).unwrap();
    assert_eq!(url, "/p/x1/yz");
    let m = r.route_match(&url).unwrap();
    assert_eq!(m, bindings);
}

#[test]
fn error_message_includes_template() {
    let e = compile("/x/{a", RegexpType::Path, opts(true, false)).err().unwrap();
    assert_eq!(e.message("/x/{a"), "mux: unbalanced braces in /x/{a");
}
