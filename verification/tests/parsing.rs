use axum_controller_macros::ident::is_identifier;
use axum_controller_macros::method::Method;
use axum_controller_macros::parsing::{
    parse_literal, Name, PathSegment, Route, SyntaxError, SyntaxErrorKind,
};
use axum_controller_macros::text::{decimal_string, Span};
use axum_controller_macros::type_expr::{TypeExpr, TypeKind};

fn name(text: &str, start: usize, end: usize) -> Name {
    Name { text: text.to_string(), span: Span { start, end } }
}

fn fault(literal: &str) -> SyntaxError {
    parse_literal(literal).unwrap_err()
}

fn syntax_error(kind: SyntaxErrorKind, start: usize, end: usize, text: &str) -> SyntaxError {
    SyntaxError { kind, span: Span { start, end }, text: text.to_string() }
}

#[test]
fn root_has_no_segments() {
    let (segments, query) = parse_literal("/").unwrap();
    assert_eq!(segments, vec![]);
    assert_eq!(query, vec![]);
}

#[test]
fn segments_and_query_names_keep_their_order() {
    let (segments, query) = parse_literal("/item/:id?amount&offset").unwrap();
    assert_eq!(
        segments,
        vec![PathSegment::Static("item".to_string()), PathSegment::Capture(name("id", 7, 9))]
    );
    assert_eq!(query, vec![name("amount", 10, 16), name("offset", 17, 23)]);
}

#[test]
fn wildcard_takes_the_last_segment() {
    let (segments, query) = parse_literal("/files/*rest").unwrap();
    assert_eq!(
        segments,
        vec![PathSegment::Static("files".to_string()), PathSegment::Wildcard(name("rest", 8, 12))]
    );
    assert_eq!(query, vec![]);
}

#[test]
fn query_without_segments() {
    let (segments, query) = parse_literal("/?id").unwrap();
    assert_eq!(segments, vec![]);
    assert_eq!(query, vec![name("id", 2, 4)]);
}

#[test]
fn hyphens_stand_in_literal_segments() {
    let (segments, _) = parse_literal("/foo-bar").unwrap();
    assert_eq!(segments, vec![PathSegment::Static("foo-bar".to_string())]);
}

#[test]
fn path_must_begin_with_a_slash() {
    assert_eq!(fault(""), syntax_error(SyntaxErrorKind::MissingSlash, 0, 0, ""));
    assert_eq!(fault("item/:id?x"), syntax_error(SyntaxErrorKind::MissingSlash, 0, 8, "item/:id"));
    assert_eq!(fault("?x"), syntax_error(SyntaxErrorKind::MissingSlash, 0, 0, ""));
    assert_eq!(fault("item").message(), "expected path to start with `/`");
}

#[test]
fn empty_segments_are_refused() {
    assert_eq!(fault("//a"), syntax_error(SyntaxErrorKind::EmptySegment, 1, 1, ""));
    assert_eq!(fault("/a/"), syntax_error(SyntaxErrorKind::EmptySegment, 3, 3, ""));
    assert_eq!(fault("/a//b"), syntax_error(SyntaxErrorKind::EmptySegment, 3, 3, ""));
    assert_eq!(fault("/a/").message(), "path segment is empty");
}

#[test]
fn empty_parameter_names_are_refused() {
    assert_eq!(fault("/a/:"), syntax_error(SyntaxErrorKind::EmptyPathParameter, 3, 4, ":"));
    assert_eq!(fault("/*"), syntax_error(SyntaxErrorKind::EmptyPathParameter, 1, 2, "*"));
    assert_eq!(fault("/:/b"), syntax_error(SyntaxErrorKind::EmptyPathParameter, 1, 2, ":"));
    assert_eq!(fault("/*").message(), "path parameter name is empty");
}

#[test]
fn parameter_names_must_be_identifiers() {
    assert_eq!(
        fault("/:user-id"),
        syntax_error(SyntaxErrorKind::InvalidPathParameter, 2, 9, "user-id")
    );
    assert_eq!(fault("/:1st"), syntax_error(SyntaxErrorKind::InvalidPathParameter, 2, 5, "1st"));
    assert_eq!(fault("/*a b"), syntax_error(SyntaxErrorKind::InvalidPathParameter, 2, 5, "a b"));
    assert_eq!(fault("/:1st").message(), "invalid path parameter name `1st`");
}

#[test]
fn duplicate_path_parameters_are_refused() {
    assert_eq!(
        fault("/:id/x/:id"),
        syntax_error(SyntaxErrorKind::DuplicatePathParameter, 8, 10, "id")
    );
    assert_eq!(
        fault("/:id/*id"),
        syntax_error(SyntaxErrorKind::DuplicatePathParameter, 6, 8, "id")
    );
    assert_eq!(fault("/:id/:id").message(), "duplicate path parameter `id`");
}

#[test]
fn wildcard_before_the_end_is_refused() {
    assert_eq!(
        fault("/*rest/more"),
        syntax_error(SyntaxErrorKind::MisplacedWildcard, 2, 6, "rest")
    );
    assert_eq!(
        fault("/*rest/more").message(),
        "wildcard path parameter `rest` must be the last path segment"
    );
}

#[test]
fn empty_query_is_refused() {
    assert_eq!(fault("/a?"), syntax_error(SyntaxErrorKind::EmptyQuery, 2, 3, "?"));
    assert_eq!(fault("/a?").message(), "expected a query parameter after `?`");
}

#[test]
fn empty_query_names_are_refused() {
    assert_eq!(fault("/a?x&"), syntax_error(SyntaxErrorKind::EmptyQueryParameter, 5, 5, ""));
    assert_eq!(fault("/a?&x"), syntax_error(SyntaxErrorKind::EmptyQueryParameter, 3, 3, ""));
    assert_eq!(fault("/a?x&&y"), syntax_error(SyntaxErrorKind::EmptyQueryParameter, 5, 5, ""));
    assert_eq!(fault("/a?x&").message(), "query parameter name is empty");
}

#[test]
fn query_names_must_be_identifiers() {
    assert_eq!(fault("/a?x=1"), syntax_error(SyntaxErrorKind::InvalidQueryParameter, 3, 6, "x=1"));
    assert_eq!(fault("/a?x?y"), syntax_error(SyntaxErrorKind::InvalidQueryParameter, 3, 6, "x?y"));
    assert_eq!(fault("/a?x=1").message(), "invalid query parameter name `x=1`");
}

#[test]
fn duplicate_query_names_are_refused() {
    assert_eq!(
        fault("/a?x&y&x"),
        syntax_error(SyntaxErrorKind::DuplicateQueryParameter, 7, 8, "x")
    );
    assert_eq!(fault("/a?x&y&x").message(), "duplicate query parameter `x`");
}

#[test]
fn path_faults_come_before_query_faults() {
    assert_eq!(fault("/:?"), syntax_error(SyntaxErrorKind::EmptyPathParameter, 1, 2, ":"));
    assert_eq!(
        fault("/:a/:a?x&x"),
        syntax_error(SyntaxErrorKind::DuplicatePathParameter, 5, 6, "a")
    );
}

#[test]
fn a_name_may_stand_in_path_and_query() {
    let (segments, query) = parse_literal("/item/:id?id").unwrap();
    assert_eq!(segments.len(), 2);
    assert_eq!(query, vec![name("id", 10, 12)]);
}

#[test]
fn spans_count_characters() {
    let (segments, query) = parse_literal("/größe/:länge?höhe").unwrap();
    assert_eq!(
        segments,
        vec![PathSegment::Static("größe".to_string()), PathSegment::Capture(name("länge", 8, 13))]
    );
    assert_eq!(query, vec![name("höhe", 14, 18)]);
}

#[test]
fn identifiers_follow_unicode() {
    assert!(is_identifier("id"));
    assert!(is_identifier("_"));
    assert!(is_identifier("_1"));
    assert!(is_identifier("user_id2"));
    assert!(is_identifier("größe"));
    assert!(is_identifier("名前"));
    assert!(!is_identifier(""));
    assert!(!is_identifier("1a"));
    assert!(!is_identifier("a-b"));
    assert!(!is_identifier("a b"));
    assert!(!is_identifier("→"));
    assert!(!is_identifier("a→"));
    assert!(!is_identifier("a{"));
}

#[test]
fn identifiers_agree_with_the_tables() {
    for c in ['a', 'Z', '_', '0', '-', 'é', 'ß', '·', '→', '١', '名', '\u{300}', ' '] {
        let alone = c.to_string();
        let after = format!("a{}", c);
        assert_eq!(is_identifier(&alone), c == '_' || unicode_ident::is_xid_start(c));
        assert_eq!(is_identifier(&after), unicode_ident::is_xid_continue(c));
    }
}

#[test]
fn method_keywords_are_upper_case() {
    assert_eq!(Method::from_keyword("GET"), Some(Method::Get));
    assert_eq!(Method::from_keyword("POST"), Some(Method::Post));
    assert_eq!(Method::from_keyword("PUT"), Some(Method::Put));
    assert_eq!(Method::from_keyword("PATCH"), Some(Method::Patch));
    assert_eq!(Method::from_keyword("DELETE"), Some(Method::Delete));
    assert_eq!(Method::from_keyword("HEAD"), Some(Method::Head));
    assert_eq!(Method::from_keyword("OPTIONS"), Some(Method::Options));
    assert_eq!(Method::from_keyword("TRACE"), Some(Method::Trace));
    assert_eq!(Method::from_keyword("CONNECT"), Some(Method::Connect));
    assert_eq!(Method::from_keyword("get"), None);
    assert_eq!(Method::from_keyword("FETCH"), None);
    assert_eq!(Method::from_keyword(""), None);
}

#[test]
fn methods_have_their_routing_names() {
    let all = [
        (Method::Get, "GET", "get"),
        (Method::Post, "POST", "post"),
        (Method::Put, "PUT", "put"),
        (Method::Patch, "PATCH", "patch"),
        (Method::Delete, "DELETE", "delete"),
        (Method::Head, "HEAD", "head"),
        (Method::Options, "OPTIONS", "options"),
        (Method::Trace, "TRACE", "trace"),
        (Method::Connect, "CONNECT", "connect"),
    ];
    for (method, keyword, routing) in all {
        assert_eq!(method.to_keyword(), keyword);
        assert_eq!(method.to_axum_method_name(), routing);
        assert_eq!(Method::from_keyword(&method.to_keyword()), Some(method));
        assert_eq!(method.to_axum_method_name(), keyword.to_lowercase());
    }
}

#[test]
fn route_carries_method_state_and_text() {
    let state = TypeExpr { text: "AppState".to_string(), kind: TypeKind::Other };
    let route = Route::parse("POST", "/one", Some(state.clone())).unwrap();
    assert_eq!(route.method, Method::Post);
    assert_eq!(route.path_params, vec![PathSegment::Static("one".to_string())]);
    assert_eq!(route.query_params, vec![]);
    assert_eq!(route.state, Some(state));
    assert_eq!(route.route_lit, "/one");
}

#[test]
fn unknown_method_is_refused_first() {
    let e = Route::parse("FETCH", "no slash", None).unwrap_err();
    assert_eq!(e, syntax_error(SyntaxErrorKind::UnknownMethod, 0, 5, "FETCH"));
    assert_eq!(
        e.message(),
        "expected one of (GET, POST, PUT, PATCH, DELETE, HEAD, OPTIONS, TRACE, CONNECT)"
    );
}

#[test]
fn numbers_are_written_in_decimal() {
    assert_eq!(decimal_string(0), "0");
    assert_eq!(decimal_string(7), "7");
    assert_eq!(decimal_string(10), "10");
    assert_eq!(decimal_string(409), "409");
    assert_eq!(decimal_string(1234567890), "1234567890");
    assert_eq!(decimal_string(usize::MAX), usize::MAX.to_string());
}
