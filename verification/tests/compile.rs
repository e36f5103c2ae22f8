use axum_controller_macros::compilation::{
    guess_state_type, BindingError, BindingSource, CompiledRoute, PatType, PathParam,
};
use axum_controller_macros::method::Method;
use axum_controller_macros::parsing::{parse_literal, PathSegment, Route};
use axum_controller_macros::signature::{HandlerParam, ParameterSlot, SlotPool};
use axum_controller_macros::text::Span;
use axum_controller_macros::type_expr::{GenericArgument, TypeExpr, TypeKind, TypeSegment};
use axum_controller_macros::{route, RouteError};

fn plain(name: &str) -> TypeExpr {
    TypeExpr {
        text: name.to_string(),
        kind: TypeKind::Path(vec![TypeSegment { ident: name.to_string(), arguments: None }]),
    }
}

fn wrapped(wrapper: &str, inner: TypeExpr) -> TypeExpr {
    TypeExpr {
        text: format!("{}<{}>", wrapper, inner.text),
        kind: TypeKind::Path(vec![TypeSegment {
            ident: wrapper.to_string(),
            arguments: Some(vec![GenericArgument::Type(inner)]),
        }]),
    }
}

fn named(name: &str, ty: TypeExpr) -> HandlerParam {
    HandlerParam { name: Some(name.to_string()), ty }
}

fn pattern(ty: TypeExpr) -> HandlerParam {
    HandlerParam { name: None, ty }
}

fn slot(ident: &str, ty: TypeExpr, index: usize) -> ParameterSlot {
    ParameterSlot { ident: ident.to_string(), ty, index }
}

fn numbered(index: usize, ty: TypeExpr) -> PatType {
    PatType { pat: format!("___arg___{}", index), ty, index }
}

fn bound(path_params: Vec<PathParam>) -> CompiledRoute {
    CompiledRoute {
        method: Method::Get,
        path_params,
        query_params: vec![],
        state: TypeExpr::unit(),
        route_lit: String::new(),
    }
}

#[test]
fn canonical_path_of_no_segments() {
    assert_eq!(bound(vec![]).to_axum_path_string(), "/");
}

#[test]
fn canonical_path_of_literal_and_capture() {
    let c = bound(vec![
        PathParam::Static("item".to_string()),
        PathParam::Capture(slot("id", plain("u32"), 0)),
    ]);
    assert_eq!(c.to_axum_path_string(), "/item/{id}");
}

#[test]
fn canonical_path_of_wildcard() {
    let c = bound(vec![PathParam::WildCard(slot("rest", plain("String"), 0))]);
    assert_eq!(c.to_axum_path_string(), "/{*rest}");
}

#[test]
fn binds_path_before_query() {
    let params = vec![named("id", plain("u32"))];
    let r = route("GET", "/item/:id?id", None, &params);
    assert_eq!(
        r,
        Err(RouteError::Binding(BindingError {
            source: BindingSource::Query,
            name: "id".to_string(),
            span: Span { start: 10, end: 12 },
        }))
    );
    assert_eq!(
        r.unwrap_err().message(),
        "query parameter 'id' not found in function arguments"
    );
}

#[test]
fn missing_binding_names_the_parameter() {
    let params = vec![named("other", plain("u32"))];
    let parsed = Route::parse("GET", "/item/:id", None).unwrap();
    let e = CompiledRoute::from_route(parsed, &params).unwrap_err();
    assert_eq!(e.source, BindingSource::Path);
    assert_eq!(e.name, "id");
    assert_eq!(e.span, Span { start: 7, end: 9 });
    assert_eq!(e.message(), "path parameter 'id' not found in function arguments");
}

#[test]
fn missing_query_binding_names_the_parameter() {
    let params = vec![named("id", plain("u32")), pattern(plain("amount"))];
    let e = route("GET", "/item/:id?amount", None, &params).unwrap_err();
    assert_eq!(
        e,
        RouteError::Binding(BindingError {
            source: BindingSource::Query,
            name: "amount".to_string(),
            span: Span { start: 10, end: 16 },
        })
    );
}

#[test]
fn first_missing_name_is_reported() {
    let params = vec![named("b", plain("u32"))];
    let e = route("GET", "/:a/:b/:c?d", None, &params).unwrap_err();
    assert_eq!(
        e,
        RouteError::Binding(BindingError {
            source: BindingSource::Path,
            name: "a".to_string(),
            span: Span { start: 2, end: 3 },
        })
    );
}

#[test]
fn syntax_comes_before_binding() {
    let e = route("GET", "/:id?", None, &vec![]).unwrap_err();
    assert!(matches!(e, RouteError::Syntax(_)));
    assert_eq!(e.message(), "expected a query parameter after `?`");
}

#[test]
fn extraction_order_follows_the_route() {
    let params = vec![
        named("offset", plain("u32")),
        named("id", plain("u64")),
        named("amount", plain("u8")),
        named("extra", plain("String")),
    ];
    let c = route("GET", "/item/:id?amount&offset", None, &params).unwrap();
    assert_eq!(c.extracted_idents(), vec!["id", "amount", "offset"]);
    assert_eq!(c.remaining_pattypes_numbered(&params), vec![numbered(3, plain("String"))]);
    assert_eq!(c.to_axum_path_string(), "/item/{id}");
    assert_eq!(
        c.path_params,
        vec![
            PathParam::Static("item".to_string()),
            PathParam::Capture(slot("id", plain("u64"), 1)),
        ]
    );
    assert_eq!(
        c.query_params,
        vec![slot("amount", plain("u8"), 2), slot("offset", plain("u32"), 0)]
    );
    assert_eq!(c.method, Method::Get);
    assert_eq!(c.route_lit, "/item/:id?amount&offset");
    assert_eq!(c.state, TypeExpr::unit());
}

#[test]
fn extractors_hold_the_bindings() {
    let params = vec![
        named("offset", plain("u32")),
        named("id", plain("u64")),
        named("rest", plain("String")),
    ];
    let c = route("GET", "/item/:id/*rest?offset", None, &params).unwrap();
    assert_eq!(
        c.path_extractor(),
        Some(vec![slot("id", plain("u64"), 1), slot("rest", plain("String"), 2)])
    );
    assert_eq!(c.path_bindings(), vec![slot("id", plain("u64"), 1), slot("rest", plain("String"), 2)]);
    assert_eq!(c.query_extractor(), Some(vec!["offset".to_string()]));
    assert_eq!(c.query_params_struct(), Some(vec![slot("offset", plain("u32"), 0)]));
    assert_eq!(c.query_bindings(), vec![slot("offset", plain("u32"), 0)]);
    assert_eq!(c.to_axum_path_string(), "/item/{id}/{*rest}");
    assert!(c.takes(0));
    assert!(c.takes(1));
    assert!(c.takes(2));
    assert!(!c.takes(3));
}

#[test]
fn extractors_are_absent_without_bindings() {
    let c = route("POST", "/one/two", None, &vec![named("body", plain("String"))]).unwrap();
    assert_eq!(c.path_extractor(), None);
    assert_eq!(c.query_extractor(), None);
    assert_eq!(c.query_params_struct(), None);
    assert_eq!(c.extracted_idents(), Vec::<String>::new());
    assert_eq!(
        c.remaining_pattypes_numbered(&vec![named("body", plain("String"))]),
        vec![numbered(0, plain("String"))]
    );
}

#[test]
fn segment_tells_what_it_captures() {
    let text = PathParam::Static("a".to_string());
    let capture = PathParam::Capture(slot("id", plain("u32"), 4));
    let wildcard = PathParam::WildCard(slot("rest", plain("String"), 5));
    assert!(!text.captures());
    assert!(capture.captures());
    assert!(wildcard.captures());
    assert_eq!(text.capture(), None);
    assert_eq!(capture.capture(), Some(&slot("id", plain("u32"), 4)));
    assert_eq!(wildcard.capture(), Some(&slot("rest", plain("String"), 5)));
}

#[test]
fn state_is_inferred_from_the_first_wrapper() {
    let params = vec![
        named("a", plain("u32")),
        named("s", wrapped("State", plain("ConcreteType"))),
        pattern(wrapped("State", plain("Later"))),
    ];
    let c = route("GET", "/", None, &params).unwrap();
    assert_eq!(c.state, plain("ConcreteType"));
    assert_eq!(guess_state_type(&params), plain("ConcreteType"));
}

#[test]
fn state_defaults_to_unit() {
    let params = vec![named("a", plain("u32"))];
    let c = route("GET", "/", None, &params).unwrap();
    assert_eq!(c.state, TypeExpr { text: "()".to_string(), kind: TypeKind::Other });
    assert_eq!(guess_state_type(&vec![]), TypeExpr::unit());
}

#[test]
fn explicit_state_overrides_inference() {
    let params = vec![named("a", plain("u32")), named("s", wrapped("State", plain("Other")))];
    let c = route("GET", "/", Some(plain("ConcreteType")), &params).unwrap();
    assert_eq!(c.state, plain("ConcreteType"));
}

#[test]
fn state_ignores_what_the_route_binds() {
    let params = vec![named("s", wrapped("State", plain("Pool"))), named("id", plain("u32"))];
    let c = route("GET", "/:s?id", None, &params).unwrap();
    assert_eq!(c.extracted_idents(), vec!["s", "id"]);
    assert_eq!(c.state, plain("Pool"));
    assert_eq!(c.remaining_pattypes_numbered(&params), vec![]);
}

#[test]
fn state_wrapper_is_matched_by_shape() {
    let last_segment = TypeExpr {
        text: "axum::extract::State<Pool>".to_string(),
        kind: TypeKind::Path(vec![
            TypeSegment { ident: "axum".to_string(), arguments: None },
            TypeSegment { ident: "extract".to_string(), arguments: None },
            TypeSegment {
                ident: "State".to_string(),
                arguments: Some(vec![GenericArgument::Type(plain("Pool"))]),
            },
        ]),
    };
    assert_eq!(last_segment.state_argument(), Some(plain("Pool")));
    assert_eq!(wrapped("State", plain("Pool")).state_argument(), Some(plain("Pool")));
    assert_eq!(wrapped("Json", plain("Pool")).state_argument(), None);
    assert_eq!(wrapped("state", plain("Pool")).state_argument(), None);
    assert_eq!(plain("State").state_argument(), None);
    let lifetime = TypeExpr {
        text: "State<'a>".to_string(),
        kind: TypeKind::Path(vec![TypeSegment {
            ident: "State".to_string(),
            arguments: Some(vec![GenericArgument::Other]),
        }]),
    };
    assert_eq!(lifetime.state_argument(), None);
    let two = TypeExpr {
        text: "State<A, B>".to_string(),
        kind: TypeKind::Path(vec![TypeSegment {
            ident: "State".to_string(),
            arguments: Some(vec![
                GenericArgument::Type(plain("A")),
                GenericArgument::Type(plain("B")),
            ]),
        }]),
    };
    assert_eq!(two.state_argument(), None);
    let none = TypeExpr {
        text: "State<>".to_string(),
        kind: TypeKind::Path(vec![TypeSegment {
            ident: "State".to_string(),
            arguments: Some(vec![]),
        }]),
    };
    assert_eq!(none.state_argument(), None);
    let not_last = TypeExpr {
        text: "State<Pool>::Inner".to_string(),
        kind: TypeKind::Path(vec![
            TypeSegment {
                ident: "State".to_string(),
                arguments: Some(vec![GenericArgument::Type(plain("Pool"))]),
            },
            TypeSegment { ident: "Inner".to_string(), arguments: None },
        ]),
    };
    assert_eq!(not_last.state_argument(), None);
    let reference = TypeExpr { text: "&State<Pool>".to_string(), kind: TypeKind::Other };
    assert_eq!(reference.state_argument(), None);
    let empty_path = TypeExpr { text: String::new(), kind: TypeKind::Path(vec![]) };
    assert_eq!(empty_path.state_argument(), None);
    let skipped = vec![named("a", lifetime), named("b", two), named("c", last_segment)];
    assert_eq!(guess_state_type(&skipped), plain("Pool"));
}

#[test]
fn types_are_copied_in_depth() {
    let ty = wrapped("State", wrapped("Arc", plain("Pool")));
    let copy = ty.clone();
    assert_eq!(copy, ty);
    assert_eq!(copy.text, "State<Arc<Pool>>");
    assert_eq!(named("a", ty.clone()).clone(), named("a", ty));
}

#[test]
fn pool_holds_the_last_parameter_of_a_name() {
    let params = vec![
        named("id", plain("u32")),
        pattern(plain("Json")),
        named("id", plain("u64")),
        named("x", plain("u8")),
    ];
    let mut pool = SlotPool::from_params(&params);
    assert_eq!(pool.take(&"id".to_string()), Some(slot("id", plain("u64"), 2)));
    assert_eq!(pool.take(&"id".to_string()), None);
    assert_eq!(pool.take(&"Json".to_string()), None);
    assert_eq!(pool.take(&"x".to_string()), Some(slot("x", plain("u8"), 3)));
    assert_eq!(pool.take(&"x".to_string()), None);
}

#[test]
fn remaining_goes_by_place_not_by_name() {
    let params = vec![named("id", plain("u32")), named("id", plain("u64"))];
    let c = route("GET", "/:id", None, &params).unwrap();
    assert_eq!(c.path_bindings(), vec![slot("id", plain("u64"), 1)]);
    assert_eq!(c.remaining_pattypes_numbered(&params), vec![numbered(0, plain("u32"))]);
}

#[test]
fn patterns_are_never_bound() {
    let params = vec![pattern(plain("u32"))];
    let e = route("GET", "/:id", None, &params).unwrap_err();
    assert_eq!(e.message(), "path parameter 'id' not found in function arguments");
}

#[test]
fn remaining_are_numbered_by_their_place() {
    let mut params = vec![];
    for i in 0..12 {
        params.push(named(&format!("arg{}", i), plain(&format!("T{}", i))));
    }
    params.push(pattern(plain("Json")));
    let c = route("GET", "/:arg0/:arg5?arg11&arg1", None, &params).unwrap();
    assert_eq!(c.extracted_idents(), vec!["arg0", "arg5", "arg11", "arg1"]);
    let left = c.remaining_pattypes_numbered(&params);
    let places: Vec<usize> = vec![2, 3, 4, 6, 7, 8, 9, 10, 12];
    assert_eq!(left.len(), places.len());
    for (item, place) in left.iter().zip(places) {
        assert_eq!(item.pat, format!("___arg___{}", place));
        assert_eq!(item.ty, params[place].ty);
        assert_eq!(item.index, place);
    }
}

#[test]
fn bound_route_can_be_built_from_parts() {
    let (segments, query) = parse_literal("/a/:b?c").unwrap();
    let parsed = Route {
        method: Method::Delete,
        path_params: segments,
        query_params: query,
        state: None,
        route_lit: "/a/:b?c".to_string(),
    };
    let params = vec![named("c", plain("u8")), named("b", plain("u16"))];
    let c = CompiledRoute::from_route(parsed, &params).unwrap();
    assert_eq!(c.method, Method::Delete);
    assert_eq!(c.extracted_idents(), vec!["b", "c"]);
}

#[test]
fn repeated_path_name_in_a_built_route_fails() {
    let (segments, _) = parse_literal("/:id").unwrap();
    let (more, _) = parse_literal("/x/:id").unwrap();
    let mut path_params = segments;
    path_params.extend(more);
    let parsed = Route {
        method: Method::Get,
        path_params,
        query_params: vec![],
        state: None,
        route_lit: String::new(),
    };
    let e = CompiledRoute::from_route(parsed, &vec![named("id", plain("u32"))]).unwrap_err();
    assert_eq!(e.source, BindingSource::Path);
    assert_eq!(e.span, Span { start: 4, end: 6 });
}

#[test]
fn written_path_is_read_back() {
    for literal in ["/", "/one", "/one/two", "/foo-bar/baz.qux/0"] {
        let c = route("GET", literal, None, &vec![]).unwrap();
        let written = c.to_axum_path_string();
        assert_eq!(written, literal);
        let (first, _) = parse_literal(literal).unwrap();
        let (again, query) = parse_literal(&written).unwrap();
        assert_eq!(again, first);
        assert_eq!(query, vec![]);
        assert!(again.iter().all(|s| matches!(s, PathSegment::Static(_))));
    }
}

#[test]
fn documentation_names_method_path_and_state() {
    let params = vec![named("id", plain("u32")), named("s", wrapped("State", plain("Pool")))];
    let c = route("GET", "/item/:id", None, &params).unwrap();
    assert_eq!(
        c.to_doc_comments(),
        "# Handler information\n- Method: `get`\n- Path: `/item/:id`\n- State: `Pool`"
    );
}

#[test]
fn test_normal() {
    let state = wrapped("State", plain("String"));
    let complex = vec![
        named("id", plain("u32")),
        named("user_id", plain("String")),
        named("name", plain("String")),
        pattern(state.clone()),
        named("hello", state.clone()),
        pattern(wrapped("Json", plain("u32"))),
    ];
    let c = route("GET", "/hello/:id?user_id&name", None, &complex).unwrap();
    assert_eq!(c.to_axum_path_string(), "/hello/{id}");
    assert_eq!(c.extracted_idents(), vec!["id", "user_id", "name"]);
    assert_eq!(
        c.remaining_pattypes_numbered(&complex),
        vec![
            numbered(3, state.clone()),
            numbered(4, state.clone()),
            numbered(5, wrapped("Json", plain("u32"))),
        ]
    );
    assert_eq!(c.state, plain("String"));

    let one = route("POST", "/one", None, &vec![named("state", state.clone())]).unwrap();
    assert_eq!(one.to_axum_path_string(), "/one");
    assert_eq!(one.state, plain("String"));
    assert_eq!(one.method.to_axum_method_name(), "post");

    let two = route("POST", "/two", None, &vec![]).unwrap();
    assert_eq!(two.to_axum_path_string(), "/two");
    assert_eq!(two.state, TypeExpr::unit());

    let three = route("GET", "/three/:id", None, &vec![named("id", plain("u32"))]).unwrap();
    assert_eq!(three.to_axum_path_string(), "/three/{id}");
    assert_eq!(three.path_extractor(), Some(vec![slot("id", plain("u32"), 0)]));

    let four = route("GET", "/four?id", None, &vec![named("id", plain("u32"))]).unwrap();
    assert_eq!(four.to_axum_path_string(), "/four");
    assert_eq!(four.query_extractor(), Some(vec!["id".to_string()]));

    let foo_bar = route("GET", "/foo-bar", None, &vec![]).unwrap();
    assert_eq!(foo_bar.to_axum_path_string(), "/foo-bar");
}

#[test]
fn test_wildcard() {
    let params = vec![named("capture", plain("String"))];
    let c = route("GET", "/*capture", None, &params).unwrap();
    assert_eq!(c.to_axum_path_string(), "/{*capture}");
    assert_eq!(c.path_extractor(), Some(vec![slot("capture", plain("String"), 0)]));
    assert_eq!(c.remaining_pattypes_numbered(&params), vec![]);

    let root = route("GET", "/", None, &vec![]).unwrap();
    assert_eq!(root.to_axum_path_string(), "/");
}
