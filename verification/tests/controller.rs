use axum_controller_macros::controller::{AttrError, AttrName, MyAttrs, NameValue};

fn pair(name: AttrName, value: &str) -> NameValue {
    NameValue { name, value: value.to_string() }
}

#[test]
fn attribute_names_are_decoded() {
    assert_eq!(AttrName::from_name("path"), Some(AttrName::Path));
    assert_eq!(AttrName::from_name("state"), Some(AttrName::State));
    assert_eq!(AttrName::from_name("middleware"), Some(AttrName::Middleware));
    assert_eq!(AttrName::from_name("Path"), None);
    assert_eq!(AttrName::from_name("other"), None);
}

#[test]
fn attributes_are_collected() {
    let pairs = vec![
        pair(AttrName::Middleware, "first()"),
        pair(AttrName::Path, "\"/asd\""),
        pair(AttrName::Middleware, "second()"),
        pair(AttrName::State, "AppState"),
    ];
    assert_eq!(
        MyAttrs::parse(&pairs),
        Ok(MyAttrs {
            middlewares: vec!["first()".to_string(), "second()".to_string()],
            path: Some("\"/asd\"".to_string()),
            state: Some("AppState".to_string()),
        })
    );
    assert_eq!(
        MyAttrs::parse(&vec![]),
        Ok(MyAttrs { middlewares: vec![], path: None, state: None })
    );
}

#[test]
fn repeated_path_is_refused() {
    let pairs = vec![
        pair(AttrName::Middleware, "m"),
        pair(AttrName::Path, "a"),
        pair(AttrName::State, "s"),
        pair(AttrName::Path, "b"),
        pair(AttrName::State, "t"),
    ];
    assert_eq!(
        MyAttrs::parse(&pairs),
        Err(AttrError { name: AttrName::Path, first: 1, second: 3 })
    );
}

#[test]
fn repeated_state_is_refused() {
    let pairs = vec![pair(AttrName::State, "s"), pair(AttrName::State, "t")];
    assert_eq!(
        MyAttrs::parse(&pairs),
        Err(AttrError { name: AttrName::State, first: 0, second: 1 })
    );
}
