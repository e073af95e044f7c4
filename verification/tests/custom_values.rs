use aipack::aipack_custom::{aipack_before_all_response, aipack_skip, AipackCustom, FromValue};
use aipack::devai_action::DevaiAction;
use aipack::devai_custom::{devai_before_all_response, devai_skip, DevaiCustom, FromValue as DevaiFromValue};
use aipack::error::Error;
use aipack::json::{find_key_index, join_keys, remove_entry, root_object_entries, string_at_path, take_path, JsonValue};
use aipack::rhai_devai::{before_all_response, skip, skip_with_reason};
use serde_json::{Number, Value};

fn to_jv(v: Value) -> JsonValue {
    match v {
        Value::Null => JsonValue::Null,
        Value::Bool(b) => JsonValue::Bool(b),
        Value::Number(n) => JsonValue::Number(n),
        Value::String(s) => JsonValue::String(s),
        Value::Array(a) => JsonValue::Array(a.into_iter().map(to_jv).collect()),
        Value::Object(o) => JsonValue::Object(o.into_iter().map(|(k, v)| (k, to_jv(v))).collect()),
    }
}

fn to_value(v: &JsonValue) -> Value {
    match v {
        JsonValue::Null => Value::Null,
        JsonValue::Bool(b) => Value::Bool(*b),
        JsonValue::Number(n) => Value::Number(n.clone()),
        JsonValue::String(s) => Value::String(s.clone()),
        JsonValue::Array(a) => Value::Array(a.iter().map(to_value).collect()),
        JsonValue::Object(o) => {
            let mut m = serde_json::Map::new();
            for (k, v) in o {
                m.insert(k.clone(), to_value(v));
            }
            Value::Object(m)
        }
    }
}

fn obj(entries: Vec<(&str, Value)>) -> Value {
    let mut m = serde_json::Map::new();
    for (k, v) in entries {
        m.insert(k.to_string(), v);
    }
    Value::Object(m)
}

fn s(x: &str) -> Value {
    Value::String(x.to_string())
}

fn n(x: i64) -> Value {
    Value::Number(Number::from(x))
}

#[test]
fn test_aipack_custom_before_all_inputs() {
    let fx_custom = obj(vec![(
        "_aipack_",
        obj(vec![
            ("kind", s("BeforeAllResponse")),
            (
                "data",
                obj(vec![
                    ("inputs", Value::Array(vec![s("A"), s("B"), n(123)])),
                    ("before_all", s("Some before all data")),
                ]),
            ),
        ]),
    )]);
    let custom = AipackCustom::from_value(to_jv(fx_custom)).unwrap();
    let FromValue::AipackCustom(AipackCustom::BeforeAllResponse(r)) = custom else {
        panic!("Should be a aipack custom");
    };
    let inputs: Option<Vec<Value>> = r.inputs.as_ref().map(|xs| xs.iter().map(to_value).collect());
    let before_all: Option<Value> = r.before_all.as_ref().map(to_value);
    let debug_string = format!("inputs: {:?}, before_all: {:?}", inputs, before_all);
    assert!(debug_string.contains(r#"inputs: Some([String("A"), String("B"), Number(123)]"#), "{debug_string}");
    assert!(debug_string.contains(r#"before_all: Some(String("Some before all data"))"#), "{debug_string}");
    assert!(r.options.is_none());
}

#[test]
fn test_devai_custom_before_all_items() {
    let fx_custom = obj(vec![(
        "_devai_",
        obj(vec![
            ("kind", s("BeforeAllResponse")),
            (
                "data",
                obj(vec![
                    ("items", Value::Array(vec![s("A"), s("B"), n(123)])),
                    ("before_all", s("Some before all data")),
                ]),
            ),
        ]),
    )]);
    let custom = DevaiCustom::from_value(to_jv(fx_custom)).unwrap();
    let DevaiFromValue::DevaiCustom(DevaiCustom::BeforeAllResponse { items, before_all }) = custom else {
        panic!("Should be a devai custom");
    };
    let items: Option<Vec<Value>> = items.as_ref().map(|xs| xs.iter().map(to_value).collect());
    let before_all: Option<Value> = before_all.as_ref().map(to_value);
    let debug_string = format!("items: {:?}, before_all: {:?}", items, before_all);
    assert!(debug_string.contains(r#"items: Some([String("A"), String("B"), Number(123)]"#), "{debug_string}");
    assert!(debug_string.contains(r#"before_all: Some(String("Some before all data"))"#), "{debug_string}");
}

#[test]
fn test_aipack_custom_original_value() {
    let v = obj(vec![("some", s("value"))]);
    match AipackCustom::from_value(to_jv(v.clone())).unwrap() {
        FromValue::OriginalValue(o) => assert_eq!(to_value(&o), v),
        other => panic!("unexpected {other:?}"),
    }
    // a kind that is not a string leaves the value as it is
    let v = obj(vec![("_aipack_", obj(vec![("kind", n(1))]))]);
    assert!(matches!(AipackCustom::from_value(to_jv(v)).unwrap(), FromValue::OriginalValue(_)));
}

#[test]
fn test_aipack_custom_unknown_kind() {
    let v = obj(vec![("_aipack_", obj(vec![("kind", s("Other"))]))]);
    match AipackCustom::from_value(to_jv(v)) {
        Err(Error::Custom(msg)) => assert_eq!(msg, "_aipack_ kind 'Other' is not known."),
        other => panic!("unexpected {other:?}"),
    }
}

#[test]
fn test_aipack_custom_before_all_errors() {
    let v = obj(vec![(
        "_aipack_",
        obj(vec![("kind", s("BeforeAllResponse")), ("data", obj(vec![("inputs", s("x"))]))]),
    )]);
    match AipackCustom::from_value(to_jv(v)) {
        Err(Error::BeforeAllFailWrongReturn { cause }) => {
            assert_eq!(cause, "aipack::before_all_response data .inputs must be an Null or an Array")
        }
        other => panic!("unexpected {other:?}"),
    }
    let v = obj(vec![(
        "_aipack_",
        obj(vec![
            ("kind", s("BeforeAllResponse")),
            ("data", obj(vec![("inputs", Value::Null), ("zeta", n(1)), ("alpha", n(2))])),
        ]),
    )]);
    match AipackCustom::from_value(to_jv(v)) {
        Err(Error::BeforeAllFailWrongReturn { cause }) => assert_eq!(
            cause,
            "aipack::before_all_response(data), can only have `.input` and `.before_all`). But also contained: alpha, zeta"
        ),
        other => panic!("unexpected {other:?}"),
    }
    // a data that is not an object gives an empty response
    let v = obj(vec![("_aipack_", obj(vec![("kind", s("BeforeAllResponse")), ("data", n(3))]))]);
    match AipackCustom::from_value(to_jv(v)).unwrap() {
        FromValue::AipackCustom(AipackCustom::BeforeAllResponse(r)) => {
            assert!(r.inputs.is_none() && r.before_all.is_none() && r.options.is_none())
        }
        other => panic!("unexpected {other:?}"),
    }
}

#[test]
fn test_lua_aipack_before_all_response_simple() {
    let v = aipack_before_all_response(to_jv(n(123)));
    let v = to_value(&v);
    assert_eq!(v.pointer("/_aipack_/kind"), Some(&s("BeforeAllResponse")));
    assert_eq!(v.pointer("/_aipack_/data"), Some(&n(123)));
}

#[test]
fn test_lua_aipack_skip_with_reason() {
    let v = to_value(&aipack_skip(Some("Not applicable".to_string())));
    assert_eq!(v.pointer("/_aipack_/kind"), Some(&s("Skip")));
    assert_eq!(v.pointer("/_aipack_/data/reason"), Some(&s("Not applicable")));
}

#[test]
fn test_lua_aipack_skip_without_reason() {
    let v = to_value(&aipack_skip(None));
    assert_eq!(v.pointer("/_aipack_/kind"), Some(&s("Skip")));
    assert!(v.pointer("/_aipack_/data/reason").is_none(), "reason should be none");
}

#[test]
fn test_aipack_skip_round_trip_scenario() {
    for reason in [None, Some("because".to_string())] {
        let v = aipack_skip(reason.clone());
        match AipackCustom::from_value(v).unwrap() {
            FromValue::AipackCustom(AipackCustom::Skip { reason: r }) => assert_eq!(r, reason),
            other => panic!("unexpected {other:?}"),
        }
    }
}

#[test]
fn test_aipack_before_all_round_trip_scenario() {
    let data = obj(vec![("inputs", Value::Array(vec![n(1), n(2)])), ("options", obj(vec![("x", n(1))]))]);
    let v = aipack_before_all_response(to_jv(data));
    match AipackCustom::from_value(v).unwrap() {
        FromValue::AipackCustom(AipackCustom::BeforeAllResponse(r)) => {
            let inputs: Vec<Value> = r.inputs.unwrap().iter().map(to_value).collect();
            assert_eq!(inputs, vec![n(1), n(2)]);
            assert!(r.before_all.is_none());
            assert_eq!(to_value(&r.options.unwrap()), obj(vec![("x", n(1))]));
        }
        other => panic!("unexpected {other:?}"),
    }
    // a null data is left out, and decodes to the empty response
    let v = aipack_before_all_response(JsonValue::Null);
    assert!(to_value(&v).pointer("/_aipack_/data").is_none());
    match AipackCustom::from_value(v).unwrap() {
        FromValue::AipackCustom(AipackCustom::BeforeAllResponse(r)) => assert!(r.inputs.is_none()),
        other => panic!("unexpected {other:?}"),
    }
}

#[test]
fn test_devai_custom_builders_and_decoding() {
    let v = to_value(&devai_skip(Some("r".to_string())));
    assert_eq!(v.pointer("/_devai_/kind"), Some(&s("Skip")));
    assert_eq!(v.pointer("/_devai_/data/reason"), Some(&s("r")));
    // the decoder knows the kind as "ActionSkip"
    match DevaiCustom::from_value(to_jv(v)) {
        Err(Error::Custom(msg)) => assert_eq!(msg, "_devai_ kind 'Skip' is not known."),
        other => panic!("unexpected {other:?}"),
    }
    let v = obj(vec![("_devai_", obj(vec![("kind", s("ActionSkip")), ("data", obj(vec![("reason", s("r"))]))]))]);
    match DevaiCustom::from_value(to_jv(v)).unwrap() {
        DevaiFromValue::DevaiCustom(DevaiCustom::ActionSkip { reason }) => assert_eq!(reason.as_deref(), Some("r")),
        other => panic!("unexpected {other:?}"),
    }
    let data = obj(vec![("items", Value::Array(vec![s("x")])), ("before_all", n(5))]);
    let v = devai_before_all_response(to_jv(data));
    match DevaiCustom::from_value(v).unwrap() {
        DevaiFromValue::DevaiCustom(DevaiCustom::BeforeAllResponse { items, before_all }) => {
            assert_eq!(items.unwrap().len(), 1);
            assert_eq!(to_value(&before_all.unwrap()), n(5));
        }
        other => panic!("unexpected {other:?}"),
    }
}

#[test]
fn test_devai_action_from_value() {
    let v = obj(vec![("_devai_", obj(vec![("action", s("skip")), ("data", obj(vec![("reason", s("why"))]))]))]);
    match DevaiAction::from_value(&to_jv(v)) {
        Some(DevaiAction::Skip { reason }) => assert_eq!(reason.as_deref(), Some("why")),
        None => panic!("expected an action"),
    }
    let v = obj(vec![("_devai_", obj(vec![("action", s("run"))]))]);
    assert!(DevaiAction::from_value(&to_jv(v)).is_none());
    assert!(DevaiAction::from_value(&to_jv(n(1))).is_none());
}

#[test]
fn test_rhai_devai_values() {
    let v = to_value(&skip());
    assert_eq!(v, obj(vec![("_devai_", obj(vec![("kind", s("Skip"))]))]));
    let v = to_value(&skip_with_reason("later"));
    assert_eq!(v.pointer("/_devai_/data/reason"), Some(&s("later")));
    let v = to_value(&before_all_response(to_jv(obj(vec![("a", n(1))]))).unwrap());
    assert_eq!(v.pointer("/_devai_/kind"), Some(&s("BeforeAllResponse")));
    assert_eq!(v.pointer("/_devai_/data/a"), Some(&n(1)));
    match before_all_response(to_jv(n(1))) {
        Err(Error::Cc { ctx, cause }) => {
            assert_eq!(ctx, "devai::before_all_response take a object map only");
            assert_eq!(cause, "CastFailNotAMap");
        }
        other => panic!("unexpected {other:?}"),
    }
}

#[test]
fn test_json_lookups() {
    let v = to_jv(obj(vec![("a", obj(vec![("b", s("x")), ("c", n(1))]))]));
    assert_eq!(string_at_path(&v, &vec!["a", "b"]).as_deref(), Some("x"));
    assert_eq!(string_at_path(&v, &vec!["a", "c"]), None);
    assert_eq!(string_at_path(&v, &vec!["z"]), None);
    let t = take_path(v, &vec!["a", "c"]).unwrap();
    assert_eq!(to_value(&t), n(1));

    let mut entries = match to_jv(obj(vec![("k1", n(1)), ("k2", n(2))])) {
        JsonValue::Object(e) => e,
        _ => unreachable!(),
    };
    assert_eq!(find_key_index(&entries, "k2"), Some(1));
    assert_eq!(join_keys(&entries, "|"), "k1|k2");
    assert_eq!(to_value(&remove_entry(&mut entries, "k1").unwrap()), n(1));
    assert_eq!(entries.len(), 1);
    assert!(remove_entry(&mut entries, "k1").is_none());
}

#[test]
fn test_json_root_object_entries() {
    let e = root_object_entries(to_jv(obj(vec![("x", n(1)), ("y", s("z"))]))).unwrap();
    assert_eq!(e.iter().map(|(k, _)| k.as_str()).collect::<Vec<_>>(), vec!["x", "y"]);
    match root_object_entries(to_jv(n(1))) {
        Err(Error::Custom(m)) => assert_eq!(m, "Root value must be an object"),
        other => panic!("unexpected {other:?}"),
    }
}
