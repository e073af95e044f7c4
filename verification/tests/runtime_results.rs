use aipack::cmd::{git_restore_result, lua_cmd_exec_result, rhai_cmd_exec_result, CmdOutcome};
use aipack::dynamic_support::{dynamic_into_strings, new_section_strings, property_index, DynamicSupportError, SectionItem, StringsArg};
use aipack::error::Error;
use aipack::json::{json_parse_result, JsonValue};
use aipack::web::{lua_web_result, rhai_web_get_result, web_json_content, web_post_body, PostData, WebContent, WebOutcome};

fn st(x: &str) -> String {
    x.to_string()
}

#[test]
fn test_lua_cmd_exec_results() {
    let ok = lua_cmd_exec_result(
        "echo",
        &vec![st("hello world")],
        CmdOutcome::Ran { stdout: st("hello world\n"), stderr: st(""), exit_code: Some(0) },
    )
    .unwrap();
    assert_eq!(ok.stdout, "hello world\n");
    assert_eq!(ok.stderr, "");
    assert_eq!(ok.exit, 0);

    let f = lua_cmd_exec_result(
        "ls",
        &vec![st("-z"), st("x")],
        CmdOutcome::Ran { stdout: st("o"), stderr: st("e"), exit_code: Some(2) },
    )
    .unwrap_err();
    assert_eq!(f.stdout.as_deref(), Some("o"));
    assert_eq!(f.stderr.as_deref(), Some("e"));
    assert_eq!(f.exit, Some(2));
    assert_eq!(f.error, "Command exited with non-zero status: 2");

    let f = lua_cmd_exec_result("k", &vec![], CmdOutcome::Ran { stdout: st(""), stderr: st(""), exit_code: None })
        .unwrap_err();
    assert_eq!(f.exit, Some(-1));
    assert_eq!(f.error, "Command exited with non-zero status: -1");

    let f = lua_cmd_exec_result(
        "nonexistentcommand",
        &vec![],
        CmdOutcome::SpawnFailed { error: st("No such file or directory (os error 2)") },
    )
    .unwrap_err();
    assert!(f.stdout.is_none() && f.stderr.is_none() && f.exit.is_none());
    assert_eq!(f.error, "Fail to execute: nonexistentcommand \nCause:\nNo such file or directory (os error 2)");
    assert!(f.error.contains("nonexistentcommand") && f.error.contains("No such file or directory"));
}

#[test]
fn test_rhai_cmd_exec_results() {
    let ok = rhai_cmd_exec_result(CmdOutcome::Ran { stdout: st("a"), stderr: st("b"), exit_code: Some(0) }).unwrap();
    assert_eq!((ok.stdout.as_str(), ok.stderr.as_str(), ok.exit), ("a", "b", 0));
    let f = rhai_cmd_exec_result(CmdOutcome::Ran { stdout: st("a"), stderr: st("b"), exit_code: Some(3) }).unwrap_err();
    assert_eq!(f.stdout.as_deref(), Some("a"));
    assert_eq!(f.stderr.as_deref(), Some("b"));
    assert_eq!(f.exit, Some(3));
    assert_eq!(f.error, "Command exited with non-zero status: 3");
    let f = rhai_cmd_exec_result(CmdOutcome::SpawnFailed { error: st("No such file or directory") }).unwrap_err();
    assert!(f.stdout.is_none() && f.stderr.is_none() && f.exit.is_none());
    assert!(f.error.contains("No such file or directory"));
}

#[test]
fn test_git_restore_results() {
    assert_eq!(git_restore_result("a.txt", st("done"), st("")).unwrap(), "done");
    match git_restore_result("a.txt", st(""), st("fatal")) {
        Err(Error::Cc { ctx, cause }) => {
            assert_eq!(ctx, "'git restore a.txt' failed");
            assert_eq!(cause, "fatal");
        }
        other => panic!("unexpected {other:?}"),
    }
}

#[test]
fn test_lua_web_results() {
    let r = lua_web_result(
        "get",
        "https://x/y",
        WebOutcome::Response { status: 200, content_type: Some(st("text/plain")), body: st("hi") },
    )
    .unwrap();
    assert!(r.success);
    assert_eq!(r.status, 200);
    assert_eq!(r.url, "https://x/y");
    assert!(matches!(r.content, WebContent::Text(ref b) if b == "hi"));
    assert!(r.error.is_none());

    let r = lua_web_result(
        "post",
        "u",
        WebOutcome::Response { status: 201, content_type: Some(st("application/json; charset=utf-8")), body: st("{}") },
    )
    .unwrap();
    assert!(matches!(r.content, WebContent::Json(ref b) if b == "{}"));

    // the content type is lowercased before it is read
    let r = lua_web_result(
        "get",
        "u",
        WebOutcome::Response { status: 200, content_type: Some(st("Application/JSON")), body: st("[]") },
    )
    .unwrap();
    assert!(matches!(r.content, WebContent::Json(ref b) if b == "[]"));

    let r = lua_web_result("get", "u", WebOutcome::Response { status: 404, content_type: None, body: st("no") }).unwrap();
    assert!(!r.success);
    assert_eq!(r.error.as_deref(), Some("Not a 2xx status code (404)"));
    assert!(matches!(r.content, WebContent::Text(ref b) if b == "no"));

    match lua_web_result(
        "get",
        "https://this-cannot-go/anywhere-or-can-it.aip",
        WebOutcome::RequestFailed { status: None, error: st("dns") },
    ) {
        Err(Error::Lua(m)) => {
            assert_eq!(m, "Fail to do utils.web.get for url: https://this-cannot-go/anywhere-or-can-it.aip\nCause: dns");
        }
        other => panic!("unexpected {other:?}"),
    }
}

#[test]
fn test_rhai_web_results() {
    let r = rhai_web_get_result("u", WebOutcome::Response { status: 200, content_type: None, body: st("b") }).unwrap();
    assert_eq!((r.status, r.url.as_str(), r.content.as_str()), (200, "u", "b"));
    let f = rhai_web_get_result("u", WebOutcome::Response { status: 500, content_type: None, body: st("b") }).unwrap_err();
    assert_eq!(f.status, Some(500));
    assert_eq!(f.error, "Not a 2xx status code (500)");
    let f = rhai_web_get_result(
        "https://this-cannot-go/anywhere-or-can-it.devai",
        WebOutcome::RequestFailed { status: None, error: st("err") },
    )
    .unwrap_err();
    assert!(f.status.is_none());
    assert_eq!(f.url, "https://this-cannot-go/anywhere-or-can-it.devai");
    assert_eq!(f.error, "err");
}

#[test]
fn test_web_post_body() {
    assert_eq!(web_post_body(PostData::Text(st("t"))).unwrap(), (st("plain/text"), st("t")));
    assert_eq!(web_post_body(PostData::Json(st("{\"a\":1}"))).unwrap(), (st("application/json"), st("{\"a\":1}")));
    match web_post_body(PostData::Other) {
        Err(Error::Lua(m)) => assert_eq!(m, "Data must be a string or a table"),
        other => panic!("unexpected {other:?}"),
    }
}

#[test]
fn test_dynamic_support_error_custom() {
    assert!(matches!(DynamicSupportError::custom("bad"), DynamicSupportError::Custom(ref s) if s == "bad"));
    let e: DynamicSupportError = st("from string").into();
    assert!(matches!(e, DynamicSupportError::Custom(ref s) if s == "from string"));
}

#[test]
fn test_dynamic_into_strings_cases() {
    assert_eq!(dynamic_into_strings(StringsArg::Single(st("a")), "x").unwrap(), vec!["a"]);
    assert_eq!(
        dynamic_into_strings(StringsArg::List(vec![Some(st("a")), None, Some(st("c"))]), "x").unwrap(),
        vec!["a", "c"]
    );
    match dynamic_into_strings(StringsArg::Other, "globs") {
        Err(Error::Custom(m)) => assert_eq!(m, "'globs' is not of type String or Array Of String"),
        other => panic!("unexpected {other:?}"),
    }
}

#[test]
fn test_dynamic_property_index() {
    let keys = vec![st("a"), st("b"), st("b")];
    assert_eq!(property_index(&keys, "b").unwrap(), 1);
    match property_index(&keys, "z") {
        Err(DynamicSupportError::PropertyMissing { name, cause }) => {
            assert_eq!(name, "z");
            assert_eq!(cause, "missing");
        }
        other => panic!("unexpected {other:?}"),
    }
}

#[test]
fn test_dynamic_new_section_strings() {
    let v = new_section_strings(vec![SectionItem::Text(st("a")), SectionItem::Object { content: Some(st("b")) }]).unwrap();
    assert_eq!(v, vec!["a", "b"]);
    for bad in [SectionItem::Other, SectionItem::Object { content: None }] {
        match new_section_strings(vec![SectionItem::Text(st("a")), bad]) {
            Err(Error::Custom(m)) => assert_eq!(
                m,
                "A new section item is not of type string or does not contain a .content of type string"
            ),
            other => panic!("unexpected {other:?}"),
        }
    }
}

#[test]
fn test_web_json_content_and_parse_results() {
    assert!(matches!(web_json_content(Ok(JsonValue::Bool(true))), Ok(JsonValue::Bool(true))));
    match web_json_content(Err(st("expected value at line 1"))) {
        Err(Error::Custom(m)) => assert_eq!(m, "Fail to parse web response as json.\n    Cause: expected value at line 1"),
        other => panic!("unexpected {other:?}"),
    }
    assert!(matches!(json_parse_result(Ok(JsonValue::Null)), Ok(JsonValue::Null)));
    match json_parse_result(Err(st("eof"))) {
        Err(Error::Cc { ctx, cause }) => {
            assert_eq!(ctx, "JSON parse error");
            assert_eq!(cause, "eof");
        }
        other => panic!("unexpected {other:?}"),
    }
}
