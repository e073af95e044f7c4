use aipack::config_table::{json_to_lua_table, LuaTableKey, LuaTableValue};
use aipack::error::Error;
use aipack::json::JsonValue;
use aipack::lua_dump::{dump, DumpValue};
use aipack::lua_error::{parse_usize, process_stack_line, process_stack_with_script, ref_replacement_of, LuaErrorItem};
use aipack::lua_support::{
    extract_blocks_options, init_package_path_value, print_text, to_vec_of_strings, upgraded_package_path, BlocksOptions,
    ConversionFrom, Extrude, OptionProp,
};
use aipack::dynamic_support::StringsArg;
use serde_json::Number;

fn st(x: &str) -> String {
    x.to_string()
}

#[test]
fn test_scripts_lua_dump() {
    let inner = DumpValue::Table(vec![
        (DumpValue::Str(st("key1")), DumpValue::Str(st("value1"))),
        (DumpValue::Str(st("key2")), DumpValue::Integer(42)),
    ]);
    let outer = DumpValue::Table(vec![
        (DumpValue::Str(st("nested")), inner),
        (DumpValue::Str(st("bool")), DumpValue::Boolean(true)),
        (DumpValue::Str(st("num")), DumpValue::Number(format!("{}", 3.21f64))),
    ]);
    let result = dump(&outer);
    assert!(result.contains(r#"  bool = true"#), "{result}");
    assert!(result.contains(r#"    key1 = "value1""#), "{result}");
    assert!(result.contains(r#"    key2 = 42"#), "{result}");
}

#[test]
fn test_lua_dump_exact() {
    let v = DumpValue::Table(vec![
        (DumpValue::Integer(1), DumpValue::Str(st("a"))),
        (DumpValue::Str(st("t")), DumpValue::Table(vec![(DumpValue::Str(st("x")), DumpValue::Nil)])),
    ]);
    assert_eq!(dump(&v), "{\n  1 = \"a\",\n  t = {\n    x = nil\n  }\n}");
    assert_eq!(dump(&DumpValue::Function(None)), "<function <anonymous>>");
    assert_eq!(dump(&DumpValue::Function(Some(st("f")))), "<function f>");
    assert_eq!(dump(&DumpValue::Integer(-7)), "-7");
    assert_eq!(dump(&DumpValue::Table(vec![])), "{\n\n}");
    assert_eq!(dump(&DumpValue::Thread), "<Thread>");
    assert_eq!(dump(&DumpValue::Other), "<OtherType>");
}

#[test]
fn test_lua_error_process_stack() {
    let script = "local a = 1\n  error('boom')  \nreturn a";
    let stack = "[string \"x\"]:2: boom\nstack traceback:\n\t[string \"x\"]:2> in main chunk\n\t[C]: in ?";
    let out = process_stack_with_script(stack, script);
    assert_eq!(
        out,
        "At line 2 'error('boom')' boom\nstack traceback:\n\tAt line 2 'error('boom')' in main chunk\n\t[C]: in ?"
    );
    let lines: Vec<String> = script.lines().map(|l| l.to_string()).collect();
    assert_eq!(process_stack_line("[string \"x\"]:9: far", &lines), "Line(9) far");
    assert_eq!(process_stack_line("no reference", &lines), "no reference");
    assert_eq!(ref_replacement_of("1", &lines), "At line 1 'local a = 1'");
    assert_eq!(ref_replacement_of("0", &lines), "Line(0)");
    assert_eq!(ref_replacement_of("x", &lines), "");
}

#[test]
fn test_lua_error_parse_usize() {
    assert_eq!(parse_usize("42"), Some(42));
    assert_eq!(parse_usize("+7"), Some(7));
    assert_eq!(parse_usize(""), None);
    assert_eq!(parse_usize("+"), None);
    assert_eq!(parse_usize("-1"), None);
    assert_eq!(parse_usize("1a"), None);
    assert_eq!(parse_usize("99999999999999999999999"), None);
}

#[test]
fn test_lua_error_chains() {
    let chain = vec![
        LuaErrorItem { is_lua: true, message: st("runtime error: [string \"s\"]:1: bad\nstack traceback:") },
        LuaErrorItem { is_lua: false, message: st("io") },
    ];
    match Error::from_error_with_script(&chain, "x = nil + 1") {
        Error::Lua(m) => assert_eq!(
            m,
            "Lua error:\nruntime error: At line 1 'x = nil + 1' bad\nstack traceback:\nOther lua error:\nio"
        ),
        other => panic!("unexpected {other:?}"),
    }
    let chain = vec![LuaErrorItem { is_lua: true, message: st("plain [string \"s\"]:1: bad") }];
    match Error::from_error_with_script(&chain, "x") {
        Error::Lua(m) => assert_eq!(m, "Lua error:\nplain [string \"s\"]:1: bad"),
        other => panic!("unexpected {other:?}"),
    }
    let chain = vec![
        LuaErrorItem { is_lua: true, message: st("a") },
        LuaErrorItem { is_lua: false, message: st("b") },
    ];
    match Error::from_lua_error_chain(&chain) {
        Error::Lua(m) => assert_eq!(m, "Lua error chain item\n - a\nOther error chain item\n - b"),
        other => panic!("unexpected {other:?}"),
    }
}

#[test]
fn test_lua_to_vec_of_strings() {
    let v = to_vec_of_strings(StringsArg::Single(st("a")), "globs").unwrap();
    assert_eq!(v, vec!["a"]);
    let v = to_vec_of_strings(StringsArg::List(vec![Some(st("a")), Some(st("b"))]), "globs").unwrap();
    assert_eq!(v, vec!["a", "b"]);
    let e = to_vec_of_strings(StringsArg::List(vec![Some(st("a")), None]), "globs").unwrap_err();
    assert_eq!(e.from, ConversionFrom::Table);
    assert_eq!(e.message, "globs - Table contains non-string values");
    let e = to_vec_of_strings(StringsArg::Other, "globs").unwrap_err();
    assert_eq!(e.from, ConversionFrom::Unknown);
    assert_eq!(e.message, "globs - Expected a string or a list of strings");
}

#[test]
fn test_lua_extract_blocks_options() {
    let (l, e) = extract_blocks_options(BlocksOptions::NoOptions).unwrap();
    assert!(l.is_none() && e.is_none());
    let (l, e) = extract_blocks_options(BlocksOptions::Lang(st("rust"))).unwrap();
    assert_eq!(l.as_deref(), Some("rust"));
    assert!(e.is_none());
    let (l, e) = extract_blocks_options(BlocksOptions::Table {
        lang: OptionProp::Convertible(st("12")),
        extrude: OptionProp::Str(st("content")),
    })
    .unwrap();
    assert_eq!(l.as_deref(), Some("12"));
    assert_eq!(e, Some(Extrude::Content));
    match extract_blocks_options(BlocksOptions::Table { lang: OptionProp::NotConvertible, extrude: OptionProp::Absent }) {
        Err(Error::Custom(m)) => assert_eq!(m, "md_extract_blocks lang options must be of type string"),
        other => panic!("unexpected {other:?}"),
    }
    match extract_blocks_options(BlocksOptions::Table { lang: OptionProp::Absent, extrude: OptionProp::Str(st("all")) }) {
        Err(Error::Custom(m)) => assert_eq!(m, "md_extract_blocks extrude must be = to 'content' for now"),
        other => panic!("unexpected {other:?}"),
    }
    let (l, e) = extract_blocks_options(BlocksOptions::Table {
        lang: OptionProp::Absent,
        extrude: OptionProp::Convertible(st("1")),
    })
    .unwrap();
    assert!(l.is_none() && e.is_none());
}

#[test]
fn test_lua_package_paths() {
    assert_eq!(
        init_package_path_value("/c/lua", Some("/b/lua"), "./?.lua"),
        "/c/lua/?.lua;/c/lua/?/init.lua;/b/lua/?.lua;/b/lua/?/init.lua;./?.lua"
    );
    assert_eq!(init_package_path_value("/c", None, "p"), "/c/?.lua;/c/?/init.lua;p");
    assert_eq!(
        upgraded_package_path(&vec![st("/x"), st("/y")], "p"),
        "/x/lua/?.lua;/x/lua/?/init.lua;/y/lua/?.lua;/y/lua/?/init.lua;p"
    );
    assert_eq!(upgraded_package_path(&vec![], "p"), ";p");
}

#[test]
fn test_lua_config_table() {
    let v = JsonValue::Object(vec![
        (st("name"), JsonValue::String(st("n"))),
        (st("skip"), JsonValue::Null),
        (st("n"), JsonValue::Number(Number::from(3))),
        (
            st("list"),
            JsonValue::Array(vec![JsonValue::Bool(true), JsonValue::Null, JsonValue::String(st("z"))]),
        ),
        (st("sub"), JsonValue::Object(vec![(st("b"), JsonValue::Bool(false))])),
    ]);
    let t = json_to_lua_table(v);
    assert_eq!(t.len(), 4);
    assert!(matches!(&t[0], (LuaTableKey::Name(k), LuaTableValue::Str(s)) if k == "name" && s == "n"));
    assert!(matches!(&t[1], (LuaTableKey::Name(k), LuaTableValue::Num(x)) if k == "n" && x.as_i64() == Some(3)));
    match &t[2] {
        (LuaTableKey::Name(k), LuaTableValue::Table(items)) => {
            assert_eq!(k, "list");
            assert_eq!(items.len(), 2);
            assert!(matches!(&items[0], (LuaTableKey::Index(1), LuaTableValue::Bool(true))));
            assert!(matches!(&items[1], (LuaTableKey::Index(3), LuaTableValue::Str(s)) if s == "z"));
        }
        other => panic!("unexpected {other:?}"),
    }
    match &t[3] {
        (LuaTableKey::Name(k), LuaTableValue::Table(sub)) => {
            assert_eq!(k, "sub");
            assert!(matches!(&sub[0], (LuaTableKey::Name(b), LuaTableValue::Bool(false)) if b == "b"));
        }
        other => panic!("unexpected {other:?}"),
    }
    assert!(json_to_lua_table(JsonValue::Bool(true)).is_empty());
}

#[test]
fn test_lua_eval_error() {
    match aipack::lua_error::eval_error(&vec![st("a"), st("b")], st("own")) {
        Error::Cc { ctx, cause } => {
            assert_eq!(ctx, "Error when lua eval\n{}");
            assert_eq!(cause, "a\nb");
        }
        other => panic!("unexpected {other:?}"),
    }
    match aipack::lua_error::eval_error(&vec![], st("own")) {
        Error::Cc { cause, .. } => assert_eq!(cause, "own"),
        other => panic!("unexpected {other:?}"),
    }
}

#[test]
fn test_lua_print_text() {
    assert_eq!(print_text(&vec![Some(st("a")), None, Some(st("3"))]), "a\t<unsupported value for print args>\t3");
    assert_eq!(print_text(&vec![]), "");
}
