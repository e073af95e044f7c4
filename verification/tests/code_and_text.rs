use aipack::code::{comment_line, comment_line_for_ext};
use aipack::lua_support::{ensure, ensure_options_from_lua, EnsureArg, EnsureOptions};
use aipack::error::Error;
use aipack::md::{is_fence, outer_block_content_or_raw};
use aipack::text::{
    ends_with, ensure_single_ending_newline, i64_to_decimal, join_strings, remove_first_line,
    remove_first_lines, remove_first_lines_impl, remove_last_line, remove_last_lines,
    remove_last_lines_impl, split_lines, starts_with, str_contains, trim, trim_end,
    trim_start, u64_to_decimal,
};

#[test]
fn test_code_comment_line_simple() {
    let test_cases = [
        ("rs", "Rust comment", "// Rust comment"),
        ("lua", "Lua comment", "-- Lua comment"),
        ("sql", "SQL comment", "-- SQL comment"),
        ("html", "HTML comment", "<!-- HTML comment -->"),
        ("css", "CSS comment", "/* CSS comment */"),
        ("pcss", "PCSS comment", "/* PCSS comment */"),
        ("py", "Python comment", "# Python comment"),
        ("js", "JavaScript comment", "// JavaScript comment"),
    ];
    for (lang, content, expected) in test_cases.iter() {
        let res = comment_line(lang, content);
        assert_eq!(res, *expected, "Failed for lang_ext: {} with content: {}", lang, content);
    }
}

#[test]
fn test_code_comment_line_normalizes_extension() {
    assert_eq!(comment_line("  LUA ", "x"), "-- x");
    assert_eq!(comment_line("\tHtml\n", "x"), "<!-- x -->");
    assert_eq!(comment_line("PY", ""), "# ");
    // the normalized form is needed by the inner function
    assert_eq!(comment_line_for_ext("LUA", "x"), "// x");
}

#[test]
fn test_text_remove_first_lines_cases() {
    let content = "one\ntwo\nthree";
    assert_eq!(remove_first_lines_impl(content, 0), "one\ntwo\nthree");
    assert_eq!(remove_first_lines_impl(content, 1), "two\nthree");
    assert_eq!(remove_first_lines_impl(content, 2), "three");
    assert_eq!(remove_first_lines_impl(content, 3), "");
    assert_eq!(remove_first_lines_impl(content, 10), "");
    assert_eq!(remove_first_line("a\nb\n"), "b\n");
    assert_eq!(remove_first_lines("a\nb\nc", 2), "c");
    assert_eq!(remove_first_lines("a\nb", 5), "");
    assert_eq!(remove_first_lines_impl("", 1), "");
    assert_eq!(remove_first_lines_impl("héllo\nwörld", 1), "wörld");
}

#[test]
fn test_text_remove_last_lines_cases() {
    let content = "one\ntwo\nthree";
    assert_eq!(remove_last_lines_impl(content, 0), "one\ntwo\nthree");
    assert_eq!(remove_last_lines_impl(content, 1), "one\ntwo");
    assert_eq!(remove_last_lines_impl(content, 2), "one");
    assert_eq!(remove_last_lines_impl(content, 3), "");
    assert_eq!(remove_last_line("a\nb"), "a");
    assert_eq!(remove_last_lines("a\nb\nc", 2), "a");
    assert_eq!(remove_last_lines("a\nb", 5), "");
    assert_eq!(remove_last_lines_impl("héllo\nwörld", 1), "héllo");
}

#[test]
fn test_text_remove_lines_compose_scenario() {
    // removing a then b lines is removing a + b lines
    let content = "1\n2\n3\n4\n5";
    for a in 0..4 {
        for b in 0..4 {
            assert_eq!(
                remove_first_lines_impl(remove_first_lines_impl(content, a), b),
                remove_first_lines_impl(content, a + b)
            );
            assert_eq!(
                remove_last_lines_impl(remove_last_lines_impl(content, a), b),
                remove_last_lines_impl(content, a + b)
            );
        }
    }
    // what is left is a suffix / a prefix of the content
    assert!(content.ends_with(remove_first_lines_impl(content, 2)));
    assert!(content.starts_with(remove_last_lines_impl(content, 2)));
}

#[test]
fn test_text_head_and_tail_rebuild_scenario() {
    for c in ["a\nb\nc", "\n\nx\n", "one\n", "\n"] {
        let k = c.matches('\n').count();
        for n in 1..=k {
            let rebuilt = format!("{}\n{}", remove_last_lines(c, n), remove_first_lines(c, k + 1 - n));
            assert_eq!(rebuilt, c, "n = {n} for {c:?}");
        }
    }
}

#[test]
fn test_text_trim_cases() {
    assert_eq!(trim("  a b \n"), "a b");
    assert_eq!(trim_start("  a b \n"), "a b \n");
    assert_eq!(trim_end("  a b \n"), "  a b");
    assert_eq!(trim("   "), "");
    assert_eq!(trim(""), "");
    assert_eq!(trim("\u{3000}x\u{a0}"), "x");
    assert_eq!(trim("\u{85}\u{2028}x\u{200a}\u{b}"), "x");
    // U+200B (zero width space) has no White_Space property
    assert_eq!(trim("\u{200b}x"), "\u{200b}x");
}

#[test]
fn test_code_comment_line_lowercases_extension() {
    // the extension goes through the standard lowercase mapping
    assert_eq!(comment_line("SQL", "q"), "-- q");
    assert_eq!(comment_line("Css", "c"), "/* c */");
    assert_eq!(comment_line("ÀB", "z"), "// z");
}

#[test]
fn test_text_ensure_laws_scenario() {
    let options = EnsureOptions { prefix: Some("<".to_string()), suffix: Some(">".to_string()) };
    for content in ["", "x", "<x", "x>", "<x>", "<"] {
        let once = ensure(content, &options);
        assert!(once.starts_with('<') && once.ends_with('>'), "{once}");
        assert_eq!(ensure(&once, &options), once);
    }
    for content in ["", "a", "a\n", "a\n\n\n", "\n"] {
        let once = ensure_single_ending_newline(content.to_string());
        assert!(once.ends_with('\n') && !once.ends_with("\n\n"), "{once:?}");
        assert_eq!(ensure_single_ending_newline(once.clone()), once);
    }
    for (ext, content) in [("rs", "x"), ("html", "y"), ("py", "")] {
        assert!(!comment_line(ext, content).ends_with('\n'));
    }
}

#[test]
fn test_lua_text_ensure_ok() {
    let data = [
        ("some- ! -path", Some("./"), Some(".md"), "./some- ! -path.md"),
        ("some- ! -path", None, Some(".md"), "some- ! -path.md"),
        (" ~ some- ! -path", Some(" ~ "), None, " ~ some- ! -path"),
        ("~ some- ! -path", Some(" ~ "), None, " ~ ~ some- ! -path"),
    ];
    for (content, prefix, suffix, expected) in data {
        let options = EnsureOptions {
            prefix: prefix.map(|s| s.to_string()),
            suffix: suffix.map(|s| s.to_string()),
        };
        assert_eq!(ensure(content, &options), expected);
    }
    let none = EnsureOptions { prefix: None, suffix: None };
    assert_eq!(ensure("x", &none), "x");
    let both = EnsureOptions { prefix: Some("x".to_string()), suffix: Some("x".to_string()) };
    assert_eq!(ensure("x", &both), "x");
}

#[test]
fn test_text_ensure_options_errors() {
    match ensure_options_from_lua(EnsureArg::NotTable) {
        Err(Error::Lua(msg)) => assert_eq!(
            msg,
            "Ensure argument needs to be a table with the format {start = string, end = string} (both optional"
        ),
        other => panic!("unexpected {other:?}"),
    }
    let arg = EnsureArg::Table {
        prefix: Some("a".to_string()),
        suffix: None,
        string_keys: vec!["prefix".to_string(), "start".to_string(), "other".to_string()],
    };
    match ensure_options_from_lua(arg) {
        Err(Error::Lua(msg)) => assert_eq!(
            msg,
            "Ensure argument contains invalid table property `start`. Can only contain `prefix` and/or `suffix`"
        ),
        other => panic!("unexpected {other:?}"),
    }
    let arg = EnsureArg::Table {
        prefix: Some("a".to_string()),
        suffix: Some("b".to_string()),
        string_keys: vec!["suffix".to_string(), "prefix".to_string()],
    };
    let o = ensure_options_from_lua(arg).unwrap();
    assert_eq!(o.prefix.as_deref(), Some("a"));
    assert_eq!(o.suffix.as_deref(), Some("b"));
}

#[test]
fn test_text_ensure_single_ending_newline_cases() {
    assert_eq!(ensure_single_ending_newline("".to_string()), "\n");
    assert_eq!(ensure_single_ending_newline("abc".to_string()), "abc\n");
    assert_eq!(ensure_single_ending_newline("abc\n".to_string()), "abc\n");
    assert_eq!(ensure_single_ending_newline("abc\n\n\n".to_string()), "abc\n");
    assert_eq!(ensure_single_ending_newline("\n\n".to_string()), "\n");
    assert_eq!(ensure_single_ending_newline("a\n\nb".to_string()), "a\n\nb\n");
}

#[test]
fn test_text_starts_ends_contains() {
    assert!(starts_with("hello", "he"));
    assert!(starts_with("hello", ""));
    assert!(!starts_with("he", "hello"));
    assert!(ends_with("hello", "llo"));
    assert!(!ends_with("hello", "hel"));
    assert!(str_contains("a traceback here", "traceback"));
    assert!(!str_contains("nothing", "traceback"));
    assert!(str_contains("", ""));
}

#[test]
fn test_text_split_and_join_lines() {
    assert_eq!(split_lines("a\r\nb\n\nc\n"), vec!["a", "b", "", "c"]);
    assert_eq!(split_lines(""), Vec::<String>::new());
    assert_eq!(split_lines("x\r"), vec!["x\r"]);
    let parts = vec!["a".to_string(), "b".to_string(), "c".to_string()];
    assert_eq!(join_strings(&parts, ", "), "a, b, c");
    assert_eq!(join_strings(&Vec::new(), ", "), "");
}

#[test]
fn test_text_decimal() {
    assert_eq!(u64_to_decimal(0), "0");
    assert_eq!(u64_to_decimal(1234567890), "1234567890");
    assert_eq!(i64_to_decimal(-42), "-42");
    assert_eq!(i64_to_decimal(i64::MIN), "-9223372036854775808");
}

#[test]
fn test_lua_md_outer_block_content_or_raw() {
    let content = "```rust\nfn main() {\n    // Some nested blocks\n    let example = ```typescript\n    const x = 42;\n    ```;\n    println!(\"Hello!\");\n}\n```";
    let res = outer_block_content_or_raw(content);
    assert!(res.contains("fn main()"));
    assert!(res.contains("const x = 42"));
    assert!(!res.contains("```rust"));

    let raw = "Just some plain\ntext without any code blocks";
    assert_eq!(outer_block_content_or_raw(raw), "Just some plain\ntext without any code blocks");
}

#[test]
fn test_md_outer_block_exact() {
    assert_eq!(outer_block_content_or_raw("```\na\nb\n```"), "a\nb");
    assert_eq!(outer_block_content_or_raw("intro\n  ```md\nx\n```  \nafter"), "x");
    assert_eq!(outer_block_content_or_raw("```\nonly one fence"), "```\nonly one fence");
    assert_eq!(outer_block_content_or_raw("```\n```"), "");
    assert!(is_fence("  ```lua"));
    assert!(!is_fence("``"));
}
