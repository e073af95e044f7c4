use aipack::path::{
    is_windows_style, path_join_non_os_normalized, path_join_os_normalized,
    path_join_os_normalized_with_sep, path_parent, path_split, split_parts,
};
use std::path::{PathBuf, MAIN_SEPARATOR};

fn parts(items: &[&str]) -> Vec<String> {
    items.iter().map(|s| s.to_string()).collect()
}

fn common_non_os_normalized_cases() {
    let mut expected1 = PathBuf::new();
    expected1.push("folder");
    expected1.push("subfolder");
    expected1.push("file.txt");

    let mut expected2 = PathBuf::new();
    expected2.push("folder\\");
    expected2.push("subfolder/");
    expected2.push("file.txt");

    let cases = vec![
        (parts(&["folder", "subfolder", "file.txt"]), expected1.to_string_lossy().to_string()),
        (parts(&["folder\\", "subfolder/", "file.txt"]), expected2.to_string_lossy().to_string()),
    ];
    for (input, expected) in cases {
        let result = path_join_non_os_normalized(&input);
        assert_eq!(result, expected, "Non-normalized failed for input: {:?}", input);
    }
}

#[test]
fn test_lua_path_join_default() {
    common_non_os_normalized_cases();
}

#[test]
fn test_lua_path_join_os_non_normalized() {
    common_non_os_normalized_cases();
}

#[test]
fn test_lua_path_join_os_normalized_lua_engine() {
    let sep = MAIN_SEPARATOR;
    let cases = vec![
        (parts(&["folder", "subfolder", "file.txt"]), format!("folder{sep}subfolder{sep}file.txt", sep = sep)),
        (parts(&["leading", "", "trailing"]), format!("leading{sep}trailing", sep = sep)),
        (parts(&["folder\\", "subfolder/", "file.txt"]), format!("folder{sep}subfolder{sep}file.txt", sep = sep)),
        (parts(&["C:/Users", "Admin", "Documents/file.txt"]), "C:\\Users\\Admin\\Documents\\file.txt".to_string()),
        (parts(&["\\server", "share", "folder", "file.txt"]), "\\server\\share\\folder\\file.txt".to_string()),
    ];
    for (input, expected) in cases {
        let result = path_join_os_normalized(&input);
        assert_eq!(result, expected, "Normalized failed for input: {:?}", input);
    }
}

#[test]
fn test_lua_path_join_os_normalized_reflective() {
    let cases = vec![
        (parts(&["folder", "subfolder", "file.txt"]), format!("folder{}subfolder{}file.txt", MAIN_SEPARATOR, MAIN_SEPARATOR)),
        (parts(&["single"]), "single".to_string()),
        (parts(&["leading", "", "trailing"]), format!("leading{}trailing", MAIN_SEPARATOR)),
        (parts(&["C:\\Users", "Admin", "Documents\\file.txt"]), "C:\\Users\\Admin\\Documents\\file.txt".to_string()),
        (parts(&["C:/Users", "Admin", "Documents/file.txt"]), "C:\\Users\\Admin\\Documents\\file.txt".to_string()),
        (parts(&["C:/", "Windows", "System32"]), "C:\\Windows\\System32".to_string()),
    ];
    for (input, expected) in cases {
        assert_eq!(path_join_os_normalized(&input), expected, "Path mismatch for input: {:?}", input);
    }
}

#[test]
fn test_path_join_os_normalized_with_given_separator() {
    assert_eq!(path_join_os_normalized_with_sep(&parts(&["a/", "/b/", "c"]), '/'), "a/b/c");
    assert_eq!(path_join_os_normalized_with_sep(&parts(&["a/", "/b/", "c"]), '\\'), "a\\b\\c");
    assert_eq!(path_join_os_normalized_with_sep(&parts(&[]), '/'), "");
    assert_eq!(path_join_os_normalized_with_sep(&parts(&["", ""]), '/'), "");
    assert_eq!(path_join_os_normalized_with_sep(&parts(&["/", "x"]), '/'), "/x");
    assert_eq!(path_join_os_normalized_with_sep(&parts(&["a", "//", "b"]), '/'), "a/b");
}

#[test]
fn test_path_windows_join_has_no_forward_slash() {
    let inputs = [
        parts(&["C:/a/b", "c/d", "/e/"]),
        parts(&["\\srv", "x/y"]),
        parts(&["D:", "", "a//b"]),
    ];
    for input in inputs.iter() {
        let out = path_join_os_normalized_with_sep(input, '/');
        assert!(!out.contains('/'), "{out}");
    }
}

#[test]
fn test_path_is_windows_style() {
    assert!(is_windows_style("C:"));
    assert!(is_windows_style("C:/Users"));
    assert!(is_windows_style("\\server"));
    assert!(!is_windows_style("folder"));
    assert!(!is_windows_style("/abs"));
    assert!(!is_windows_style(""));
    assert!(is_windows_style("é:"));
    assert!(!is_windows_style("éx:"));
}

#[test]
fn test_lua_path_parent() {
    let paths = &[
        ("./agent-hello.devai", "."),
        ("./", ""),
        (".", ""),
        ("./sub-dir/file.txt", "./sub-dir"),
        ("./sub-dir/file", "./sub-dir"),
        ("./sub-dir/", "."),
        ("./sub-dir", "."),
    ];
    for (path, expected) in paths {
        let result = path_parent(path).unwrap();
        assert_eq!(result, *expected, "Parent mismatch for path: {path}");
    }
    assert_eq!(path_parent("/"), None);
    assert_eq!(path_parent(""), None);
    assert_eq!(path_parent("file.txt").as_deref(), Some(""));
    assert_eq!(path_parent("dir/file.txt").as_deref(), Some("dir"));
    assert_eq!(path_split("file.txt"), (String::new(), "file.txt".to_string()));
    assert_eq!(path_join_non_os_normalized(&Vec::new()), "");
    assert_eq!(path_join_non_os_normalized(&parts(&["a", "b", "c"])), format!("a{MAIN_SEPARATOR}b{MAIN_SEPARATOR}c"));
    assert_eq!(path_join_non_os_normalized(&parts(&["solo"])), "solo");
    assert_eq!(path_parent("/").as_deref(), None);
    assert_eq!(path_parent("./").as_deref(), Some(""));
    assert_eq!(path_parent("/a/b/").as_deref(), Some("/a"));
    assert_eq!(path_split("./x/y"), ("./x".to_string(), "y".to_string()));
    assert_eq!(path_parent("../x").as_deref(), Some(".."));
    assert_eq!(path_parent("a//b").as_deref(), Some("a"));
    assert_eq!(path_parent("..").as_deref(), Some(""));
    assert_eq!(path_parent("/..").as_deref(), Some("/"));
    assert_eq!(path_split("x/.."), ("x".to_string(), String::new()));
    assert_eq!(path_split("a/b//"), ("a".to_string(), "b".to_string()));
    assert_eq!(path_split("."), (String::new(), String::new()));
    assert_eq!(
        path_join_non_os_normalized(&parts(&["a/b", "../c", "d"])),
        format!("a/b{MAIN_SEPARATOR}../c{MAIN_SEPARATOR}d")
    );
    assert_eq!(path_split(""), (String::new(), String::new()));
}

#[test]
fn test_lua_path_split() {
    let paths = &[
        ("some/path/to_file.md", "some/path", "to_file.md"),
        ("folder/file.txt", "folder", "file.txt"),
        ("justafile.md", "", "justafile.md"),
        ("/absolute/path/file.log", "/absolute/path", "file.log"),
        ("/file_at_root", "/", "file_at_root"),
        ("trailing/slash/", "trailing", "slash"),
    ];
    for (path, expected_parent, expected_filename) in paths {
        let (parent, filename) = path_split(path);
        assert_eq!(parent, *expected_parent, "Parent mismatch for path: {path}");
        assert_eq!(filename, *expected_filename, "Filename mismatch for path: {path}");
    }
}

#[test]
fn test_path_split_parts_defaults() {
    assert_eq!(split_parts(None, None), (String::new(), String::new()));
    assert_eq!(split_parts(Some("a".to_string()), None), ("a".to_string(), String::new()));
}
