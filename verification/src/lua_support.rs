//! Decisions of the Lua utility modules on the arguments they receive, once
//! the Lua values are read: lists of strings, `ensure` options, markdown block
//! options, and the `package.path` additions.

use vstd::prelude::*;
use vstd::string::*;
use crate::dynamic_support::StringsArg;
use crate::error::Error;
use crate::json::str_equal;
use crate::text::{ends_with, join_strings, seq_ends_with, seq_join, seq_starts_with, starts_with, string_views};

verus! {

/// What a Lua value could not be converted from.
#[derive(Debug, PartialEq, Eq, Structural)]
pub enum ConversionFrom {
    Table,
    Unknown,
}

/// A failed conversion of a Lua value to a list of strings.
#[derive(Debug)]
pub struct LuaConversionError {
    pub from: ConversionFrom,
    pub message: String,
}

/// Whether every item of the list is a string.
pub open spec fn all_present(items: Seq<Option<String>>) -> bool {
    forall|i: int| 0 <= i < items.len() ==> (#[trigger] items[i]) is Some
}

/// The strings of a list whose items all are strings.
pub open spec fn unwrap_all(items: Seq<Option<String>>) -> Seq<String> {
    items.map_values(|o: Option<String>| o->0)
}

/// The strings of a Lua value that is a string or a list of strings: a
/// string gives itself; a table gives its sequence items, all of which must
/// be strings; anything else is an error.
pub fn to_vec_of_strings(value: StringsArg, err_prefix: &str) -> (res: Result<Vec<String>, LuaConversionError>)
    ensures
        match value {
            StringsArg::Single(s) => res matches Ok(v) && v@ == seq![s],
            StringsArg::List(items) => if all_present(items@) {
                res matches Ok(v) && v@ == unwrap_all(items@)
            } else {
                res matches Err(e) && e.from == ConversionFrom::Table && e.message@ == err_prefix@
                    + " - Table contains non-string values"@
            },
            StringsArg::Other => res matches Err(e) && e.from == ConversionFrom::Unknown && e.message@
                == err_prefix@ + " - Expected a string or a list of strings"@,
        },
{
    match value {
        StringsArg::Single(s) => {
            let mut v: Vec<String> = Vec::new();
            v.push(s);
            Ok(v)
        },
        StringsArg::List(items) => {
            let ghost all = items@;
            let mut result: Vec<String> = Vec::new();
            let mut i: usize = 0;
            while i < items.len()
                invariant
                    i <= items.len(),
                    items@ == all,
                    value == StringsArg::List(items),
                    forall|j: int| 0 <= j < i ==> (#[trigger] all[j]) is Some,
                    result@ == unwrap_all(all.take(i as int)),
                decreases items.len() - i,
            {
                match &items[i] {
                    Some(s) => {
                        result.push(s.clone());
                        assert(unwrap_all(all.take(i + 1)) =~= unwrap_all(all.take(i as int)).push(*s));
                    },
                    None => {
                        assert(all[i as int] is None);
                        assert(!all_present(all));
                        let mut message = String::from_str(err_prefix);
                        message.append(" - Table contains non-string values");
                        return Err(LuaConversionError { from: ConversionFrom::Table, message });
                    },
                }
                i = i + 1;
            }
            assert(all.take(items.len() as int) =~= all);
            Ok(result)
        },
        StringsArg::Other => {
            let mut message = String::from_str(err_prefix);
            message.append(" - Expected a string or a list of strings");
            Err(LuaConversionError { from: ConversionFrom::Unknown, message })
        },
    }
}

/// The options of `utils.text.ensure`.
#[derive(Debug)]
pub struct EnsureOptions {
    pub prefix: Option<String>,
    pub suffix: Option<String>,
}

/// `content` with `prefix` put before it when it does not start with it, and
/// `suffix` put after it when it does not end with it.
pub open spec fn ensure_spec(content: Seq<char>, prefix: Option<Seq<char>>, suffix: Option<Seq<char>>) -> Seq<char> {
    let head = if prefix is Some && !seq_starts_with(content, prefix->0) {
        prefix->0
    } else {
        Seq::empty()
    };
    let tail = if suffix is Some && !seq_ends_with(content, suffix->0) {
        suffix->0
    } else {
        Seq::empty()
    };
    head + content + tail
}

/// The text that `ensure` gives starts with the prefix and ends with the
/// suffix that it was given, and a second call with the same options leaves
/// it as it is.
pub proof fn lemma_ensure_prefix_suffix(content: Seq<char>, prefix: Option<Seq<char>>, suffix: Option<Seq<char>>)
    ensures
        prefix matches Some(p) ==> seq_starts_with(ensure_spec(content, prefix, suffix), p),
        suffix matches Some(x) ==> seq_ends_with(ensure_spec(content, prefix, suffix), x),
        ensure_spec(ensure_spec(content, prefix, suffix), prefix, suffix) == ensure_spec(content, prefix, suffix),
{
    let r = ensure_spec(content, prefix, suffix);
    let head = if prefix is Some && !seq_starts_with(content, prefix->0) {
        prefix->0
    } else {
        Seq::empty()
    };
    let tail = if suffix is Some && !seq_ends_with(content, suffix->0) {
        suffix->0
    } else {
        Seq::empty()
    };
    assert(r == head + content + tail);
    if prefix is Some {
        let p = prefix->0;
        if seq_starts_with(content, p) {
            assert(r.take(p.len() as int) =~= content.take(p.len() as int));
        } else {
            assert(r.take(p.len() as int) =~= p);
        }
        assert(seq_starts_with(r, p));
    }
    if suffix is Some {
        let x = suffix->0;
        if seq_ends_with(content, x) {
            assert(r.skip(r.len() - x.len()) =~= content.skip(content.len() - x.len()));
        } else {
            assert(r.skip(r.len() - x.len()) =~= x);
        }
        assert(seq_ends_with(r, x));
    }
    assert(ensure_spec(r, prefix, suffix) =~= r);
}

/// The view of an optional string.
pub open spec fn opt_view(o: Option<String>) -> Option<Seq<char>> {
    match o {
        Some(s) => Some(s@),
        None => None,
    }
}

/// `content` made to start with the prefix and end with the suffix of
/// `options`, each added only where it is missing.
pub fn ensure(content: &str, options: &EnsureOptions) -> (res: String)
    ensures
        res@ == ensure_spec(content@, opt_view(options.prefix), opt_view(options.suffix)),
{
    let mut res = String::new();
    match &options.prefix {
        Some(p) => {
            if !starts_with(content, p.as_str()) {
                res.append(p.as_str());
            }
        },
        None => {},
    }
    res.append(content);
    match &options.suffix {
        Some(x) => {
            if !ends_with(content, x.as_str()) {
                res.append(x.as_str());
            }
        },
        None => {},
    }
    res
}

/// The second argument of `utils.text.ensure`, as read from Lua: not a
/// table, or a table with its `prefix` and `suffix` (when they convert to
/// strings) and the keys of its properties that are strings.
#[derive(Debug)]
pub enum EnsureArg {
    NotTable,
    Table { prefix: Option<String>, suffix: Option<String>, string_keys: Vec<String> },
}

/// Whether `key` is one of the two keys that `ensure` options may have.
pub open spec fn is_ensure_key(key: Seq<char>) -> bool {
    key == "prefix"@ || key == "suffix"@
}

/// `EnsureOptions::from_lua`: a table whose string keys are only `prefix`
/// and `suffix` gives its options; the first other string key is an error,
/// and so is a value that is not a table.
pub fn ensure_options_from_lua(arg: EnsureArg) -> (res: Result<EnsureOptions, Error>)
    ensures
        match arg {
            EnsureArg::NotTable => res matches Err(Error::Lua(msg)) && msg@
                == "Ensure argument needs to be a table with the format {start = string, end = string} (both optional"@,
            EnsureArg::Table { prefix, suffix, string_keys } => {
                if forall|i: int| 0 <= i < string_keys@.len() ==> is_ensure_key(#[trigger] string_keys@[i]@) {
                    res matches Ok(o) && o.prefix == prefix && o.suffix == suffix
                } else {
                    exists|i: int|
                        {
                            &&& 0 <= i < string_keys@.len()
                            &&& !is_ensure_key(#[trigger] string_keys@[i]@)
                            &&& forall|j: int| 0 <= j < i ==> is_ensure_key(#[trigger] string_keys@[j]@)
                            &&& (res matches Err(Error::Lua(msg)) && msg@
                                == "Ensure argument contains invalid table property `"@ + string_keys@[i]@
                                + "`. Can only contain `prefix` and/or `suffix`"@)
                        }
                }
            },
        },
{
    match arg {
        EnsureArg::NotTable => Err(
            Error::Lua(
                String::from_str(
                    "Ensure argument needs to be a table with the format {start = string, end = string} (both optional",
                ),
            ),
        ),
        EnsureArg::Table { prefix, suffix, string_keys } => {
            let mut i: usize = 0;
            while i < string_keys.len()
                invariant
                    i <= string_keys.len(),
                    arg == (EnsureArg::Table { prefix, suffix, string_keys }),
                    forall|j: int| 0 <= j < i ==> is_ensure_key(#[trigger] string_keys@[j]@),
                decreases string_keys.len() - i,
            {
                let key = string_keys[i].as_str();
                if !str_equal(key, "prefix") && !str_equal(key, "suffix") {
                    let mut msg = String::from_str("Ensure argument contains invalid table property `");
                    msg.append(key);
                    msg.append("`. Can only contain `prefix` and/or `suffix`");
                    assert(!is_ensure_key(string_keys@[i as int]@));
                    let res: Result<EnsureOptions, Error> = Err(Error::Lua(msg));
                    assert({
                        &&& 0 <= i < string_keys@.len()
                        &&& !is_ensure_key(string_keys@[i as int]@)
                        &&& forall|j: int| 0 <= j < i ==> is_ensure_key(#[trigger] string_keys@[j]@)
                        &&& (res matches Err(Error::Lua(m)) && m@
                            == "Ensure argument contains invalid table property `"@ + string_keys@[i as int]@
                            + "`. Can only contain `prefix` and/or `suffix`"@)
                    });
                    return res;
                }
                i = i + 1;
            }
            Ok(EnsureOptions { prefix, suffix })
        },
    }
}

/// What `extract_blocks` does with the remaining content.
#[derive(Debug, PartialEq, Eq, Structural)]
pub enum Extrude {
    Content,
}

/// A property of the `extract_blocks` options table, as read from Lua.
#[derive(Debug)]
pub enum OptionProp {
    /// The property is absent (or nil).
    Absent,
    /// A string value.
    Str(String),
    /// A value that converts to a string without being one (a number).
    Convertible(String),
    /// A value that does not convert to a string.
    NotConvertible,
}

/// The second argument of `utils.md.extract_blocks`, as read from Lua.
#[derive(Debug)]
pub enum BlocksOptions {
    /// No options, or a value that is neither a string nor a table.
    NoOptions,
    /// A language name.
    Lang(String),
    /// A table with its `lang` and `extrude` properties.
    Table { lang: OptionProp, extrude: OptionProp },
}

/// The language and extrude mode that the `extract_blocks` options select:
/// a string is the language; in a table, `lang` must convert to a string and
/// `extrude`, when it is a string, must be `"content"`.
pub fn extract_blocks_options(options: BlocksOptions) -> (res: Result<(Option<String>, Option<Extrude>), Error>)
    ensures
        match options {
            BlocksOptions::NoOptions => res == Ok::<(Option<String>, Option<Extrude>), Error>((None, None)),
            BlocksOptions::Lang(s) => res == Ok::<(Option<String>, Option<Extrude>), Error>((Some(s), None)),
            BlocksOptions::Table { lang, extrude } => match lang {
                OptionProp::NotConvertible => res matches Err(Error::Custom(msg)) && msg@
                    == "md_extract_blocks lang options must be of type string"@,
                _ => {
                    let l = match lang {
                        OptionProp::Str(s) => Some(s),
                        OptionProp::Convertible(s) => Some(s),
                        _ => None,
                    };
                    match extrude {
                        OptionProp::Str(e) => if e@ == "content"@ {
                            res == Ok::<(Option<String>, Option<Extrude>), Error>((l, Some(Extrude::Content)))
                        } else {
                            res matches Err(Error::Custom(msg)) && msg@
                                == "md_extract_blocks extrude must be = to 'content' for now"@
                        },
                        _ => res == Ok::<(Option<String>, Option<Extrude>), Error>((l, None)),
                    }
                },
            },
        },
{
    match options {
        BlocksOptions::NoOptions => Ok((None, None)),
        BlocksOptions::Lang(s) => Ok((Some(s), None)),
        BlocksOptions::Table { lang, extrude } => {
            let l = match lang {
                OptionProp::Str(s) => Some(s),
                OptionProp::Convertible(s) => Some(s),
                OptionProp::Absent => None,
                OptionProp::NotConvertible => {
                    return Err(
                        Error::Custom(String::from_str("md_extract_blocks lang options must be of type string")),
                    );
                },
            };
            match extrude {
                OptionProp::Str(e) => {
                    if str_equal(e.as_str(), "content") {
                        Ok((l, Some(Extrude::Content)))
                    } else {
                        Err(
                            Error::Custom(
                                String::from_str("md_extract_blocks extrude must be = to 'content' for now"),
                            ),
                        )
                    }
                },
                _ => Ok((l, None)),
            }
        },
    }
}

/// The `package.path` entries of a directory of Lua modules.
pub open spec fn lua_dir_entries(dir: Seq<char>) -> Seq<char> {
    dir + "/?.lua;"@ + dir + "/?/init.lua"@
}

/// The `package.path` entries of the `lua/` directory of a base path.
pub open spec fn base_lua_entries(base: Seq<char>) -> Seq<char> {
    base + "/lua/?.lua;"@ + base + "/lua/?/init.lua"@
}

/// The `package.path` at engine start: the custom Lua directory, then the
/// base Lua directory when there is one, then the current path.
pub fn init_package_path_value(custom_lua_dir: &str, base_lua_dir: Option<&str>, path: &str) -> (res: String)
    ensures
        res@ == match base_lua_dir {
            Some(b) => lua_dir_entries(custom_lua_dir@) + ";"@ + lua_dir_entries(b@) + ";"@ + path@,
            None => lua_dir_entries(custom_lua_dir@) + ";"@ + path@,
        },
{
    let mut res = String::from_str(custom_lua_dir);
    res.append("/?.lua;");
    res.append(custom_lua_dir);
    res.append("/?/init.lua");
    match base_lua_dir {
        Some(b) => {
            res.append(";");
            res.append(b);
            res.append("/?.lua;");
            res.append(b);
            res.append("/?/init.lua");
        },
        None => {},
    }
    res.append(";");
    res.append(path);
    res
}

/// The `package.path` once the `lua/` directories of additional base paths
/// are put in front of it.
pub fn upgraded_package_path(addl_base_lua_paths: &Vec<String>, path: &str) -> (res: String)
    ensures
        res@ == seq_join(
            string_views(addl_base_lua_paths@).map_values(|p: Seq<char>| base_lua_entries(p)),
            ";"@,
        ) + ";"@ + path@,
{
    let mut paths: Vec<String> = Vec::new();
    let mut i: usize = 0;
    while i < addl_base_lua_paths.len()
        invariant
            i <= addl_base_lua_paths.len(),
            paths@.len() == i,
            forall|j: int| 0 <= j < i ==> #[trigger] paths@[j]@ == base_lua_entries(addl_base_lua_paths@[j]@),
        decreases addl_base_lua_paths.len() - i,
    {
        let p = addl_base_lua_paths[i].as_str();
        let mut entry = String::from_str(p);
        entry.append("/lua/?.lua;");
        entry.append(p);
        entry.append("/lua/?/init.lua");
        paths.push(entry);
        i = i + 1;
    }
    assert(string_views(paths@) =~= string_views(addl_base_lua_paths@).map_values(
        |p: Seq<char>| base_lua_entries(p),
    ));
    let mut res = join_strings(&paths, ";");
    res.append(";");
    res.append(path);
    res
}

/// The text of one argument of Lua's `print`: its own text, or a marker for
/// a value that `print` does not show.
pub open spec fn print_part(p: Option<String>) -> Seq<char> {
    match p {
        Some(s) => s@,
        None => "<unsupported value for print args>"@,
    }
}

/// The line that Lua's `print` shows for its arguments (strings, numbers and
/// booleans as their text, anything else as a marker), joined with tabs.
pub fn print_text(parts: &Vec<Option<String>>) -> (res: String)
    ensures
        res@ == seq_join(parts@.map_values(|p: Option<String>| print_part(p)), "\t"@),
{
    let mut texts: Vec<String> = Vec::new();
    let mut i: usize = 0;
    while i < parts.len()
        invariant
            i <= parts.len(),
            texts@.len() == i,
            forall|j: int| 0 <= j < i ==> #[trigger] texts@[j]@ == print_part(parts@[j]),
        decreases parts.len() - i,
    {
        let t = match &parts[i] {
            Some(s) => s.clone(),
            None => String::from_str("<unsupported value for print args>"),
        };
        texts.push(t);
        i = i + 1;
    }
    assert(string_views(texts@) =~= parts@.map_values(|p: Option<String>| print_part(p)));
    join_strings(&texts, "\t")
}

} // verus!
