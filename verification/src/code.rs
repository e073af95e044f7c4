//! The `code` script module: comment lines in the style of a language.

use vstd::prelude::*;
use vstd::string::*;
use crate::json::str_equal;
use crate::text::{str_to_lowercase, to_lowercase, trim, trim_spec};

verus! {

/// The single-line comment of `content` for the (normalized) extension `ext`:
/// `-- ` for lua and sql, `<!-- -->` for html, `/* */` for css and pcss,
/// `# ` for py, and `// ` for anything else.
pub open spec fn comment_for_ext(ext: Seq<char>, content: Seq<char>) -> Seq<char> {
    if ext == "lua"@ || ext == "sql"@ {
        "-- "@ + content
    } else if ext == "html"@ {
        "<!-- "@ + content + " -->"@
    } else if ext == "css"@ || ext == "pcss"@ {
        "/* "@ + content + " */"@
    } else if ext == "py"@ {
        "# "@ + content
    } else {
        "// "@ + content
    }
}

/// A comment line ends with no newline when its content ends with none.
pub proof fn lemma_comment_has_no_trailing_newline(ext: Seq<char>, content: Seq<char>)
    requires
        content.len() == 0 || content.last() != '\n',
    ensures
        comment_for_ext(ext, content).len() > 0,
        comment_for_ext(ext, content).last() != '\n',
{
    reveal_strlit("-- ");
    reveal_strlit("<!-- ");
    reveal_strlit(" -->");
    reveal_strlit("/* ");
    reveal_strlit(" */");
    reveal_strlit("# ");
    reveal_strlit("// ");
}

/// The comment line of `comment_content` for an already normalized extension.
pub fn comment_line_for_ext(ext: &str, comment_content: &str) -> (res: String)
    ensures
        res@ == comment_for_ext(ext@, comment_content@),
{
    let mut res;
    if str_equal(ext, "lua") || str_equal(ext, "sql") {
        res = String::from_str("-- ");
        res.append(comment_content);
    } else if str_equal(ext, "html") {
        res = String::from_str("<!-- ");
        res.append(comment_content);
        res.append(" -->");
    } else if str_equal(ext, "css") || str_equal(ext, "pcss") {
        res = String::from_str("/* ");
        res.append(comment_content);
        res.append(" */");
    } else if str_equal(ext, "py") {
        res = String::from_str("# ");
        res.append(comment_content);
    } else {
        res = String::from_str("// ");
        res.append(comment_content);
    }
    res
}

/// `utils.code.comment_line(lang_ext, comment_content)`: the comment line of
/// `comment_content` in the style of the language extension, which is first
/// trimmed and lowercased. The result has no trailing newline.
pub fn comment_line(lang_ext: &str, comment_content: &str) -> (res: String)
    ensures
        res@ == comment_for_ext(str_to_lowercase(trim_spec(lang_ext@)), comment_content@),
{
    let ext = to_lowercase(trim(lang_ext));
    comment_line_for_ext(ext.as_str(), comment_content)
}

} // verus!
