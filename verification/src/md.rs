//! Markdown helpers that work on lines, without a full markdown parse.
use vstd::prelude::*;

use crate::text::{lines_spec, seq_join, split_lines, str_chars, string_views, trim, trim_spec};

verus! {

/// Whether the line, once trimmed, starts with three backticks.
pub open spec fn is_fence_line(line: Seq<char>) -> bool {
    let t = trim_spec(line);
    t.len() >= 3 && t[0] == '`' && t[1] == '`' && t[2] == '`'
}

/// Index of the first fence line of `ls`, or `-1`.
pub open spec fn first_fence(ls: Seq<Seq<char>>) -> int
    decreases ls.len(),
{
    if ls.len() == 0 {
        -1
    } else if is_fence_line(ls[0]) {
        0
    } else {
        let r = first_fence(ls.drop_first());
        if r < 0 {
            -1
        } else {
            r + 1
        }
    }
}

/// Index of the last fence line of `ls`, or `-1`.
pub open spec fn last_fence(ls: Seq<Seq<char>>) -> int
    decreases ls.len(),
{
    if ls.len() == 0 {
        -1
    } else if is_fence_line(ls.last()) {
        ls.len() - 1
    } else {
        last_fence(ls.drop_last())
    }
}

/// The content between the first and the last fence line of `content`, its
/// lines joined with `'\n'`; `content` itself when it has fewer than two
/// fence lines.
pub open spec fn outer_block_spec(content: Seq<char>) -> Seq<char> {
    let ls = lines_spec(content);
    let s = first_fence(ls);
    let e = last_fence(ls);
    if 0 <= s && s < e {
        seq_join(ls.subrange(s + 1, e), seq!['\n'])
    } else {
        content
    }
}

proof fn lemma_first_fence_at(ls: Seq<Seq<char>>, i: int)
    requires
        0 <= i <= ls.len(),
        forall|j: int| 0 <= j < i ==> !is_fence_line(#[trigger] ls[j]),
        i < ls.len() ==> is_fence_line(ls[i]),
    ensures
        first_fence(ls) == (if i == ls.len() { -1 } else { i }),
    decreases i,
{
    if i > 0 {
        assert forall|j: int| 0 <= j < i - 1 implies !is_fence_line(#[trigger] ls.drop_first()[j]) by {
            assert(ls.drop_first()[j] == ls[j + 1]);
        }
        lemma_first_fence_at(ls.drop_first(), i - 1);
    }
}

proof fn lemma_last_fence_at(ls: Seq<Seq<char>>, i: int)
    requires
        -1 <= i < ls.len(),
        forall|j: int| i < j < ls.len() ==> !is_fence_line(#[trigger] ls[j]),
        i >= 0 ==> is_fence_line(ls[i]),
    ensures
        last_fence(ls) == i,
    decreases ls.len(),
{
    if ls.len() > 0 && i < ls.len() - 1 {
        lemma_last_fence_at(ls.drop_last(), i);
    }
}

/// Whether the line, once trimmed, starts with three backticks.
pub fn is_fence(line: &str) -> (res: bool)
    ensures
        res == is_fence_line(line@),
{
    let c = str_chars(trim(line));
    c.len() >= 3 && c[0] == '`' && c[1] == '`' && c[2] == '`'
}

/// The strings `list[from..to]` joined with `sep`.
pub fn join_range(list: &Vec<String>, from: usize, to: usize, sep: &str) -> (res: String)
    requires
        from <= to <= list.len(),
    ensures
        res@ == seq_join(string_views(list@).subrange(from as int, to as int), sep@),
{
    let ghost views = string_views(list@).subrange(from as int, to as int);
    let mut res = String::new();
    let mut i: usize = from;
    while i < to
        invariant
            from <= i <= to <= list.len(),
            views == string_views(list@).subrange(from as int, to as int),
            res@ == seq_join(views.take(i - from), sep@),
        decreases to - i,
    {
        assert(views.take(i - from + 1).drop_last() =~= views.take(i - from));
        assert(views.take(i - from + 1).last() == list@[i as int]@);
        if i > from {
            res.append(sep);
        } else {
            assert(views.take(0) =~= Seq::<Seq<char>>::empty());
        }
        res.append(list[i].as_str());
        i = i + 1;
    }
    assert(views.take(to - from) =~= views);
    res
}

/// The content from the first line that starts with three backticks to the
/// last one, both excluded, or the raw content when there are not two such
/// lines.
pub fn outer_block_content_or_raw(md_content: &str) -> (res: String)
    ensures
        res@ == outer_block_spec(md_content@),
{
    let lines = split_lines(md_content);
    let ghost ls = lines_spec(md_content@);
    let mut start: usize = 0;
    let mut found = false;
    while start < lines.len() && !found
        invariant
            string_views(lines@) == ls,
            start <= lines.len(),
            forall|j: int| 0 <= j < start ==> !is_fence_line(#[trigger] ls[j]),
            found ==> start < lines.len() && is_fence_line(ls[start as int]),
        decreases (lines.len() - start) * 2 + (if found { 0int } else { 1int }),
    {
        assert(ls[start as int] == lines@[start as int]@);
        if is_fence(lines[start].as_str()) {
            found = true;
        } else {
            start = start + 1;
        }
    }
    proof {
        lemma_first_fence_at(ls, start as int);
    }
    if !found {
        return md_content.to_owned();
    }
    let mut end: usize = lines.len();
    let mut found_end = false;
    while end > 0 && !found_end
        invariant
            string_views(lines@) == ls,
            end <= lines.len(),
            !found_end ==> forall|j: int| end <= j < lines.len() ==> !is_fence_line(#[trigger] ls[j]),
            found_end ==> end < lines.len() && is_fence_line(ls[end as int])
                && forall|j: int| end < j < lines.len() ==> !is_fence_line(#[trigger] ls[j]),
        decreases end,
    {
        assert(ls[end - 1] == lines@[end - 1]@);
        end = end - 1;
        if is_fence(lines[end].as_str()) {
            found_end = true;
        }
    }
    proof {
        if found_end {
            lemma_last_fence_at(ls, end as int);
        } else {
            lemma_last_fence_at(ls, -1);
        }
    }
    if found_end && start < end {
        proof {
            reveal_strlit("\n");
            assert("\n"@ =~= seq!['\n']);
        }
        join_range(&lines, start + 1, end, "\n")
    } else {
        md_content.to_owned()
    }
}

} // verus!
