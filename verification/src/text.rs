//! Line-oriented text utilities (`utils.text.*` / `text::*` in scripts).

use vstd::prelude::*;
use vstd::string::*;

verus! {

/// `s` without its first `n` lines: everything after the `n`-th `'\n'`.
/// When `s` has fewer than `n` newlines, nothing is left.
pub open spec fn drop_first_lines(s: Seq<char>, n: nat) -> Seq<char>
    decreases s.len(),
{
    if n == 0 {
        s
    } else if s.len() == 0 {
        Seq::empty()
    } else if s[0] == '\n' {
        drop_first_lines(s.drop_first(), (n - 1) as nat)
    } else {
        drop_first_lines(s.drop_first(), n)
    }
}

/// `s` without its last `n` lines: everything before the `n`-th `'\n'`
/// counted from the end. When `s` has fewer than `n` newlines, nothing is left.
pub open spec fn drop_last_lines(s: Seq<char>, n: nat) -> Seq<char>
    decreases s.len(),
{
    if n == 0 {
        s
    } else if s.len() == 0 {
        Seq::empty()
    } else if s.last() == '\n' {
        drop_last_lines(s.drop_last(), (n - 1) as nat)
    } else {
        drop_last_lines(s.drop_last(), n)
    }
}

/// Removing the first `a` lines, then the first `b` lines of what is left,
/// is the same as removing the first `a + b` lines.
pub proof fn lemma_drop_first_lines_compose(s: Seq<char>, a: nat, b: nat)
    ensures
        drop_first_lines(drop_first_lines(s, a), b) == drop_first_lines(s, a + b),
    decreases s.len(),
{
    if a == 0 {
    } else if s.len() == 0 {
        assert(drop_first_lines(Seq::<char>::empty(), b) =~= Seq::<char>::empty()) by {
            if b > 0 {
            }
        }
    } else if s[0] == '\n' {
        lemma_drop_first_lines_compose(s.drop_first(), (a - 1) as nat, b);
        assert((a - 1) as nat + b == (a + b - 1) as nat);
    } else {
        lemma_drop_first_lines_compose(s.drop_first(), a, b);
    }
}

/// Removing the last `a` lines, then the last `b` lines of what is left,
/// is the same as removing the last `a + b` lines.
pub proof fn lemma_drop_last_lines_compose(s: Seq<char>, a: nat, b: nat)
    ensures
        drop_last_lines(drop_last_lines(s, a), b) == drop_last_lines(s, a + b),
    decreases s.len(),
{
    if a == 0 {
    } else if s.len() == 0 {
        assert(drop_last_lines(Seq::<char>::empty(), b) =~= Seq::<char>::empty()) by {
            if b > 0 {
            }
        }
    } else if s.last() == '\n' {
        lemma_drop_last_lines_compose(s.drop_last(), (a - 1) as nat, b);
        assert((a - 1) as nat + b == (a + b - 1) as nat);
    } else {
        lemma_drop_last_lines_compose(s.drop_last(), a, b);
    }
}

/// What is left after removing first lines is a suffix of the text.
pub proof fn lemma_drop_first_lines_is_suffix(s: Seq<char>, n: nat)
    ensures
        drop_first_lines(s, n).len() <= s.len(),
        drop_first_lines(s, n) =~= s.skip(s.len() - drop_first_lines(s, n).len()),
    decreases s.len(),
{
    if n == 0 {
    } else if s.len() == 0 {
    } else if s[0] == '\n' {
        lemma_drop_first_lines_is_suffix(s.drop_first(), (n - 1) as nat);
    } else {
        lemma_drop_first_lines_is_suffix(s.drop_first(), n);
    }
}

/// What is left after removing last lines is a prefix of the text.
pub proof fn lemma_drop_last_lines_is_prefix(s: Seq<char>, n: nat)
    ensures
        drop_last_lines(s, n).len() <= s.len(),
        drop_last_lines(s, n) =~= s.take(drop_last_lines(s, n).len() as int),
    decreases s.len(),
{
    if n == 0 {
    } else if s.len() == 0 {
    } else if s.last() == '\n' {
        lemma_drop_last_lines_is_prefix(s.drop_last(), (n - 1) as nat);
    } else {
        lemma_drop_last_lines_is_prefix(s.drop_last(), n);
    }
}

/// The number of `'\n'` in `s`.
pub open spec fn newline_count(s: Seq<char>) -> nat
    decreases s.len(),
{
    if s.len() == 0 {
        0
    } else {
        newline_count(s.drop_first()) + if s[0] == '\n' { 1nat } else { 0nat }
    }
}

proof fn lemma_newline_count_last(s: Seq<char>)
    requires
        s.len() > 0,
    ensures
        newline_count(s) == newline_count(s.drop_last()) + if s.last() == '\n' { 1nat } else { 0nat },
    decreases s.len(),
{
    if s.len() == 1 {
        assert(s.drop_last() =~= Seq::<char>::empty());
        assert(s.drop_first() =~= Seq::<char>::empty());
    } else {
        lemma_newline_count_last(s.drop_first());
        assert(s.drop_first().drop_last() =~= s.drop_last().drop_first());
        assert(s.drop_last()[0] == s[0]);
    }
}

proof fn lemma_drop_last_lines_cons(c: char, t: Seq<char>, n: nat)
    requires
        n <= newline_count(t),
    ensures
        drop_last_lines(seq![c] + t, n) == seq![c] + drop_last_lines(t, n),
    decreases t.len(),
{
    let u = seq![c] + t;
    if n > 0 {
        assert(t.len() > 0);
        lemma_newline_count_last(t);
        assert(u.last() == t.last());
        assert(u.drop_last() =~= seq![c] + t.drop_last());
        if t.last() == '\n' {
            lemma_drop_last_lines_cons(c, t.drop_last(), (n - 1) as nat);
        } else {
            lemma_drop_last_lines_cons(c, t.drop_last(), n);
        }
    }
}

proof fn lemma_drop_all_last_lines(s: Seq<char>)
    requires
        s.len() > 0,
        s[0] == '\n',
    ensures
        drop_last_lines(s, newline_count(s)) == Seq::<char>::empty(),
    decreases s.len(),
{
    lemma_newline_count_last(s);
    if s.len() == 1 {
        assert(s.drop_last() =~= Seq::<char>::empty());
        assert(s.drop_first() =~= Seq::<char>::empty());
        assert(newline_count(s) == 1);
        assert(s.last() == '\n');
        assert(drop_last_lines(s, 1) == drop_last_lines(Seq::<char>::empty(), 0));
    } else {
        assert(s.drop_last()[0] == s[0]);
        lemma_drop_all_last_lines(s.drop_last());
        let k = newline_count(s);
        assert(k >= 1) by {
            assert(newline_count(s) == newline_count(s.drop_first()) + 1);
        }
        if s.last() == '\n' {
            assert(drop_last_lines(s, k) == drop_last_lines(s.drop_last(), (k - 1) as nat));
        } else {
            assert(drop_last_lines(s, k) == drop_last_lines(s.drop_last(), k));
        }
    }
}

/// The head that removing the last `n` lines keeps, a newline, and the tail
/// that removing the first `k + 1 - n` lines keeps (`k` the number of
/// newlines, `1 <= n <= k`) rebuild the text.
pub proof fn lemma_head_and_tail_rebuild(s: Seq<char>, n: nat)
    requires
        1 <= n <= newline_count(s),
    ensures
        drop_last_lines(s, n) + seq!['\n'] + drop_first_lines(s, (newline_count(s) + 1 - n) as nat) == s,
    decreases s.len(),
{
    let t = s.drop_first();
    assert(s.len() > 0);
    assert(s =~= seq![s[0]] + t);
    let m = (newline_count(s) + 1 - n) as nat;
    if s[0] != '\n' {
        lemma_drop_last_lines_cons(s[0], t, n);
        lemma_head_and_tail_rebuild(t, n);
        assert(drop_first_lines(s, m) == drop_first_lines(t, m));
        assert(drop_last_lines(s, n) + seq!['\n'] + drop_first_lines(s, m) =~= seq![s[0]] + (
        drop_last_lines(t, n) + seq!['\n'] + drop_first_lines(t, m)));
    } else if n == newline_count(s) {
        lemma_drop_all_last_lines(s);
        assert(drop_first_lines(s, 1) == drop_first_lines(t, 0));
        assert(drop_last_lines(s, n) + seq!['\n'] + drop_first_lines(s, m) =~= seq!['\n'] + t);
    } else {
        lemma_drop_last_lines_cons(s[0], t, n);
        lemma_head_and_tail_rebuild(t, n);
        assert(drop_first_lines(s, m) == drop_first_lines(t, (m - 1) as nat));
        assert(drop_last_lines(s, n) + seq!['\n'] + drop_first_lines(s, m) =~= seq![s[0]] + (
        drop_last_lines(t, n) + seq!['\n'] + drop_first_lines(t, (m - 1) as nat)));
    }
}

/// Appends `c` to `s` (`String::push`).
#[verifier::external_body]
pub(crate) fn string_push(s: &mut String, c: char)
    ensures
        final(s)@ == old(s)@.push(c),
{
    s.push(c);
}

/// The string made of the characters of `v`, in order.
pub fn chars_to_string(v: &Vec<char>) -> (res: String)
    ensures
        res@ == v@,
{
    let mut res = String::new();
    let mut i: usize = 0;
    while i < v.len()
        invariant
            i <= v.len(),
            res@ == v@.take(i as int),
        decreases v.len() - i,
    {
        string_push(&mut res, v[i]);
        assert(v@.take(i + 1) =~= v@.take(i as int).push(v@[i as int]));
        i = i + 1;
    }
    assert(v@.take(v.len() as int) =~= v@);
    res
}

/// `list` joined with `sep` between consecutive items.
pub open spec fn seq_join(list: Seq<Seq<char>>, sep: Seq<char>) -> Seq<char>
    decreases list.len(),
{
    if list.len() == 0 {
        Seq::empty()
    } else if list.len() == 1 {
        list[0]
    } else {
        seq_join(list.drop_last(), sep) + sep + list.last()
    }
}

/// The views of a list of strings.
pub open spec fn string_views(parts: Seq<String>) -> Seq<Seq<char>> {
    parts.map_values(|s: String| s@)
}

/// The strings of `list` joined with `sep`.
pub fn join_strings(list: &Vec<String>, sep: &str) -> (res: String)
    ensures
        res@ == seq_join(string_views(list@), sep@),
{
    let ghost views = string_views(list@);
    let mut res = String::new();
    let mut i: usize = 0;
    while i < list.len()
        invariant
            i <= list.len(),
            views == string_views(list@),
            res@ == seq_join(views.take(i as int), sep@),
        decreases list.len() - i,
    {
        assert(views.take(i + 1).drop_last() =~= views.take(i as int));
        assert(views.take(i + 1).last() == list@[i as int]@);
        if i > 0 {
            res.append(sep);
        } else {
            assert(views.take(0) =~= Seq::<Seq<char>>::empty());
        }
        res.append(list[i].as_str());
        i = i + 1;
    }
    assert(views.take(list.len() as int) =~= views);
    res
}

/// The characters of `s`, in order.
pub fn str_chars(s: &str) -> (res: Vec<char>)
    ensures
        res@ == s@,
{
    broadcast use vstd::string::group_string_axioms;
    let mut res: Vec<char> = Vec::new();
    for c in it: s.chars()
        invariant
            it.seq() == s@,
            res@ == it.seq().take(it.index() as int),
    {
        res.push(c);
    }
    res
}

/// `content` without its first `num_of_lines` lines (see `drop_first_lines`).
pub fn remove_first_lines_impl(content: &str, num_of_lines: usize) -> (res: &str)
    ensures
        res@ == drop_first_lines(content@, num_of_lines as nat),
{
    let chars = str_chars(content);
    let len = chars.len();
    let mut i: usize = 0;
    let mut count: usize = 0;
    assert(content@.skip(0) =~= content@);
    while i < len && count < num_of_lines
        invariant
            i <= len,
            len == content@.len(),
            chars@ == content@,
            count <= num_of_lines,
            drop_first_lines(content@, num_of_lines as nat) == drop_first_lines(
                content@.skip(i as int),
                (num_of_lines - count) as nat,
            ),
        decreases len - i,
    {
        assert(content@.skip(i as int).drop_first() =~= content@.skip(i + 1));
        assert(content@.skip(i as int)[0] == chars@[i as int]);
        if chars[i] == '\n' {
            count = count + 1;
        }
        i = i + 1;
    }
    if count < num_of_lines {
        proof {
            reveal_strlit("");
            assert(content@.skip(i as int) =~= Seq::<char>::empty());
        }
        return "";
    }
    content.substring_char(i, len)
}

/// `content` without its last `num_of_lines` lines (see `drop_last_lines`).
pub fn remove_last_lines_impl(content: &str, num_of_lines: usize) -> (res: &str)
    ensures
        res@ == drop_last_lines(content@, num_of_lines as nat),
{
    let chars = str_chars(content);
    let len = chars.len();
    let mut end: usize = len;
    let mut count: usize = 0;
    assert(content@.take(len as int) =~= content@);
    while end > 0 && count < num_of_lines
        invariant
            end <= len,
            len == content@.len(),
            chars@ == content@,
            count <= num_of_lines,
            drop_last_lines(content@, num_of_lines as nat) == drop_last_lines(
                content@.take(end as int),
                (num_of_lines - count) as nat,
            ),
        decreases end,
    {
        assert(content@.take(end as int).drop_last() =~= content@.take(end - 1));
        assert(content@.take(end as int).last() == chars@[end - 1]);
        if chars[end - 1] == '\n' {
            count = count + 1;
        }
        end = end - 1;
    }
    if count < num_of_lines {
        proof {
            reveal_strlit("");
            assert(content@.take(end as int) =~= Seq::<char>::empty());
        }
        return "";
    }
    content.substring_char(0, end)
}

/// `content` without its first `num_of_lines` lines.
pub fn remove_first_lines(content: &str, num_of_lines: usize) -> (res: &str)
    ensures
        res@ == drop_first_lines(content@, num_of_lines as nat),
{
    remove_first_lines_impl(content, num_of_lines)
}

/// `content` without its first line.
pub fn remove_first_line(content: &str) -> (res: &str)
    ensures
        res@ == drop_first_lines(content@, 1),
{
    remove_first_lines(content, 1)
}

/// `content` without its last `num_of_lines` lines.
pub fn remove_last_lines(content: &str, num_of_lines: usize) -> (res: &str)
    ensures
        res@ == drop_last_lines(content@, num_of_lines as nat),
{
    remove_last_lines_impl(content, num_of_lines)
}

/// `content` without its last line.
pub fn remove_last_line(content: &str) -> (res: &str)
    ensures
        res@ == drop_last_lines(content@, 1),
{
    remove_last_lines(content, 1)
}

/// Whether `c` has the Unicode `White_Space` property (PropList.txt): the
/// controls U+0009 to U+000D, the space, U+0085, U+00A0, U+1680, U+2000 to
/// U+200A, U+2028, U+2029, U+202F, U+205F and U+3000.
pub open spec fn char_is_whitespace(c: char) -> bool {
    let u = c as u32;
    ||| 0x9 <= u <= 0xd
    ||| u == 0x20
    ||| u == 0x85
    ||| u == 0xa0
    ||| u == 0x1680
    ||| 0x2000 <= u <= 0x200a
    ||| u == 0x2028
    ||| u == 0x2029
    ||| u == 0x202f
    ||| u == 0x205f
    ||| u == 0x3000
}

/// Whether `c` has the Unicode `White_Space` property (as
/// `char::is_whitespace` tells).
pub(crate) fn is_whitespace(c: char) -> (res: bool)
    ensures
        res == char_is_whitespace(c),
{
    let u = c as u32;
    (0x9 <= u && u <= 0xd) || u == 0x20 || u == 0x85 || u == 0xa0 || u == 0x1680 || (0x2000 <= u && u
        <= 0x200a) || u == 0x2028 || u == 0x2029 || u == 0x202f || u == 0x205f || u == 0x3000
}

/// `s` without its leading whitespace.
pub open spec fn trim_start_spec(s: Seq<char>) -> Seq<char>
    decreases s.len(),
{
    if s.len() > 0 && char_is_whitespace(s[0]) {
        trim_start_spec(s.drop_first())
    } else {
        s
    }
}

/// `s` without its trailing whitespace.
pub open spec fn trim_end_spec(s: Seq<char>) -> Seq<char>
    decreases s.len(),
{
    if s.len() > 0 && char_is_whitespace(s.last()) {
        trim_end_spec(s.drop_last())
    } else {
        s
    }
}

/// `s` without its leading and trailing whitespace.
pub open spec fn trim_spec(s: Seq<char>) -> Seq<char> {
    trim_start_spec(trim_end_spec(s))
}

/// The characters of the Unicode `White_Space` property (PropList.txt), as
/// code points: TAB, LF, VT, FF, CR, SPACE, NEL, NO-BREAK SPACE, OGHAM SPACE
/// MARK, EN QUAD to HAIR SPACE, LINE and PARAGRAPH SEPARATOR, NARROW
/// NO-BREAK SPACE, MEDIUM MATHEMATICAL SPACE and IDEOGRAPHIC SPACE.
pub open spec fn in_white_space_table(c: char) -> bool {
    let u = c as u32;
    ||| u == 0x9 || u == 0xa || u == 0xb || u == 0xc || u == 0xd || u == 0x20
    ||| u == 0x85 || u == 0xa0 || u == 0x1680
    ||| (0x2000 <= u && u <= 0x200a)
    ||| u == 0x2028 || u == 0x2029 || u == 0x202f || u == 0x205f || u == 0x3000
}

proof fn lemma_trim_start_shape(s: Seq<char>)
    ensures
        trim_start_spec(s).len() <= s.len(),
        trim_start_spec(s) == s.skip(s.len() - trim_start_spec(s).len()),
        forall|i: int| 0 <= i < s.len() - trim_start_spec(s).len() ==> char_is_whitespace(#[trigger] s[i]),
        trim_start_spec(s).len() > 0 ==> !char_is_whitespace(trim_start_spec(s)[0]),
    decreases s.len(),
{
    if s.len() > 0 && char_is_whitespace(s[0]) {
        let t = s.drop_first();
        lemma_trim_start_shape(t);
        assert(t.skip(t.len() - trim_start_spec(t).len()) =~= s.skip(s.len() - trim_start_spec(s).len()));
        assert forall|i: int| 0 <= i < s.len() - trim_start_spec(s).len() implies char_is_whitespace(#[trigger] s[i]) by {
            if i > 0 {
                assert(s[i] == t[i - 1]);
            }
        }
    } else {
        assert(s.skip(0) =~= s);
    }
}

proof fn lemma_trim_end_shape(s: Seq<char>)
    ensures
        trim_end_spec(s).len() <= s.len(),
        trim_end_spec(s) == s.take(trim_end_spec(s).len() as int),
        forall|i: int| trim_end_spec(s).len() <= i < s.len() ==> char_is_whitespace(#[trigger] s[i]),
        trim_end_spec(s).len() > 0 ==> !char_is_whitespace(trim_end_spec(s).last()),
    decreases s.len(),
{
    if s.len() > 0 && char_is_whitespace(s.last()) {
        let t = s.drop_last();
        lemma_trim_end_shape(t);
        assert(t.take(trim_end_spec(t).len() as int) =~= s.take(trim_end_spec(s).len() as int));
        assert forall|i: int| trim_end_spec(s).len() <= i < s.len() implies char_is_whitespace(#[trigger] s[i]) by {
            if i < s.len() - 1 {
                assert(s[i] == t[i]);
            }
        }
    } else {
        assert(s.take(s.len() as int) =~= s);
    }
}

/// `trim` removes exactly the `White_Space` characters at both ends: what it
/// gives is a piece of the text, everything cut off before and after it is
/// `White_Space`, and it neither starts nor ends with a `White_Space`
/// character (so no `'\r'` of a CRLF line ending is left).
pub proof fn lemma_trim_cuts_white_space(s: Seq<char>)
    ensures
        exists|a: int, b: int|
            #![trigger s.subrange(a, b)]
            0 <= a <= b <= s.len() && trim_spec(s) == s.subrange(a, b) && (forall|i: int|
                0 <= i < a ==> in_white_space_table(#[trigger] s[i])) && (forall|i: int|
                b <= i < s.len() ==> in_white_space_table(#[trigger] s[i])),
        trim_spec(s).len() > 0 ==> !in_white_space_table(trim_spec(s)[0]) && !in_white_space_table(
            trim_spec(s).last(),
        ),
{
    let e = trim_end_spec(s);
    lemma_trim_end_shape(s);
    lemma_trim_start_shape(e);
    let t = trim_start_spec(e);
    let b = e.len() as int;
    let a = (e.len() - t.len()) as int;
    assert(t =~= s.subrange(a, b));
    assert forall|i: int| 0 <= i < a implies in_white_space_table(#[trigger] s[i]) by {
        assert(s[i] == e[i]);
        assert(char_is_whitespace(e[i]));
    }
    assert forall|i: int| b <= i < s.len() implies in_white_space_table(#[trigger] s[i]) by {
        assert(char_is_whitespace(s[i]));
    }
    if t.len() > 0 {
        assert(t.last() == e.last());
    }
}

/// `trim_start` removes exactly the leading `White_Space` characters: what
/// it gives is an end of the text that does not start with one.
pub proof fn lemma_trim_start_cuts_white_space(s: Seq<char>)
    ensures
        trim_start_spec(s) == s.skip(s.len() - trim_start_spec(s).len()),
        forall|i: int| 0 <= i < s.len() - trim_start_spec(s).len() ==> in_white_space_table(#[trigger] s[i]),
        trim_start_spec(s).len() > 0 ==> !in_white_space_table(trim_start_spec(s)[0]),
{
    lemma_trim_start_shape(s);
    assert forall|i: int| 0 <= i < s.len() - trim_start_spec(s).len() implies in_white_space_table(#[trigger] s[i]) by {
        assert(char_is_whitespace(s[i]));
    }
}

/// `trim_end` removes exactly the trailing `White_Space` characters: what it
/// gives is a start of the text that does not end with one.
pub proof fn lemma_trim_end_cuts_white_space(s: Seq<char>)
    ensures
        trim_end_spec(s) == s.take(trim_end_spec(s).len() as int),
        forall|i: int| trim_end_spec(s).len() <= i < s.len() ==> in_white_space_table(#[trigger] s[i]),
        trim_end_spec(s).len() > 0 ==> !in_white_space_table(trim_end_spec(s).last()),
{
    lemma_trim_end_shape(s);
    assert forall|i: int| trim_end_spec(s).len() <= i < s.len() implies in_white_space_table(#[trigger] s[i]) by {
        assert(char_is_whitespace(s[i]));
    }
}

/// The start index of `c[..end]` once its leading whitespace is trimmed.
fn whitespace_start(c: &Vec<char>, end: usize) -> (b: usize)
    requires
        end <= c.len(),
    ensures
        b <= end,
        trim_start_spec(c@.take(end as int)) == c@.subrange(b as int, end as int),
{
    let mut b: usize = 0;
    assert(c@.subrange(0, end as int) =~= c@.take(end as int));
    while b < end && is_whitespace(c[b])
        invariant
            b <= end,
            end <= c.len(),
            trim_start_spec(c@.take(end as int)) == trim_start_spec(c@.subrange(b as int, end as int)),
        decreases end - b,
    {
        assert(c@.subrange(b as int, end as int).drop_first() =~= c@.subrange(b + 1, end as int));
        assert(c@.subrange(b as int, end as int)[0] == c@[b as int]);
        b = b + 1;
    }
    if b < end {
        assert(c@.subrange(b as int, end as int)[0] == c@[b as int]);
    }
    b
}

/// The end index of `c` once its trailing whitespace is trimmed.
fn whitespace_end(c: &Vec<char>) -> (e: usize)
    ensures
        e <= c.len(),
        trim_end_spec(c@) == c@.take(e as int),
{
    let mut e = c.len();
    assert(c@.take(e as int) =~= c@);
    while e > 0 && is_whitespace(c[e - 1])
        invariant
            e <= c.len(),
            trim_end_spec(c@) == trim_end_spec(c@.take(e as int)),
        decreases e,
    {
        assert(c@.take(e as int).drop_last() =~= c@.take(e - 1));
        assert(c@.take(e as int).last() == c@[e - 1]);
        e = e - 1;
    }
    if e > 0 {
        assert(c@.take(e as int).last() == c@[e - 1]);
    } else {
        assert(c@.take(0) =~= Seq::<char>::empty());
    }
    e
}

/// `content` without its leading and trailing whitespace (`str::trim`).
pub fn trim(content: &str) -> (res: &str)
    ensures
        res@ == trim_spec(content@),
{
    let c = str_chars(content);
    let e = whitespace_end(&c);
    let b = whitespace_start(&c, e);
    content.substring_char(b, e)
}

/// `content` without its leading whitespace (`str::trim_start`).
pub fn trim_start(content: &str) -> (res: &str)
    ensures
        res@ == trim_start_spec(content@),
{
    let c = str_chars(content);
    let b = whitespace_start(&c, c.len());
    assert(c@.take(c.len() as int) =~= c@);
    content.substring_char(b, c.len())
}

/// `content` without its trailing whitespace (`str::trim_end`).
pub fn trim_end(content: &str) -> (res: &str)
    ensures
        res@ == trim_end_spec(content@),
{
    let c = str_chars(content);
    let e = whitespace_end(&c);
    content.substring_char(0, e)
}

/// The lowercase equivalent of `s` (`str::to_lowercase`), per the Unicode
/// `Lowercase` property.
pub uninterp spec fn str_to_lowercase(s: Seq<char>) -> Seq<char>;

/// `str::to_lowercase`: the lowercase equivalent of `s`.
#[verifier::external_body]
pub(crate) fn to_lowercase(s: &str) -> (res: String)
    ensures
        res@ == str_to_lowercase(s@),
{
    s.to_lowercase()
}

/// The decimal digit for `d` (`0 <= d < 10`).
pub open spec fn digit_char(d: nat) -> char {
    if d == 0 { '0' } else if d == 1 { '1' } else if d == 2 { '2' } else if d == 3 { '3' }
    else if d == 4 { '4' } else if d == 5 { '5' } else if d == 6 { '6' } else if d == 7 { '7' }
    else if d == 8 { '8' } else { '9' }
}

/// The decimal digits of `n`, without leading zeros (`"0"` for zero).
pub open spec fn nat_digits(n: nat) -> Seq<char>
    decreases n,
{
    if n < 10 {
        seq![digit_char(n)]
    } else {
        nat_digits(n / 10).push(digit_char(n % 10))
    }
}

/// The decimal representation of `n`, as `Display` writes an integer.
pub open spec fn int_to_decimal(n: int) -> Seq<char> {
    if n < 0 {
        seq!['-'] + nat_digits((-n) as nat)
    } else {
        nat_digits(n as nat)
    }
}

fn digit_to_char(d: u64) -> (c: char)
    requires
        d < 10,
    ensures
        c == digit_char(d as nat),
{
    if d == 0 { '0' } else if d == 1 { '1' } else if d == 2 { '2' } else if d == 3 { '3' }
    else if d == 4 { '4' } else if d == 5 { '5' } else if d == 6 { '6' } else if d == 7 { '7' }
    else if d == 8 { '8' } else { '9' }
}

/// The decimal digits of `n`.
pub fn u64_to_decimal(n: u64) -> (res: String)
    ensures
        res@ == nat_digits(n as nat),
    decreases n,
{
    if n < 10 {
        let mut s = String::new();
        string_push(&mut s, digit_to_char(n));
        s
    } else {
        let mut s = u64_to_decimal(n / 10);
        string_push(&mut s, digit_to_char(n % 10));
        s
    }
}

/// The decimal representation of `n` (`i64::to_string`).
pub fn i64_to_decimal(n: i64) -> (res: String)
    ensures
        res@ == int_to_decimal(n as int),
{
    if n < 0 {
        let m: u64 = if n == i64::MIN { 9223372036854775808u64 } else { (-n) as u64 };
        let digits = u64_to_decimal(m);
        let mut s = String::from_str("-");
        proof {
            reveal_strlit("-");
        }
        s.append(digits.as_str());
        assert(s@ =~= seq!['-'] + nat_digits((-(n as int)) as nat));
        s
    } else {
        u64_to_decimal(n as u64)
    }
}

/// Index of the first `'\n'` in `s`, or `-1` when there is none.
pub open spec fn first_newline(s: Seq<char>) -> int
    decreases s.len(),
{
    if s.len() == 0 {
        -1
    } else if s[0] == '\n' {
        0
    } else {
        let r = first_newline(s.drop_first());
        if r < 0 {
            -1
        } else {
            r + 1
        }
    }
}

/// `s` without one trailing `'\r'`.
pub open spec fn strip_cr(s: Seq<char>) -> Seq<char> {
    if s.len() > 0 && s.last() == '\r' {
        s.drop_last()
    } else {
        s
    }
}

/// The lines of `s` (`str::lines`): split after each `'\n'`, the `'\n'` and a
/// `'\r'` just before it removed; a final line ending adds no empty line, and
/// a bare `'\r'` is no line ending.
pub open spec fn lines_spec(s: Seq<char>) -> Seq<Seq<char>>
    decreases s.len(),
{
    if s.len() == 0 {
        Seq::empty()
    } else {
        let i = first_newline(s);
        if i < 0 {
            seq![s]
        } else {
            proof {
                lemma_first_newline_bound(s);
            }
            seq![strip_cr(s.take(i))] + lines_spec(s.skip(i + 1))
        }
    }
}

/// The index of the first newline is in bounds, or `-1`.
pub proof fn lemma_first_newline_bound(s: Seq<char>)
    ensures
        -1 <= first_newline(s) < s.len(),
    decreases s.len(),
{
    if s.len() > 0 {
        lemma_first_newline_bound(s.drop_first());
    }
}

proof fn lemma_first_newline_at(s: Seq<char>, i: int)
    requires
        0 <= i <= s.len(),
        forall|j: int| 0 <= j < i ==> s[j] != '\n',
        i < s.len() ==> s[i] == '\n',
    ensures
        first_newline(s) == (if i == s.len() { -1 } else { i }),
    decreases i,
{
    if i > 0 {
        lemma_first_newline_at(s.drop_first(), i - 1);
    }
}

/// The string made of `v[from..to]`, without one trailing `'\r'` when `strip`.
fn line_of(v: &Vec<char>, from: usize, to: usize, strip: bool) -> (res: String)
    requires
        from <= to <= v.len(),
    ensures
        strip ==> res@ == strip_cr(v@.subrange(from as int, to as int)),
        !strip ==> res@ == v@.subrange(from as int, to as int),
{
    let end = if strip && to > from && v[to - 1] == '\r' { to - 1 } else { to };
    let mut res = String::new();
    let mut k = from;
    while k < end
        invariant
            from <= k <= end,
            end <= to <= v.len(),
            res@ == v@.subrange(from as int, k as int),
        decreases end - k,
    {
        string_push(&mut res, v[k]);
        assert(v@.subrange(from as int, k + 1) =~= v@.subrange(from as int, k as int).push(v@[k as int]));
        k = k + 1;
    }
    if strip {
        assert(strip_cr(v@.subrange(from as int, to as int)) =~= v@.subrange(from as int, end as int));
    }
    res
}

/// The lines of `s` (`str::lines`).
pub fn split_lines(s: &str) -> (res: Vec<String>)
    ensures
        string_views(res@) == lines_spec(s@),
{
    let v = str_chars(s);
    let mut res: Vec<String> = Vec::new();
    let mut start: usize = 0;
    let mut p: usize = 0;
    assert(v@.skip(0) =~= v@);
    while p < v.len()
        invariant
            start <= p <= v.len(),
            v@ == s@,
            lines_spec(s@) == string_views(res@) + lines_spec(v@.skip(start as int)),
            forall|j: int| start <= j < p ==> v@[j] != '\n',
        decreases v.len() - p,
    {
        if v[p] == '\n' {
            let ghost rest = v@.skip(start as int);
            proof {
                lemma_first_newline_at(rest, (p - start) as int);
                assert(rest.take((p - start) as int) =~= v@.subrange(start as int, p as int));
                assert(rest.skip((p - start) + 1) =~= v@.skip(p + 1));
            }
            let line = line_of(&v, start, p, true);
            let ghost before = string_views(res@);
            res.push(line);
            assert(string_views(res@) =~= before.push(line@));
            assert(lines_spec(rest) =~= seq![line@] + lines_spec(v@.skip(p + 1)));
            start = p + 1;
        }
        p = p + 1;
    }
    let ghost rest = v@.skip(start as int);
    if start < v.len() {
        proof {
            lemma_first_newline_at(rest, rest.len() as int);
            assert(rest =~= v@.subrange(start as int, v.len() as int));
        }
        let line = line_of(&v, start, v.len(), false);
        let ghost before = string_views(res@);
        res.push(line);
        assert(string_views(res@) =~= before.push(line@));
        assert(lines_spec(rest) =~= seq![rest]);
    } else {
        assert(rest =~= Seq::<char>::empty());
    }
    res
}

/// Whether `needle` occurs in `hay`.
pub open spec fn seq_contains(hay: Seq<char>, needle: Seq<char>) -> bool {
    exists|i: int| 0 <= i <= hay.len() - needle.len() && #[trigger] hay.subrange(i, i + needle.len()) == needle
}

/// Whether `needle` occurs in `hay` (`str::contains` with a string pattern).
pub fn str_contains(hay: &str, needle: &str) -> (res: bool)
    ensures
        res == seq_contains(hay@, needle@),
{
    let h = str_chars(hay);
    let n = str_chars(needle);
    if n.len() > h.len() {
        return false;
    }
    let mut i: usize = 0;
    while i <= h.len() - n.len()
        invariant
            h@ == hay@,
            n@ == needle@,
            n.len() <= h.len(),
            i <= h.len() - n.len() + 1,
            forall|k: int| 0 <= k < i ==> #[trigger] hay@.subrange(k, k + needle@.len()) != needle@,
        decreases h.len() - n.len() + 1 - i,
    {
        let mut j: usize = 0;
        let mut same = true;
        while j < n.len()
            invariant
                h@ == hay@,
                n@ == needle@,
                i + n.len() <= h.len(),
                j <= n.len(),
                same == (forall|m: int| 0 <= m < j ==> h@[i + m] == n@[m]),
            decreases n.len() - j,
        {
            if h[i + j] != n[j] {
                same = false;
            }
            j = j + 1;
        }
        if same {
            assert(hay@.subrange(i as int, i + needle@.len()) =~= needle@);
            return true;
        }
        assert(hay@.subrange(i as int, i + needle@.len()) != needle@) by {
            let m = choose|m: int| 0 <= m < n.len() && h@[i + m] != n@[m];
            assert(hay@.subrange(i as int, i + needle@.len())[m] != needle@[m]);
        }
        i = i + 1;
    }
    false
}

/// Whether `s` starts with `p`.
pub open spec fn seq_starts_with(s: Seq<char>, p: Seq<char>) -> bool {
    p.len() <= s.len() && s.take(p.len() as int) == p
}

/// Whether `s` ends with `p`.
pub open spec fn seq_ends_with(s: Seq<char>, p: Seq<char>) -> bool {
    p.len() <= s.len() && s.skip(s.len() - p.len()) == p
}

/// Whether `s` starts with `p` (`str::starts_with` with a string pattern).
pub fn starts_with(s: &str, p: &str) -> (res: bool)
    ensures
        res == seq_starts_with(s@, p@),
{
    let a = str_chars(s);
    let b = str_chars(p);
    if b.len() > a.len() {
        return false;
    }
    let mut i: usize = 0;
    while i < b.len()
        invariant
            a@ == s@,
            b@ == p@,
            b.len() <= a.len(),
            i <= b.len(),
            forall|k: int| 0 <= k < i ==> a@[k] == b@[k],
        decreases b.len() - i,
    {
        if a[i] != b[i] {
            assert(s@.take(p@.len() as int)[i as int] != p@[i as int]);
            return false;
        }
        i = i + 1;
    }
    assert(s@.take(p@.len() as int) =~= p@);
    true
}

/// Whether `s` ends with `p` (`str::ends_with` with a string pattern).
pub fn ends_with(s: &str, p: &str) -> (res: bool)
    ensures
        res == seq_ends_with(s@, p@),
{
    let a = str_chars(s);
    let b = str_chars(p);
    if b.len() > a.len() {
        return false;
    }
    let off = a.len() - b.len();
    let mut i: usize = 0;
    while i < b.len()
        invariant
            a@ == s@,
            b@ == p@,
            off + b.len() == a.len(),
            i <= b.len(),
            forall|k: int| 0 <= k < i ==> a@[off + k] == b@[k],
        decreases b.len() - i,
    {
        if a[off + i] != b[i] {
            assert(s@.skip(off as int)[i as int] != p@[i as int]);
            return false;
        }
        i = i + 1;
    }
    assert(s@.skip(off as int) =~= p@);
    true
}

/// `s` without all of its trailing `'\n'`.
pub open spec fn trim_end_newlines(s: Seq<char>) -> Seq<char>
    decreases s.len(),
{
    if s.len() > 0 && s.last() == '\n' {
        trim_end_newlines(s.drop_last())
    } else {
        s
    }
}

/// What is left once the trailing newlines are removed does not end with one.
pub proof fn lemma_trim_end_newlines_no_newline(s: Seq<char>)
    ensures
        trim_end_newlines(s).len() <= s.len(),
        trim_end_newlines(s).len() == 0 || trim_end_newlines(s).last() != '\n',
    decreases s.len(),
{
    if s.len() > 0 && s.last() == '\n' {
        lemma_trim_end_newlines_no_newline(s.drop_last());
    }
}

/// The text that `ensure_single_ending_newline` gives ends with one newline
/// and no more, and a second call leaves it as it is.
pub proof fn lemma_single_ending_newline(s: Seq<char>)
    ensures
        trim_end_newlines(s).push('\n').last() == '\n',
        trim_end_newlines(s).push('\n').len() >= 2 ==> trim_end_newlines(s).push('\n')[trim_end_newlines(s).len() - 1] != '\n',
        trim_end_newlines(trim_end_newlines(s).push('\n')).push('\n') == trim_end_newlines(s).push('\n'),
{
    let t = trim_end_newlines(s);
    lemma_trim_end_newlines_no_newline(s);
    assert(t.push('\n').drop_last() =~= t);
    assert(trim_end_newlines(t) == t);
}

/// `text` ending with exactly one `'\n'`: its trailing newlines are replaced by
/// one, and one is added where there is none (an empty text gives `"\n"`).
pub fn ensure_single_ending_newline(text: String) -> (res: String)
    ensures
        res@ == trim_end_newlines(text@).push('\n'),
{
    let c = str_chars(text.as_str());
    let mut e: usize = c.len();
    assert(c@.take(e as int) =~= c@);
    while e > 0 && c[e - 1] == '\n'
        invariant
            e <= c.len(),
            c@ == text@,
            trim_end_newlines(c@) == trim_end_newlines(c@.take(e as int)),
        decreases e,
    {
        assert(c@.take(e - 1) =~= c@.take(e as int).drop_last());
        e = e - 1;
    }
    let mut res = text.as_str().substring_char(0, e).to_owned();
    string_push(&mut res, '\n');
    res
}

} // verus!
