//! The messages of the errors that Lua raises: the error chain is flattened,
//! and in tracebacks and syntax errors the references to the script
//! (`[string "..."]:<line>:`) are replaced by the script line they point to.

use vstd::prelude::*;
use vstd::string::*;
use vstd::utf8::{
    decode_utf8, encode_utf8, encode_utf8_decode_utf8, encode_utf8_valid_utf8,
    is_char_boundary, is_char_boundary_iff_not_is_continuation_byte,
    is_char_boundary_start_end_of_seq, valid_utf8, valid_utf8_split,
};
use crate::error::Error;
use crate::text::{
    digit_char, join_strings, lines_spec, nat_digits, seq_join, split_lines, string_views, trim, trim_spec,
    u64_to_decimal, str_chars, seq_contains, str_contains,
};

verus! {

/// One match of the script reference pattern in a stack line, as byte offsets:
/// `(match start, line number start, line number end, match end)`.
pub type RefSpan = (usize, usize, usize, usize);

/// The matches, in order, of the pattern `\[string .*?\]:([\d]+)(:|>)` in
/// `line` (the regex crate's `captures_iter`), as byte offsets.
pub uninterp spec fn stack_ref_spans(line: Seq<char>) -> Seq<RefSpan>;

/// A match lies within the bytes, its parts in order and on character boundaries.
pub open spec fn span_ok(t: RefSpan, b: Seq<u8>) -> bool {
    &&& t.0 <= t.1 <= t.2 <= t.3 <= b.len()
    &&& is_char_boundary(b, t.0 as int)
    &&& is_char_boundary(b, t.1 as int)
    &&& is_char_boundary(b, t.2 as int)
    &&& is_char_boundary(b, t.3 as int)
}

/// The matches lie within the bytes and do not overlap, in order.
pub open spec fn spans_ok(spans: Seq<RefSpan>, b: Seq<u8>) -> bool {
    &&& forall|k: int| 0 <= k < spans.len() ==> span_ok(#[trigger] spans[k], b)
    &&& forall|k: int| 0 < k < spans.len() ==> spans[k - 1].3 <= #[trigger] spans[k].0
}

/// `Regex::captures_iter` of the script reference pattern on `line`: for each
/// match, in order, its byte span and that of its line number group. The
/// matches do not overlap and their offsets are character boundaries.
#[verifier::external_body]
fn stack_ref_captures(line: &str) -> (res: Vec<RefSpan>)
    ensures
        res@ == stack_ref_spans(line@),
        spans_ok(res@, encode_utf8(line@)),
{
    let rx = lazy_regex::Regex::new(r#"\[string .*?\]:([\d]+)(:|>)"#).unwrap();
    rx.captures_iter(line).map(|caps| {
        let m = caps.get(0).unwrap();
        let g = caps.get(1).unwrap();
        (m.start(), g.start(), g.end(), m.end())
    }).collect()
}

/// Whether `c` is one of `0` to `9`.
pub open spec fn is_ascii_digit(c: char) -> bool {
    '0' <= c && c <= '9'
}

/// The value of a string of ASCII digits.
pub open spec fn digits_value(s: Seq<char>) -> nat
    decreases s.len(),
{
    if s.len() == 0 {
        0
    } else {
        digits_value(s.drop_last()) * 10 + ((s.last() as int) - ('0' as int)) as nat
    }
}

/// `s` without one leading `+`.
pub open spec fn unsigned_part(s: Seq<char>) -> Seq<char> {
    if s.len() > 0 && s[0] == '+' {
        s.drop_first()
    } else {
        s
    }
}

/// Whether every character of `d` is an ASCII digit.
pub open spec fn all_ascii_digits(d: Seq<char>) -> bool {
    forall|i: int| 0 <= i < d.len() ==> is_ascii_digit(#[trigger] d[i])
}

/// `str::parse::<usize>`: an optional `+` followed by at least one ASCII
/// digit, the value fitting in a `usize`.
pub open spec fn parse_usize_spec(s: Seq<char>) -> Option<nat> {
    let d = unsigned_part(s);
    if d.len() > 0 && all_ascii_digits(d) && digits_value(d) <= usize::MAX {
        Some(digits_value(d))
    } else {
        None
    }
}

/// Parses a `usize` as `str::parse` does.
pub fn parse_usize(s: &str) -> (res: Option<usize>)
    ensures
        match parse_usize_spec(s@) {
            Some(n) => res == Some(n as usize),
            None => res is None,
        },
{
    let c = str_chars(s);
    let start: usize = if c.len() > 0 && c[0] == '+' { 1 } else { 0 };
    let ghost d = unsigned_part(s@);
    assert(d =~= c@.skip(start as int));
    if start >= c.len() {
        return None;
    }
    let mut value: usize = 0;
    let mut i = start;
    assert(d.take(0) =~= Seq::<char>::empty());
    while i < c.len()
        invariant
            start <= i <= c.len(),
            c@ == s@,
            d == c@.skip(start as int),
            d == unsigned_part(s@),
            forall|j: int| 0 <= j < i - start ==> is_ascii_digit(#[trigger] d[j]),
            value == digits_value(d.take(i - start)),
        decreases c.len() - i,
    {
        let ch = c[i];
        assert(d[i - start] == ch);
        if !('0' <= ch && ch <= '9') {
            assert(!is_ascii_digit(d[i - start]));
            assert(!all_ascii_digits(d));
            return None;
        }
        let digit = (ch as u32 - '0' as u32) as usize;
        assert(d.take(i - start + 1).drop_last() =~= d.take(i - start));
        assert(d.take(i - start + 1).last() == ch);
        assert(digits_value(d.take(i - start + 1)) == value * 10 + digit);
        let m = value.checked_mul(10);
        let m = match m {
            Some(m) => m,
            None => {
                proof {
                    lemma_overflow_rejected(d, i - start + 1);
                }
                return None;
            },
        };
        let v = m.checked_add(digit);
        match v {
            Some(v) => {
                value = v;
            },
            None => {
                proof {
                    lemma_overflow_rejected(d, i - start + 1);
                }
                return None;
            },
        }
        i = i + 1;
    }
    assert(d.take(d.len() as int) =~= d);
    Some(value)
}

proof fn lemma_digit_char_value(d: nat)
    requires
        d < 10,
    ensures
        is_ascii_digit(digit_char(d)),
        (digit_char(d) as int) - ('0' as int) == d,
        d > 0 ==> digit_char(d) != '0',
{
}

/// The decimal text of a number reads back as that number: it is made of
/// ASCII digits only, their value is the number, and it has no leading zero
/// (so `parse` of what `to_string` writes gives the number back).
pub proof fn lemma_decimal_round_trip(n: nat)
    ensures
        nat_digits(n).len() > 0,
        all_ascii_digits(nat_digits(n)),
        digits_value(nat_digits(n)) == n,
        n > 0 ==> nat_digits(n)[0] != '0',
    decreases n,
{
    if n < 10 {
        lemma_digit_char_value(n);
        assert(nat_digits(n).drop_last() =~= Seq::<char>::empty());
        assert(digits_value(nat_digits(n)) == digits_value(Seq::<char>::empty()) * 10 + ((digit_char(n) as int)
            - ('0' as int)) as nat);
    } else {
        let q = n / 10;
        let r = n % 10;
        lemma_decimal_round_trip(q);
        lemma_digit_char_value(r);
        let d = nat_digits(n);
        assert(d == nat_digits(q).push(digit_char(r)));
        assert(d.drop_last() =~= nat_digits(q));
        assert(q * 10 + r == n) by (nonlinear_arith)
            requires
                q == n / 10,
                r == n % 10,
        ;
        assert(forall|i: int| 0 <= i < d.len() ==> is_ascii_digit(#[trigger] d[i])) by {
            assert forall|i: int| 0 <= i < d.len() implies is_ascii_digit(#[trigger] d[i]) by {
                if i < d.len() - 1 {
                    assert(d[i] == nat_digits(q)[i]);
                }
            }
        }
        assert(q > 0);
        assert(d[0] == nat_digits(q)[0]);
        assert(d.last() == digit_char(r));
        assert(digits_value(d) == digits_value(nat_digits(q)) * 10 + ((digit_char(r) as int) - ('0' as int)) as nat);
        assert(digits_value(d) == q * 10 + r);
    }
}

/// When a prefix of digits is already too large, the whole does not parse.
proof fn lemma_overflow_rejected(d: Seq<char>, k: int)
    requires
        0 < k <= d.len(),
        forall|j: int| 0 <= j < k ==> is_ascii_digit(#[trigger] d[j]),
        digits_value(d.take(k)) > usize::MAX,
    ensures
        !(d.len() > 0 && all_ascii_digits(d) && digits_value(d) <= usize::MAX),
{
    if all_ascii_digits(d) {
        lemma_digits_value_monotone(d, k, d.len() as int);
        assert(d.take(d.len() as int) =~= d);
    }
}

proof fn lemma_digits_value_monotone(d: Seq<char>, k: int, n: int)
    requires
        0 <= k <= n <= d.len(),
        forall|j: int| 0 <= j < n ==> is_ascii_digit(#[trigger] d[j]),
    ensures
        digits_value(d.take(k)) <= digits_value(d.take(n)),
    decreases n - k,
{
    if k < n {
        lemma_digits_value_monotone(d, k, n - 1);
        assert(d.take(n).drop_last() =~= d.take(n - 1));
        assert(is_ascii_digit(d[n - 1]));
    }
}

/// What replaces a script reference whose line number text is `group`:
/// `At line <n> '<trimmed script line>'` when line `n` exists, `Line(<n>)`
/// when it does not (line `0` among them), nothing when the text is no number.
pub open spec fn ref_replacement(group: Seq<char>, script_lines: Seq<Seq<char>>) -> Seq<char> {
    match parse_usize_spec(group) {
        Some(num) => if 1 <= num <= script_lines.len() {
            "At line "@ + nat_digits(num) + " '"@ + trim_spec(script_lines[num - 1]) + "'"@
        } else {
            "Line("@ + nat_digits(num) + ")"@
        },
        None => Seq::empty(),
    }
}

/// The end of the `k`-th match before the one of index `k` (0 for the first).
pub open spec fn prev_end(spans: Seq<RefSpan>, k: int) -> int {
    if k <= 0 {
        0
    } else {
        spans[k - 1].3 as int
    }
}

/// The characters encoded in `b[from..to]`.
pub open spec fn piece(b: Seq<u8>, from: int, to: int) -> Seq<char> {
    decode_utf8(b.subrange(from, to))
}

/// The line up to the end of its `k`-th match, the first `k` matches replaced.
pub open spec fn replaced_prefix(b: Seq<u8>, spans: Seq<RefSpan>, lines: Seq<Seq<char>>, k: nat) -> Seq<
    char,
>
    decreases k,
{
    if k == 0 {
        Seq::empty()
    } else {
        let t = spans[k - 1];
        replaced_prefix(b, spans, lines, (k - 1) as nat) + piece(b, prev_end(spans, k - 1), t.0 as int)
            + ref_replacement(piece(b, t.1 as int, t.2 as int), lines)
    }
}

/// The line encoded in `b` with every match replaced (`Regex::replace_all`).
pub open spec fn replaced_line(b: Seq<u8>, spans: Seq<RefSpan>, lines: Seq<Seq<char>>) -> Seq<char> {
    replaced_prefix(b, spans, lines, spans.len()) + piece(b, prev_end(spans, spans.len() as int), b.len() as int)
}

/// A character boundary of the bytes is one of any prefix that contains it.
proof fn lemma_boundary_in_prefix(b: Seq<u8>, from: int, to: int)
    requires
        valid_utf8(b),
        0 <= from <= to <= b.len(),
        is_char_boundary(b, from),
        is_char_boundary(b, to),
    ensures
        valid_utf8(b.subrange(0, to)),
        is_char_boundary(b.subrange(0, to), from),
{
    valid_utf8_split(b, to);
    let pre = b.subrange(0, to);
    is_char_boundary_start_end_of_seq(pre);
    if from < to {
        is_char_boundary_iff_not_is_continuation_byte(b, from);
        is_char_boundary_iff_not_is_continuation_byte(pre, from);
    }
}

/// The slice of `s` between two byte offsets that are character boundaries.
fn byte_slice<'a>(s: &'a str, from: usize, to: usize) -> (res: &'a str)
    requires
        from <= to <= encode_utf8(s@).len(),
        is_char_boundary(encode_utf8(s@), from as int),
        is_char_boundary(encode_utf8(s@), to as int),
    ensures
        res@ == piece(encode_utf8(s@), from as int, to as int),
{
    proof {
        encode_utf8_valid_utf8(s@);
        lemma_boundary_in_prefix(encode_utf8(s@), from as int, to as int);
    }
    let (pre, _) = s.split_at(to);
    let (_, mid) = pre.split_at(from);
    proof {
        encode_utf8_decode_utf8(mid@);
        assert(encode_utf8(s@).subrange(0, to as int).subrange(from as int, to as int) =~= encode_utf8(
            s@,
        ).subrange(from as int, to as int));
    }
    mid
}

/// The replacement of a reference whose line number text is `group`.
pub fn ref_replacement_of(group: &str, script_lines: &Vec<String>) -> (res: String)
    ensures
        res@ == ref_replacement(group@, string_views(script_lines@)),
{
    match parse_usize(group) {
        Some(num) => {
            if num >= 1 && num <= script_lines.len() {
                let mut res = String::from_str("At line ");
                res.append(u64_to_decimal(num as u64).as_str());
                res.append(" '");
                res.append(trim(script_lines[num - 1].as_str()));
                res.append("'");
                res
            } else {
                let mut res = String::from_str("Line(");
                res.append(u64_to_decimal(num as u64).as_str());
                res.append(")");
                res
            }
        },
        None => String::new(),
    }
}

/// `line` with each of its matched references replaced.
pub fn replace_stack_refs(line: &str, spans: &Vec<RefSpan>, script_lines: &Vec<String>) -> (res: String)
    requires
        spans_ok(spans@, encode_utf8(line@)),
    ensures
        res@ == replaced_line(encode_utf8(line@), spans@, string_views(script_lines@)),
{
    let ghost b = encode_utf8(line@);
    let ghost lines = string_views(script_lines@);
    let len = line.as_bytes().len();
    let mut res = String::new();
    let mut last: usize = 0;
    let mut k: usize = 0;
    proof {
        encode_utf8_valid_utf8(line@);
        is_char_boundary_start_end_of_seq(b);
    }
    while k < spans.len()
        invariant
            k <= spans.len(),
            b == encode_utf8(line@),
            lines == string_views(script_lines@),
            len == b.len(),
            spans_ok(spans@, b),
            last == prev_end(spans@, k as int),
            last <= len,
            is_char_boundary(b, last as int),
            k < spans.len() ==> last <= spans@[k as int].0,
            res@ == replaced_prefix(b, spans@, lines, k as nat),
        decreases spans.len() - k,
    {
        let t = spans[k];
        assert(span_ok(spans@[k as int], b));
        let before = byte_slice(line, last, t.0);
        let group = byte_slice(line, t.1, t.2);
        res.append(before);
        let rep = ref_replacement_of(group, script_lines);
        res.append(rep.as_str());
        last = t.3;
        k = k + 1;
        if k < spans.len() {
            assert(spans@[k - 1].3 <= spans@[k as int].0);
        }
    }
    let tail = byte_slice(line, last, len);
    res.append(tail);
    res
}

/// The stack line `line` with its script references replaced, the script
/// being given by its lines.
pub fn process_stack_line(line: &str, script_lines: &Vec<String>) -> (res: String)
    ensures
        res@ == replaced_line(encode_utf8(line@), stack_ref_spans(line@), string_views(script_lines@)),
{
    let spans = stack_ref_captures(line);
    replace_stack_refs(line, &spans, script_lines)
}

/// A stack line with its script references replaced.
pub open spec fn processed_line(line: Seq<char>, script_lines: Seq<Seq<char>>) -> Seq<char> {
    replaced_line(encode_utf8(line), stack_ref_spans(line), script_lines)
}

/// A stack line in which no script reference is found comes back unchanged.
pub proof fn lemma_line_without_refs_unchanged(line: Seq<char>, script_lines: Seq<Seq<char>>)
    requires
        stack_ref_spans(line).len() == 0,
    ensures
        processed_line(line, script_lines) == line,
{
    let b = encode_utf8(line);
    encode_utf8_decode_utf8(line);
    assert(b.subrange(0, b.len() as int) =~= b);
}

/// The lines of `stack` with their script references replaced, joined with `\n`.
pub open spec fn processed_stack(stack: Seq<char>, script: Seq<char>) -> Seq<char> {
    seq_join(
        lines_spec(stack).map_values(|l: Seq<char>| processed_line(l, lines_spec(script))),
        "\n"@,
    )
}

/// Replaces, in every line of a Lua stack or syntax error message, the
/// references `[string "..."]:<n>:` (or `>`) to the script by
/// `At line <n> '<the script line, trimmed>'`.
pub fn process_stack_with_script(stack: &str, script: &str) -> (res: String)
    ensures
        res@ == processed_stack(stack@, script@),
{
    let script_lines = split_lines(script);
    let stack_lines = split_lines(stack);
    let ghost sl = lines_spec(script@);
    let ghost all = string_views(stack_lines@);
    let mut out: Vec<String> = Vec::new();
    let mut i: usize = 0;
    while i < stack_lines.len()
        invariant
            i <= stack_lines.len(),
            all == string_views(stack_lines@),
            all == lines_spec(stack@),
            sl == string_views(script_lines@),
            out@.len() == i,
            forall|j: int| 0 <= j < i ==> #[trigger] out@[j]@ == processed_line(all[j], sl),
        decreases stack_lines.len() - i,
    {
        let l = process_stack_line(stack_lines[i].as_str(), &script_lines);
        out.push(l);
        i = i + 1;
    }
    assert(string_views(out@) =~= all.map_values(|l: Seq<char>| processed_line(l, sl)));
    join_strings(&out, "\n")
}

/// One item of the chain of causes of a Lua error: whether it is itself a
/// Lua error, and its message.
#[derive(Debug)]
pub struct LuaErrorItem {
    pub is_lua: bool,
    pub message: String,
}

/// The text of one chain item in an error raised by a script: Lua errors
/// whose message mentions a traceback or a syntax error get their script
/// references replaced.
pub open spec fn script_error_item_text(item: LuaErrorItem, script: Seq<char>) -> Seq<char> {
    if item.is_lua {
        let msg = item.message@;
        let msg = if seq_contains(msg, "traceback"@) || seq_contains(msg, "syntax"@) {
            processed_stack(msg, script)
        } else {
            msg
        };
        "Lua error:\n"@ + msg
    } else {
        "Other lua error:\n"@ + item.message@
    }
}

/// The text of one chain item in an error without its script.
pub open spec fn error_item_text(item: LuaErrorItem) -> Seq<char> {
    if item.is_lua {
        "Lua error chain item\n - "@ + item.message@
    } else {
        "Other error chain item\n - "@ + item.message@
    }
}

/// A Lua error whose message mentions a syntax error, or a traceback, gets
/// its script references replaced, whatever else the message holds: its
/// text is `Lua error:\n` and the processed message, never the raw one
/// (unless processing leaves it as it is); any other Lua error keeps its
/// message as it is.
pub proof fn lemma_lua_error_item_text(item: LuaErrorItem, script: Seq<char>)
    requires
        item.is_lua,
    ensures
        seq_contains(item.message@, "syntax"@) ==> script_error_item_text(item, script) == "Lua error:\n"@
            + processed_stack(item.message@, script),
        seq_contains(item.message@, "traceback"@) ==> script_error_item_text(item, script)
            == "Lua error:\n"@ + processed_stack(item.message@, script),
        !seq_contains(item.message@, "syntax"@) && !seq_contains(item.message@, "traceback"@)
            ==> script_error_item_text(item, script) == "Lua error:\n"@ + item.message@,
{
}

/// The error of a script whose Lua error chain is a single syntax or
/// traceback error: `Lua error:\n` and the message with its script
/// references replaced.
pub proof fn lemma_single_error_processed(chain: Seq<LuaErrorItem>, script: Seq<char>)
    requires
        chain.len() == 1,
        chain[0].is_lua,
        seq_contains(chain[0].message@, "syntax"@) || seq_contains(chain[0].message@, "traceback"@),
    ensures
        seq_join(chain.map_values(|it: LuaErrorItem| script_error_item_text(it, script)), "\n"@) == "Lua error:\n"@
            + processed_stack(chain[0].message@, script),
{
    let m = chain.map_values(|it: LuaErrorItem| script_error_item_text(it, script));
    assert(m.len() == 1);
    assert(m[0] == script_error_item_text(chain[0], script));
}

impl Error {
    /// The error for a Lua error raised while running `script`: the texts of
    /// the chain items, joined with `\n`.
    pub fn from_error_with_script(chain: &Vec<LuaErrorItem>, script: &str) -> (res: Error)
        ensures
            res matches Error::Lua(msg) && msg@ == seq_join(
                chain@.map_values(|it: LuaErrorItem| script_error_item_text(it, script@)),
                "\n"@,
            ),
    {
        let mut buff: Vec<String> = Vec::new();
        let mut i: usize = 0;
        while i < chain.len()
            invariant
                i <= chain.len(),
                buff@.len() == i,
                forall|j: int| 0 <= j < i ==> #[trigger] buff@[j]@ == script_error_item_text(chain@[j], script@),
            decreases chain.len() - i,
        {
            let item = &chain[i];
            let text = if item.is_lua {
                let msg = item.message.as_str();
                let mut t = String::from_str("Lua error:\n");
                if str_contains(msg, "traceback") || str_contains(msg, "syntax") {
                    t.append(process_stack_with_script(msg, script).as_str());
                } else {
                    t.append(msg);
                }
                t
            } else {
                let mut t = String::from_str("Other lua error:\n");
                t.append(item.message.as_str());
                t
            };
            buff.push(text);
            i = i + 1;
        }
        assert(string_views(buff@) =~= chain@.map_values(
            |it: LuaErrorItem| script_error_item_text(it, script@),
        ));
        Error::Lua(join_strings(&buff, "\n"))
    }

    /// The error for a Lua error without its script: the texts of the chain
    /// items, joined with `\n`.
    pub fn from_lua_error_chain(chain: &Vec<LuaErrorItem>) -> (res: Error)
        ensures
            res matches Error::Lua(msg) && msg@ == seq_join(
                chain@.map_values(|it: LuaErrorItem| error_item_text(it)),
                "\n"@,
            ),
    {
        let mut buff: Vec<String> = Vec::new();
        let mut i: usize = 0;
        while i < chain.len()
            invariant
                i <= chain.len(),
                buff@.len() == i,
                forall|j: int| 0 <= j < i ==> #[trigger] buff@[j]@ == error_item_text(chain@[j]),
            decreases chain.len() - i,
        {
            let item = &chain[i];
            let mut t = if item.is_lua {
                String::from_str("Lua error chain item\n - ")
            } else {
                String::from_str("Other error chain item\n - ")
            };
            t.append(item.message.as_str());
            buff.push(t);
            i = i + 1;
        }
        assert(string_views(buff@) =~= chain@.map_values(|it: LuaErrorItem| error_item_text(it)));
        Error::Lua(join_strings(&buff, "\n"))
    }
}

/// The error of a Lua evaluation whose result is an error value: under the
/// context `Error when lua eval\n{}` (written as it stands), the texts of the
/// error's chain joined with `\n`, or its own text when the chain is empty.
pub fn eval_error(chain_texts: &Vec<String>, own_text: String) -> (res: Error)
    ensures
        res matches Error::Cc { ctx, cause } && ctx@ == "Error when lua eval\n{}"@ && cause@ == (if chain_texts@.len()
            == 0 {
            own_text@
        } else {
            seq_join(string_views(chain_texts@), "\n"@)
        }),
{
    let cause = if chain_texts.len() == 0 {
        own_text
    } else {
        join_strings(chain_texts, "\n")
    };
    Error::Cc { ctx: String::from_str("Error when lua eval\n{}"), cause }
}

} // verus!
