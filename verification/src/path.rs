//! Path joining with "OS normalization" (`utils.path.join_os_normalized`).

use vstd::prelude::*;
use vstd::string::*;
use crate::text::{chars_to_string, str_chars, string_views};

verus! {

/// `true` for the two path separators that the normalization trims.
pub open spec fn is_slash(c: char) -> bool {
    c == '/' || c == '\\'
}

/// A path looks Windows-style when its second character is `:` (as in
/// `C:`) or when it starts with a backslash.
pub open spec fn windows_style(s: Seq<char>) -> bool {
    (s.len() >= 2 && s[1] == ':') || (s.len() >= 1 && s[0] == '\\')
}

/// `s` without its trailing slashes and backslashes.
pub open spec fn trim_end_slashes(s: Seq<char>) -> Seq<char>
    decreases s.len(),
{
    if s.len() > 0 && is_slash(s.last()) {
        trim_end_slashes(s.drop_last())
    } else {
        s
    }
}

/// `s` without its leading slashes and backslashes.
pub open spec fn trim_start_slashes(s: Seq<char>) -> Seq<char>
    decreases s.len(),
{
    if s.len() > 0 && is_slash(s[0]) {
        trim_start_slashes(s.drop_first())
    } else {
        s
    }
}

/// `s` without leading nor trailing slashes and backslashes.
pub open spec fn trim_slashes(s: Seq<char>) -> Seq<char> {
    trim_start_slashes(trim_end_slashes(s))
}

/// The character after conversion: in Windows style, `/` becomes `\`.
pub open spec fn convert_char(c: char, win: bool) -> char {
    if win && c == '/' {
        '\\'
    } else {
        c
    }
}

/// `s` with every character converted (see `convert_char`).
pub open spec fn convert_seq(s: Seq<char>, win: bool) -> Seq<char> {
    s.map_values(|c: char| convert_char(c, win))
}

/// The contribution of the first component: its trailing slashes trimmed.
pub open spec fn first_part(c: Seq<char>, win: bool) -> Seq<char> {
    convert_seq(trim_end_slashes(c), win)
}

/// The contribution of a later component: slashes trimmed at both ends.
pub open spec fn rest_part(c: Seq<char>, win: bool) -> Seq<char> {
    convert_seq(trim_slashes(c), win)
}

/// Appends `part` to `acc`, with one separator between them unless `acc`
/// already ends with it; an empty `part` adds nothing.
pub open spec fn join_step(acc: Seq<char>, part: Seq<char>, sep: char) -> Seq<char> {
    if part.len() == 0 {
        acc
    } else if acc.len() > 0 && acc.last() == sep {
        acc + part
    } else {
        acc.push(sep) + part
    }
}

/// The join of the first `n` components of `comps` (`n >= 1`).
pub open spec fn join_from(comps: Seq<Seq<char>>, n: nat, win: bool, sep: char) -> Seq<char>
    decreases n,
{
    if n <= 1 {
        first_part(comps[0], win)
    } else {
        join_step(join_from(comps, (n - 1) as nat, win, sep), rest_part(comps[n - 1], win), sep)
    }
}

/// The non-empty strings of `parts`, in order.
pub open spec fn non_empty_parts(parts: Seq<Seq<char>>) -> Seq<Seq<char>>
    decreases parts.len(),
{
    if parts.len() == 0 {
        Seq::empty()
    } else if parts.last().len() > 0 {
        non_empty_parts(parts.drop_last()).push(parts.last())
    } else {
        non_empty_parts(parts.drop_last())
    }
}

/// The OS-normalized join of `parts` when the platform separator is `main_sep`:
/// empty strings are dropped; if the first remaining one is Windows-style the
/// separator is `\` and every `/` becomes `\`; the first component loses its
/// trailing slashes, the others lose their leading and trailing ones.
pub open spec fn join_os_normalized(parts: Seq<Seq<char>>, main_sep: char) -> Seq<char> {
    let comps = non_empty_parts(parts);
    if comps.len() == 0 {
        Seq::empty()
    } else {
        let win = windows_style(comps[0]);
        let sep = if win { '\\' } else { main_sep };
        join_from(comps, comps.len(), win, sep)
    }
}

/// Returns true if the given string looks like a Windows-style path:
/// its second character is `:` (e.g. `C:`) or it starts with a backslash.
pub fn is_windows_style(s: &str) -> (res: bool)
    ensures
        res == windows_style(s@),
{
    let chars = str_chars(s);
    (chars.len() >= 2 && chars[1] == ':') || (chars.len() >= 1 && chars[0] == '\\')
}

/// The end index of `c[..end]` once its trailing slashes are trimmed.
fn trim_end_index(c: &Vec<char>, end: usize) -> (e: usize)
    requires
        end <= c.len(),
    ensures
        e <= end,
        trim_end_slashes(c@.take(end as int)) == c@.take(e as int),
{
    let mut e = end;
    while e > 0 && (c[e - 1] == '/' || c[e - 1] == '\\')
        invariant
            e <= end,
            end <= c.len(),
            trim_end_slashes(c@.take(end as int)) == trim_end_slashes(c@.take(e as int)),
        decreases e,
    {
        assert(c@.take(e as int).drop_last() =~= c@.take(e - 1));
        assert(c@.take(e as int).last() == c@[e - 1]);
        e = e - 1;
    }
    if e > 0 {
        assert(c@.take(e as int).last() == c@[e - 1]);
    } else {
        assert(c@.take(0) =~= Seq::<char>::empty());
    }
    e
}

/// The start index of `c[..end]` once its leading slashes are trimmed.
fn trim_start_index(c: &Vec<char>, end: usize) -> (b: usize)
    requires
        end <= c.len(),
    ensures
        b <= end,
        trim_start_slashes(c@.take(end as int)) == c@.subrange(b as int, end as int),
{
    let mut b: usize = 0;
    assert(c@.subrange(0, end as int) =~= c@.take(end as int));
    while b < end && (c[b] == '/' || c[b] == '\\')
        invariant
            b <= end,
            end <= c.len(),
            trim_start_slashes(c@.take(end as int)) == trim_start_slashes(
                c@.subrange(b as int, end as int),
            ),
        decreases end - b,
    {
        assert(c@.subrange(b as int, end as int).drop_first() =~= c@.subrange(b + 1, end as int));
        assert(c@.subrange(b as int, end as int)[0] == c@[b as int]);
        b = b + 1;
    }
    if b < end {
        assert(c@.subrange(b as int, end as int)[0] == c@[b as int]);
    }
    b
}

/// Appends the converted characters of `c[from..to]` to `out`.
fn append_converted(out: &mut Vec<char>, c: &Vec<char>, from: usize, to: usize, win: bool)
    requires
        from <= to <= c.len(),
    ensures
        final(out)@ == old(out)@ + convert_seq(c@.subrange(from as int, to as int), win),
{
    let mut k = from;
    assert(convert_seq(c@.subrange(from as int, from as int), win) =~= Seq::<char>::empty());
    assert(out@ =~= old(out)@ + convert_seq(c@.subrange(from as int, from as int), win));
    while k < to
        invariant
            from <= k <= to,
            to <= c.len(),
            out@ == old(out)@ + convert_seq(c@.subrange(from as int, k as int), win),
        decreases to - k,
    {
        let ch = c[k];
        let conv = if win && ch == '/' { '\\' } else { ch };
        out.push(conv);
        assert(convert_seq(c@.subrange(from as int, k + 1), win) =~= convert_seq(
            c@.subrange(from as int, k as int),
            win,
        ).push(conv));
        k = k + 1;
    }
}

/// The join of a prefix of the components does not depend on what follows.
proof fn lemma_join_from_push(comps: Seq<Seq<char>>, x: Seq<char>, n: nat, win: bool, sep: char)
    requires
        1 <= n <= comps.len(),
    ensures
        join_from(comps.push(x), n, win, sep) == join_from(comps, n, win, sep),
    decreases n,
{
    assert(comps.push(x)[n - 1] == comps[n - 1]);
    assert(comps.push(x)[0] == comps[0]);
    if n > 1 {
        lemma_join_from_push(comps, x, (n - 1) as nat, win, sep);
    }
}

/// Joins `parts` with OS normalization, `main_sep` being the platform separator.
pub fn path_join_os_normalized_with_sep(parts: &Vec<String>, main_sep: char) -> (res: String)
    ensures
        res@ == join_os_normalized(string_views(parts@), main_sep),
{
    let ghost views = string_views(parts@);
    let mut out: Vec<char> = Vec::new();
    let mut seen = false;
    let mut win = false;
    let mut sep = main_sep;
    let mut i: usize = 0;
    assert(views.take(0) =~= Seq::<Seq<char>>::empty());
    while i < parts.len()
        invariant
            i <= parts.len(),
            views == string_views(parts@),
            seen == (non_empty_parts(views.take(i as int)).len() > 0),
            seen ==> win == windows_style(non_empty_parts(views.take(i as int))[0]),
            seen ==> sep == (if win { '\\' } else { main_sep }),
            seen ==> out@ == join_from(
                non_empty_parts(views.take(i as int)),
                non_empty_parts(views.take(i as int)).len(),
                win,
                sep,
            ),
            !seen ==> out@.len() == 0,
        decreases parts.len() - i,
    {
        let p = parts[i].as_str();
        let c = str_chars(p);
        let ghost comps = non_empty_parts(views.take(i as int));
        assert(views.take(i + 1).drop_last() =~= views.take(i as int));
        assert(views.take(i + 1).last() == c@);
        let ghost next = non_empty_parts(views.take(i + 1));
        assert(c@.take(c@.len() as int) =~= c@);
        if c.len() > 0 {
            assert(next == comps.push(c@));
            if !seen {
                win = is_windows_style(p);
                sep = if win { '\\' } else { main_sep };
                let e = trim_end_index(&c, c.len());
                append_converted(&mut out, &c, 0, e, win);
                assert(c@.subrange(0, e as int) =~= c@.take(e as int));
                assert(out@ =~= first_part(c@, win));
                assert(comps =~= Seq::<Seq<char>>::empty());
                assert(next[0] == c@);
                seen = true;
            } else {
                let e = trim_end_index(&c, c.len());
                let b = trim_start_index(&c, e);
                let ghost acc = out@;
                proof {
                    lemma_join_from_push(comps, c@, comps.len(), win, sep);
                    assert(next[0] == comps[0]);
                    assert(rest_part(c@, win).len() == (e - b));
                }
                if b < e {
                    if !(out.len() > 0 && out[out.len() - 1] == sep) {
                        out.push(sep);
                    }
                    append_converted(&mut out, &c, b, e, win);
                }
                assert(out@ =~= join_step(acc, rest_part(c@, win), sep));
            }
        } else {
            assert(next == comps);
        }
        i = i + 1;
    }
    assert(views.take(parts.len() as int) =~= views);
    chars_to_string(&out)
}

proof fn lemma_join_from_windows_no_slash(comps: Seq<Seq<char>>, n: nat)
    requires
        1 <= n <= comps.len(),
    ensures
        forall|k: int|
            0 <= k < join_from(comps, n, true, '\\').len() ==> join_from(comps, n, true, '\\')[k]
                != '/',
    decreases n,
{
    if n > 1 {
        lemma_join_from_windows_no_slash(comps, (n - 1) as nat);
        let acc = join_from(comps, (n - 1) as nat, true, '\\');
        let part = rest_part(comps[n - 1], true);
        assert forall|k: int| 0 <= k < part.len() implies part[k] != '/' by {}
        let res = join_step(acc, part, '\\');
        assert forall|k: int| 0 <= k < res.len() implies res[k] != '/' by {
            if part.len() == 0 {
            } else if acc.len() > 0 && acc.last() == '\\' {
                if k >= acc.len() {
                    assert(res[k] == part[k - acc.len()]);
                }
            } else {
                if k > acc.len() {
                    assert(res[k] == part[k - acc.len() - 1]);
                }
            }
        }
    } else {
        let part = first_part(comps[0], true);
        assert forall|k: int| 0 <= k < part.len() implies part[k] != '/' by {}
    }
}

/// A Windows-style join never contains a forward slash: every `/` of the
/// components is converted and the separator is `\`.
pub proof fn lemma_windows_join_has_no_forward_slash(parts: Seq<Seq<char>>, main_sep: char)
    requires
        non_empty_parts(parts).len() > 0,
        windows_style(non_empty_parts(parts)[0]),
    ensures
        forall|k: int|
            0 <= k < join_os_normalized(parts, main_sep).len() ==> join_os_normalized(
                parts,
                main_sep,
            )[k] != '/',
{
    let comps = non_empty_parts(parts);
    lemma_join_from_windows_no_slash(comps, comps.len());
}

proof fn lemma_trim_end_slashes_shape(c: Seq<char>)
    ensures
        trim_end_slashes(c).len() <= c.len(),
        trim_end_slashes(c) == c.take(trim_end_slashes(c).len() as int),
        forall|j: int| trim_end_slashes(c).len() <= j < c.len() ==> is_slash(#[trigger] c[j]),
        trim_end_slashes(c).len() > 0 ==> !is_slash(trim_end_slashes(c).last()),
    decreases c.len(),
{
    if c.len() > 0 && is_slash(c.last()) {
        let t = c.drop_last();
        lemma_trim_end_slashes_shape(t);
        assert(t.take(trim_end_slashes(t).len() as int) =~= c.take(trim_end_slashes(c).len() as int));
        assert forall|j: int| trim_end_slashes(c).len() <= j < c.len() implies is_slash(#[trigger] c[j]) by {
            if j < c.len() - 1 {
                assert(c[j] == t[j]);
            }
        }
    } else {
        assert(c.take(c.len() as int) =~= c);
    }
}

proof fn lemma_join_from_starts_with_first(comps: Seq<Seq<char>>, n: nat, win: bool, sep: char)
    requires
        1 <= n <= comps.len(),
    ensures
        join_from(comps, n, win, sep).len() >= first_part(comps[0], win).len(),
        join_from(comps, n, win, sep).take(first_part(comps[0], win).len() as int) == first_part(
            comps[0],
            win,
        ),
    decreases n,
{
    let f = first_part(comps[0], win);
    if n > 1 {
        lemma_join_from_starts_with_first(comps, (n - 1) as nat, win, sep);
        let acc = join_from(comps, (n - 1) as nat, win, sep);
        let part = rest_part(comps[n - 1], win);
        let res = join_step(acc, part, sep);
        assert(res.take(acc.len() as int) =~= acc);
        assert(res.take(f.len() as int) =~= acc.take(f.len() as int));
    } else {
        assert(join_from(comps, n, win, sep).take(f.len() as int) =~= f);
    }
}

proof fn lemma_non_empty_parts_all_empty(parts: Seq<Seq<char>>)
    requires
        forall|j: int| 0 <= j < parts.len() ==> (#[trigger] parts[j]).len() == 0,
    ensures
        non_empty_parts(parts).len() == 0,
    decreases parts.len(),
{
    if parts.len() > 0 {
        let d = parts.drop_last();
        assert forall|j: int| 0 <= j < d.len() implies (#[trigger] d[j]).len() == 0 by {
            assert(d[j] == parts[j]);
        }
        lemma_non_empty_parts_all_empty(d);
        assert(parts.last().len() == 0);
    }
}

proof fn lemma_first_non_empty(parts: Seq<Seq<char>>, i: int)
    requires
        0 <= i < parts.len(),
        parts[i].len() > 0,
        forall|j: int| 0 <= j < i ==> (#[trigger] parts[j]).len() == 0,
    ensures
        non_empty_parts(parts).len() > 0,
        non_empty_parts(parts)[0] == parts[i],
    decreases parts.len(),
{
    let d = parts.drop_last();
    if i == parts.len() - 1 {
        assert forall|j: int| 0 <= j < d.len() implies (#[trigger] d[j]).len() == 0 by {
            assert(d[j] == parts[j]);
        }
        lemma_non_empty_parts_all_empty(d);
        assert(non_empty_parts(parts) == non_empty_parts(d).push(parts.last()));
    } else {
        assert(d[i] == parts[i]);
        assert forall|j: int| 0 <= j < i implies (#[trigger] d[j]).len() == 0 by {
            assert(d[j] == parts[j]);
        }
        lemma_first_non_empty(d, i);
        if parts.last().len() > 0 {
            assert(non_empty_parts(parts) == non_empty_parts(d).push(parts.last()));
        }
    }
}

/// A join that is not Windows-style starts with its first non-empty
/// component as it is, only the slashes at its end removed: for some `m`,
/// the component's first `m` characters begin the join, the rest of it is
/// all `/` or `\\`, and its `m`-th character (if any) is none of these. So
/// an absolute component stays absolute: the join of `/a` is `/a`.
pub proof fn lemma_join_keeps_first_component(parts: Seq<Seq<char>>, main_sep: char, i: int)
    requires
        0 <= i < parts.len(),
        parts[i].len() > 0,
        forall|j: int| 0 <= j < i ==> (#[trigger] parts[j]).len() == 0,
        !windows_style(parts[i]),
    ensures
        exists|m: int|
            {
                &&& 0 <= m <= parts[i].len()
                &&& (m == 0 || !is_slash(parts[i][m - 1]))
                &&& (forall|j: int| m <= j < parts[i].len() ==> is_slash(#[trigger] parts[i][j]))
                &&& join_os_normalized(parts, main_sep).len() >= m
                &&& #[trigger] join_os_normalized(parts, main_sep).take(m) == parts[i].take(m)
            },
{
    lemma_first_non_empty(parts, i);
    let comps = non_empty_parts(parts);
    let c = parts[i];
    let sep = main_sep;
    lemma_trim_end_slashes_shape(c);
    let t = trim_end_slashes(c);
    let m = t.len() as int;
    assert(convert_seq(t, false) =~= t);
    assert(first_part(comps[0], false) == t);
    lemma_join_from_starts_with_first(comps, comps.len(), false, sep);
    let jn = join_os_normalized(parts, main_sep);
    assert(jn == join_from(comps, comps.len(), false, sep));
    assert(jn.take(m) == c.take(m));
    if m > 0 {
        assert(t.last() == c[m - 1]);
    }
}

/// The platform's main path separator (`std::path::MAIN_SEPARATOR`):
/// `/` on Unix-like systems and `\` on Windows.
#[verifier::external_body]
fn main_separator() -> (c: char)
    ensures
        c == '/' || c == '\\',
{
    std::path::MAIN_SEPARATOR
}

/// Joins path components with OS normalization, the separator of Unix-style
/// joins being the platform's own.
pub fn path_join_os_normalized(parts: &Vec<String>) -> (res: String)
    ensures
        res@ == join_os_normalized(string_views(parts@), '/') || res@ == join_os_normalized(
            string_views(parts@),
            '\\',
        ),
{
    let sep = main_separator();
    path_join_os_normalized_with_sep(parts, sep)
}

/// Whether `base` can be extended by a plain component with just one
/// separator on every platform: not empty, neither starting nor ending with
/// `/` or `\\` (no root, no UNC or verbatim prefix), and without `:` (no drive).
pub open spec fn is_extendable_base(base: Seq<char>) -> bool {
    &&& base.len() > 0
    &&& !is_slash(base[0])
    &&& !is_slash(base.last())
    &&& no_colon(base)
}

/// Whether no character of `s` is `\\` or `:`.
pub open spec fn no_backslash_colon(s: Seq<char>) -> bool {
    forall|i: int| 0 <= i < s.len() ==> #[trigger] s[i] != '\\' && s[i] != ':'
}

/// A relative path on every platform: not empty, not starting with `/`,
/// without `\\` (no root, no UNC or verbatim prefix) and without `:` (no
/// drive).
pub open spec fn is_relative_part(p: Seq<char>) -> bool {
    &&& p.len() > 0
    &&& p[0] != '/'
    &&& no_backslash_colon(p)
}

/// A relative path (see `is_relative_part`) that does not end with `/`.
pub open spec fn is_join_part(p: Seq<char>) -> bool {
    &&& is_relative_part(p)
    &&& p.last() != '/'
}

/// `std::path::PathBuf::push` of `part` onto the path `base`, as text (the
/// path is made from `base` and read back as a string). Claimed, as the
/// documentation of `push` gives it ("extends `self` with `path`"; only an
/// absolute path or, on Windows, a root or prefix replaces): a relative part
/// extends the empty path to itself, and extends a base with no root, prefix
/// or trailing separator with one separator (`/` or `\\`, the platform's)
/// and the part as it is. Not stated: the other cases, which follow the
/// platform's path rules.
#[verifier::external_body]
fn push_path(base: &str, part: &str) -> (res: String)
    ensures
        base@.len() == 0 && is_relative_part(part@) ==> res@ == part@,
        is_extendable_base(base@) && is_relative_part(part@) ==> res@.len() == base@.len() + 1 + part@.len()
            && is_slash(res@[base@.len() as int]) && res@ == base@ + seq![res@[base@.len() as int]] + part@,
{
    let mut buf = std::path::PathBuf::from(base);
    buf.push(part);
    buf.to_string_lossy().to_string()
}

/// `parts` joined in order, `seps[i]` standing between `parts[i]` and
/// `parts[i + 1]`.
pub open spec fn join_with_seps(parts: Seq<Seq<char>>, seps: Seq<char>) -> Seq<char>
    decreases parts.len(),
{
    if parts.len() == 0 {
        Seq::empty()
    } else if parts.len() == 1 {
        parts[0]
    } else {
        join_with_seps(parts.drop_last(), seps.drop_last()) + seq![seps.last()] + parts.last()
    }
}

/// Whether every one of `parts` is a join part (see `is_join_part`).
pub open spec fn all_join_parts(parts: Seq<Seq<char>>) -> bool {
    forall|i: int| 0 <= i < parts.len() ==> is_join_part(#[trigger] parts[i])
}

/// Whether every one of `seps` is `/` or `\\`.
pub open spec fn all_slashes(seps: Seq<char>) -> bool {
    forall|i: int| 0 <= i < seps.len() ==> is_slash(#[trigger] seps[i])
}

/// Whether no character of `s` is `:`.
pub open spec fn no_colon(s: Seq<char>) -> bool {
    forall|i: int| 0 <= i < s.len() ==> #[trigger] s[i] != ':'
}

proof fn lemma_no_colon_concat(a: Seq<char>, c: char, b: Seq<char>)
    requires
        no_colon(a),
        c != ':',
        no_colon(b),
    ensures
        no_colon(a + seq![c] + b),
{
    let r = a + seq![c] + b;
    assert forall|i: int| 0 <= i < r.len() implies #[trigger] r[i] != ':' by {
        if i < a.len() {
            assert(r[i] == a[i]);
        } else if i == a.len() {
            assert(r[i] == c);
        } else {
            assert(r[i] == b[i - a.len() - 1]);
        }
    }
}

proof fn lemma_join_part_ends(s: Seq<char>)
    requires
        is_join_part(s),
    ensures
        !is_slash(s[0]),
        !is_slash(s.last()),
        no_colon(s),
{
    assert(s[0] != '\\' && s[0] != ':');
    assert(s[s.len() - 1] != '\\' && s[s.len() - 1] != ':');
    assert forall|i: int| 0 <= i < s.len() implies #[trigger] s[i] != ':' by {
        assert(s[i] != '\\' && s[i] != ':');
    }
}

/// Join parts joined with separators make a base that extends with one
/// separator.
proof fn lemma_join_with_seps_extendable(parts: Seq<Seq<char>>, seps: Seq<char>)
    requires
        parts.len() >= 1,
        seps.len() + 1 == parts.len(),
        all_join_parts(parts),
        all_slashes(seps),
    ensures
        join_with_seps(parts, seps).len() > 0,
        !is_slash(join_with_seps(parts, seps)[0]),
        !is_slash(join_with_seps(parts, seps).last()),
        no_colon(join_with_seps(parts, seps)),
    decreases parts.len(),
{
    let last = parts[parts.len() - 1];
    assert(is_join_part(last));
    lemma_join_part_ends(last);
    if parts.len() == 1 {
    } else {
        let pr = parts.drop_last();
        let sr = seps.drop_last();
        assert forall|i: int| 0 <= i < pr.len() implies is_join_part(#[trigger] pr[i]) by {
            assert(pr[i] == parts[i]);
        }
        assert forall|i: int| 0 <= i < sr.len() implies is_slash(#[trigger] sr[i]) by {
            assert(sr[i] == seps[i]);
        }
        lemma_join_with_seps_extendable(pr, sr);
        let prev = join_with_seps(pr, sr);
        let c = seps[seps.len() - 1];
        assert(is_slash(c));
        lemma_no_colon_concat(prev, c, last);
        let r = prev + seq![c] + last;
        assert(join_with_seps(parts, seps) == r);
        assert(r[0] == prev[0]);
        assert(r[r.len() - 1] == last[last.len() - 1]);
    }
}

/// Joins the path components as given, with the platform's path rules
/// (`PathBuf::push` of each in turn), without normalization. No component
/// gives the empty path; relative components (neither starting nor ending
/// with `/`, without `\\` or `:`) are joined as they are, with one separator
/// (`/` or `\\`) between each two.
pub fn path_join_non_os_normalized(parts: &Vec<String>) -> (res: String)
    ensures
        parts@.len() == 0 ==> res@.len() == 0,
        parts@.len() > 0 && all_join_parts(string_views(parts@)) ==> exists|seps: Seq<char>|
            #![trigger join_with_seps(string_views(parts@), seps)]
            seps.len() + 1 == parts@.len() && all_slashes(seps) && res@ == join_with_seps(
                string_views(parts@),
                seps,
            ),
{
    let ghost views = string_views(parts@);
    let mut acc = String::new();
    let ghost mut seps: Seq<char> = Seq::empty();
    let mut i: usize = 0;
    while i < parts.len()
        invariant
            i <= parts.len(),
            views == string_views(parts@),
            i == 0 ==> acc@.len() == 0 && seps.len() == 0,
            all_join_parts(views) ==> {
                &&& i > 0 ==> seps.len() + 1 == i
                &&& all_slashes(seps)
                &&& i > 0 ==> acc@ == join_with_seps(views.take(i as int), seps)
            },
        decreases parts.len() - i,
    {
        let part = parts[i].as_str();
        let ghost before = acc@;
        let next = push_path(acc.as_str(), part);
        proof {
            if all_join_parts(views) {
                assert(views[i as int] == part@);
                assert(is_join_part(part@));
                let t = views.take(i + 1);
                assert(t.last() == part@);
                if i == 0 {
                    assert(t =~= seq![part@]);
                    assert(next@ == join_with_seps(t, seps));
                } else {
                    let pr = views.take(i as int);
                    assert forall|j: int| 0 <= j < pr.len() implies is_join_part(#[trigger] pr[j]) by {
                        assert(pr[j] == views[j]);
                    }
                    lemma_join_with_seps_extendable(pr, seps);
                    let c = next@[before.len() as int];
                    let s2 = seps.push(c);
                    assert(t.drop_last() =~= pr);
                    assert(s2.drop_last() =~= seps);
                    assert(all_slashes(s2)) by {
                        assert forall|j: int| 0 <= j < s2.len() implies is_slash(#[trigger] s2[j]) by {
                            if j < seps.len() {
                                assert(s2[j] == seps[j]);
                            }
                        }
                    }
                    assert(next@ == join_with_seps(t, s2));
                    seps = s2;
                }
            }
        }
        acc = next;
        i = i + 1;
    }
    proof {
        if parts@.len() > 0 && all_join_parts(views) {
            assert(views.take(parts@.len() as int) =~= views);
        }
    }
    acc
}

/// Index of the last `/` of `s`, or `-1` when there is none.
pub open spec fn last_slash(s: Seq<char>) -> int
    decreases s.len(),
{
    if s.len() == 0 {
        -1
    } else if s.last() == '/' {
        s.len() - 1
    } else {
        last_slash(s.drop_last())
    }
}

/// Whether a `.` component stands at index `i` of `s` (a `.` between
/// separators or the ends).
pub open spec fn dot_segment_at(s: Seq<char>, i: int) -> bool {
    &&& 0 <= i < s.len()
    &&& s[i] == '.'
    &&& (i == 0 || s[i - 1] == '/')
    &&& (i + 1 == s.len() || s[i + 1] == '/')
}

/// A path that `Path` reads the same way on every platform and whose
/// parent it gives back as a piece of the text: only `/` as separator (no
/// `\\`), no `:` (no drive), no leading `//` (no UNC prefix), and no `.`
/// component but a leading one.
pub open spec fn is_portable_path(s: Seq<char>) -> bool {
    &&& no_backslash_colon(s)
    &&& !(s.len() >= 2 && s[0] == '/' && s[1] == '/')
    &&& forall|i: int| 0 < i < s.len() ==> !#[trigger] dot_segment_at(s, i)
}

/// The parent of a portable path, as `Path::parent` gives it: trailing
/// separators ignored; none for the empty path and the root; `""` for a
/// relative path of one component; `/` for a component under the root;
/// otherwise the text before the last component, without its trailing
/// separators.
pub open spec fn portable_parent(s: Seq<char>) -> Option<Seq<char>> {
    let q = trim_end_slashes(s);
    if q.len() == 0 {
        None
    } else {
        let k = last_slash(q);
        if k < 0 {
            Some(Seq::empty())
        } else {
            let d = trim_end_slashes(q.take(k));
            if d.len() == 0 {
                Some(seq!['/'])
            } else {
                Some(d)
            }
        }
    }
}

/// The file name of a portable path, as `Path::file_name` gives it: its
/// last component, trailing separators ignored; none for the empty path,
/// the root, and a path that ends in `.` or `..`.
pub open spec fn portable_file_name(s: Seq<char>) -> Option<Seq<char>> {
    let q = trim_end_slashes(s);
    if q.len() == 0 {
        None
    } else {
        let last = q.skip(last_slash(q) + 1);
        if last == seq!['.'] || last == seq!['.', '.'] {
            None
        } else {
            Some(last)
        }
    }
}

/// The text of an optional string.
pub open spec fn opt_text(o: Option<String>) -> Option<Seq<char>> {
    match o {
        Some(s) => Some(s@),
        None => None,
    }
}

/// `std::path::Path::parent` of `path`, as a string: the path without its
/// final component, `None` when it ends in a root or prefix or is empty.
/// Claimed, as documented (trailing separators ignored, `Some("")` for a
/// relative path of one component), for a portable path: `portable_parent`.
/// Not stated: the value for other paths, which follows the platform's
/// path rules.
#[verifier::external_body]
fn std_path_parent(path: &str) -> (res: Option<String>)
    ensures
        is_portable_path(path@) ==> opt_text(res) == portable_parent(path@),
{
    match std::path::Path::new(path).parent() {
        Some(p) => match p.to_str() {
            Some(s) => Some(s.to_string()),
            None => None,
        },
        None => None,
    }
}

/// The parent directory of `path`, or `None` when it has none; for a
/// portable path, `portable_parent` (none for `""` and `/`, `""` for one
/// relative component, `/` under the root, else the text before the last
/// component).
pub fn path_parent(path: &str) -> (res: Option<String>)
    ensures
        is_portable_path(path@) ==> opt_text(res) == portable_parent(path@),
{
    std_path_parent(path)
}

/// `simple_fs::SPath::parent` of the path `path`, as a string (the
/// `std::path::Path::parent` of it, kept when it is UTF-8). Claimed, as
/// `Path::parent` documents, for a portable path: `portable_parent`. Not
/// stated: its value for other paths, which follows the platform's path
/// rules.
#[verifier::external_body]
fn spath_parent(path: &str) -> (res: Option<String>)
    ensures
        is_portable_path(path@) ==> opt_text(res) == portable_parent(path@),
{
    match simple_fs::SPath::from(path).parent() {
        Some(p) => Some(p.to_string()),
        None => None,
    }
}

/// `simple_fs::SPath::file_name` of the path `path` (`Path::file_name`):
/// its final component, when there is one. Claimed, as documented (trailing
/// separators ignored, `None` for a path that ends in `..`), for a portable
/// path: `portable_file_name`. Not stated: its value for other paths, which
/// follows the platform's path rules.
#[verifier::external_body]
fn spath_file_name(path: &str) -> (res: Option<String>)
    ensures
        is_portable_path(path@) ==> opt_text(res) == portable_file_name(path@),
{
    match simple_fs::SPath::from(path).file_name() {
        Some(n) => Some(n.to_string()),
        None => None,
    }
}

/// The text of an optional text, empty when there is none.
pub open spec fn text_or_empty(o: Option<Seq<char>>) -> Seq<char> {
    match o {
        Some(t) => t,
        None => Seq::empty(),
    }
}

/// The string of an optional part, empty when there is none.
pub open spec fn part_or_empty(o: Option<String>) -> Seq<char> {
    match o {
        Some(s) => s@,
        None => Seq::empty(),
    }
}

/// The pair (parent, file name) of a split path, each empty when missing.
pub fn split_parts(parent: Option<String>, file_name: Option<String>) -> (res: (String, String))
    ensures
        res.0@ == part_or_empty(parent),
        res.1@ == part_or_empty(file_name),
{
    let p = match parent {
        Some(p) => p,
        None => String::new(),
    };
    let f = match file_name {
        Some(f) => f,
        None => String::new(),
    };
    (p, f)
}

/// Splits `path` into its parent and its file name, each empty when the
/// path has none; for a portable path, `portable_parent` and
/// `portable_file_name`.
pub fn path_split(path: &str) -> (res: (String, String))
    ensures
        is_portable_path(path@) ==> res.0@ == text_or_empty(portable_parent(path@)) && res.1@ == text_or_empty(
            portable_file_name(path@),
        ),
{
    let parent = spath_parent(path);
    let file_name = spath_file_name(path);
    split_parts(parent, file_name)
}

} // verus!
