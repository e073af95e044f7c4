//! `utils.lua.dump`: the text of a Lua value, tables shown recursively.

use vstd::prelude::*;
use vstd::string::*;
use crate::text::{i64_to_decimal, int_to_decimal, join_strings, seq_join, string_views};

verus! {

/// A Lua value as `dump` sees it; numbers come with their text.
#[derive(Debug)]
pub enum DumpValue {
    Nil,
    Boolean(bool),
    Integer(i64),
    Number(String),
    Str(String),
    /// The table's pairs, in iteration order.
    Table(Vec<(DumpValue, DumpValue)>),
    /// A function and its name, when it has one.
    Function(Option<String>),
    UserData,
    LightUserData,
    Thread,
    Other,
}

/// `n` times two spaces.
pub open spec fn indent_spec(n: nat) -> Seq<char>
    decreases n,
{
    if n == 0 {
        Seq::empty()
    } else {
        indent_spec((n - 1) as nat) + "  "@
    }
}

/// The text of `v` at indentation level `indent`.
pub open spec fn dump_spec(v: DumpValue, indent: nat) -> Seq<char>
    decreases v, 0nat,
{
    match v {
        DumpValue::Nil => "nil"@,
        DumpValue::Boolean(b) => if b { "true"@ } else { "false"@ },
        DumpValue::Integer(i) => int_to_decimal(i as int),
        DumpValue::Number(s) => s@,
        DumpValue::Str(s) => "\""@ + s@ + "\""@,
        DumpValue::Table(entries) => {
            proof {
                assert(decreases_to!(v => entries));
                assert(decreases_to!(entries => entries@));
            }
            "{\n"@ + seq_join(entry_lines(entries@, indent, entries@.len()), ",\n"@) + "\n"@
                + indent_spec(indent) + "}"@
        },
        DumpValue::Function(name) => match name {
            Some(n) => "<function "@ + n@ + ">"@,
            None => "<function <anonymous>>"@,
        },
        DumpValue::UserData => "<UserData>"@,
        DumpValue::LightUserData => "<LightUserData>"@,
        DumpValue::Thread => "<Thread>"@,
        DumpValue::Other => "<OtherType>"@,
    }
}

/// The lines of the first `n` pairs of a table at indentation level `indent`:
/// `<indent + 1><key> = <value>`, a string key shown as is.
pub open spec fn entry_lines(es: Seq<(DumpValue, DumpValue)>, indent: nat, n: nat) -> Seq<Seq<char>>
    decreases es, n,
{
    if n == 0 || n > es.len() {
        Seq::empty()
    } else {
        let e = es[n - 1];
        proof {
            assert(decreases_to!(es => es[n - 1]));
        }
        let key = match e.0 {
            DumpValue::Str(s) => s@,
            _ => dump_spec(e.0, 0),
        };
        entry_lines(es, indent, (n - 1) as nat).push(
            indent_spec(indent + 1) + key + " = "@ + dump_spec(e.1, indent + 1),
        )
    }
}

/// A boolean dumps as Rust prints it, `true` or `false`, never as `nil`:
/// `nil`, `true` and `false` dump to three different texts, at every
/// indentation, and the value of a table entry shows the same way.
pub proof fn lemma_boolean_dumps(b: bool, indent: nat, key: String)
    ensures
        dump_spec(DumpValue::Boolean(b), indent) == (if b { "true"@ } else { "false"@ }),
        dump_spec(DumpValue::Boolean(b), indent) != dump_spec(DumpValue::Nil, indent),
        dump_spec(DumpValue::Boolean(true), indent) != dump_spec(DumpValue::Boolean(false), indent),
        entry_lines(seq![(DumpValue::Str(key), DumpValue::Boolean(b))], indent, 1) == seq![
            indent_spec(indent + 1) + key@ + " = "@ + (if b { "true"@ } else { "false"@ }),
        ],
{
    reveal_strlit("true");
    reveal_strlit("false");
    reveal_strlit("nil");
    assert("true"@.len() != "false"@.len());
    assert("false"@ != "nil"@) by {
        assert("false"@.len() != "nil"@.len());
    }
    assert("true"@ != "nil"@) by {
        assert("true"@[0] != "nil"@[0]);
    }
    let es = seq![(DumpValue::Str(key), DumpValue::Boolean(b))];
    assert(entry_lines(es, indent, 0) =~= Seq::<Seq<char>>::empty());
    assert(entry_lines(es, indent, 1) =~= seq![
        indent_spec(indent + 1) + key@ + " = "@ + dump_spec(DumpValue::Boolean(b), indent + 1),
    ]);
}

fn dump_rec(v: &DumpValue, Ghost(indent): Ghost<nat>, pad: &String) -> (res: String)
    requires
        pad@ == indent_spec(indent),
    ensures
        res@ == dump_spec(*v, indent),
    decreases v,
{
    match v {
        DumpValue::Nil => String::from_str("nil"),
        DumpValue::Boolean(b) => if *b {
            String::from_str("true")
        } else {
            String::from_str("false")
        },
        DumpValue::Integer(i) => i64_to_decimal(*i),
        DumpValue::Number(s) => s.clone(),
        DumpValue::Str(s) => {
            let mut res = String::from_str("\"");
            res.append(s.as_str());
            res.append("\"");
            res
        },
        DumpValue::Table(entries) => {
            let mut child_pad = pad.clone();
            child_pad.append("  ");
            assert(child_pad@ == indent_spec(indent + 1));
            let mut lines: Vec<String> = Vec::new();
            let mut i: usize = 0;
            while i < entries.len()
                invariant
                    i <= entries.len(),
                    *v == DumpValue::Table(*entries),
                    child_pad@ == indent_spec(indent + 1),
                    string_views(lines@) == entry_lines(entries@, indent, i as nat),
                decreases entries.len() - i,
            {
                let e = &entries[i];
                proof {
                    assert(decreases_to!(*v => (*v)->Table_0));
                    assert((*v)->Table_0 == *entries);
                    assert(decreases_to!(*entries => entries@));
                    assert(decreases_to!(entries@ => entries@[i as int]));
                    assert(decreases_to!(entries@[i as int] => entries@[i as int].0));
                    assert(decreases_to!(entries@[i as int] => entries@[i as int].1));
                }
                let key = match &e.0 {
                    DumpValue::Str(s) => s.clone(),
                    other => {
                        let empty = String::new();
                        proof {
                            assert(empty@ == indent_spec(0));
                        }
                        dump_rec(other, Ghost(0), &empty)
                    },
                };
                let mut line = child_pad.clone();
                line.append(key.as_str());
                line.append(" = ");
                let val = dump_rec(&e.1, Ghost(indent + 1), &child_pad);
                line.append(val.as_str());
                let ghost before = string_views(lines@);
                lines.push(line);
                assert(string_views(lines@) =~= before.push(line@));
                i = i + 1;
            }
            let mut res = String::from_str("{\n");
            res.append(join_strings(&lines, ",\n").as_str());
            res.append("\n");
            res.append(pad.as_str());
            res.append("}");
            res
        },
        DumpValue::Function(name) => match name {
            Some(n) => {
                let mut res = String::from_str("<function ");
                res.append(n.as_str());
                res.append(">");
                res
            },
            None => String::from_str("<function <anonymous>>"),
        },
        DumpValue::UserData => String::from_str("<UserData>"),
        DumpValue::LightUserData => String::from_str("<LightUserData>"),
        DumpValue::Thread => String::from_str("<Thread>"),
        DumpValue::Other => String::from_str("<OtherType>"),
    }
}

/// `utils.lua.dump(value)`: the text of `value`, tables shown one pair per
/// line, indented by two spaces per level.
pub fn dump(value: &DumpValue) -> (res: String)
    ensures
        res@ == dump_spec(*value, 0),
{
    let pad = String::new();
    dump_rec(value, Ghost(0), &pad)
}

} // verus!
