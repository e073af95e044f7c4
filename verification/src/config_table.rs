//! The `devai_config` Lua table built from the configuration's JSON value.

use vstd::prelude::*;
use vstd::string::*;
use crate::json::JsonValue;

verus! {

/// A key of the Lua table.
#[derive(Debug)]
pub enum LuaTableKey {
    Name(String),
    Index(usize),
}

/// A value of the Lua table; numbers are carried as JSON numbers.
#[derive(Debug)]
pub enum LuaTableValue {
    Str(String),
    Num(serde_json::Number),
    Bool(bool),
    Table(Vec<(LuaTableKey, LuaTableValue)>),
}

/// The Lua value of a JSON string, number or boolean.
pub open spec fn scalar_of(v: JsonValue) -> Option<LuaTableValue> {
    match v {
        JsonValue::String(s) => Some(LuaTableValue::Str(s)),
        JsonValue::Number(n) => Some(LuaTableValue::Num(n)),
        JsonValue::Bool(b) => Some(LuaTableValue::Bool(b)),
        _ => None,
    }
}

/// The entries of the Lua table of a JSON array's first `n` items: each
/// string, number or boolean at its 1-based index; the other items are left out.
pub open spec fn array_entries(items: Seq<JsonValue>, n: nat) -> Seq<(LuaTableKey, LuaTableValue)>
    decreases n,
{
    if n == 0 || n > items.len() {
        Seq::empty()
    } else {
        let r = array_entries(items, (n - 1) as nat);
        match scalar_of(items[n - 1]) {
            Some(sv) => r.push((LuaTableKey::Index(n as usize), sv)),
            None => r,
        }
    }
}

/// Whether `out` is the Lua table of the JSON value `v`: an object gives
/// one entry per property that is not null; anything else an empty table.
pub open spec fn is_lua_table_of(v: JsonValue, out: Seq<(LuaTableKey, LuaTableValue)>) -> bool
    decreases v, 0nat,
{
    match v {
        JsonValue::Object(entries) => {
            proof {
                assert(decreases_to!(v => entries));
                assert(decreases_to!(entries => entries@));
            }
            is_entries_table(entries@, entries@.len(), out)
        },
        _ => out.len() == 0,
    }
}

/// Whether `out` is the Lua table of the first `n` properties of an object:
/// strings, numbers and booleans as they are; arrays as tables of their
/// scalar items; objects as nested tables; null properties left out.
pub open spec fn is_entries_table(
    es: Seq<(String, JsonValue)>,
    n: nat,
    out: Seq<(LuaTableKey, LuaTableValue)>,
) -> bool
    decreases es, n,
{
    if n == 0 || n > es.len() {
        out.len() == 0
    } else {
        let e = es[n - 1];
        proof {
            assert(decreases_to!(es => es[n - 1]));
        }
        match e.1 {
            JsonValue::Null => is_entries_table(es, (n - 1) as nat, out),
            JsonValue::Array(items) => {
                &&& out.len() > 0
                &&& is_entries_table(es, (n - 1) as nat, out.drop_last())
                &&& out.last().0 == LuaTableKey::Name(e.0)
                &&& out.last().1 matches LuaTableValue::Table(t) && t@ == array_entries(items@, items@.len())
            },
            JsonValue::Object(_) => {
                &&& out.len() > 0
                &&& is_entries_table(es, (n - 1) as nat, out.drop_last())
                &&& out.last().0 == LuaTableKey::Name(e.0)
                &&& out.last().1 matches LuaTableValue::Table(t) && is_lua_table_of(e.1, t@)
            },
            _ => {
                &&& out.len() > 0
                &&& is_entries_table(es, (n - 1) as nat, out.drop_last())
                &&& out.last() == (LuaTableKey::Name(e.0), scalar_of(e.1)->0)
            },
        }
    }
}

/// The Lua table of the items of a JSON array.
fn array_table(items: Vec<JsonValue>) -> (res: Vec<(LuaTableKey, LuaTableValue)>)
    ensures
        res@ == array_entries(items@, items@.len()),
{
    let ghost all = items@;
    let mut items = items;
    assert(all.skip(0) =~= all);
    let mut out: Vec<(LuaTableKey, LuaTableValue)> = Vec::new();
    let mut i: usize = 0;
    let n = items.len();
    while i < n
        invariant
            i <= n,
            n == all.len(),
            items@ == all.skip(i as int),
            out@ == array_entries(all, i as nat),
        decreases n - i,
    {
        assert(all.skip(i as int)[0] == all[i as int]);
        let item = items.remove(0);
        assert(items@ =~= all.skip(i + 1));
        match item {
            JsonValue::String(s) => out.push((LuaTableKey::Index(i + 1), LuaTableValue::Str(s))),
            JsonValue::Number(x) => out.push((LuaTableKey::Index(i + 1), LuaTableValue::Num(x))),
            JsonValue::Bool(b) => out.push((LuaTableKey::Index(i + 1), LuaTableValue::Bool(b))),
            _ => {},
        }
        i = i + 1;
    }
    out
}

/// The Lua table of a JSON value: an object's properties that are not null,
/// arrays holding only their strings, numbers and booleans; any other value
/// gives an empty table.
pub fn json_to_lua_table(json_value: JsonValue) -> (res: Vec<(LuaTableKey, LuaTableValue)>)
    ensures
        is_lua_table_of(json_value, res@),
    decreases json_value,
{
    let ghost v0 = json_value;
    let entries = match json_value {
        JsonValue::Object(entries) => entries,
        _ => {
            return Vec::new();
        },
    };
    let ghost all = entries@;
    let mut entries = entries;
    assert(all.skip(0) =~= all);
    let n = entries.len();
    let mut out: Vec<(LuaTableKey, LuaTableValue)> = Vec::new();
    let mut i: usize = 0;
    while i < n
        invariant
            i <= n,
            n == all.len(),
            v0 == json_value,
            v0 matches JsonValue::Object(e) && e@ == all,
            entries@ == all.skip(i as int),
            is_entries_table(all, i as nat, out@),
        decreases n - i,
    {
        assert(all.skip(i as int)[0] == all[i as int]);
        let (key, value) = entries.remove(0);
        assert(entries@ =~= all.skip(i + 1));
        assert((key, value) == all[i as int]);
        proof {
            assert(decreases_to!(v0 => v0->Object_0));
            assert(decreases_to!(v0->Object_0 => all));
            assert(decreases_to!(all => all[i as int]));
            assert(decreases_to!(all[i as int] => all[i as int].1));
            assert(decreases_to!(v0 => all[i as int].1));
        }
        let ghost before = out@;
        match value {
            JsonValue::Null => {},
            JsonValue::String(s) => out.push((LuaTableKey::Name(key), LuaTableValue::Str(s))),
            JsonValue::Number(x) => out.push((LuaTableKey::Name(key), LuaTableValue::Num(x))),
            JsonValue::Bool(b) => out.push((LuaTableKey::Name(key), LuaTableValue::Bool(b))),
            JsonValue::Array(items) => {
                let t = array_table(items);
                out.push((LuaTableKey::Name(key), LuaTableValue::Table(t)));
            },
            JsonValue::Object(o) => {
                let sub = JsonValue::Object(o);
                assert(sub == all[i as int].1);
                let t = json_to_lua_table(sub);
                out.push((LuaTableKey::Name(key), LuaTableValue::Table(t)));
            },
        }
        assert(out@.len() > 0 ==> out@.drop_last() =~= before || out@ == before);
        i = i + 1;
    }
    out
}

} // verus!
