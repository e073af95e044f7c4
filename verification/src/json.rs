//! A JSON value model: what the Lua and Rhai scripts return once converted,
//! with lookups along object keys.

use vstd::prelude::*;
use vstd::string::*;
use crate::text::seq_join;

verus! {

/// `serde_json::Number`, carried through unchanged.
#[verifier::external_type_specification]
#[verifier::external_body]
pub struct ExNumber(serde_json::Number);

/// A JSON value. Objects hold their entries in map order; keys are distinct
/// when the value comes from a JSON map.
#[derive(Debug)]
pub enum JsonValue {
    Null,
    Bool(bool),
    Number(serde_json::Number),
    String(String),
    Array(Vec<JsonValue>),
    Object(Vec<(String, JsonValue)>),
}

/// Index of the first entry whose key is `key`, or `-1` when there is none.
pub open spec fn find_key(entries: Seq<(String, JsonValue)>, key: Seq<char>) -> int
    decreases entries.len(),
{
    if entries.len() == 0 {
        -1
    } else if entries[0].0@ == key {
        0
    } else {
        let r = find_key(entries.drop_first(), key);
        if r < 0 {
            -1
        } else {
            r + 1
        }
    }
}

/// The value of the first entry whose key is `key`.
pub open spec fn object_get(entries: Seq<(String, JsonValue)>, key: Seq<char>) -> Option<JsonValue> {
    let i = find_key(entries, key);
    if i < 0 {
        None
    } else {
        Some(entries[i].1)
    }
}

/// The entries without the first one whose key is `key` (the map's `remove`).
pub open spec fn remove_key(entries: Seq<(String, JsonValue)>, key: Seq<char>) -> Seq<
    (String, JsonValue),
> {
    let i = find_key(entries, key);
    if i < 0 {
        entries
    } else {
        entries.remove(i)
    }
}

/// The keys of the entries, in order.
pub open spec fn keys_of(entries: Seq<(String, JsonValue)>) -> Seq<Seq<char>> {
    entries.map_values(|e: (String, JsonValue)| e.0@)
}

/// The value of property `key` of an object, if `v` is an object that has it.
pub open spec fn value_get(v: JsonValue, key: Seq<char>) -> Option<JsonValue> {
    match v {
        JsonValue::Object(entries) => object_get(entries@, key),
        _ => None,
    }
}

/// The value reached from `v` by following the object keys `keys` in turn
/// (a JSON pointer made of non-numeric tokens).
pub open spec fn value_at(v: JsonValue, keys: Seq<Seq<char>>) -> Option<JsonValue>
    decreases keys.len(),
{
    if keys.len() == 0 {
        Some(v)
    } else {
        match value_get(v, keys[0]) {
            Some(c) => value_at(c, keys.drop_first()),
            None => None,
        }
    }
}

/// The string reached from `v` by following `keys`, if what is there is a string.
pub open spec fn string_at(v: JsonValue, keys: Seq<Seq<char>>) -> Option<String> {
    match value_at(v, keys) {
        Some(JsonValue::String(s)) => Some(s),
        _ => None,
    }
}

/// The views of a list of string slices.
pub open spec fn str_views(keys: Seq<&str>) -> Seq<Seq<char>> {
    keys.map_values(|k: &str| k@)
}

/// Whether two string slices hold the same characters.
pub fn str_equal(a: &str, b: &str) -> (res: bool)
    ensures
        res == (a@ == b@),
{
    let ca = crate::text::str_chars(a);
    let cb = crate::text::str_chars(b);
    if ca.len() != cb.len() {
        return false;
    }
    let mut i: usize = 0;
    while i < ca.len()
        invariant
            i <= ca.len(),
            ca.len() == cb.len(),
            ca@ == a@,
            cb@ == b@,
            forall|j: int| 0 <= j < i ==> ca@[j] == cb@[j],
        decreases ca.len() - i,
    {
        if ca[i] != cb[i] {
            return false;
        }
        i = i + 1;
    }
    assert(a@ =~= b@);
    true
}

proof fn lemma_find_key_at(entries: Seq<(String, JsonValue)>, key: Seq<char>, i: int)
    requires
        0 <= i <= entries.len(),
        forall|j: int| 0 <= j < i ==> entries[j].0@ != key,
        i < entries.len() ==> entries[i].0@ == key,
    ensures
        find_key(entries, key) == (if i == entries.len() { -1 } else { i }),
    decreases i,
{
    if i > 0 {
        lemma_find_key_at(entries.drop_first(), key, i - 1);
    }
}

/// `find_key` gives the index of the first entry with the key, or `-1` when
/// no entry has it.
pub proof fn lemma_find_key_props(entries: Seq<(String, JsonValue)>, key: Seq<char>)
    ensures
        -1 <= find_key(entries, key) < entries.len(),
        find_key(entries, key) >= 0 ==> entries[find_key(entries, key)].0@ == key,
        forall|j: int| 0 <= j < find_key(entries, key) ==> (#[trigger] entries[j]).0@ != key,
        find_key(entries, key) == -1 ==> forall|j: int| 0 <= j < entries.len() ==> (#[trigger] entries[j]).0@ != key,
    decreases entries.len(),
{
    if entries.len() > 0 && entries[0].0@ != key {
        let t = entries.drop_first();
        lemma_find_key_props(t, key);
        assert forall|j: int| 0 < j < entries.len() implies entries[j] == #[trigger] t[j - 1] by {}
        assert forall|j: int| 0 <= j < find_key(entries, key) implies (#[trigger] entries[j]).0@ != key by {
            if j > 0 {
                assert(entries[j] == t[j - 1]);
            }
        }
        if find_key(entries, key) == -1 {
            assert forall|j: int| 0 <= j < entries.len() implies (#[trigger] entries[j]).0@ != key by {
                if j > 0 {
                    assert(entries[j] == t[j - 1]);
                }
            }
        }
    }
}

/// Removing the entry of one key does not change the value of another key.
pub proof fn lemma_object_get_remove_other(entries: Seq<(String, JsonValue)>, k1: Seq<char>, k2: Seq<char>)
    requires
        k1 != k2,
    ensures
        object_get(remove_key(entries, k1), k2) == object_get(entries, k2),
{
    lemma_find_key_props(entries, k1);
    lemma_find_key_props(entries, k2);
    let i1 = find_key(entries, k1);
    if i1 >= 0 {
        let r = entries.remove(i1);
        let i2 = find_key(entries, k2);
        assert forall|j: int| 0 <= j < r.len() implies #[trigger] r[j] == (if j < i1 { entries[j] } else { entries[j + 1] }) by {}
        if i2 == -1 {
            assert forall|j: int| 0 <= j < r.len() implies (#[trigger] r[j]).0@ != k2 by {
                if j >= i1 {
                    assert(entries[j + 1].0@ != k2);
                }
            }
            lemma_find_key_at(r, k2, r.len() as int);
        } else if i2 < i1 {
            lemma_find_key_at(r, k2, i2);
        } else {
            assert(i2 != i1);
            assert forall|j: int| 0 <= j < i2 - 1 implies (#[trigger] r[j]).0@ != k2 by {
                if j >= i1 {
                    assert(r[j] == entries[j + 1]);
                } else {
                    assert(r[j] == entries[j]);
                }
            }
            assert(r[i2 - 1] == entries[i2]);
            lemma_find_key_at(r, k2, i2 - 1);
        }
    }
}

/// Whether the keys of the entries are distinct (as in a JSON map).
pub open spec fn distinct_keys(entries: Seq<(String, JsonValue)>) -> bool {
    forall|i: int, j: int| 0 <= i < j < entries.len() ==> (#[trigger] entries[i]).0@ != (#[trigger] entries[j]).0@
}

/// Removing a key from entries whose distinct keys all lie in `ks` leaves
/// entries whose distinct keys lie in `ks` without that key.
pub proof fn lemma_remove_key_keys(entries: Seq<(String, JsonValue)>, ks: Set<Seq<char>>, k: Seq<char>)
    requires
        distinct_keys(entries),
        forall|i: int| 0 <= i < entries.len() ==> ks.contains((#[trigger] entries[i]).0@),
    ensures
        distinct_keys(remove_key(entries, k)),
        forall|i: int|
            0 <= i < remove_key(entries, k).len() ==> ks.remove(k).contains(
                (#[trigger] remove_key(entries, k)[i]).0@,
            ),
{
    lemma_find_key_props(entries, k);
    let i1 = find_key(entries, k);
    let r = remove_key(entries, k);
    if i1 >= 0 {
        assert(r == entries.remove(i1));
        assert forall|j: int| 0 <= j < r.len() implies #[trigger] r[j] == (if j < i1 { entries[j] } else { entries[j + 1] }) by {}
        assert forall|j: int| 0 <= j < r.len() implies ks.remove(k).contains((#[trigger] r[j]).0@) by {
            if j < i1 {
                assert(entries[j].0@ != entries[i1].0@);
            } else {
                assert(entries[i1].0@ != entries[j + 1].0@);
            }
        }
        assert forall|a: int, b: int| 0 <= a < b < r.len() implies (#[trigger] r[a]).0@ != (#[trigger] r[b]).0@ by {
            let ea = if a < i1 { a } else { a + 1 };
            let eb = if b < i1 { b } else { b + 1 };
            assert(r[a] == entries[ea]);
            assert(r[b] == entries[eb]);
            assert(ea < eb);
        }
    } else {
        assert forall|j: int| 0 <= j < r.len() implies ks.remove(k).contains((#[trigger] r[j]).0@) by {
            assert(entries[j].0@ != k);
        }
    }
}

/// The index of the first entry whose key is `key`.
pub fn find_key_index(entries: &Vec<(String, JsonValue)>, key: &str) -> (res: Option<usize>)
    ensures
        match res {
            Some(i) => i < entries@.len() && find_key(entries@, key@) == i,
            None => find_key(entries@, key@) == -1,
        },
{
    let mut i: usize = 0;
    while i < entries.len()
        invariant
            i <= entries.len(),
            forall|j: int| 0 <= j < i ==> entries@[j].0@ != key@,
        decreases entries.len() - i,
    {
        if str_equal(entries[i].0.as_str(), key) {
            proof {
                lemma_find_key_at(entries@, key@, i as int);
            }
            return Some(i);
        }
        i = i + 1;
    }
    proof {
        lemma_find_key_at(entries@, key@, i as int);
    }
    None
}

/// The value of property `key` of `v`, if `v` is an object that has it.
pub fn get_ref<'a>(v: &'a JsonValue, key: &str) -> (res: Option<&'a JsonValue>)
    ensures
        match res {
            Some(c) => value_get(*v, key@) == Some(*c),
            None => value_get(*v, key@) is None,
        },
{
    match v {
        JsonValue::Object(entries) => match find_key_index(entries, key) {
            Some(i) => Some(&entries[i].1),
            None => None,
        },
        _ => None,
    }
}

/// The value reached from `v` by following the object keys `keys`.
pub fn lookup_ref<'a>(v: &'a JsonValue, keys: &Vec<&str>) -> (res: Option<&'a JsonValue>)
    ensures
        match res {
            Some(c) => value_at(*v, str_views(keys@)) == Some(*c),
            None => value_at(*v, str_views(keys@)) is None,
        },
{
    let ghost ks = str_views(keys@);
    let mut cur: &JsonValue = v;
    let mut i: usize = 0;
    assert(ks.skip(0) =~= ks);
    while i < keys.len()
        invariant
            i <= keys.len(),
            ks == str_views(keys@),
            value_at(*v, ks) == value_at(*cur, ks.skip(i as int)),
        decreases keys.len() - i,
    {
        assert(ks.skip(i as int)[0] == keys@[i as int]@);
        assert(ks.skip(i as int).drop_first() =~= ks.skip(i + 1));
        match get_ref(cur, keys[i]) {
            Some(c) => {
                cur = c;
            },
            None => {
                return None;
            },
        }
        i = i + 1;
    }
    Some(cur)
}

/// A copy of the string reached from `v` by following `keys`, if it is a string.
pub fn string_at_path(v: &JsonValue, keys: &Vec<&str>) -> (res: Option<String>)
    ensures
        res == string_at(*v, str_views(keys@)),
{
    match lookup_ref(v, keys) {
        Some(JsonValue::String(s)) => Some(s.clone()),
        _ => None,
    }
}

/// Removes the first entry whose key is `key` and returns its value.
pub fn remove_entry(entries: &mut Vec<(String, JsonValue)>, key: &str) -> (res: Option<JsonValue>)
    ensures
        res == object_get(old(entries)@, key@),
        final(entries)@ == remove_key(old(entries)@, key@),
{
    match find_key_index(entries, key) {
        Some(i) => {
            let (_, c) = entries.remove(i);
            Some(c)
        },
        None => None,
    }
}

/// The keys of `entries` joined with `sep`.
pub fn join_keys(entries: &Vec<(String, JsonValue)>, sep: &str) -> (res: String)
    ensures
        res@ == seq_join(keys_of(entries@), sep@),
{
    let ghost keys = keys_of(entries@);
    let mut res = String::new();
    let mut i: usize = 0;
    while i < entries.len()
        invariant
            i <= entries.len(),
            keys == keys_of(entries@),
            res@ == seq_join(keys.take(i as int), sep@),
        decreases entries.len() - i,
    {
        assert(keys.take(i + 1).drop_last() =~= keys.take(i as int));
        assert(keys.take(i + 1).last() == entries@[i as int].0@);
        if i > 0 {
            res.append(sep);
        } else {
            assert(keys.take(0) =~= Seq::<Seq<char>>::empty());
        }
        res.append(entries[i].0.as_str());
        i = i + 1;
    }
    assert(keys.take(entries.len() as int) =~= keys);
    res
}

/// Moves out the value of property `key` of `v`, if `v` is an object that has it.
pub fn take_key(v: JsonValue, key: &str) -> (res: Option<JsonValue>)
    ensures
        res == value_get(v, key@),
{
    match v {
        JsonValue::Object(entries) => {
            let mut entries = entries;
            remove_entry(&mut entries, key)
        },
        _ => None,
    }
}

/// Moves out the value reached from `v` by following the object keys `keys`.
pub fn take_path(v: JsonValue, keys: &Vec<&str>) -> (res: Option<JsonValue>)
    ensures
        res == value_at(v, str_views(keys@)),
{
    let ghost ks = str_views(keys@);
    let ghost v0 = v;
    let mut cur = v;
    let mut i: usize = 0;
    assert(ks.skip(0) =~= ks);
    while i < keys.len()
        invariant
            i <= keys.len(),
            ks == str_views(keys@),
            v0 == v,
            value_at(v0, ks) == value_at(cur, ks.skip(i as int)),
        decreases keys.len() - i,
    {
        assert(ks.skip(i as int)[0] == keys@[i as int]@);
        assert(ks.skip(i as int).drop_first() =~= ks.skip(i + 1));
        let ghost before = cur;
        match take_key(cur, keys[i]) {
            Some(c) => {
                cur = c;
            },
            None => {
                assert(value_at(before, ks.skip(i as int)) is None);
                assert(value_at(v0, ks) is None);
                return None;
            },
        }
        i = i + 1;
    }
    Some(cur)
}

/// The entries of a root object, in order, as they go into a script scope;
/// any other root value is an error.
pub fn root_object_entries(value: JsonValue) -> (res: Result<Vec<(String, JsonValue)>, crate::error::Error>)
    ensures
        match value {
            JsonValue::Object(entries) => res == Ok::<Vec<(String, JsonValue)>, crate::error::Error>(entries),
            _ => res matches Err(crate::error::Error::Custom(m)) && m@ == "Root value must be an object"@,
        },
{
    match value {
        JsonValue::Object(entries) => Ok(entries),
        _ => Err(crate::error::Error::Custom(String::from_str("Root value must be an object"))),
    }
}

/// What `json::parse` gives once the text is parsed: the value, or, when the
/// text is no JSON, the error "JSON parse error" with the parser's message.
pub fn json_parse_result(parsed: Result<JsonValue, String>) -> (res: Result<JsonValue, crate::error::Error>)
    ensures
        match parsed {
            Ok(v) => res == Ok::<JsonValue, crate::error::Error>(v),
            Err(e) => res matches Err(crate::error::Error::Cc { ctx, cause }) && ctx@ == "JSON parse error"@
                && cause == e,
        },
{
    match parsed {
        Ok(v) => Ok(v),
        Err(e) => Err(crate::error::Error::Cc { ctx: String::from_str("JSON parse error"), cause: e }),
    }
}
} // verus!
