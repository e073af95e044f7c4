//! The custom values that scripts return to ask the runtime for a special
//! action: `{<root>: {kind: <kind>, data: <data>}}`.

use vstd::prelude::*;
use vstd::string::*;
use crate::json::{find_key, string_at, value_at, value_get, JsonValue};

verus! {

/// The path of the kind of a custom value.
pub open spec fn kind_path(root: Seq<char>) -> Seq<Seq<char>> {
    seq![root, "kind"@]
}

/// The path of the data of a custom value.
pub open spec fn data_path(root: Seq<char>) -> Seq<Seq<char>> {
    seq![root, "data"@]
}

/// The path of the skip reason of a custom value.
pub open spec fn reason_path(root: Seq<char>) -> Seq<Seq<char>> {
    seq![root, "data"@, "reason"@]
}

/// Whether `v` is `{<root>: {kind: <kind>, data: <data>}}`, the `data`
/// property being absent when `data` is `None`.
pub open spec fn is_custom_value(v: JsonValue, root: Seq<char>, kind: Seq<char>, data: Option<JsonValue>) -> bool {
    match v {
        JsonValue::Object(outer) => {
            &&& outer@.len() == 1
            &&& outer@[0].0@ == root
            &&& match outer@[0].1 {
                JsonValue::Object(inner) => {
                    &&& inner@.len() >= 1
                    &&& inner@[0].0@ == "kind"@
                    &&& inner@[0].1 matches JsonValue::String(k) && k@ == kind
                    &&& match data {
                        Some(d) => inner@.len() == 2 && inner@[1].0@ == "data"@ && inner@[1].1 == d,
                        None => inner@.len() == 1,
                    }
                },
                _ => false,
            }
        },
        _ => false,
    }
}

/// Whether `d` is `{reason: <reason>}`, empty when there is no reason.
pub open spec fn is_reason_data(d: JsonValue, reason: Option<String>) -> bool {
    match d {
        JsonValue::Object(e) => match reason {
            Some(r) => e@.len() == 1 && e@[0].0@ == "reason"@ && e@[0].1 == JsonValue::String(r),
            None => e@.len() == 0,
        },
        _ => false,
    }
}

/// `{<root>: {kind: <kind>, data: <data>}}`, without `data` when it is `Null`
/// (a Lua table does not keep a `nil` property).
pub fn custom_value(root: &str, kind: &str, data: JsonValue) -> (res: JsonValue)
    ensures
        is_custom_value(res, root@, kind@, if data is Null { None } else { Some(data) }),
{
    let mut inner: Vec<(String, JsonValue)> = Vec::new();
    inner.push((String::from_str("kind"), JsonValue::String(String::from_str(kind))));
    proof {
        reveal_strlit("kind");
    }
    match data {
        JsonValue::Null => {},
        other => {
            inner.push((String::from_str("data"), other));
        },
    }
    let mut outer: Vec<(String, JsonValue)> = Vec::new();
    outer.push((String::from_str(root), JsonValue::Object(inner)));
    JsonValue::Object(outer)
}

/// Facts about the custom value `v` = `{<root>: {kind: <kind>, data: <data>}}`
/// where its kind, data and reason paths lead.
pub proof fn lemma_custom_value_paths(v: JsonValue, root: Seq<char>, kind: Seq<char>, data: Option<JsonValue>)
    requires
        is_custom_value(v, root, kind, data),
    ensures
        string_at(v, kind_path(root)) matches Some(k) && k@ == kind,
        value_at(v, data_path(root)) == data,
        data matches Some(d) ==> value_at(v, reason_path(root)) == value_at(d, seq!["reason"@]),
{
    reveal_strlit("kind");
    reveal_strlit("data");
    assert("kind"@ != "data"@) by {
        assert("kind"@[0] != "data"@[0]);
    }
    let outer = match v {
        JsonValue::Object(o) => o@,
        _ => arbitrary(),
    };
    let iv = outer[0].1;
    let inner = match iv {
        JsonValue::Object(i) => i@,
        _ => arbitrary(),
    };
    assert(find_key(outer, root) == 0);
    assert(value_get(v, root) == Some(iv));
    assert(find_key(inner, "kind"@) == 0);
    assert(value_get(iv, "kind"@) == Some(inner[0].1));
    let empty = Seq::<Seq<char>>::empty();
    assert(kind_path(root).drop_first() =~= seq!["kind"@]);
    assert(seq!["kind"@].drop_first() =~= empty);
    assert(value_at(inner[0].1, empty) == Some(inner[0].1));
    assert(value_at(iv, seq!["kind"@]) == Some(inner[0].1));
    assert(value_at(v, kind_path(root)) == Some(inner[0].1));
    assert(data_path(root).drop_first() =~= seq!["data"@]);
    assert(seq!["data"@].drop_first() =~= empty);
    assert(reason_path(root).drop_first() =~= seq!["data"@, "reason"@]);
    assert(seq!["data"@, "reason"@].drop_first() =~= seq!["reason"@]);
    assert(inner[0].0@ != "data"@);
    match data {
        Some(d) => {
            assert(find_key(inner.drop_first(), "data"@) == 0);
            assert(find_key(inner, "data"@) == 1);
            assert(value_get(iv, "data"@) == Some(d));
            assert(value_at(d, empty) == Some(d));
            assert(value_at(iv, seq!["data"@]) == Some(d));
            assert(value_at(v, data_path(root)) == Some(d));
            assert(value_at(iv, seq!["data"@, "reason"@]) == value_at(d, seq!["reason"@]));
        },
        None => {
            assert(find_key(inner.drop_first(), "data"@) == -1);
            assert(find_key(inner, "data"@) == -1);
            assert(value_get(iv, "data"@) is None);
            assert(value_at(iv, seq!["data"@]) is None);
        },
    }
}

} // verus!
