//! The `_devai_` custom values that a script returns to ask the runtime for a
//! special action, the older `_devai_` action values, and the builders that
//! `utils.devai.*` (Lua) and `devai::*` (Rhai) expose.

use vstd::prelude::*;
use vstd::string::*;
use crate::custom_value::{
    custom_value, data_path, is_custom_value, is_reason_data, kind_path, lemma_custom_value_paths,
    reason_path,
};
use crate::error::Error;
use crate::text::seq_join;
use crate::json::{
    distinct_keys, lemma_object_get_remove_other, lemma_remove_key_keys, find_key, join_keys, keys_of, object_get, remove_entry, remove_key, str_equal, str_views,
    string_at, string_at_path, take_path, value_at, value_get, JsonValue,
};

verus! {

/// Custom data that can be returned by the script for special actions.
#[derive(Debug)]
pub enum DevaiCustom {
    /// Skip the current input, with an optional reason.
    ActionSkip { reason: Option<String> },
    /// Override the items, and give the `before_all` data.
    BeforeAllResponse { items: Option<Vec<JsonValue>>, before_all: Option<JsonValue> },
}

/// What `DevaiCustom::from_value` returns: the custom action, or the value
/// itself when it is not one.
#[derive(Debug)]
pub enum FromValue {
    DevaiCustom(DevaiCustom),
    OriginalValue(JsonValue),
}

/// The root property of the values that this module decodes.
pub open spec fn devai_root() -> Seq<char> {
    "_devai_"@
}

/// The message of the error for a wrong `.items`.
pub open spec fn items_error_message() -> Seq<char> {
    "devai::before_all_response data .items must be an Null or an Array"@
}

/// The start of the message of the error for unexpected properties.
pub open spec fn extra_keys_error_prefix() -> Seq<char> {
    "devai::before_all_response(data), can only have `.item` and `.before_all`). But also contained: "@
}

/// The entries left once `before_all` and `items` are removed.
pub open spec fn entries_left(e: Seq<(String, JsonValue)>) -> Seq<(String, JsonValue)> {
    remove_key(remove_key(e, "before_all"@), "items"@)
}

/// Whether an `.items` value is accepted: absent, `null` or an array.
pub open spec fn items_accepted(v: Option<JsonValue>) -> bool {
    match v {
        Some(JsonValue::Array(_)) => true,
        Some(JsonValue::Null) => true,
        Some(_) => false,
        None => true,
    }
}

/// The items given by an accepted `.items` value.
pub open spec fn items_of(v: Option<JsonValue>) -> Option<Vec<JsonValue>> {
    match v {
        Some(JsonValue::Array(xs)) => Some(xs),
        _ => None,
    }
}

/// Whether `res` is what the extraction of a `BeforeAllResponse` gives for
/// `data`: an object's `items` (array or null) and `before_all`; an error
/// when `.items` has another type, or when the object has any other property;
/// nothing for a missing or non-object data.
pub open spec fn before_all_result(
    data: Option<JsonValue>,
    res: Result<(Option<Vec<JsonValue>>, Option<JsonValue>), Error>,
) -> bool {
    match data {
        Some(JsonValue::Object(e)) => {
            let before_all = object_get(e@, "before_all"@);
            let e1 = remove_key(e@, "before_all"@);
            let items = object_get(e1, "items"@);
            let left = entries_left(e@);
            if !items_accepted(items) {
                res matches Err(Error::BeforeAllFailWrongReturn { cause }) && cause@ == items_error_message()
            } else if left.len() > 0 {
                res matches Err(Error::BeforeAllFailWrongReturn { cause }) && cause@
                    == extra_keys_error_prefix() + seq_join(keys_of(left), ", "@)
            } else {
                res == Ok::<(Option<Vec<JsonValue>>, Option<JsonValue>), Error>((items_of(items), before_all))
            }
        },
        _ => res == Ok::<(Option<Vec<JsonValue>>, Option<JsonValue>), Error>((None, None)),
    }
}

/// The custom value that the extraction result `r` stands for.
pub open spec fn before_all_custom(r: (Option<Vec<JsonValue>>, Option<JsonValue>)) -> DevaiCustom {
    DevaiCustom::BeforeAllResponse { items: r.0, before_all: r.1 }
}

/// Whether `res` is what `DevaiCustom::from_value` gives for `value`.
pub open spec fn from_value_result(value: JsonValue, res: Result<FromValue, Error>) -> bool {
    match string_at(value, kind_path(devai_root())) {
        None => res == Ok::<FromValue, Error>(FromValue::OriginalValue(value)),
        Some(kind) => if kind@ == "ActionSkip"@ {
            res == Ok::<FromValue, Error>(
                FromValue::DevaiCustom(
                    DevaiCustom::ActionSkip { reason: string_at(value, reason_path(devai_root())) },
                ),
            )
        } else if kind@ == "BeforeAllResponse"@ {
            match res {
                Ok(FromValue::DevaiCustom(DevaiCustom::BeforeAllResponse { items, before_all })) => before_all_result(
                    value_at(value, data_path(devai_root())),
                    Ok((items, before_all)),
                ),
                Ok(_) => false,
                Err(e) => before_all_result(value_at(value, data_path(devai_root())), Err(e)),
            }
        } else {
            res matches Err(Error::Custom(msg)) && msg@ == "_devai_ kind '"@ + kind@
                + "' is not known."@
        },
    }
}

/// Extracts `(items, before_all)` from the data of a `BeforeAllResponse`.
fn extract_items_and_before_all(custom_data: Option<JsonValue>) -> (res: Result<
    (Option<Vec<JsonValue>>, Option<JsonValue>),
    Error,
>)
    ensures
        before_all_result(custom_data, res),
{
    let obj = match custom_data {
        Some(JsonValue::Object(obj)) => obj,
        _ => {
            return Ok((None, None));
        },
    };
    let mut obj = obj;
    let before_all_data = remove_entry(&mut obj, "before_all");
    let after_all_items = remove_entry(&mut obj, "items");
    let items = match after_all_items {
        Some(JsonValue::Array(new_items)) => Some(new_items),
        Some(JsonValue::Null) => None,
        Some(_) => {
            return Err(
                Error::BeforeAllFailWrongReturn {
                    cause: String::from_str(
                        "devai::before_all_response data .items must be an Null or an Array",
                    ),
                },
            );
        },
        None => None,
    };
    if obj.len() > 0 {
        let mut cause = String::from_str(
            "devai::before_all_response(data), can only have `.item` and `.before_all`). But also contained: ",
        );
        let keys = join_keys(&obj, ", ");
        cause.append(keys.as_str());
        return Err(Error::BeforeAllFailWrongReturn { cause });
    }
    Ok((items, before_all_data))
}

impl DevaiCustom {
    /// Checks if the value is a `_devai_` custom value: if it is, parses and
    /// returns the action; otherwise returns the original value.
    ///
    /// The kind is the string at `/_devai_/kind`: `"ActionSkip"` (reason at
    /// `/_devai_/data/reason`) or `"BeforeAllResponse"` (data at `/_devai_/data`).
    pub fn from_value(value: JsonValue) -> (res: Result<FromValue, Error>)
        ensures
            from_value_result(value, res),
    {
        let kind_keys: Vec<&str> = vec!["_devai_", "kind"];
        assert(str_views(kind_keys@) =~= kind_path(devai_root()));
        let kind = match string_at_path(&value, &kind_keys) {
            Some(kind) => kind,
            None => {
                return Ok(FromValue::OriginalValue(value));
            },
        };
        if str_equal(kind.as_str(), "ActionSkip") {
            let reason_keys: Vec<&str> = vec!["_devai_", "data", "reason"];
            assert(str_views(reason_keys@) =~= reason_path(devai_root()));
            let reason = string_at_path(&value, &reason_keys);
            Ok(FromValue::DevaiCustom(DevaiCustom::ActionSkip { reason }))
        } else if str_equal(kind.as_str(), "BeforeAllResponse") {
            let data_keys: Vec<&str> = vec!["_devai_", "data"];
            assert(str_views(data_keys@) =~= data_path(devai_root()));
            let custom_data = take_path(value, &data_keys);
            match extract_items_and_before_all(custom_data) {
                Ok((items, before_all)) => Ok(
                    FromValue::DevaiCustom(DevaiCustom::BeforeAllResponse { items, before_all }),
                ),
                Err(e) => Err(e),
            }
        } else {
            let mut msg = String::from_str("_devai_ kind '");
            msg.append(kind.as_str());
            msg.append("' is not known.");
            Err(Error::Custom(msg))
        }
    }
}

/// The value of `utils.devai.before_all_response(data)`:
/// `{_devai_: {kind: "BeforeAllResponse", data: <data>}}`.
pub fn devai_before_all_response(data: JsonValue) -> (res: JsonValue)
    ensures
        is_custom_value(res, devai_root(), "BeforeAllResponse"@, if data is Null { None } else { Some(data) }),
{
    custom_value("_devai_", "BeforeAllResponse", data)
}

/// The value of `utils.devai.skip(reason)`:
/// `{_devai_: {kind: "Skip", data: {reason: <reason>}}}`.
pub fn devai_skip(reason: Option<String>) -> (res: JsonValue)
    ensures
        exists|d: JsonValue| is_custom_value(res, devai_root(), "Skip"@, Some(d)) && is_reason_data(d, reason),
{
    let mut data: Vec<(String, JsonValue)> = Vec::new();
    match reason {
        Some(r) => {
            data.push((String::from_str("reason"), JsonValue::String(r)));
        },
        None => {},
    }
    let d = JsonValue::Object(data);
    let ghost dd = d;
    let res = custom_value("_devai_", "Skip", d);
    assert(is_custom_value(res, devai_root(), "Skip"@, Some(dd)) && is_reason_data(dd, reason));
    res
}

/// Every value that `devai_before_all_response(data)` builds decodes as the
/// extraction of a `BeforeAllResponse` from `data`.
pub proof fn lemma_before_all_round_trip(
    v: JsonValue,
    data: Option<JsonValue>,
    res: Result<FromValue, Error>,
)
    requires
        is_custom_value(v, devai_root(), "BeforeAllResponse"@, data),
    ensures
        from_value_result(v, res) <==> match res {
            Ok(FromValue::DevaiCustom(DevaiCustom::BeforeAllResponse { items, before_all })) => before_all_result(
                data,
                Ok((items, before_all)),
            ),
            Ok(_) => false,
            Err(e) => before_all_result(data, Err(e)),
        },
{
    lemma_custom_value_paths(v, devai_root(), "BeforeAllResponse"@, data);
    reveal_strlit("ActionSkip");
    reveal_strlit("BeforeAllResponse");
    assert("BeforeAllResponse"@ != "ActionSkip"@) by {
        assert("BeforeAllResponse"@.len() != "ActionSkip"@.len());
    }
}

/// A `BeforeAllResponse` whose data object holds only `items` and
/// `before_all` (each at most once), with `.items` absent, null or an array,
/// decodes without error to exactly those values: its `before_all` is the
/// data's property, whatever `.items` is, and its items are the array (none
/// when `.items` is absent or null).
pub proof fn lemma_before_all_keeps_data(
    entries: Vec<(String, JsonValue)>,
    res: Result<(Option<Vec<JsonValue>>, Option<JsonValue>), Error>,
)
    requires
        distinct_keys(entries@),
        forall|i: int|
            0 <= i < entries@.len() ==> {
                let k = (#[trigger] entries@[i]).0@;
                k == "items"@ || k == "before_all"@
            },
        match object_get(entries@, "items"@) {
            Some(JsonValue::Array(_)) => true,
            Some(JsonValue::Null) => true,
            None => true,
            _ => false,
        },
        before_all_result(Some(JsonValue::Object(entries)), res),
    ensures
        res matches Ok(r) && r.1 == object_get(entries@, "before_all"@) && r.0 == match object_get(
            entries@,
            "items"@,
        ) {
            Some(JsonValue::Array(xs)) => Some(xs),
            _ => None::<Vec<JsonValue>>,
        },
{
    reveal_strlit("items");
    reveal_strlit("before_all");
    let e = entries@;
    let ki = "items"@;
    let kb = "before_all"@;
    assert(ki != kb) by {
        assert(ki.len() != kb.len());
    }
    let e1 = remove_key(e, kb);
    lemma_object_get_remove_other(e, kb, ki);
    let ks = Set::<Seq<char>>::empty().insert(ki).insert(kb);
    assert forall|i: int| 0 <= i < e.len() implies ks.contains((#[trigger] e[i]).0@) by {}
    lemma_remove_key_keys(e, ks, kb);
    lemma_remove_key_keys(e1, ks.remove(kb), ki);
    let left = entries_left(e);
    assert(ks.remove(kb).remove(ki) =~= Set::<Seq<char>>::empty());
    if left.len() > 0 {
        assert(ks.remove(kb).remove(ki).contains(left[0].0@));
    }
}
} // verus!
