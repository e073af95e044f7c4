//! The `_aipack_` custom values that a Lua script returns to ask the runtime
//! for a special action (skip an input, replace the inputs before all runs),
//! and the builders that `utils.aipack.*` expose to produce them.

use vstd::prelude::*;
use vstd::string::*;
use crate::custom_value::{
    custom_value, data_path, is_custom_value, is_reason_data, kind_path, lemma_custom_value_paths,
    reason_path,
};
use crate::error::Error;
use crate::text::seq_join;
use crate::json::{
    distinct_keys, lemma_object_get_remove_other, lemma_remove_key_keys, find_key, join_keys, keys_of, object_get, remove_entry, remove_key, str_equal, str_views,
    string_at, string_at_path, take_path, value_at, value_get, JsonValue,
};

verus! {

/// Custom data that can be returned by the lua script for special actions.
#[derive(Debug)]
pub enum AipackCustom {
    /// Skip the current input, with an optional reason.
    Skip { reason: Option<String> },
    /// Override the inputs, and give the `before_all` data and options.
    BeforeAllResponse(BeforeAllResponse),
}

/// The data of a `BeforeAllResponse`.
#[derive(Debug)]
pub struct BeforeAllResponse {
    pub inputs: Option<Vec<JsonValue>>,
    pub before_all: Option<JsonValue>,
    pub options: Option<JsonValue>,
}

impl Default for BeforeAllResponse {
    fn default() -> (res: Self)
        ensures
            res.inputs is None,
            res.before_all is None,
            res.options is None,
    {
        BeforeAllResponse { inputs: None, before_all: None, options: None }
    }
}

/// What `AipackCustom::from_value` returns: the custom action, or the value
/// itself when it is not one.
#[derive(Debug)]
pub enum FromValue {
    AipackCustom(AipackCustom),
    OriginalValue(JsonValue),
}

/// The root property of the values that this module decodes.
pub open spec fn aipack_root() -> Seq<char> {
    "_aipack_"@
}

/// The message of the error for a wrong `.inputs`.
pub open spec fn inputs_error_message() -> Seq<char> {
    "aipack::before_all_response data .inputs must be an Null or an Array"@
}

/// The start of the message of the error for unexpected properties.
pub open spec fn extra_keys_error_prefix() -> Seq<char> {
    "aipack::before_all_response(data), can only have `.input` and `.before_all`). But also contained: "@
}

/// The entries left once `inputs`, `before_all` and `options` are removed.
pub open spec fn entries_left(e: Seq<(String, JsonValue)>) -> Seq<(String, JsonValue)> {
    remove_key(remove_key(remove_key(e, "inputs"@), "before_all"@), "options"@)
}

/// Whether an `.inputs` value is accepted: absent, `null` or an array.
pub open spec fn inputs_accepted(v: Option<JsonValue>) -> bool {
    match v {
        Some(JsonValue::Array(_)) => true,
        Some(JsonValue::Null) => true,
        Some(_) => false,
        None => true,
    }
}

/// The inputs given by an accepted `.inputs` value.
pub open spec fn inputs_of(v: Option<JsonValue>) -> Option<Vec<JsonValue>> {
    match v {
        Some(JsonValue::Array(xs)) => Some(xs),
        _ => None,
    }
}

/// Whether `res` is what the extraction of a `BeforeAllResponse` gives for
/// `data`: an object's `inputs` (array or null), `before_all` and `options`;
/// an error when `.inputs` has another type, or when the object has any other
/// property; the empty response for a missing or non-object data.
pub open spec fn before_all_result(data: Option<JsonValue>, res: Result<BeforeAllResponse, Error>) -> bool {
    match data {
        Some(JsonValue::Object(e)) => {
            let inputs = object_get(e@, "inputs"@);
            let e1 = remove_key(e@, "inputs"@);
            let before_all = object_get(e1, "before_all"@);
            let e2 = remove_key(e1, "before_all"@);
            let options = object_get(e2, "options"@);
            let left = entries_left(e@);
            if !inputs_accepted(inputs) {
                res matches Err(Error::BeforeAllFailWrongReturn { cause }) && cause@ == inputs_error_message()
            } else if left.len() > 0 {
                res matches Err(Error::BeforeAllFailWrongReturn { cause }) && cause@
                    == extra_keys_error_prefix() + seq_join(keys_of(left), ", "@)
            } else {
                res == Ok::<BeforeAllResponse, Error>(
                    BeforeAllResponse { inputs: inputs_of(inputs), before_all, options },
                )
            }
        },
        _ => res == Ok::<BeforeAllResponse, Error>(
            BeforeAllResponse { inputs: None, before_all: None, options: None },
        ),
    }
}

/// Whether `res` is what `AipackCustom::from_value` gives for `value`.
pub open spec fn from_value_result(value: JsonValue, res: Result<FromValue, Error>) -> bool {
    match string_at(value, kind_path(aipack_root())) {
        None => res == Ok::<FromValue, Error>(FromValue::OriginalValue(value)),
        Some(kind) => if kind@ == "Skip"@ {
            res == Ok::<FromValue, Error>(
                FromValue::AipackCustom(AipackCustom::Skip { reason: string_at(value, reason_path(aipack_root())) }),
            )
        } else if kind@ == "BeforeAllResponse"@ {
            match res {
                Ok(FromValue::AipackCustom(AipackCustom::BeforeAllResponse(r))) => before_all_result(
                    value_at(value, data_path(aipack_root())),
                    Ok(r),
                ),
                Ok(_) => false,
                Err(e) => before_all_result(value_at(value, data_path(aipack_root())), Err(e)),
            }
        } else {
            res matches Err(Error::Custom(msg)) && msg@ == "_aipack_ kind '"@ + kind@
                + "' is not known."@
        },
    }
}

/// Extracts `(inputs, before_all, options)` from the data of a `BeforeAllResponse`.
fn extract_inputs_and_before_all(custom_data: Option<JsonValue>) -> (res: Result<BeforeAllResponse, Error>)
    ensures
        before_all_result(custom_data, res),
{
    let obj = match custom_data {
        Some(JsonValue::Object(obj)) => obj,
        _ => {
            return Ok(BeforeAllResponse { inputs: None, before_all: None, options: None });
        },
    };
    let mut obj = obj;
    let all_inputs = remove_entry(&mut obj, "inputs");
    let before_all = remove_entry(&mut obj, "before_all");
    let options = remove_entry(&mut obj, "options");
    let inputs = match all_inputs {
        Some(JsonValue::Array(new_inputs)) => Some(new_inputs),
        Some(JsonValue::Null) => None,
        Some(_) => {
            return Err(
                Error::BeforeAllFailWrongReturn {
                    cause: String::from_str(
                        "aipack::before_all_response data .inputs must be an Null or an Array",
                    ),
                },
            );
        },
        None => None,
    };
    if obj.len() > 0 {
        let mut cause = String::from_str(
            "aipack::before_all_response(data), can only have `.input` and `.before_all`). But also contained: ",
        );
        let keys = join_keys(&obj, ", ");
        cause.append(keys.as_str());
        return Err(Error::BeforeAllFailWrongReturn { cause });
    }
    Ok(BeforeAllResponse { inputs, before_all, options })
}

impl AipackCustom {
    /// Checks if the value is an `_aipack_` custom value: if it is, parses and
    /// returns the action; otherwise returns the original value.
    ///
    /// The kind is the string at `/_aipack_/kind`: `"Skip"` (reason at
    /// `/_aipack_/data/reason`) or `"BeforeAllResponse"` (data at `/_aipack_/data`).
    pub fn from_value(value: JsonValue) -> (res: Result<FromValue, Error>)
        ensures
            from_value_result(value, res),
    {
        let kind_keys: Vec<&str> = vec!["_aipack_", "kind"];
        assert(str_views(kind_keys@) =~= kind_path(aipack_root()));
        let kind = match string_at_path(&value, &kind_keys) {
            Some(kind) => kind,
            None => {
                return Ok(FromValue::OriginalValue(value));
            },
        };
        if str_equal(kind.as_str(), "Skip") {
            let reason_keys: Vec<&str> = vec!["_aipack_", "data", "reason"];
            assert(str_views(reason_keys@) =~= reason_path(aipack_root()));
            let reason = string_at_path(&value, &reason_keys);
            Ok(FromValue::AipackCustom(AipackCustom::Skip { reason }))
        } else if str_equal(kind.as_str(), "BeforeAllResponse") {
            let data_keys: Vec<&str> = vec!["_aipack_", "data"];
            assert(str_views(data_keys@) =~= data_path(aipack_root()));
            let custom_data = take_path(value, &data_keys);
            match extract_inputs_and_before_all(custom_data) {
                Ok(r) => Ok(FromValue::AipackCustom(AipackCustom::BeforeAllResponse(r))),
                Err(e) => Err(e),
            }
        } else {
            let mut msg = String::from_str("_aipack_ kind '");
            msg.append(kind.as_str());
            msg.append("' is not known.");
            Err(Error::Custom(msg))
        }
    }
}

/// The value of `utils.aipack.before_all_response(data)`:
/// `{_aipack_: {kind: "BeforeAllResponse", data: <data>}}`.
pub fn aipack_before_all_response(data: JsonValue) -> (res: JsonValue)
    ensures
        is_custom_value(res, aipack_root(), "BeforeAllResponse"@, if data is Null { None } else { Some(data) }),
{
    custom_value("_aipack_", "BeforeAllResponse", data)
}

/// The value of `utils.aipack.skip(reason)`:
/// `{_aipack_: {kind: "Skip", data: {reason: <reason>}}}`.
pub fn aipack_skip(reason: Option<String>) -> (res: JsonValue)
    ensures
        exists|d: JsonValue| is_custom_value(res, aipack_root(), "Skip"@, Some(d)) && is_reason_data(d, reason),
{
    let mut data: Vec<(String, JsonValue)> = Vec::new();
    match reason {
        Some(r) => {
            data.push((String::from_str("reason"), JsonValue::String(r)));
        },
        None => {},
    }
    let d = JsonValue::Object(data);
    let ghost dd = d;
    let res = custom_value("_aipack_", "Skip", d);
    assert(is_custom_value(res, aipack_root(), "Skip"@, Some(dd)) && is_reason_data(dd, reason));
    res
}

/// Every value that `aipack_skip(reason)` builds decodes to `Skip` with the
/// same reason.
pub proof fn lemma_skip_round_trip(
    v: JsonValue,
    d: JsonValue,
    reason: Option<String>,
    res: Result<FromValue, Error>,
)
    requires
        is_custom_value(v, aipack_root(), "Skip"@, Some(d)),
        is_reason_data(d, reason),
    ensures
        from_value_result(v, res) <==> res == Ok::<FromValue, Error>(
            FromValue::AipackCustom(AipackCustom::Skip { reason }),
        ),
{
    lemma_custom_value_paths(v, aipack_root(), "Skip"@, Some(d));
    reveal_strlit("reason");
    let e = match d {
        JsonValue::Object(e) => e@,
        _ => arbitrary(),
    };
    let empty = Seq::<Seq<char>>::empty();
    assert(seq!["reason"@].drop_first() =~= empty);
    match reason {
        Some(r) => {
            assert(find_key(e, "reason"@) == 0);
            assert(value_get(d, "reason"@) == Some(JsonValue::String(r)));
            assert(value_at(JsonValue::String(r), empty) == Some(JsonValue::String(r)));
            assert(value_at(d, seq!["reason"@]) == Some(JsonValue::String(r)));
        },
        None => {
            assert(find_key(e, "reason"@) == -1);
            assert(value_at(d, seq!["reason"@]) is None);
        },
    }
}

/// Every value that `aipack_before_all_response(data)` builds decodes as the
/// extraction of a `BeforeAllResponse` from `data`.
pub proof fn lemma_before_all_round_trip(
    v: JsonValue,
    data: Option<JsonValue>,
    res: Result<FromValue, Error>,
)
    requires
        is_custom_value(v, aipack_root(), "BeforeAllResponse"@, data),
    ensures
        from_value_result(v, res) <==> match res {
            Ok(FromValue::AipackCustom(AipackCustom::BeforeAllResponse(r))) => before_all_result(data, Ok(r)),
            Ok(_) => false,
            Err(e) => before_all_result(data, Err(e)),
        },
{
    lemma_custom_value_paths(v, aipack_root(), "BeforeAllResponse"@, data);
    reveal_strlit("Skip");
    reveal_strlit("BeforeAllResponse");
    assert("BeforeAllResponse"@ != "Skip"@) by {
        assert("BeforeAllResponse"@.len() != "Skip"@.len());
    }
}

/// A `BeforeAllResponse` whose data object holds only `inputs`,
/// `before_all` and `options` (each at most once), with `.inputs` absent,
/// null or an array, decodes without error to exactly those values: its
/// `before_all` and `options` are the data's properties, whatever `.inputs`
/// is, and its inputs are the array (none when `.inputs` is absent or null).
pub proof fn lemma_before_all_keeps_data(entries: Vec<(String, JsonValue)>, res: Result<BeforeAllResponse, Error>)
    requires
        distinct_keys(entries@),
        forall|i: int|
            0 <= i < entries@.len() ==> {
                let k = (#[trigger] entries@[i]).0@;
                k == "inputs"@ || k == "before_all"@ || k == "options"@
            },
        match object_get(entries@, "inputs"@) {
            Some(JsonValue::Array(_)) => true,
            Some(JsonValue::Null) => true,
            None => true,
            _ => false,
        },
        before_all_result(Some(JsonValue::Object(entries)), res),
    ensures
        res matches Ok(r) && r.before_all == object_get(entries@, "before_all"@) && r.options == object_get(
            entries@,
            "options"@,
        ) && r.inputs == match object_get(entries@, "inputs"@) {
            Some(JsonValue::Array(xs)) => Some(xs),
            _ => None::<Vec<JsonValue>>,
        },
{
    reveal_strlit("inputs");
    reveal_strlit("before_all");
    reveal_strlit("options");
    let e = entries@;
    let ki = "inputs"@;
    let kb = "before_all"@;
    let ko = "options"@;
    assert(ki != kb && ki != ko && kb != ko) by {
        assert(ki.len() != kb.len() && ki.len() != ko.len() && kb.len() != ko.len());
    }
    let e1 = remove_key(e, ki);
    let e2 = remove_key(e1, kb);
    lemma_object_get_remove_other(e, ki, kb);
    lemma_object_get_remove_other(e, ki, ko);
    lemma_object_get_remove_other(e1, kb, ko);
    let ks = Set::<Seq<char>>::empty().insert(ki).insert(kb).insert(ko);
    assert forall|i: int| 0 <= i < e.len() implies ks.contains((#[trigger] e[i]).0@) by {}
    lemma_remove_key_keys(e, ks, ki);
    lemma_remove_key_keys(e1, ks.remove(ki), kb);
    lemma_remove_key_keys(e2, ks.remove(ki).remove(kb), ko);
    let left = entries_left(e);
    assert(ks.remove(ki).remove(kb).remove(ko) =~= Set::<Seq<char>>::empty());
    if left.len() > 0 {
        assert(ks.remove(ki).remove(kb).remove(ko).contains(left[0].0@));
    }
}
} // verus!
