//! The values that the Rhai `devai::*` functions build.

use vstd::prelude::*;
use vstd::string::*;
use crate::custom_value::{custom_value, is_custom_value, is_reason_data};
use crate::error::Error;
use crate::json::JsonValue;

verus! {

/// `devai::skip()`: `{_devai_: {kind: "Skip"}}`.
pub fn skip() -> (res: JsonValue)
    ensures
        is_custom_value(res, "_devai_"@, "Skip"@, None),
{
    custom_value("_devai_", "Skip", JsonValue::Null)
}

/// `devai::skip(reason)`: `{_devai_: {kind: "Skip", data: {reason: <reason>}}}`.
pub fn skip_with_reason(reason: &str) -> (res: JsonValue)
    ensures
        exists|d: JsonValue, r: String|
            is_custom_value(res, "_devai_"@, "Skip"@, Some(d)) && #[trigger] is_reason_data(d, Some(r))
                && r@ == reason@,
{
    let mut data: Vec<(String, JsonValue)> = Vec::new();
    let r = String::from_str(reason);
    let ghost rr = r;
    data.push((String::from_str("reason"), JsonValue::String(r)));
    let d = JsonValue::Object(data);
    let ghost dd = d;
    let res = custom_value("_devai_", "Skip", d);
    assert(is_custom_value(res, "_devai_"@, "Skip"@, Some(dd)) && is_reason_data(dd, Some(rr)));
    res
}

/// `devai::before_all_response(data)`: `{_devai_: {kind: "BeforeAllResponse",
/// data: <data>}}`, the data having to be an object map.
pub fn before_all_response(data: JsonValue) -> (res: Result<JsonValue, Error>)
    ensures
        match data {
            JsonValue::Object(_) => res matches Ok(v) && is_custom_value(
                v,
                "_devai_"@,
                "BeforeAllResponse"@,
                Some(data),
            ),
            _ => res matches Err(Error::Cc { ctx, cause }) && ctx@
                == "devai::before_all_response take a object map only"@ && cause@ == "CastFailNotAMap"@,
        },
{
    match data {
        JsonValue::Object(_) => Ok(custom_value("_devai_", "BeforeAllResponse", data)),
        _ => Err(
            Error::Cc {
                ctx: String::from_str("devai::before_all_response take a object map only"),
                cause: String::from_str("CastFailNotAMap"),
            },
        ),
    }
}

} // verus!
