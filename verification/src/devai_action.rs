//! The older `_devai_` action values (`{_devai_: {action: "skip", ...}}`).

use vstd::prelude::*;
use vstd::string::*;
use crate::json::{str_equal, str_views, string_at, string_at_path, JsonValue};

verus! {

/// An action that a script asks for.
#[derive(Debug)]
pub enum DevaiAction {
    Skip { reason: Option<String> },
}

/// The path of the action name.
pub open spec fn action_path() -> Seq<Seq<char>> {
    seq!["_devai_"@, "action"@]
}

/// The path of the skip reason.
pub open spec fn action_reason_path() -> Seq<Seq<char>> {
    seq!["_devai_"@, "data"@, "reason"@]
}

impl DevaiAction {
    /// The action that `value` stands for: `Skip` when the string at
    /// `/_devai_/action` is `"skip"` (reason at `/_devai_/data/reason`);
    /// `None` otherwise.
    pub fn from_value(value: &JsonValue) -> (res: Option<Self>)
        ensures
            match string_at(*value, action_path()) {
                Some(action) if action@ == "skip"@ => res == Some(
                    DevaiAction::Skip { reason: string_at(*value, action_reason_path()) },
                ),
                _ => res is None,
            },
    {
        let action_keys: Vec<&str> = vec!["_devai_", "action"];
        assert(str_views(action_keys@) =~= action_path());
        let action = match string_at_path(value, &action_keys) {
            Some(a) => a,
            None => {
                return None;
            },
        };
        if str_equal(action.as_str(), "skip") {
            let reason_keys: Vec<&str> = vec!["_devai_", "data", "reason"];
            assert(str_views(reason_keys@) =~= action_reason_path());
            let reason = string_at_path(value, &reason_keys);
            Some(DevaiAction::Skip { reason })
        } else {
            None
        }
    }
}

} // verus!
