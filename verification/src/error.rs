//! The library's error type.

use vstd::prelude::*;

verus! {

/// What the decoding of script values and the script utilities can fail with.
#[derive(Debug)]
pub enum Error {
    /// A `before_all_response` returned data of the wrong shape.
    BeforeAllFailWrongReturn { cause: String },
    /// Any other failure, described by its message.
    Custom(String),
    /// A failure reported to a Lua script, with its message.
    Lua(String),
    /// A failure with its context and the message of its cause.
    Cc { ctx: String, cause: String },
}

} // verus!
