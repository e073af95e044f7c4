//! Decisions of the `web` script modules: the request body of a POST, and
//! what the script gets for a response or a failed request.

use vstd::prelude::*;
use vstd::string::*;
use crate::error::Error;
use crate::json::JsonValue;
use crate::text::{nat_digits, seq_contains, str_contains, str_to_lowercase, to_lowercase, u64_to_decimal};

verus! {

/// How a request went.
#[derive(Debug)]
pub enum WebOutcome {
    /// A response came: its status code, content type (as sent) and body.
    Response { status: u16, content_type: Option<String>, body: String },
    /// The request could not be made: the status of the error, if any, and its message.
    RequestFailed { status: Option<u16>, error: String },
}

/// The content of a response as the Lua script gets it.
#[derive(Debug)]
pub enum WebContent {
    Text(String),
    /// A JSON body, to be parsed into a table.
    Json(String),
}

/// What a Lua script gets for a response.
#[derive(Debug)]
pub struct WebResponse {
    pub success: bool,
    pub status: i64,
    pub url: String,
    pub content: WebContent,
    pub error: Option<String>,
}

/// What a Rhai script gets for a successful response.
#[derive(Debug)]
pub struct RhaiWebResponse {
    pub status: i64,
    pub url: String,
    pub content: String,
}

/// What a Rhai script gets as the exception of a failed request.
#[derive(Debug)]
pub struct RhaiWebFailure {
    pub status: Option<i64>,
    pub url: String,
    pub error: String,
}

/// Whether a status code is a success (2xx).
pub open spec fn is_success(status: u16) -> bool {
    200 <= status && status < 300
}

/// The error text of a response that is not a success.
pub open spec fn not_2xx_message(status: u16) -> Seq<char> {
    "Not a 2xx status code ("@ + nat_digits(status as nat) + ")"@
}

fn not_2xx(status: u16) -> (res: String)
    ensures
        res@ == not_2xx_message(status),
{
    let mut e = String::from_str("Not a 2xx status code (");
    e.append(u64_to_decimal(status as u64).as_str());
    e.append(")");
    e
}

/// Whether a content type, once lowercased, says JSON.
pub open spec fn is_json_type(content_type: Option<String>) -> bool {
    match content_type {
        Some(t) => seq_contains(str_to_lowercase(t@), "application/json"@),
        None => false,
    }
}

/// `utils.web.get` / `utils.web.post` (Lua) once the request is done: a
/// response table for any status (an error text when not 2xx; a JSON body
/// parsed when the content type says so), an error when no response came.
pub fn lua_web_result(method: &str, url: &str, outcome: WebOutcome) -> (res: Result<WebResponse, Error>)
    ensures
        match outcome {
            WebOutcome::Response { status, content_type, body } => res matches Ok(r) && {
                &&& r.success == is_success(status)
                &&& r.status == status as i64
                &&& r.url@ == url@
                &&& if is_success(status) {
                    &&& r.error is None
                    &&& if is_json_type(content_type) {
                        r.content == WebContent::Json(body)
                    } else {
                        r.content == WebContent::Text(body)
                    }
                } else {
                    &&& r.content == WebContent::Text(body)
                    &&& r.error matches Some(e) && e@ == not_2xx_message(status)
                }
            },
            WebOutcome::RequestFailed { status, error } => res matches Err(Error::Lua(msg)) && msg@
                == "Fail to do utils.web."@ + method@ + " for url: "@ + url@ + "\nCause: "@ + error@,
        },
{
    match outcome {
        WebOutcome::Response { status, content_type, body } => {
            let success = status >= 200 && status < 300;
            let url_s = String::from_str(url);
            if success {
                let json = match &content_type {
                    Some(t) => {
                        let lower = to_lowercase(t.as_str());
                        str_contains(lower.as_str(), "application/json")
                    },
                    None => false,
                };
                let content = if json {
                    WebContent::Json(body)
                } else {
                    WebContent::Text(body)
                };
                Ok(WebResponse { success: true, status: status as i64, url: url_s, content, error: None })
            } else {
                Ok(
                    WebResponse {
                        success: false,
                        status: status as i64,
                        url: url_s,
                        content: WebContent::Text(body),
                        error: Some(not_2xx(status)),
                    },
                )
            }
        },
        WebOutcome::RequestFailed { status: _, error } => {
            let mut msg = String::from_str("Fail to do utils.web.");
            msg.append(method);
            msg.append(" for url: ");
            msg.append(url);
            msg.append("\nCause: ");
            msg.append(error.as_str());
            Err(Error::Lua(msg))
        },
    }
}

/// Rhai `web::get` once the request is done: the response for a 2xx status;
/// otherwise the exception value, with the status when there is one.
pub fn rhai_web_get_result(url: &str, outcome: WebOutcome) -> (res: Result<RhaiWebResponse, RhaiWebFailure>)
    ensures
        match outcome {
            WebOutcome::Response { status, content_type, body } => if is_success(status) {
                res matches Ok(r) && r.status == status as i64 && r.url@ == url@ && r.content == body
            } else {
                res matches Err(f) && f.status == Some(status as i64) && f.url@ == url@ && f.error@
                    == not_2xx_message(status)
            },
            WebOutcome::RequestFailed { status, error } => res matches Err(f) && f.url@ == url@
                && f.error == error && f.status == match status {
                Some(s) => Some(s as i64),
                None => None::<i64>,
            },
        },
{
    match outcome {
        WebOutcome::Response { status, content_type: _, body } => {
            if status >= 200 && status < 300 {
                Ok(RhaiWebResponse { status: status as i64, url: String::from_str(url), content: body })
            } else {
                Err(
                    RhaiWebFailure {
                        status: Some(status as i64),
                        url: String::from_str(url),
                        error: not_2xx(status),
                    },
                )
            }
        },
        WebOutcome::RequestFailed { status, error } => {
            let status = match status {
                Some(s) => Some(s as i64),
                None => None,
            };
            Err(RhaiWebFailure { status, url: String::from_str(url), error })
        },
    }
}

/// The data of `utils.web.post`, as read from Lua.
#[derive(Debug)]
pub enum PostData {
    /// A string, sent as it is.
    Text(String),
    /// A table, sent as its JSON text.
    Json(String),
    /// Anything else.
    Other,
}

/// The content type and body of a POST request: `plain/text` for a string,
/// `application/json` for a table; any other data is an error.
pub fn web_post_body(data: PostData) -> (res: Result<(String, String), Error>)
    ensures
        match data {
            PostData::Text(s) => res matches Ok((t, b)) && t@ == "plain/text"@ && b == s,
            PostData::Json(j) => res matches Ok((t, b)) && t@ == "application/json"@ && b == j,
            PostData::Other => res matches Err(Error::Lua(msg)) && msg@ == "Data must be a string or a table"@,
        },
{
    match data {
        PostData::Text(s) => Ok((String::from_str("plain/text"), s)),
        PostData::Json(j) => Ok((String::from_str("application/json"), j)),
        PostData::Other => Err(Error::Lua(String::from_str("Data must be a string or a table"))),
    }
}

/// The content of a JSON response once its body is parsed: the value, or,
/// when the body is no JSON, the error that gives the parser's message.
pub fn web_json_content(parsed: Result<JsonValue, String>) -> (res: Result<JsonValue, Error>)
    ensures
        match parsed {
            Ok(v) => res == Ok::<JsonValue, Error>(v),
            Err(e) => res matches Err(Error::Custom(m)) && m@ == "Fail to parse web response as json.\n    Cause: "@
                + e@,
        },
{
    match parsed {
        Ok(v) => Ok(v),
        Err(e) => {
            let mut m = String::from_str("Fail to parse web response as json.\n    Cause: ");
            m.append(e.as_str());
            Err(Error::Custom(m))
        },
    }
}
} // verus!
