//! The host's answers to requests: what a response line says, and how a failure reads.
use vstd::prelude::*;

use crate::strs::{cat, opt_view, push_str};

verus! {

/// A parsed JSON value, as serde_json holds it; carried through, never looked into here.
#[verifier::external_type_specification]
#[verifier::external_body]
pub struct ExJsonValue(serde_json::Value);

/// Why a request to the host failed. The texts are those of the underlying errors.
#[derive(Debug, Clone, PartialEq, Eq)]
pub enum HerdrClientError {
    Connect { path: String, source: String },
    Io(String),
    Decode(String),
    Api(String),
}

pub open spec fn error_message(e: HerdrClientError) -> Seq<char> {
    match e {
        HerdrClientError::Connect { path, source } => "herdr socket unavailable at "@ + path@ + ": "@ + source@,
        HerdrClientError::Io(m) => "io error talking to herdr: "@ + m@,
        HerdrClientError::Decode(m) => "herdr returned malformed json: "@ + m@,
        HerdrClientError::Api(m) => "herdr error response: "@ + m@,
    }
}

impl HerdrClientError {
    /// The error as a person reads it.
    pub fn message(&self) -> (r: String)
        ensures
            r@ == error_message(*self),
    {
        match self {
            HerdrClientError::Connect { path, source } => {
                let mut m = cat("herdr socket unavailable at ", path.as_str());
                push_str(&mut m, ": ");
                push_str(&mut m, source.as_str());
                m
            },
            HerdrClientError::Io(m) => cat("io error talking to herdr: ", m.as_str()),
            HerdrClientError::Decode(m) => cat("herdr returned malformed json: ", m.as_str()),
            HerdrClientError::Api(m) => cat("herdr error response: ", m.as_str()),
        }
    }
}

/// What a response line holds: serde_json's error text where it is not JSON; else the
/// `error` member written back as JSON, if there is one. It depends on the line alone.
pub uninterp spec fn response_error(line: Seq<char>) -> Result<Option<Seq<char>>, Seq<char>>;

/// `serde_json::from_str::<Value>(line)`, then `value.get("error")` written with
/// `to_string`. JSON's grammar and serde_json's wording are left to the name
/// `response_error`.
#[verifier::external_body]
fn parse_response(line: &str) -> (r: Result<(serde_json::Value, Option<String>), String>)
    ensures
        match r {
            Ok((_, error)) => response_error(line@) == Ok::<Option<Seq<char>>, Seq<char>>(opt_view(error)),
            Err(m) => response_error(line@) == Err::<Option<Seq<char>>, Seq<char>>(m@),
        },
{
    let value: serde_json::Value = serde_json::from_str(line).map_err(|e| e.to_string())?;
    let error = match value.get("error") {
        Some(e) => Some(e.to_string()),
        None => None,
    };
    Ok((value, error))
}

/// A response line as the host wrote it: malformed JSON is a decode error, a response with an
/// `error` member is an API error carrying that member, anything else is the response.
pub fn decode_response(line: &str) -> (r: Result<serde_json::Value, HerdrClientError>)
    ensures
        match response_error(line@) {
            Err(m) => r matches Err(HerdrClientError::Decode(d)) && d@ == m,
            Ok(Some(e)) => r matches Err(HerdrClientError::Api(a)) && a@ == e,
            Ok(None) => r is Ok,
        },
{
    match parse_response(line) {
        Err(m) => Err(HerdrClientError::Decode(m)),
        Ok((value, error)) => match error {
            Some(e) => Err(HerdrClientError::Api(e)),
            None => Ok(value),
        },
    }
}

} // verus!
