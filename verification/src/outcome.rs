//! The record that one attempted URL leaves behind.

use std::collections::HashMap;
use vstd::prelude::*;
use vstd::utf8::encode_utf8;
use crate::failure::{root_message, Failure};
use crate::normalize::{cut_agrees, delimiters, normalize, normalized, refusal, NormalizeError};
use crate::text::{decimal, decimal_text};

verus! {

/// A response as it came back: its status, its body where one was read, and
/// the URL that answered.
pub struct Response {
    pub status: u16,
    pub body: Option<String>,
    pub url: String,
}

/// What a caller may set for one request.
pub struct RequestOptions {
    pub headers: Option<HashMap<String, String>>,
    /// The time allowed for the request, in milliseconds.
    pub timeout: Option<u32>,
}

/// What one request came to: a response, or a failure on the way to one.
pub enum Fetched {
    Answered(Response),
    Failed(Failure),
}

/// What became of one URL: the code of its result, how long it took, and the
/// length of the body where one was read.
pub struct Outcome {
    pub url: String,
    pub code: String,
    pub elapsed_millis: u64,
    pub body_length: Option<u64>,
}

/// The codes of `outcomes`, one per outcome, in their order.
pub open spec fn codes_of(outcomes: Seq<Outcome>) -> Seq<Seq<char>> {
    outcomes.map_values(|o: Outcome| o.code@)
}

/// The latencies of `outcomes`, one per outcome, in their order.
pub open spec fn latencies_of(outcomes: Seq<Outcome>) -> Seq<u64> {
    outcomes.map_values(|o: Outcome| o.elapsed_millis)
}

/// The URLs of `outcomes`, one per outcome, in their order.
pub open spec fn urls_of(outcomes: Seq<Outcome>) -> Seq<Seq<char>> {
    outcomes.map_values(|o: Outcome| o.url@)
}

/// The number of bytes that `text` takes in UTF-8, as a length in memory.
pub open spec fn byte_length(text: Seq<char>) -> u64 {
    encode_utf8(text).len() as usize as u64
}

/// The length in bytes of the body of `response`, where it has one.
pub open spec fn body_length_of(response: Response) -> Option<u64> {
    match response.body {
        Some(body) => Some(byte_length(body@)),
        None => None,
    }
}

/// `outcome` is the record of a request for `url` that came to `fetched`
/// after `elapsed_millis`: a response gives its status in decimal digits as
/// the code, a failure the code of its innermost cause and no body length.
pub open spec fn is_outcome_of(
    outcome: Outcome,
    url: Seq<char>,
    fetched: Fetched,
    elapsed_millis: u64,
) -> bool {
    &&& outcome.url@ == url
    &&& outcome.elapsed_millis == elapsed_millis
    &&& match fetched {
        Fetched::Answered(response) => {
            &&& outcome.code@ == decimal(response.status as nat)
            &&& outcome.body_length == body_length_of(response)
        },
        Fetched::Failed(failure) => {
            &&& outcome.code@ == normalized(failure)
            &&& outcome.body_length is None
        },
    }
}

impl Response {
    pub fn new(status: u16, body: Option<String>, url: String) -> (response: Response)
        ensures
            response.status == status,
            response.body == body,
            response.url == url,
    {
        Response { status, body, url }
    }

    /// The length in bytes of the body, where one was read.
    pub fn body_length(&self) -> (length: Option<u64>)
        ensures
            length == body_length_of(*self),
    {
        match &self.body {
            Some(body) => Some(body.as_str().len() as u64),
            None => None,
        }
    }
}

impl RequestOptions {
    /// The time allowed for the request in milliseconds, where one is set.
    pub fn timeout_millis(&self) -> (millis: Option<u64>)
        ensures
            match self.timeout {
                Some(t) => millis == Some(t as u64),
                None => millis is None,
            },
    {
        match self.timeout {
            Some(t) => Some(t as u64),
            None => None,
        }
    }
}

/// Joins the status line of a response with what reading its body gave. A
/// body that could not be read makes the whole request a failure.
pub fn handle_response(status: u16, url: String, body: Result<String, Failure>) -> (fetched:
    Fetched)
    ensures
        match body {
            Ok(text) => fetched == Fetched::Answered(Response { status, body: Some(text), url }),
            Err(failure) => fetched == Fetched::Failed(failure),
        },
{
    match body {
        Ok(text) => Fetched::Answered(Response { status, body: Some(text), url }),
        Err(failure) => Fetched::Failed(failure),
    }
}

impl Outcome {
    /// The record of a request for `url` that came to `fetched` after
    /// `elapsed_millis`.
    pub fn from_fetched(url: String, fetched: &Fetched, elapsed_millis: u64) -> (outcome: Result<
        Outcome,
        NormalizeError,
    >)
        ensures
            outcome is Err <==> (*fetched matches Fetched::Failed(failure) && !cut_agrees(
                delimiters(),
                root_message(failure),
            )),
            outcome matches Err(e) ==> (*fetched matches Fetched::Failed(failure) && e == refusal(
                delimiters(),
                root_message(failure),
            )),
            outcome matches Ok(o) ==> is_outcome_of(o, url@, *fetched, elapsed_millis),
    {
        match fetched {
            Fetched::Answered(response) => Ok(
                Outcome {
                    url,
                    code: decimal_text(response.status as u64),
                    elapsed_millis,
                    body_length: response.body_length(),
                },
            ),
            Fetched::Failed(failure) => match normalize(failure) {
                Ok(code) => Ok(Outcome { url, code, elapsed_millis, body_length: None }),
                Err(e) => Err(e),
            },
        }
    }
}

} // verus!
