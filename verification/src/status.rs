//! HTTP status codes.

use vstd::prelude::*;

use crate::number::decimal;
use crate::text::starts_with;

verus! {

/// Whether a number is a status code: it has three digits.
pub open spec fn is_status(code: u16) -> bool {
    100 <= code <= 999
}

/// Whether a status says that the request succeeded.
pub open spec fn success(code: u16) -> bool {
    200 <= code <= 299
}

/// Whether a status says that the resource is elsewhere.
pub open spec fn redirection(code: u16) -> bool {
    300 <= code <= 399
}

/// The status of an answer that holds a part of a resource.
pub const PARTIAL_CONTENT: u16 = 206;

/// The status of an answer to a method that the resource does not offer.
pub const METHOD_NOT_ALLOWED: u16 = 405;

/// Whether a status says that the request succeeded.
pub fn is_success(code: u16) -> (r: bool)
    ensures
        r == success(code),
{
    200 <= code && code <= 299
}

/// Whether a status says that the resource is elsewhere.
pub fn is_redirection(code: u16) -> (r: bool)
    ensures
        r == redirection(code),
{
    300 <= code && code <= 399
}

/// A status code in words, as `reqwest::StatusCode` is displayed.
pub uninterp spec fn status_words(code: u16) -> Seq<char>;

/// The `Display` of `reqwest::StatusCode`: the code, a space and the reason that goes
/// with it. The text is a function of the code alone and starts with the code in
/// decimal and a space; which reason goes with which code is not said.
#[verifier::external_body]
pub(crate) fn status_text(code: u16) -> (out: String)
    requires
        is_status(code),
    ensures
        out@ == status_words(code),
        starts_with(out@, decimal(code as nat).push(' ')),
{
    reqwest::StatusCode::from_u16(code).unwrap().to_string()
}

} // verus!
