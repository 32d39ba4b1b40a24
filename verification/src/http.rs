//! What the two services answer: status codes, and what a failed request says
//! of itself.

use crate::number;
use crate::text;
use vstd::prelude::*;

verus! {

/// Whether `code` says that the request succeeded.
pub open spec fn is_success(code: u16) -> bool {
    200 <= code < 300
}

/// Whether `code` says that the request succeeded.
pub fn success(code: u16) -> (r: bool)
    ensures
        r == is_success(code),
{
    200 <= code && code < 300
}

/// How the status code `code` is written out, with its usual reason; for a
/// number that is no status code, the complaint about it.
pub uninterp spec fn status_text(code: u16) -> Seq<char>;

/// Calls `reqwest::StatusCode::from_u16` and writes out what comes back. The
/// contract says that the outcome depends on `code` alone, and that a status
/// code, which is a number of three digits, is written before its reason. What
/// the reasons are is left unsaid.
#[verifier::external_body]
pub(crate) fn describe_status(code: u16) -> (r: String)
    ensures
        r@ == status_text(code),
        100 <= code <= 999 ==> (number::decimal(code as nat) + " "@).is_prefix_of(r@),
{
    match reqwest::StatusCode::from_u16(code) {
        Ok(status) => status.to_string(),
        Err(e) => e.to_string(),
    }
}

/// How much of a reply is shown where it does not say what went wrong.
pub const EXCERPT_CHARS: usize = 300;

/// What went wrong: what the service `reported`, or else the beginning of its
/// reply.
pub open spec fn detail_of(reported: Option<Seq<char>>, body: Seq<char>) -> Seq<char> {
    match reported {
        Some(message) => message,
        None => text::head(body, EXCERPT_CHARS as nat),
    }
}

/// Says what went wrong.
pub fn detail(reported: Option<String>, body: &str) -> (r: String)
    ensures
        r@ == detail_of(text::opt_text(reported), body@),
{
    match reported {
        Some(message) => message,
        None => text::first_chars(body, EXCERPT_CHARS),
    }
}

} // verus!
