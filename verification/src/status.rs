//! The classes of HTTP status codes, as `hyper` tells them apart.

use vstd::prelude::*;

verus! {

/// Whether `code` is a status of the success class.
pub open spec fn is_success_code(code: u16) -> bool {
    200 <= code && code < 300
}

/// Calls `hyper::StatusCode::from_u16` and, on the status it yields,
/// `hyper::StatusCode::is_success`.
///
/// Trusted: `from_u16` refuses every number below 100 and from 1000 on, and
/// `is_success` holds exactly of the codes from 200 to 299, so the answer is
/// `is_success_code(code)` for every `u16`.
#[verifier::external_body]
pub(crate) fn status_is_success(code: u16) -> (r: bool)
    ensures
        r == is_success_code(code),
{
    match hyper::StatusCode::from_u16(code) {
        Ok(status) => status.is_success(),
        Err(_) => false,
    }
}

} // verus!
