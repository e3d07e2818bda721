//! HTTP status codes as the statistics see them: a number and its class.

use vstd::prelude::*;

verus! {

/// An HTTP status code. Every value of this type holds a number that
/// `http::StatusCode` accepts, that is one in `100..=599`.
#[derive(Clone, Copy, Debug)]
pub struct StatusCode {
    code: u16,
}

impl View for StatusCode {
    type V = int;

    /// The numeric value of the status code.
    closed spec fn view(&self) -> int {
        self.code as int
    }
}

/// Asks `http::StatusCode::from_u16` whether it accepts `code`. That function
/// returns an error exactly when `code < 100 || code >= 600`.
#[verifier::external_body]
fn http_accepts_status(code: u16) -> (accepted: bool)
    ensures
        accepted == (100 <= code < 600),
{
    http::StatusCode::from_u16(code).is_ok()
}

/// Calls `http::StatusCode::is_server_error` on the status code with the
/// number `code`. That method answers `600 > code && code >= 500`. The
/// precondition keeps to numbers for which `from_u16` builds a status code.
#[verifier::external_body]
fn http_is_server_error(code: u16) -> (answer: bool)
    requires
        100 <= code < 600,
    ensures
        answer == (500 <= code < 600),
{
    match http::StatusCode::from_u16(code) {
        Ok(status) => status.is_server_error(),
        Err(_) => false,
    }
}

impl StatusCode {
    #[verifier::type_invariant]
    spec fn in_range(self) -> bool {
        100 <= self.code < 600
    }

    /// Whether the code lies in the 5xx class.
    pub open spec fn spec_is_server_error(self) -> bool {
        500 <= self@ < 600
    }

    /// Builds a status code from its number, or `None` when the number is not
    /// one that can be a status code.
    pub fn from_u16(code: u16) -> (status: Option<StatusCode>)
        ensures
            status is Some <==> 100 <= code < 600,
            status matches Some(s) ==> s@ == code,
    {
        if http_accepts_status(code) {
            Some(StatusCode { code })
        } else {
            None
        }
    }

    /// The number of the status code.
    pub fn as_u16(&self) -> (code: u16)
        ensures
            code == self@,
            100 <= code < 600,
    {
        proof {
            use_type_invariant(self);
        }
        self.code
    }

    /// Whether the server answered with a 5xx status.
    pub fn is_server_error(&self) -> (answer: bool)
        ensures
            answer == self.spec_is_server_error(),
    {
        proof {
            use_type_invariant(self);
        }
        http_is_server_error(self.code)
    }
}

} // verus!
