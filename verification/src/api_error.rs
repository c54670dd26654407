//! The errors that the server answers with.
use vstd::prelude::*;
use crate::text::own;
use crate::text::opt_str;
use crate::tools::opt_view;

verus! {

/// An error answer: the HTTP status, and what the error object holds.
#[derive(Debug, Clone, PartialEq, Eq)]
pub struct ApiError {
    /// The HTTP status.
    pub status: u16,
    /// What is wrong.
    pub message: String,
    /// The request parameter that is wrong.
    pub param: Option<String>,
    /// A name for the error.
    pub code: Option<String>,
}

/// The mathematical reading of an [`ApiError`].
#[verifier::ext_equal]
pub struct ErrorView {
    /// The HTTP status.
    pub status: u16,
    /// What is wrong.
    pub message: Seq<char>,
    /// The request parameter that is wrong.
    pub param: Option<Seq<char>>,
    /// A name for the error.
    pub code: Option<Seq<char>>,
}

impl View for ApiError {
    type V = ErrorView;

    open spec fn view(&self) -> ErrorView {
        ErrorView {
            status: self.status,
            message: self.message@,
            param: opt_view(self.param),
            code: opt_view(self.code),
        }
    }
}

/// Bad request.
pub const BAD_REQUEST: u16 = 400;

/// Unauthorized.
pub const UNAUTHORIZED: u16 = 401;

/// Not found.
pub const NOT_FOUND: u16 = 404;

/// Too many requests.
pub const TOO_MANY_REQUESTS: u16 = 429;

/// Internal server error.
pub const INTERNAL_SERVER_ERROR: u16 = 500;

/// Not implemented.
pub const NOT_IMPLEMENTED: u16 = 501;

/// Service unavailable.
pub const SERVICE_UNAVAILABLE: u16 = 503;

/// An error without a parameter and a name.
pub open spec fn plain_error(status: u16, message: Seq<char>) -> ErrorView {
    ErrorView { status, message, param: None, code: None }
}

/// An error at a parameter.
pub open spec fn param_error(
    status: u16,
    message: Seq<char>,
    param: Seq<char>,
    code: Option<Seq<char>>,
) -> ErrorView {
    ErrorView { status, message, param: Some(param), code }
}

impl ApiError {
    /// An error without a parameter and a name.
    pub fn plain(status: u16, message: String) -> (r: ApiError)
        ensures
            r@ == plain_error(status, message@),
    {
        ApiError { status, message, param: None, code: None }
    }

    /// An error at a parameter.
    pub fn at(status: u16, message: String, param: &str, code: Option<&str>) -> (r: ApiError)
        ensures
            r@ == param_error(status, message@, param@, opt_str(code)),
    {
        ApiError {
            status,
            message,
            param: Some(own(param)),
            code: match code {
                Some(c) => Some(own(c)),
                None => None,
            },
        }
    }
}

/// An error holds what it was made of, and what it was not made of it leaves
/// open.
pub proof fn law_errors_hold_what_they_say(
    status: u16,
    message: Seq<char>,
    param: Seq<char>,
    code: Option<Seq<char>>,
)
    ensures
        plain_error(status, message).status == status,
        plain_error(status, message).message == message,
        plain_error(status, message).param is None && plain_error(status, message).code is None,
        param_error(status, message, param, code).status == status,
        param_error(status, message, param, code).message == message,
        param_error(status, message, param, code).param == Some(param),
        param_error(status, message, param, code).code == code,
{
}

} // verus!
