//! Answers to refused requests.
use vstd::prelude::*;
use vstd::string::*;

verus! {

/// What went wrong with a request.
#[derive(Debug)]
pub struct ErrorDetail {
    pub message: String,
    pub kind: String,
    pub code: Option<String>,
}

/// Body of an error answer.
#[derive(Debug)]
pub struct ErrorResponse {
    pub error: ErrorDetail,
}

/// An error answer with the given status and message.
pub fn make_error(status: u16, msg: &str) -> (result: (u16, ErrorResponse))
    ensures
        result.0 == status,
        result.1.error.message@ == msg@,
        result.1.error.kind@ == "invalid_request_error"@,
        result.1.error.code is None,
{
    (
        status,
        ErrorResponse {
            error: ErrorDetail {
                message: String::from_str(msg),
                kind: String::from_str("invalid_request_error"),
                code: None,
            },
        },
    )
}

} // verus!
