//! The decisions an HTTP client makes about a response, separated from the
//! transport that performs the request.

use vstd::prelude::*;

use crate::iri::opt_str_view;

verus! {

/// How a response violated the caller's expectations.
#[derive(Debug, Clone, Copy, PartialEq, Eq, Structural)]
pub enum HttpErrorKind {
    InvalidInput,
    InvalidData,
    UnexpectedStatus,
}

/// An error raised around an HTTP exchange.
#[derive(Debug, Clone, PartialEq, Eq)]
pub struct HttpError {
    pub kind: HttpErrorKind,
    pub message: String,
}

/// The error that marks a malformed request about to be sent.
pub fn invalid_input_error(message: String) -> (e: HttpError)
    ensures
        e.kind == HttpErrorKind::InvalidInput,
        e.message@ == message@,
{
    HttpError { kind: HttpErrorKind::InvalidInput, message }
}

/// The error that marks malformed data received from a server.
pub fn invalid_data_error(message: String) -> (e: HttpError)
    ensures
        e.kind == HttpErrorKind::InvalidData,
        e.message@ == message@,
{
    HttpError { kind: HttpErrorKind::InvalidData, message }
}

/// Whether a status code counts as success.
pub fn status_is_success(status: u16) -> (r: bool)
    ensures
        r == (200 <= status < 300),
{
    200 <= status && status < 300
}

/// What a response's status and Content-Type header decide: the content type
/// is returned exactly when the status is a success and the header is there;
/// a failing status is reported before a missing header.
pub fn response_content_type(status: u16, content_type: Option<String>) -> (r: Result<
    String,
    HttpError,
>)
    ensures
        r is Ok <==> 200 <= status < 300 && content_type is Some,
        r matches Ok(ct) ==> Some(ct@) == opt_str_view(content_type),
        r matches Err(e) ==> (if !(200 <= status < 300) {
            e.kind == HttpErrorKind::UnexpectedStatus
        } else {
            e.kind == HttpErrorKind::InvalidData
        }),
{
    if !status_is_success(status) {
        return Err(
            HttpError {
                kind: HttpErrorKind::UnexpectedStatus,
                message: "error status returned by the server".to_owned(),
            },
        );
    }
    match content_type {
        Some(ct) => Ok(ct),
        None => Err(invalid_data_error("no Content-Type header returned".to_owned())),
    }
}

} // verus!
