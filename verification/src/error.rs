//! The gateway's error taxonomy.
//!
//! Every failure is rendered as an Anthropic-style error body whose `type` is
//! one of a fixed set of kinds, each with a canonical HTTP status.  Errors
//! that originate downstream are always surfaced with status 502 and the kind
//! mapped from the downstream status.

use vstd::prelude::*;

use crate::text::{concat2, copy_str, dec_str, dec_u64, str_eq};
use crate::translate::TranslateError;

verus! {

/// A gateway error: HTTP status to answer with, wire error kind, message.
#[derive(Debug)]
pub struct AppError {
    pub status: u16,
    pub error_type: String,
    pub message: String,
}

impl AppError {
    /// A request the gateway itself rejects; answered with HTTP 400.
    pub fn invalid_request(message: &str) -> (r: Self)
        ensures
            r.status == 400,
            r.error_type@ == "invalid_request_error"@,
            r.message@ == message@,
    {
        AppError {
            status: 400,
            error_type: copy_str("invalid_request_error"),
            message: copy_str(message),
        }
    }

    /// A downstream or internal failure; answered with HTTP 502.
    pub fn api_error(message: &str) -> (r: Self)
        ensures
            r.status == 502,
            r.error_type@ == "api_error"@,
            r.message@ == message@,
    {
        AppError { status: 502, error_type: copy_str("api_error"), message: copy_str(message) }
    }

    /// Admission control refused the request; answered with HTTP 429.
    pub fn rate_limited(message: &str) -> (r: Self)
        ensures
            r.status == 429,
            r.error_type@ == "rate_limit_error"@,
            r.message@ == message@,
    {
        AppError {
            status: 429,
            error_type: copy_str("rate_limit_error"),
            message: copy_str(message),
        }
    }

    /// Lifts a translator failure: the kind keeps its canonical HTTP
    /// status, so a rejected request answers 400 and a broken response 500.
    pub fn from_translate(err: TranslateError) -> (r: Self)
        ensures
            r.status == canonical_status(err.error_type@),
            r.error_type@ == err.error_type@,
            r.message@ == err.message@,
    {
        let status: u16 = if str_eq(err.error_type.as_str(), "invalid_request_error") {
            400
        } else if str_eq(err.error_type.as_str(), "authentication_error") {
            401
        } else if str_eq(err.error_type.as_str(), "permission_error") {
            403
        } else if str_eq(err.error_type.as_str(), "not_found_error") {
            404
        } else if str_eq(err.error_type.as_str(), "rate_limit_error") {
            429
        } else if str_eq(err.error_type.as_str(), "overloaded_error") {
            502
        } else {
            500
        };
        AppError { status, error_type: err.error_type, message: err.message }
    }
}

/// The canonical HTTP status of an error kind.
pub open spec fn canonical_status(kind: Seq<char>) -> u16 {
    if kind == "invalid_request_error"@ {
        400
    } else if kind == "authentication_error"@ {
        401
    } else if kind == "permission_error"@ {
        403
    } else if kind == "not_found_error"@ {
        404
    } else if kind == "rate_limit_error"@ {
        429
    } else if kind == "overloaded_error"@ {
        502
    } else {
        500
    }
}

/// The error kind that a downstream HTTP status maps to.
pub open spec fn kind_for_status(status: u16) -> Seq<char> {
    if status == 400 {
        "invalid_request_error"@
    } else if status == 401 {
        "authentication_error"@
    } else if status == 403 {
        "permission_error"@
    } else if status == 404 {
        "not_found_error"@
    } else if status == 429 {
        "rate_limit_error"@
    } else if status == 502 || status == 503 || status == 504 {
        "overloaded_error"@
    } else {
        "api_error"@
    }
}

/// Maps a non-success downstream status and body to the error returned to the
/// client: always status 502, with the kind taken from the downstream status.
pub fn map_downstream_error(status: u16, body: &str) -> (r: AppError)
    ensures
        r.status == 502,
        r.error_type@ == kind_for_status(status),
        body@.len() == 0 ==> r.message@ == "downstream error: "@ + dec_str(status as nat),
        body@.len() > 0 ==> r.message@ == "downstream error: "@ + body@,
{
    let kind: &str = if status == 400 {
        "invalid_request_error"
    } else if status == 401 {
        "authentication_error"
    } else if status == 403 {
        "permission_error"
    } else if status == 404 {
        "not_found_error"
    } else if status == 429 {
        "rate_limit_error"
    } else if status == 502 || status == 503 || status == 504 {
        "overloaded_error"
    } else {
        "api_error"
    };
    let message = if body.unicode_len() == 0 {
        let rendered = dec_u64(status as u64);
        concat2("downstream error: ", rendered.as_str())
    } else {
        concat2("downstream error: ", body)
    };
    AppError { status: 502, error_type: copy_str(kind), message }
}

} // verus!
