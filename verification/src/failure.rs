//! Failures the HTTP API reports: a status code, a stable error code and a message.

use vstd::prelude::*;

verus! {

/// An API failure: HTTP status, machine-readable code and human-readable message.
#[derive(Debug)]
pub struct ApiFailure {
    pub status: u16,
    pub code: &'static str,
    pub message: String,
}

/// Status code for a rejected argument.
pub const BAD_REQUEST: u16 = 400;
/// Status code for a forbidden request.
pub const FORBIDDEN: u16 = 403;
/// Status code for a missing resource.
pub const NOT_FOUND: u16 = 404;
/// Status code for a source that changed underneath a request.
pub const CONFLICT: u16 = 409;
/// Status code for a response that would be too large.
pub const PAYLOAD_TOO_LARGE: u16 = 413;
/// Status code for an internal failure.
pub const INTERNAL_SERVER_ERROR: u16 = 500;
/// Status code for an unavailable service.
pub const SERVICE_UNAVAILABLE: u16 = 503;

impl ApiFailure {
    /// Whether this failure is a rejected argument (400, `invalid_argument`).
    pub open spec fn is_invalid(&self) -> bool {
        self.status == BAD_REQUEST && self.code@ == "invalid_argument"@
    }

    /// Whether this failure is the generic internal error.
    pub open spec fn is_internal(&self) -> bool {
        self.status == INTERNAL_SERVER_ERROR && self.code@ == "internal"@
            && self.message@ == "an internal error occurred"@
    }

    pub fn new(status: u16, code: &'static str, message: String) -> (r: Self)
        ensures
            r.status == status,
            r.code@ == code@,
            r.message@ == message@,
    {
        ApiFailure { status, code, message }
    }

    pub fn invalid(message: String) -> (r: Self)
        ensures
            r.is_invalid(),
            r.message@ == message@,
    {
        Self::new(BAD_REQUEST, "invalid_argument", message)
    }

    /// `invalid` with a fixed message.
    pub fn invalid_str(message: &str) -> (r: Self)
        ensures
            r.is_invalid(),
            r.message@ == message@,
    {
        Self::invalid(message.to_owned())
    }

    pub fn not_found(message: String) -> (r: Self)
        ensures
            r.status == NOT_FOUND,
            r.code@ == "not_found"@,
            r.message@ == message@,
    {
        Self::new(NOT_FOUND, "not_found", message)
    }

    pub fn forbidden(message: String) -> (r: Self)
        ensures
            r.status == FORBIDDEN,
            r.code@ == "invalid_argument"@,
            r.message@ == message@,
    {
        Self::new(FORBIDDEN, "invalid_argument", message)
    }

    pub fn source_changed(message: String) -> (r: Self)
        ensures
            r.status == CONFLICT,
            r.code@ == "source_changed"@,
            r.message@ == message@,
    {
        Self::new(CONFLICT, "source_changed", message)
    }

    pub fn too_large(message: String) -> (r: Self)
        ensures
            r.status == PAYLOAD_TOO_LARGE,
            r.code@ == "content_too_large"@,
            r.message@ == message@,
    {
        Self::new(PAYLOAD_TOO_LARGE, "content_too_large", message)
    }

    pub fn service_unavailable(message: String) -> (r: Self)
        ensures
            r.status == SERVICE_UNAVAILABLE,
            r.code@ == "source_unavailable"@,
            r.message@ == message@,
    {
        Self::new(SERVICE_UNAVAILABLE, "source_unavailable", message)
    }

    pub fn internal() -> (r: Self)
        ensures
            r.is_internal(),
    {
        Self::new(INTERNAL_SERVER_ERROR, "internal", "an internal error occurred".to_owned())
    }
}

} // verus!
