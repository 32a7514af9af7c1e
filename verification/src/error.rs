//! The error model of the dispatch engine.
//!
//! Errors fall in two classes by when they occur: registration-time
//! (`InvalidRoutePattern`, failing a single `register` call atomically) and
//! dispatch-time (all the other kinds), which never abort a dispatch but
//! always converge to a response, either through the error hooks or through
//! the default status mapping of [`ZapError::status_code`].

use vstd::prelude::*;
use vstd::string::StringExecFns;

verus! {

/// The kind of an error, deciding its default response status.
#[derive(Clone, Copy, Debug, PartialEq, Eq, Structural)]
pub enum ErrorKind {
    /// No registered route matched the request's method and path.
    RouteNotFound,
    /// A route pattern was rejected at registration time.
    InvalidRoutePattern,
    /// A request failed validation; the error carries per-field details.
    ValidationError,
    /// A middleware failed or converted a failure of the inner chain.
    MiddlewareError,
    /// Any other failure inside a handler, hook or the engine's host.
    Internal,
}

/// One field-level validation failure, kept structured so a caller can
/// render it without re-parsing a message string.
#[derive(Clone, Debug)]
pub struct FieldIssue {
    pub field: String,
    pub message: String,
}

/// An error of the dispatch engine: a kind, a human-readable message, and
/// optional structured per-field details.
#[derive(Clone, Debug)]
pub struct ZapError {
    pub kind: ErrorKind,
    pub message: String,
    pub details: Option<Vec<FieldIssue>>,
}

impl ZapError {
    /// An error for a path that matched no registered route.
    pub fn not_found(message: &str) -> (e: ZapError)
        ensures
            e.kind == ErrorKind::RouteNotFound,
            e.message@ == message@,
            e.details is None,
    {
        ZapError { kind: ErrorKind::RouteNotFound, message: message.to_owned(), details: None }
    }

    /// An error for a malformed or conflicting route pattern.
    pub fn bad_request(message: &str) -> (e: ZapError)
        ensures
            e.kind == ErrorKind::InvalidRoutePattern,
            e.message@ == message@,
            e.details is None,
    {
        ZapError {
            kind: ErrorKind::InvalidRoutePattern,
            message: message.to_owned(),
            details: None,
        }
    }

    /// A validation failure, optionally carrying field-level details.
    pub fn validation_error(message: &str, details: Option<Vec<FieldIssue>>) -> (e: ZapError)
        ensures
            e.kind == ErrorKind::ValidationError,
            e.message@ == message@,
            e.details == details,
    {
        ZapError { kind: ErrorKind::ValidationError, message: message.to_owned(), details }
    }

    /// A failure raised by a middleware, or converted from the inner chain.
    pub fn middleware_error(message: &str) -> (e: ZapError)
        ensures
            e.kind == ErrorKind::MiddlewareError,
            e.message@ == message@,
            e.details is None,
    {
        ZapError { kind: ErrorKind::MiddlewareError, message: message.to_owned(), details: None }
    }

    /// Any other internal failure.
    pub fn internal(message: &str) -> (e: ZapError)
        ensures
            e.kind == ErrorKind::Internal,
            e.message@ == message@,
            e.details is None,
    {
        ZapError { kind: ErrorKind::Internal, message: message.to_owned(), details: None }
    }

    /// The default HTTP status for this error's kind.
    pub fn status_code(&self) -> (status: u16)
        ensures
            status == status_of_kind(self.kind),
    {
        match self.kind {
            ErrorKind::RouteNotFound => 404,
            ErrorKind::InvalidRoutePattern => 400,
            ErrorKind::ValidationError => 400,
            ErrorKind::MiddlewareError => 500,
            ErrorKind::Internal => 500,
        }
    }

    /// The error rendered as `label: message`.
    pub fn describe(&self) -> (d: String)
        ensures
            d@ == kind_label(self.kind) + ": "@ + self.message@,
    {
        self.kind.label().concat(": ").concat(self.message.as_str())
    }
}

/// The human-readable label of each error kind.
pub open spec fn kind_label(kind: ErrorKind) -> Seq<char> {
    match kind {
        ErrorKind::RouteNotFound => "route not found"@,
        ErrorKind::InvalidRoutePattern => "invalid route pattern"@,
        ErrorKind::ValidationError => "validation error"@,
        ErrorKind::MiddlewareError => "middleware error"@,
        ErrorKind::Internal => "internal error"@,
    }
}

impl ErrorKind {
    /// The kind's label as a string.
    pub fn label(&self) -> (r: String)
        ensures
            r@ == kind_label(*self),
    {
        match self {
            ErrorKind::RouteNotFound => "route not found".to_owned(),
            ErrorKind::InvalidRoutePattern => "invalid route pattern".to_owned(),
            ErrorKind::ValidationError => "validation error".to_owned(),
            ErrorKind::MiddlewareError => "middleware error".to_owned(),
            ErrorKind::Internal => "internal error".to_owned(),
        }
    }
}

/// The default error-to-status mapping: `RouteNotFound` is 404,
/// `InvalidRoutePattern` and `ValidationError` are 400, the rest are 500.
pub open spec fn status_of_kind(kind: ErrorKind) -> u16 {
    match kind {
        ErrorKind::RouteNotFound => 404,
        ErrorKind::InvalidRoutePattern => 400,
        ErrorKind::ValidationError => 400,
        ErrorKind::MiddlewareError => 500,
        ErrorKind::Internal => 500,
    }
}

} // verus!
