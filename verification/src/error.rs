//! Errors raised by handlers and modifiers.

use vstd::prelude::*;

verus! {

/// An error carried through the dispatch pipeline.  An HTTP error has a
/// status and is rendered into a normal response by the error exit; a
/// critical error has no HTTP meaning and terminates the connection.
#[derive(Debug)]
pub enum Error {
    /// An error with HTTP semantics: rendered as a response.
    Http { status: u16, message: String },
    /// A fatal error below the HTTP layer: propagated, never rendered.
    Critical { message: String },
}

impl Error {
    /// Whether the error can be rendered as an HTTP response.
    pub open spec fn spec_is_http(&self) -> bool {
        self is Http
    }

    /// The HTTP status of an HTTP error.
    pub open spec fn spec_status(&self) -> u16 {
        self->Http_status
    }

    /// A plain 404 error.
    pub fn not_found() -> (r: Self)
        ensures
            r.spec_is_http(),
            r.spec_status() == 404,
            r->Http_message@.len() == 0,
    {
        Error::Http { status: 404, message: String::new() }
    }

    /// A plain 405 error.
    pub fn method_not_allowed() -> (r: Self)
        ensures
            r.spec_is_http(),
            r.spec_status() == 405,
            r->Http_message@.len() == 0,
    {
        Error::Http { status: 405, message: String::new() }
    }

    /// A 400 error with a message.
    pub fn bad_request(message: String) -> (r: Self)
        ensures
            r.spec_is_http(),
            r.spec_status() == 400,
            r->Http_message@ == message@,
    {
        Error::Http { status: 400, message }
    }

    /// A 500 error with a message.
    pub fn internal_server_error(message: String) -> (r: Self)
        ensures
            r.spec_is_http(),
            r.spec_status() == 500,
            r->Http_message@ == message@,
    {
        Error::Http { status: 500, message }
    }

    /// A fatal error with a message.
    pub fn critical(message: String) -> (r: Self)
        ensures
            !r.spec_is_http(),
    {
        Error::Critical { message }
    }

    /// Whether the error can be rendered as an HTTP response.
    pub fn is_http(&self) -> (r: bool)
        ensures
            r == self.spec_is_http(),
    {
        match self {
            Error::Http { .. } => true,
            Error::Critical { .. } => false,
        }
    }

    /// The HTTP status of an HTTP error.
    pub fn status(&self) -> (r: u16)
        requires
            self.spec_is_http(),
        ensures
            r == self.spec_status(),
    {
        match self {
            Error::Http { status, .. } => *status,
            Error::Critical { .. } => 0,
        }
    }
}

} // verus!
