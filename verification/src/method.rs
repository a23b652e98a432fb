//! HTTP request methods understood by the routing core.

use vstd::prelude::*;

verus! {

/// An HTTP method. The routing core matches on the method of an incoming
/// request and on the methods declared for each route.
#[derive(Clone, Copy, Debug, PartialEq, Eq, Structural)]
pub enum Method {
    Get,
    Post,
    Put,
    Delete,
    Head,
    Options,
    Connect,
    Patch,
    Trace,
}

/// The canonical upper-case name of a method, as it appears in a request
/// line and in an `Allow` header.
pub open spec fn spec_method_name(m: Method) -> Seq<char> {
    match m {
        Method::Get => "GET"@,
        Method::Post => "POST"@,
        Method::Put => "PUT"@,
        Method::Delete => "DELETE"@,
        Method::Head => "HEAD"@,
        Method::Options => "OPTIONS"@,
        Method::Connect => "CONNECT"@,
        Method::Patch => "PATCH"@,
        Method::Trace => "TRACE"@,
    }
}

impl Method {
    /// Returns the canonical name of the method.
    pub fn name(&self) -> (r: &'static str)
        ensures
            r@ == spec_method_name(*self),
    {
        match self {
            Method::Get => "GET",
            Method::Post => "POST",
            Method::Put => "PUT",
            Method::Delete => "DELETE",
            Method::Head => "HEAD",
            Method::Options => "OPTIONS",
            Method::Connect => "CONNECT",
            Method::Patch => "PATCH",
            Method::Trace => "TRACE",
        }
    }
}

} // verus!
