//! Handlers and modifiers.
//!
//! A handler consumes the request context and produces a response or an
//! error.  A modifier wraps every matched handler with a before-hook and
//! an after-hook; the chain of modifiers runs in registration order on
//! the way in and in reverse order on the way out.

use vstd::prelude::*;
use crate::error::Error;
use crate::input::{Input, Response};
use crate::method::Method;

verus! {

/// The process performed when a route matches: applications implement
/// this for their endpoint logic.
pub trait Handler {
    /// Applies the request context to this handler.
    fn handle(&self, input: &mut Input) -> Result<Response, Error>;
}

/// A before/after hook pair applied around every matched handler.
pub trait Modifier {
    /// Runs before the handler; an error skips every later hook and the
    /// handler itself.
    fn before(&self, input: &mut Input) -> Result<(), Error>;

    /// Runs after the handler with the current output, which it may
    /// replace.
    fn after(&self, input: &mut Input, output: Response) -> Result<Response, Error>;
}

/// A handler built from an endpoint: the endpoint's logic applied to the
/// request context of the resource it is registered under.
pub struct EndpointHandler<T> {
    /// The wrapped endpoint.
    pub endpoint: T,
}

impl<T> EndpointHandler<T> {
    /// Wraps an endpoint.
    pub fn new(endpoint: T) -> (r: Self)
        ensures
            r.endpoint == endpoint,
    {
        EndpointHandler { endpoint }
    }
}

impl<T: Handler> Handler for EndpointHandler<T> {
    fn handle(&self, input: &mut Input) -> Result<Response, Error> {
        self.endpoint.handle(input)
    }
}

/// A handler carrying the methods its route was declared for; `None`
/// stands for every method.
pub struct RouteHandler<H> {
    handler: H,
    allowed_methods: Option<Vec<Method>>,
}

impl<H> RouteHandler<H> {
    /// The declared methods, or `None` for every method.
    pub closed spec fn spec_allowed_methods(&self) -> Option<Seq<Method>> {
        match self.allowed_methods {
            Some(v) => Some(v@),
            None => None,
        }
    }

    /// Pairs a handler with the methods its route accepts.
    pub fn new(handler: H, allowed_methods: Option<Vec<Method>>) -> (r: Self)
        ensures
            r.spec_allowed_methods() == match allowed_methods {
                Some(v) => Some(v@),
                None => None::<Seq<Method>>,
            },
    {
        RouteHandler { handler, allowed_methods }
    }

    /// The declared methods, or `None` for every method.
    pub fn allowed_methods(&self) -> (r: Option<&Vec<Method>>)
        ensures
            match r {
                Some(v) => self.spec_allowed_methods() == Some(v@),
                None => self.spec_allowed_methods() is None,
            },
    {
        match &self.allowed_methods {
            Some(v) => Some(v),
            None => None,
        }
    }
}

impl<H: Handler> Handler for RouteHandler<H> {
    fn handle(&self, input: &mut Input) -> Result<Response, Error> {
        self.handler.handle(input)
    }
}

} // verus!
