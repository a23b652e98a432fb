//! The default answer when no route takes a request.
//!
//! When the recognizer finds no resource for the path, the request is
//! simply not found.  When a resource exists but declares no route for
//! the method, an `OPTIONS` request can be answered from the resource's
//! method list alone, without invoking any handler; every other method
//! is not allowed.  The errors returned here are rendered by the unified
//! error exit.

use vstd::prelude::*;
use crate::error::Error;
use crate::input::Response;
use crate::method::Method;
use crate::recognizer::{allow_of, Resource};

verus! {

/// Answers a request that matched no route: not-found without a
/// resource; for a resource, a synthesized `Allow`-bearing response to
/// `OPTIONS`, and method-not-allowed to everything else.  No handler is
/// involved on any path.
pub fn default(endpoint: Option<&Resource>, method: Method) -> (r: Result<Response, Error>)
    ensures
        match endpoint {
            None => r matches Err(e) && e.spec_is_http() && e.spec_status() == 404
                && e->Http_message@.len() == 0,
            Some(res) => {
                if method == Method::Options {
                    r matches Ok(resp) && resp.status == 200 && resp.headers@.len() == 1
                        && resp.headers@[0].0@ == "Allow"@ && resp.headers@[0].1@ == allow_of(
                        res.spec_verbs(),
                    ) && resp.body@.len() == 0
                } else {
                    r matches Err(e) && e.spec_is_http() && e.spec_status() == 405
                        && e->Http_message@.len() == 0
                }
            },
        },
{
    match endpoint {
        None => Err(Error::not_found()),
        Some(res) => {
            if method == Method::Options {
                let mut resp = Response::with_status(200);
                resp.headers.push((String::from_str("Allow"), res.allow_value()));
                Ok(resp)
            } else {
                Err(Error::method_not_allowed())
            }
        },
    }
}

} // verus!
