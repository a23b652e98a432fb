//! The per-request context: the parsed request, extracted parameters,
//! and request-scoped state.

use vstd::prelude::*;
use crate::captures::CaptureNames;
use crate::method::Method;

verus! {

/// An incoming request, as the transport hands it over: the method, the
/// raw path, the header fields in arrival order, and the
/// not-yet-consumed body.
pub struct Request {
    pub method: Method,
    pub path: String,
    pub headers: Vec<(String, String)>,
    pub body: Option<String>,
}

impl Request {
    /// The first value of a header field, compared by exact name; header
    /// guards test the result against what they expect.
    pub fn header(&self, name: &str) -> (r: Option<&String>)
        ensures
            match r {
                Some(v) => exists|i: int|
                    0 <= i < self.headers@.len() && (#[trigger] self.headers@[i]).0@ == name@
                        && self.headers@[i].1 == *v,
                None => forall|i: int|
                    0 <= i < self.headers@.len() ==> (#[trigger] self.headers@[i]).0@ != name@,
            },
    {
        let n = self.headers.len();
        let mut i: usize = 0;
        while i < n
            invariant
                n == self.headers@.len(),
                i <= n,
                forall|j: int| 0 <= j < i ==> (#[trigger] self.headers@[j]).0@ != name@,
            decreases n - i,
        {
            if crate::segments::str_eq(self.headers[i].0.as_str(), name) {
                return Some(&self.headers[i].1);
            }
            i = i + 1;
        }
        None
    }
}

/// An outgoing response: a status, header fields in insertion order, and
/// a body.
#[derive(Debug)]
pub struct Response {
    pub status: u16,
    pub headers: Vec<(String, String)>,
    pub body: String,
}

impl Response {
    /// A response with the given status and empty body.
    pub fn with_status(status: u16) -> (r: Self)
        ensures
            r.status == status,
            r.headers@ =~= Seq::<(String, String)>::empty(),
            r.body@ =~= Seq::<char>::empty(),
    {
        Response { status, headers: Vec::new(), body: String::new() }
    }

    /// The first value of a header field, compared by exact name.
    pub fn header(&self, name: &str) -> (r: Option<&String>)
        ensures
            match r {
                Some(v) => exists|i: int|
                    0 <= i < self.headers@.len() && (#[trigger] self.headers@[i]).0@ == name@
                        && self.headers@[i].1 == *v,
                None => forall|i: int|
                    0 <= i < self.headers@.len() ==> (#[trigger] self.headers@[i]).0@ != name@,
            },
    {
        let n = self.headers.len();
        let mut i: usize = 0;
        while i < n
            invariant
                n == self.headers@.len(),
                i <= n,
                forall|j: int| 0 <= j < i ==> (#[trigger] self.headers@[j]).0@ != name@,
            decreases n - i,
        {
            if crate::segments::str_eq(self.headers[i].0.as_str(), name) {
                return Some(&self.headers[i].1);
            }
            i = i + 1;
        }
        None
    }
}

/// The values captured from a matched path, positioned by the pattern's
/// declared parameter names.
pub struct Params {
    names: CaptureNames,
    values: Vec<String>,
}

impl Params {
    /// The declared names, in order.
    pub closed spec fn spec_names(&self) -> Seq<Seq<char>> {
        self.names@.names
    }

    /// Whether the last declared name is the catch-all.
    pub closed spec fn spec_has_wildcard(&self) -> bool {
        self.names@.has_wildcard
    }

    /// The captured values, in declaration order of their names.
    pub closed spec fn spec_values(&self) -> Seq<Seq<char>> {
        self.values@.map_values(|s: String| s@)
    }

    /// One value per name, unique names.
    pub open spec fn wf(&self) -> bool {
        &&& self.spec_values().len() == self.spec_names().len()
        &&& forall|i: int, j: int|
            0 <= i < j < self.spec_names().len() ==> self.spec_names()[i] != self.spec_names()[j]
    }

    /// Pairs captured values with the pattern's declared names.
    pub fn new(names: CaptureNames, values: Vec<String>) -> (r: Self)
        requires
            names.wf(),
            values@.len() == names@.names.len(),
        ensures
            r.wf(),
            r.spec_names() == names@.names,
            r.spec_has_wildcard() == names@.has_wildcard,
            r.spec_values() == values@.map_values(|s: String| s@),
    {
        Params { names, values }
    }

    /// The number of captured values.
    pub fn len(&self) -> (r: usize)
        requires
            self.wf(),
        ensures
            r == self.spec_values().len(),
    {
        self.values.len()
    }

    /// The value at a declaration-order position.
    pub fn get(&self, i: usize) -> (r: Option<&String>)
        requires
            self.wf(),
        ensures
            match r {
                Some(v) => i < self.spec_values().len() && v@ == self.spec_values()[i as int],
                None => i >= self.spec_values().len(),
            },
    {
        if i < self.values.len() {
            Some(&self.values[i])
        } else {
            None
        }
    }

    /// The value captured for a declared name, or `None` when the name
    /// was never declared.
    pub fn name(&self, name: &str) -> (r: Option<&String>)
        requires
            self.wf(),
        ensures
            match r {
                Some(v) => exists|i: int|
                    0 <= i < self.spec_names().len() && (#[trigger] self.spec_names()[i]) == name@
                        && v@ == self.spec_values()[i],
                None => !self.spec_names().contains(name@),
            },
    {
        match self.names.position(name) {
            Some(i) => {
                proof {
                    assert(self.spec_names()[i as int] == name@);
                    assert(self.spec_values()[i as int] == self.values@[i as int]@);
                }
                Some(&self.values[i])
            },
            None => None,
        }
    }

    /// The remainder captured by the catch-all parameter, which is
    /// always the last declared one; `None` when the pattern has none.
    pub fn catch_all(&self) -> (r: Option<&String>)
        requires
            self.wf(),
        ensures
            match r {
                Some(v) => self.spec_has_wildcard() && self.spec_values().len() > 0 && v@
                    == self.spec_values().last(),
                None => !self.spec_has_wildcard() || self.spec_values().len() == 0,
            },
    {
        if !self.names.has_wildcard() {
            return None;
        }
        let n = self.names.len();
        if n == 0 {
            return None;
        }
        proof {
            assert(self.spec_values()[n - 1] == self.values@[n - 1]@);
        }
        Some(&self.values[n - 1])
    }
}

/// The request-scoped context handed to hooks and handlers: the request,
/// the captured parameters, and the request's own mutable state.  It is
/// owned by one pipeline instance and never shared across requests.
pub struct Input {
    /// The incoming request.
    pub request: Request,
    /// The parameters captured by recognition.
    pub params: Params,
    /// Request-scoped values that hooks and handlers may record.
    pub locals: Vec<u64>,
}

impl Input {
    /// Takes the message body out of the request.  The body can be taken
    /// once; a second taker finds it already gone and gets the server
    /// error, exactly as when the raw body was stolen earlier.
    pub fn take_body(&mut self) -> (r: Result<String, crate::error::Error>)
        ensures
            final(self).request.body is None,
            final(self).request.method == old(self).request.method,
            final(self).request.path == old(self).request.path,
            final(self).params == old(self).params,
            final(self).locals == old(self).locals,
            match r {
                Ok(b) => old(self).request.body == Some(b),
                Err(e) => {
                    &&& old(self).request.body is None
                    &&& e.spec_is_http()
                    &&& e.spec_status() == 500
                },
            },
    {
        match self.request.body.take() {
            Some(b) => Ok(b),
            None => Err(
                crate::error::Error::internal_server_error(
                    String::from_str("the request body has already been taken"),
                ),
            ),
        }
    }
}

} // verus!
