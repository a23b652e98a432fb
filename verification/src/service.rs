//! Serving requests against a built application.
//!
//! An `AppService` reads one immutable application and dispatches one
//! request at a time: it resolves the path and method through the
//! recognizer, then runs the before-hooks in order, the matched handler,
//! and the after-hooks in reverse order, feeding each outcome into the
//! pipeline stage machine.  Recognition failures and HTTP errors leave
//! through one unified error exit; only critical errors escape to the
//! caller.

use vstd::prelude::*;
use crate::captures::CaptureNames;
use crate::config::App;
use crate::error::Error;
use crate::handler::{Handler, Modifier};
use crate::input::{Input, Params, Request, Response};
use crate::method::Method;
use crate::pipeline::{action_of, run, Pipeline, Stage, StageAction};
use crate::recognizer::{
    allow_of, lemma_resolve_route_bound, path_ok, path_segs, RecognizeErrorKind, Resolution,
};

verus! {

/// The decimal digits of a number, most significant first.
pub open spec fn dec_rep(n: nat) -> Seq<char>
    decreases n,
{
    if n < 10 {
        seq![dec_digit(n)]
    } else {
        dec_rep(n / 10).push(dec_digit(n % 10))
    }
}

/// The character of one decimal digit.
pub open spec fn dec_digit(d: nat) -> char {
    if d == 0 {
        '0'
    } else if d == 1 {
        '1'
    } else if d == 2 {
        '2'
    } else if d == 3 {
        '3'
    } else if d == 4 {
        '4'
    } else if d == 5 {
        '5'
    } else if d == 6 {
        '6'
    } else if d == 7 {
        '7'
    } else if d == 8 {
        '8'
    } else {
        '9'
    }
}

fn digit_str(d: usize) -> (r: &'static str)
    requires
        d < 10,
    ensures
        r@ == seq![dec_digit(d as nat)],
{
    proof {
        reveal_strlit("0");
        reveal_strlit("1");
        reveal_strlit("2");
        reveal_strlit("3");
        reveal_strlit("4");
        reveal_strlit("5");
        reveal_strlit("6");
        reveal_strlit("7");
        reveal_strlit("8");
        reveal_strlit("9");
    }
    if d == 0 {
        "0"
    } else if d == 1 {
        "1"
    } else if d == 2 {
        "2"
    } else if d == 3 {
        "3"
    } else if d == 4 {
        "4"
    } else if d == 5 {
        "5"
    } else if d == 6 {
        "6"
    } else if d == 7 {
        "7"
    } else if d == 8 {
        "8"
    } else {
        "9"
    }
}

/// Writes a number in decimal.
pub fn usize_to_string(n: usize) -> (r: String)
    ensures
        r@ == dec_rep(n as nat),
    decreases n,
{
    if n < 10 {
        digit_str(n).to_owned()
    } else {
        let mut s = usize_to_string(n / 10);
        s.append(digit_str(n % 10));
        proof {
            assert(s@ =~= dec_rep(n as nat));
        }
        s
    }
}

/// Renders a pipeline error through the unified error exit: an HTTP
/// error becomes a plain response with its status and message; a
/// critical error propagates unchanged.
pub fn error_exit(e: Error) -> (r: Result<Response, Error>)
    ensures
        match r {
            Ok(resp) => {
                &&& e.spec_is_http()
                &&& resp.status == e.spec_status()
                &&& resp.headers@ == Seq::<(String, String)>::empty()
                &&& resp.body@ == e->Http_message@
            },
            Err(e2) => !e.spec_is_http() && e2 == e,
        },
{
    match e {
        Error::Http { status, message } => Ok(
            Response { status, headers: Vec::new(), body: message },
        ),
        Error::Critical { .. } => Err(e),
    }
}

/// Attaches the body's length as `Content-Length` when no such field was
/// set explicitly; everything else is kept as it is.
pub fn finalize_response(response: Response) -> (r: Response)
    ensures
        r.status == response.status,
        r.body == response.body,
        (exists|i: int|
            0 <= i < response.headers@.len() && (#[trigger] response.headers@[i]).0@
                == "Content-Length"@) ==> r.headers@ == response.headers@,
        (forall|i: int|
            0 <= i < response.headers@.len() ==> (#[trigger] response.headers@[i]).0@
                != "Content-Length"@) ==> r.headers@.len() == response.headers@.len() + 1
            && r.headers@.drop_last() == response.headers@ && r.headers@.last().0@
            == "Content-Length"@ && r.headers@.last().1@ == dec_rep(response.body@.len()),
{
    let has_length = match response.header("Content-Length") {
        Some(_) => true,
        None => false,
    };
    if has_length {
        response
    } else {
        let mut response = response;
        let len = response.body.as_str().unicode_len();
        response.headers.push((String::from_str("Content-Length"), usize_to_string(len)));
        response
    }
}

/// A service dispatching requests against one built application.
pub struct AppService<'a, H, M> {
    app: &'a App<H, M>,
}

impl<H, M> App<H, M> {
    /// Creates a new `AppService` to manage a session.  The service
    /// reads the application and never changes it, so arbitrarily many
    /// services can serve concurrently from one application.
    pub fn new_service(&self) -> (r: AppService<'_, H, M>)
        ensures
            r.spec_app() == *self,
    {
        AppService { app: self }
    }
}

impl<'a, H, M> AppService<'a, H, M> {
    /// The application served from.
    pub closed spec fn spec_app(&self) -> App<H, M> {
        *self.app
    }
}

impl<'a, H: Handler, M: Modifier> AppService<'a, H, M> {
    /// Dispatches one request and produces its response.
    ///
    /// A path matching no resource yields a plain 404 response; a
    /// matching path without a route for the method yields 405 with an
    /// `Allow` field listing exactly the registered methods; a fallback
    /// `OPTIONS` request yields 200 with that `Allow` field and invokes
    /// no handler.  Otherwise the before-hooks, the handler, and the
    /// after-hooks run in pipeline order; an HTTP error among them is
    /// rendered through the unified error exit, and only a critical
    /// error is returned as `Err`.
    #[verifier::loop_isolation(false)]
    pub fn dispatch_request(&self, request: Request) -> (r: Result<Response, Error>)
        requires
            self.spec_app().wf(),
        ensures
            ({
                let app = self.spec_app();
                let rec = app.spec_recognizer();
                let ss = path_segs(request.path@);
                &&& (!path_ok(request.path@) || forall|j: int|
                    0 <= j < rec.spec_len() ==> !rec.entry_matches(j, ss)) ==> (r matches Ok(resp)
                    && resp.status == 404 && resp.headers@.len() == 0 && resp.body@.len() == 0)
                &&& forall|e: int|
                    #![trigger rec.is_best_match(e, ss)]
                    path_ok(request.path@) && rec.is_best_match(e, ss)
                        && crate::recognizer::spec_resolve(
                        rec.spec_resources()[e].spec_verbs(),
                        rec.spec_resources()[e].spec_default_route(),
                        request.method,
                        app.spec_config(),
                    ) == Resolution::NotAllowed ==> (r matches Ok(resp) && resp.status == 405
                        && resp.headers@.len() == 1 && resp.headers@[0].0@ == "Allow"@
                        && resp.headers@[0].1@ == allow_of(rec.spec_resources()[e].spec_verbs())
                        && resp.body@.len() == 0)
                &&& forall|e: int|
                    #![trigger rec.is_best_match(e, ss)]
                    path_ok(request.path@) && rec.is_best_match(e, ss)
                        && crate::recognizer::spec_resolve(
                        rec.spec_resources()[e].spec_verbs(),
                        rec.spec_resources()[e].spec_default_route(),
                        request.method,
                        app.spec_config(),
                    ) == Resolution::FallbackOptions ==> (r matches Ok(resp) && resp.status == 200
                        && resp.headers@.len() == 1 && resp.headers@[0].0@ == "Allow"@
                        && resp.headers@[0].1@ == allow_of(rec.spec_resources()[e].spec_verbs())
                        && resp.body@.len() == 0)
                &&& r matches Err(e) ==> !e.spec_is_http()
            }),
    {
        let app = self.app;
        let method = request.method;
        let outcome = app.recognizer().recognize(request.path.as_str(), method, app.config());
        match outcome {
            Err(RecognizeErrorKind::NotFound) => {
                match crate::fallback::default(None, method) {
                    Err(e) => error_exit(e),
                    Ok(resp) => {
                        proof {
                            assert(false);
                        }
                        Ok(resp)
                    },
                }
            },
            Err(RecognizeErrorKind::MethodNotAllowed { entry_id }) => {
                proof {
                    let rec = self.spec_app().spec_recognizer();
                    let ss = path_segs(request.path@);
                    assert forall|e: int| #[trigger]
                        rec.is_best_match(e, ss) implies e == entry_id as int by {
                        rec.lemma_best_unique(e, entry_id as int, ss);
                    }
                }
                let allow = app.recognizer().resource(entry_id).allow_value();
                let mut resp = Response::with_status(405);
                resp.headers.push((String::from_str("Allow"), allow));
                proof {
                    assert(resp.headers@.len() == 1);
                }
                Ok(resp)
            },
            Err(RecognizeErrorKind::FallbackOptions { entry_id }) => {
                proof {
                    let rec = self.spec_app().spec_recognizer();
                    let ss = path_segs(request.path@);
                    assert forall|e: int| #[trigger]
                        rec.is_best_match(e, ss) implies e == entry_id as int by {
                        rec.lemma_best_unique(e, entry_id as int, ss);
                    }
                    assert(method == Method::Options);
                }
                let resource = app.recognizer().resource(entry_id);
                match crate::fallback::default(Some(resource), method) {
                    Ok(resp) => Ok(resp),
                    Err(e) => {
                        proof {
                            assert(false);
                        }
                        error_exit(e)
                    },
                }
            },
            Ok(m) => {
                proof {
                    let rec = self.spec_app().spec_recognizer();
                    let ss = path_segs(request.path@);
                    assert forall|e: int| #[trigger]
                        rec.is_best_match(e, ss) implies crate::recognizer::spec_resolve(
                        rec.spec_resources()[e].spec_verbs(),
                        rec.spec_resources()[e].spec_default_route(),
                        request.method,
                        self.spec_app().spec_config(),
                    ) == Resolution::Route(m.route_id) by {
                        rec.lemma_best_unique(e, m.entry_id as int, ss);
                    }
                    assert(rec.spec_resources()[m.entry_id as int].routes_ok(
                        self.spec_app().spec_routes().len(),
                    ));
                    rec.lemma_wf_entry(m.entry_id as int);
                    lemma_resolve_route_bound(
                        rec.spec_resources()[m.entry_id as int].spec_verbs(),
                        rec.spec_resources()[m.entry_id as int].spec_default_route(),
                        request.method,
                        self.spec_app().spec_config(),
                        self.spec_app().spec_routes().len(),
                    );
                }
                self.run_matched(m, request)
            },
        }
    }

    /// Runs the hook-and-handler stages for a recognized request.
    ///
    /// A ghost event log records the outcome of every stage, and the
    /// invariant `pl.stage == run(n, events)` holds throughout: each
    /// hook and the handler are invoked exactly when the stage machine's
    /// pending action prescribes them, so the driver performs the
    /// machine's action sequence, of which the ordering and
    /// short-circuit laws are proved.  The hooks and the handler are
    /// application code, so nothing is promised of the response they
    /// shape; what is promised is that every error that escapes is
    /// critical — an HTTP error from any stage is rendered through the
    /// unified error exit.
    #[verifier::loop_isolation(false)]
    fn run_matched(&self, m: crate::recognizer::RecognizerMatch, request: Request) -> (r: Result<
        Response,
        Error,
    >)
        requires
            self.spec_app().wf(),
            0 <= m.entry_id < self.spec_app().spec_recognizer().spec_len(),
            m.route_id < self.spec_app().spec_routes().len(),
            m.captures@.len() == self.spec_app().spec_recognizer()
                .spec_resources()[m.entry_id as int].spec_uri()@.names.len(),
        ensures
            r matches Err(e) ==> !e.spec_is_http(),
    {
        let app = self.app;
        proof {
            app.spec_recognizer().lemma_wf_entry(m.entry_id as int);
        }
        let resource = app.recognizer().resource(m.entry_id);
        let names = match resource.uri().capture_names() {
            Some(ns) => ns.duplicate(),
            None => CaptureNames::new(),
        };
        proof {
            assert(m.captures@.len() == names@.names.len());
        }
        let params = Params::new(names, m.captures);
        let mut input = Input { request, params, locals: Vec::new() };
        let n = app.modifier_count();
        let mut pl = Pipeline::new(n);
        let ghost mut events: Seq<bool> = Seq::empty();
        proof {
            assert(run(n, events) == Stage::Start);
            assert(action_of(pl.stage) == Some(StageAction::RunRecognize));
        }
        // Recognition already succeeded before this function was entered.
        pl.step(true);
        proof {
            let prev = events;
            events = events.push(true);
            assert(events.drop_last() =~= prev);
            assert(run(n, events) == pl.stage);
        }
        let mut i: usize = 0;
        while i < n
            invariant
                i <= n,
                pl.n_modifiers == n,
                pl.stage == (if i < n {
                    Stage::BeforeHandle { current: i }
                } else {
                    Stage::Handle
                }),
                pl.stage == run(n, events),
            decreases n - i,
        {
            proof {
                assert(action_of(run(n, events)) == Some(StageAction::RunBefore(i)));
            }
            match app.modifier_at(i).before(&mut input) {
                Ok(()) => {
                    pl.step(true);
                    proof {
                        let prev = events;
                        events = events.push(true);
                        assert(events.drop_last() =~= prev);
                        assert(run(n, events) == pl.stage);
                    }
                },
                Err(e) => {
                    pl.step(false);
                    proof {
                        let prev = events;
                        events = events.push(false);
                        assert(events.drop_last() =~= prev);
                        assert(run(n, events) == pl.stage);
                        assert(run(n, events) is Failed);
                    }
                    return error_exit(e);
                },
            }
            i = i + 1;
        }
        proof {
            assert(action_of(run(n, events)) == Some(StageAction::RunHandler));
        }
        let handler = app.route_handler(m.route_id);
        let mut output = match handler.handle(&mut input) {
            Ok(o) => {
                pl.step(true);
                proof {
                    let prev = events;
                    events = events.push(true);
                    assert(events.drop_last() =~= prev);
                    assert(run(n, events) == pl.stage);
                }
                o
            },
            Err(e) => {
                pl.step(false);
                proof {
                    let prev = events;
                    events = events.push(false);
                    assert(events.drop_last() =~= prev);
                    assert(run(n, events) is Failed);
                }
                return error_exit(e);
            },
        };
        let mut j: usize = n;
        while j > 0
            invariant
                j <= n,
                pl.n_modifiers == n,
                pl.stage == (if j > 0 {
                    Stage::AfterHandle { current: (j - 1) as usize }
                } else {
                    Stage::Done
                }),
                pl.stage == run(n, events),
            decreases j,
        {
            j = j - 1;
            proof {
                assert(action_of(run(n, events)) == Some(StageAction::RunAfter(j)));
            }
            match app.modifier_at(j).after(&mut input, output) {
                Ok(o) => {
                    pl.step(true);
                    proof {
                        let prev = events;
                        events = events.push(true);
                        assert(events.drop_last() =~= prev);
                        assert(run(n, events) == pl.stage);
                    }
                    output = o;
                },
                Err(e) => {
                    pl.step(false);
                    proof {
                        let prev = events;
                        events = events.push(false);
                        assert(events.drop_last() =~= prev);
                        assert(run(n, events) is Failed);
                    }
                    return error_exit(e);
                },
            }
        }
        proof {
            assert(run(n, events) is Done);
        }
        Ok(finalize_response(output))
    }
}

} // verus!
