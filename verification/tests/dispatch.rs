//! End-to-end dispatch: routes, hooks, and the error exit.

use std::cell::RefCell;
use std::rc::Rc;

use tsukuyomi::captures::CaptureNames;
use tsukuyomi::config::{App, AppConfig};
use tsukuyomi::fallback;
use tsukuyomi::input::Params;
use tsukuyomi::recognizer::Recognizer;
use tsukuyomi::error::Error;
use tsukuyomi::handler::{Handler, Modifier};
use tsukuyomi::input::{Input, Request, Response};
use tsukuyomi::method::Method;

#[derive(Clone)]
enum PostsEndpoint {
    List,
    Add,
    Show,
}

impl Handler for PostsEndpoint {
    fn handle(&self, input: &mut Input) -> Result<Response, Error> {
        let body = match self {
            PostsEndpoint::List => "list".to_string(),
            PostsEndpoint::Add => "add".to_string(),
            PostsEndpoint::Show => {
                let id = input.params.name("id").expect("id captured").clone();
                format!("get({})", id)
            }
        };
        Ok(Response { status: 200, headers: Vec::new(), body })
    }
}

struct NoMod;

impl Modifier for NoMod {
    fn before(&self, _input: &mut Input) -> Result<(), Error> {
        Ok(())
    }

    fn after(&self, _input: &mut Input, output: Response) -> Result<Response, Error> {
        Ok(output)
    }
}

fn posts_app() -> App<PostsEndpoint, NoMod> {
    let mut cfg: AppConfig<PostsEndpoint, NoMod> = AppConfig::new();
    let root = cfg.root_scope();
    let posts = root.at(&mut cfg, "/posts").unwrap();
    cfg.route(posts, vec![Method::Get], PostsEndpoint::List).unwrap();
    cfg.route(posts, vec![Method::Post], PostsEndpoint::Add).unwrap();
    let show = root.at(&mut cfg, "/posts/:id").unwrap();
    cfg.route(show, vec![Method::Get], PostsEndpoint::Show).unwrap();
    App::build(cfg)
}

fn request(method: Method, path: &str) -> Request {
    Request { method, path: path.to_string(), headers: Vec::new(), body: None }
}

#[test]
fn three_routes_scenario() {
    let app = posts_app();
    let service = app.new_service();

    let list = service.dispatch_request(request(Method::Get, "/posts")).unwrap();
    assert_eq!(list.status, 200);
    assert_eq!(list.body, "list");

    let add = service.dispatch_request(request(Method::Post, "/posts")).unwrap();
    assert_eq!(add.body, "add");

    let show = service.dispatch_request(request(Method::Get, "/posts/42")).unwrap();
    assert_eq!(show.status, 200);
    assert_eq!(show.body, "get(42)");

    let missing = service.dispatch_request(request(Method::Get, "/missing")).unwrap();
    assert_eq!(missing.status, 404);

    let not_allowed = service.dispatch_request(request(Method::Delete, "/posts")).unwrap();
    assert_eq!(not_allowed.status, 405);
    assert_eq!(not_allowed.header("Allow").unwrap(), "GET, POST");
}

#[test]
fn fallback_options_synthesizes_allow_response() {
    let mut cfg: AppConfig<PostsEndpoint, NoMod> = AppConfig::new();
    cfg.fallback_options(true);
    let root = cfg.root_scope();
    let posts = root.at(&mut cfg, "/posts").unwrap();
    cfg.route(posts, vec![Method::Get], PostsEndpoint::List).unwrap();
    cfg.route(posts, vec![Method::Post], PostsEndpoint::Add).unwrap();
    let app = App::build(cfg);
    let service = app.new_service();

    let options = service.dispatch_request(request(Method::Options, "/posts")).unwrap();
    assert_eq!(options.status, 200);
    assert_eq!(options.header("Allow").unwrap(), "GET, POST");
    // The handler never ran: the body stays empty.
    assert_eq!(options.body, "");
}

#[test]
fn options_without_fallback_is_not_allowed() {
    let app = posts_app();
    let service = app.new_service();
    let options = service.dispatch_request(request(Method::Options, "/posts")).unwrap();
    assert_eq!(options.status, 405);
    assert_eq!(options.header("Allow").unwrap(), "GET, POST");
}

#[test]
fn head_falls_back_to_get_route() {
    let app = posts_app();
    let service = app.new_service();
    let head = service.dispatch_request(request(Method::Head, "/posts")).unwrap();
    assert_eq!(head.status, 200);
    assert_eq!(head.body, "list");
}

struct Recorder {
    log: Rc<RefCell<Vec<String>>>,
}

impl Handler for Recorder {
    fn handle(&self, _input: &mut Input) -> Result<Response, Error> {
        self.log.borrow_mut().push("handler".to_string());
        Ok(Response { status: 200, headers: Vec::new(), body: "done".to_string() })
    }
}

struct Hook {
    log: Rc<RefCell<Vec<String>>>,
    index: usize,
    fail_before: bool,
}

impl Modifier for Hook {
    fn before(&self, _input: &mut Input) -> Result<(), Error> {
        self.log.borrow_mut().push(format!("before{}", self.index));
        if self.fail_before {
            Err(Error::Http { status: 418, message: format!("hook{}", self.index) })
        } else {
            Ok(())
        }
    }

    fn after(&self, _input: &mut Input, output: Response) -> Result<Response, Error> {
        self.log.borrow_mut().push(format!("after{}", self.index));
        Ok(output)
    }
}

fn hooked_app(log: &Rc<RefCell<Vec<String>>>, fail_at: Option<usize>) -> App<Recorder, Hook> {
    let mut cfg: AppConfig<Recorder, Hook> = AppConfig::new();
    for index in 0..3 {
        cfg.modifier(Hook {
            log: Rc::clone(log),
            index,
            fail_before: fail_at == Some(index),
        });
    }
    let root = cfg.root_scope();
    let entry = root.at(&mut cfg, "/work").unwrap();
    cfg.route(entry, vec![Method::Get], Recorder { log: Rc::clone(log) }).unwrap();
    App::build(cfg)
}

#[test]
fn hooks_run_in_symmetric_order() {
    let log = Rc::new(RefCell::new(Vec::new()));
    let app = hooked_app(&log, None);
    let service = app.new_service();
    let response = service.dispatch_request(request(Method::Get, "/work")).unwrap();
    assert_eq!(response.status, 200);
    assert_eq!(
        log.borrow().as_slice(),
        &["before0", "before1", "before2", "handler", "after2", "after1", "after0"]
    );
}

#[test]
fn before_hook_failure_short_circuits() {
    let log = Rc::new(RefCell::new(Vec::new()));
    let app = hooked_app(&log, Some(1));
    let service = app.new_service();
    let response = service.dispatch_request(request(Method::Get, "/work")).unwrap();
    // The failing hook's error surfaces directly through the error exit:
    // no later before-hook, no handler, and no after-hook runs.
    assert_eq!(response.status, 418);
    assert_eq!(response.body, "hook1");
    assert_eq!(log.borrow().as_slice(), &["before0", "before1"]);
}

#[test]
fn critical_error_propagates() {
    struct Fatal;
    impl Handler for Fatal {
        fn handle(&self, _input: &mut Input) -> Result<Response, Error> {
            Err(Error::Critical { message: "broken".to_string() })
        }
    }
    struct Silent;
    impl Modifier for Silent {
        fn before(&self, _input: &mut Input) -> Result<(), Error> {
            Ok(())
        }
        fn after(&self, _input: &mut Input, output: Response) -> Result<Response, Error> {
            Ok(output)
        }
    }
    let mut cfg: AppConfig<Fatal, Silent> = AppConfig::new();
    let root = cfg.root_scope();
    let entry = root.at(&mut cfg, "/boom").unwrap();
    cfg.route(entry, vec![Method::Get], Fatal).unwrap();
    let app = App::build(cfg);
    let service = app.new_service();
    assert!(service.dispatch_request(request(Method::Get, "/boom")).is_err());
}

#[test]
fn content_length_is_attached_when_missing() {
    let app = posts_app();
    let service = app.new_service();
    let list = service.dispatch_request(request(Method::Get, "/posts")).unwrap();
    assert_eq!(list.header("Content-Length").unwrap(), "4");
}

#[test]
fn catch_all_dispatch_captures_remainder() {
    struct Echo;
    impl Handler for Echo {
        fn handle(&self, input: &mut Input) -> Result<Response, Error> {
            let rest = input.params.catch_all().expect("catch-all captured").clone();
            Ok(Response { status: 200, headers: Vec::new(), body: rest })
        }
    }
    let mut cfg: AppConfig<Echo, NoMod> = AppConfig::new();
    let root = cfg.root_scope();
    let entry = root.at(&mut cfg, "/static/*path").unwrap();
    cfg.route(entry, vec![Method::Get], Echo).unwrap();
    let app = App::build(cfg);
    let service = app.new_service();
    let hit = service.dispatch_request(request(Method::Get, "/static/css/site.css")).unwrap();
    assert_eq!(hit.body, "css/site.css");
}

#[test]
fn scope_fallback_and_default_route() {
    let mut cfg: AppConfig<PostsEndpoint, NoMod> = AppConfig::new();
    let root = cfg.root_scope();
    root.fallback(&mut cfg, PostsEndpoint::List);
    let entry = root.at(&mut cfg, "/anything").unwrap();
    cfg.default_route(entry, PostsEndpoint::Add).unwrap();
    let app = App::build(cfg);
    let service = app.new_service();
    // The default (any-method) route answers every method on the resource.
    let put = service.dispatch_request(request(Method::Put, "/anything")).unwrap();
    assert_eq!(put.body, "add");
}

#[test]
fn explicit_content_length_is_kept() {
    struct Fixed;
    impl Handler for Fixed {
        fn handle(&self, _input: &mut Input) -> Result<Response, Error> {
            Ok(Response {
                status: 200,
                headers: vec![("Content-Length".to_string(), "999".to_string())],
                body: "hi".to_string(),
            })
        }
    }
    let mut cfg: AppConfig<Fixed, NoMod> = AppConfig::new();
    let root = cfg.root_scope();
    let entry = root.at(&mut cfg, "/fixed").unwrap();
    cfg.route(entry, vec![Method::Get], Fixed).unwrap();
    let app = App::build(cfg);
    let service = app.new_service();
    let hit = service.dispatch_request(request(Method::Get, "/fixed")).unwrap();
    assert_eq!(hit.header("Content-Length").unwrap(), "999");
}

#[test]
fn unmatchable_paths_are_not_found() {
    let app = posts_app();
    let service = app.new_service();
    assert_eq!(service.dispatch_request(request(Method::Get, "")).unwrap().status, 404);
    assert_eq!(service.dispatch_request(request(Method::Get, "posts")).unwrap().status, 404);
    assert_eq!(service.dispatch_request(request(Method::Get, "/ポスト")).unwrap().status, 404);
}

#[test]
fn take_body_yields_the_body_once() {
    let mut input = Input {
        request: Request {
            method: Method::Post,
            path: "/posts".to_string(),
            headers: vec![("Content-Type".to_string(), "text/plain".to_string())],
            body: Some("payload".to_string()),
        },
        params: Params::new(CaptureNames::new(), Vec::new()),
        locals: Vec::new(),
    };
    assert_eq!(input.take_body().unwrap(), "payload");
    let second = input.take_body();
    assert_eq!(second.unwrap_err().status(), 500);
}

#[test]
fn fallback_default_answers_unrouted_requests() {
    // No resource at all: not found, no handler involved.
    let miss = fallback::default(None, Method::Get).unwrap_err();
    assert_eq!(miss.status(), 404);

    let mut rec = Recognizer::new();
    let entry = rec.insert("/posts", 0, vec![0]).unwrap();
    rec.add_route_at(entry, &vec![Method::Get, Method::Post], 0).unwrap();
    let resource = rec.resource(entry);

    // OPTIONS is answered from the method list alone.
    let options = fallback::default(Some(resource), Method::Options).unwrap();
    assert_eq!(options.status, 200);
    assert_eq!(options.header("Allow").unwrap(), "GET, POST");
    assert_eq!(options.body, "");

    // Every other unrouted method is not allowed.
    let not_allowed = fallback::default(Some(resource), Method::Delete).unwrap_err();
    assert_eq!(not_allowed.status(), 405);
}

#[test]
fn request_header_lookup() {
    let mut req = request(Method::Get, "/posts");
    req.headers.push(("Content-Type".to_string(), "application/json".to_string()));
    req.headers.push(("Accept".to_string(), "text/plain".to_string()));
    assert_eq!(req.header("Content-Type").unwrap(), "application/json");
    assert_eq!(req.header("Accept").unwrap(), "text/plain");
    assert!(req.header("Cookie").is_none());
}
