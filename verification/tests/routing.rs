//! Recognition, scopes, and build-time errors.

use tsukuyomi::config::{App, AppConfig};
use tsukuyomi::error::Error;
use tsukuyomi::handler::Handler;
use tsukuyomi::handler::Modifier;
use tsukuyomi::input::{Input, Response};
use tsukuyomi::method::Method;
use tsukuyomi::recognizer::{BuildError, Config, RecognizeErrorKind, Recognizer};

struct Tag(&'static str);

impl Handler for Tag {
    fn handle(&self, _input: &mut Input) -> Result<Response, Error> {
        Ok(Response { status: 200, headers: Vec::new(), body: self.0.to_string() })
    }
}

struct NoMod;

impl Modifier for NoMod {
    fn before(&self, _input: &mut Input) -> Result<(), Error> {
        Ok(())
    }

    fn after(&self, _input: &mut Input, output: Response) -> Result<Response, Error> {
        Ok(output)
    }
}

#[test]
fn recognizer_insert_and_recognize_named_param() {
    let mut rec = Recognizer::new();
    let entry = rec.insert("/posts/:id", 0, vec![0]).unwrap();
    rec.add_route_at(entry, &vec![Method::Get], 7).unwrap();
    let config = Config::default();
    let m = rec.recognize("/posts/42", Method::Get, &config).unwrap();
    assert_eq!(m.entry_id, entry);
    assert_eq!(m.route_id, 7);
    assert_eq!(m.captures.len(), 1);
    assert_eq!(m.captures[0], "42");
}

#[test]
fn recognizer_insert_and_recognize_catch_all() {
    let mut rec = Recognizer::new();
    let entry = rec.insert("/static/*path", 0, vec![0]).unwrap();
    rec.add_route_at(entry, &vec![Method::Get], 3).unwrap();
    let config = Config::default();
    let m = rec.recognize("/static/css/site.css", Method::Get, &config).unwrap();
    assert_eq!(m.entry_id, entry);
    assert_eq!(m.route_id, 3);
    assert_eq!(m.captures.len(), 1);
    assert_eq!(m.captures[0], "css/site.css");
}

#[test]
fn recognizer_prefers_static_over_param_over_catch_all() {
    let mut rec = Recognizer::new();
    let wild = rec.insert("/posts/*rest", 0, vec![0]).unwrap();
    let param = rec.insert("/posts/:id", 0, vec![0]).unwrap();
    let fixed = rec.insert("/posts/new", 0, vec![0]).unwrap();
    rec.add_route_at(wild, &vec![Method::Get], 0).unwrap();
    rec.add_route_at(param, &vec![Method::Get], 1).unwrap();
    rec.add_route_at(fixed, &vec![Method::Get], 2).unwrap();
    let config = Config::default();
    assert_eq!(rec.recognize("/posts/new", Method::Get, &config).unwrap().entry_id, fixed);
    assert_eq!(rec.recognize("/posts/17", Method::Get, &config).unwrap().entry_id, param);
    assert_eq!(rec.recognize("/posts/a/b", Method::Get, &config).unwrap().entry_id, wild);
}

#[test]
fn recognizer_rejects_conflicting_pattern() {
    let mut rec = Recognizer::new();
    rec.insert("/posts/:id", 0, vec![0]).unwrap();
    assert!(matches!(
        rec.insert("/posts/:name", 0, vec![0]),
        Err(BuildError::ConflictingPattern)
    ));
    assert!(matches!(rec.insert("/bad//path", 0, vec![0]), Err(BuildError::Uri(_))));
}

#[test]
fn recognizer_head_falls_back_to_get() {
    let mut rec = Recognizer::new();
    let entry = rec.insert("/posts", 0, vec![0]).unwrap();
    rec.add_route_at(entry, &vec![Method::Get], 4).unwrap();
    let mut config = Config::default();
    let m = rec.recognize("/posts", Method::Head, &config).unwrap();
    assert_eq!(m.route_id, 4);
    config.fallback_head = false;
    assert!(matches!(
        rec.recognize("/posts", Method::Head, &config),
        Err(RecognizeErrorKind::MethodNotAllowed { .. })
    ));
}

#[test]
fn duplicate_method_fails_at_build_time() {
    let mut cfg: AppConfig<Tag, NoMod> = AppConfig::new();
    let root = cfg.root_scope();
    let entry = root.at(&mut cfg, "/posts").unwrap();
    cfg.route(entry, vec![Method::Get], Tag("first")).unwrap();
    assert!(matches!(
        cfg.route(entry, vec![Method::Get], Tag("second")),
        Err(BuildError::DuplicateMethod)
    ));
    assert!(matches!(
        cfg.route(entry, vec![Method::Put, Method::Put], Tag("third")),
        Err(BuildError::DuplicateMethod)
    ));
}

#[test]
fn duplicate_default_route_fails_at_build_time() {
    let mut cfg: AppConfig<Tag, NoMod> = AppConfig::new();
    let root = cfg.root_scope();
    let entry = root.at(&mut cfg, "/posts").unwrap();
    cfg.default_route(entry, Tag("first")).unwrap();
    assert!(matches!(
        cfg.default_route(entry, Tag("second")),
        Err(BuildError::DuplicateDefaultRoute)
    ));
}

#[test]
fn nested_scopes_compose_prefixes_and_ancestors() {
    let mut cfg: AppConfig<Tag, NoMod> = AppConfig::new();
    let root = cfg.root_scope();
    let a = root.mount(&mut cfg, "/admin").unwrap();
    let b = a.mount(&mut cfg, "/users").unwrap();
    let entry = b.at(&mut cfg, "/settings").unwrap();
    let app = App::build(cfg);
    let resource = app.recognizer().resource(entry);
    assert_eq!(resource.uri().as_str(), "/admin/users/settings");
    assert_eq!(resource.scope(), b.id);
    assert_eq!(resource.ancestors().as_slice(), &[0, a.id, b.id]);
    let node = app.scopes().node(b.id);
    assert_eq!(node.parent, Some(a.id));
    assert_eq!(node.ancestors.as_slice(), &[0, a.id]);
    assert_eq!(node.prefix.as_str(), "/admin/users");
}

#[test]
fn mount_deduplicates_boundary_slash() {
    let mut cfg: AppConfig<Tag, NoMod> = AppConfig::new();
    let root = cfg.root_scope();
    let a = root.mount(&mut cfg, "/api/").unwrap();
    let entry = a.at(&mut cfg, "/v1").unwrap();
    let app = App::build(cfg);
    assert_eq!(app.recognizer().resource(entry).uri().as_str(), "/api/v1");
}

#[test]
fn mount_rejects_capture_collision_across_scopes() {
    let mut cfg: AppConfig<Tag, NoMod> = AppConfig::new();
    let root = cfg.root_scope();
    let a = root.mount(&mut cfg, "/users/:id").unwrap();
    assert!(matches!(a.at(&mut cfg, "/posts/:id"), Err(BuildError::Uri(_))));
    assert!(a.at(&mut cfg, "/posts/:post_id").is_ok());
}

#[test]
fn scope_with_and_done() {
    let mut cfg: AppConfig<Tag, NoMod> = AppConfig::new();
    let root = cfg.root_scope();
    let same = root.with(&mut cfg, NoMod);
    assert_eq!(same.done(), 0);
    let app = App::build(cfg);
    assert_eq!(app.modifier_count(), 1);
}

#[test]
fn allow_value_lists_methods_in_registration_order() {
    let mut rec = Recognizer::new();
    let entry = rec.insert("/posts", 0, vec![0]).unwrap();
    rec.add_route_at(entry, &vec![Method::Get], 0).unwrap();
    rec.add_route_at(entry, &vec![Method::Post, Method::Delete], 1).unwrap();
    assert_eq!(rec.resource(entry).allow_value(), "GET, POST, DELETE");
}
