//! Assembling an application.
//!
//! Configuration accumulates scopes, resources, routes, and modifiers in
//! an `AppConfig`; `App::build` freezes the accumulated state into the
//! immutable application that every request dispatch reads.  All
//! structural violations — malformed patterns, conflicting patterns,
//! duplicate methods or default routes, capture-name collisions across
//! nested scopes — surface here, at build time.

use vstd::prelude::*;
use crate::method::Method;
use crate::recognizer::{BuildError, Config, Recognizer};
use crate::scope::Scopes;
use crate::uri::{join_ok, join_text, root_uri_v, spec_parse, Uri};

verus! {

/// The mutable configuration state an application is assembled in.
pub struct AppConfig<H, M> {
    recognizer: Recognizer,
    scopes: Scopes,
    routes: Vec<H>,
    modifiers: Vec<M>,
    config: Config,
}

impl<H, M> AppConfig<H, M> {
    /// The pattern index under construction.
    pub closed spec fn spec_recognizer(&self) -> Recognizer {
        self.recognizer
    }

    /// The scope tree under construction.
    pub closed spec fn spec_scopes(&self) -> Scopes {
        self.scopes
    }

    /// The handlers registered so far, by route id.
    pub closed spec fn spec_routes(&self) -> Seq<H> {
        self.routes@
    }

    /// The modifier chain registered so far, in registration order.
    pub closed spec fn spec_modifiers(&self) -> Seq<M> {
        self.modifiers@
    }

    /// The recognition switches.
    pub closed spec fn spec_config(&self) -> Config {
        self.config
    }

    /// Consistency: the index and the tree are consistent, and every
    /// route id named anywhere lies below the number of handlers.
    pub open spec fn wf(&self) -> bool {
        &&& self.spec_recognizer().wf()
        &&& self.spec_scopes().wf()
        &&& forall|i: int|
            0 <= i < self.spec_recognizer().spec_len() ==> (#[trigger] self.spec_recognizer()
                .spec_resources()[i]).routes_ok(self.spec_routes().len())
        &&& forall|i: int|
            0 <= i < self.spec_scopes().spec_len() ==> ((#[trigger] self.spec_scopes()
                .spec_nodes()[i]).default_route matches Some(id) ==> id < self.spec_routes().len())
        &&& forall|i: int|
            0 <= i < self.spec_recognizer().spec_len() ==> (#[trigger] self.spec_recognizer()
                .spec_resources()[i]).spec_scope() < self.spec_scopes().spec_len()
    }

    /// Whether two configuration states hold the same tables.
    pub open spec fn same_state(&self, other: &Self) -> bool {
        &&& self.spec_recognizer().spec_pats() == other.spec_recognizer().spec_pats()
        &&& self.spec_recognizer().spec_resources() == other.spec_recognizer().spec_resources()
        &&& self.spec_scopes().spec_nodes() == other.spec_scopes().spec_nodes()
        &&& self.spec_routes() == other.spec_routes()
        &&& self.spec_modifiers() == other.spec_modifiers()
        &&& self.spec_config() == other.spec_config()
    }

    /// A fresh configuration: one root scope, no resources, no routes,
    /// no modifiers, default switches.
    pub fn new() -> (r: Self)
        ensures
            r.wf(),
            r.spec_recognizer().spec_len() == 0,
            r.spec_scopes().spec_len() == 1,
            r.spec_routes().len() == 0,
            r.spec_modifiers().len() == 0,
            r.spec_scopes().spec_nodes()[0].prefix@ == root_uri_v(),
            r.spec_scopes().spec_nodes()[0].default_route is None,
            r.spec_config().fallback_head,
            !r.spec_config().fallback_options,
    {
        AppConfig {
            recognizer: Recognizer::new(),
            scopes: Scopes::new(Uri::root()),
            routes: Vec::new(),
            modifiers: Vec::new(),
            config: Config::default(),
        }
    }

    /// The handle of the root scope.
    pub fn root_scope(&self) -> (r: Scope)
        ensures
            r.id == 0,
    {
        Scope { id: 0 }
    }

    /// Switches the fallback from `HEAD` to the `GET` route on or off.
    /// On by default.
    pub fn fallback_head(&mut self, enabled: bool)
        requires
            old(self).wf(),
        ensures
            final(self).wf(),
            final(self).spec_config().fallback_head == enabled,
            final(self).spec_config().fallback_options == old(self).spec_config().fallback_options,
            final(self).spec_recognizer() == old(self).spec_recognizer(),
            final(self).spec_scopes() == old(self).spec_scopes(),
            final(self).spec_routes() == old(self).spec_routes(),
            final(self).spec_modifiers() == old(self).spec_modifiers(),
    {
        self.config.fallback_head = enabled;
    }

    /// Switches synthesized `OPTIONS` responses on or off.  Off by
    /// default.
    pub fn fallback_options(&mut self, enabled: bool)
        requires
            old(self).wf(),
        ensures
            final(self).wf(),
            final(self).spec_config().fallback_options == enabled,
            final(self).spec_config().fallback_head == old(self).spec_config().fallback_head,
            final(self).spec_recognizer() == old(self).spec_recognizer(),
            final(self).spec_scopes() == old(self).spec_scopes(),
            final(self).spec_routes() == old(self).spec_routes(),
            final(self).spec_modifiers() == old(self).spec_modifiers(),
    {
        self.config.fallback_options = enabled;
    }

    /// Appends a modifier to the application-wide chain.  Before-hooks
    /// run in this order, after-hooks in the reverse order.
    pub fn modifier(&mut self, modifier: M)
        requires
            old(self).wf(),
        ensures
            final(self).wf(),
            final(self).spec_modifiers().len() == old(self).spec_modifiers().len() + 1,
            forall|i: int|
                0 <= i < old(self).spec_modifiers().len() ==> final(self).spec_modifiers()[i]
                    == old(self).spec_modifiers()[i],
            final(self).spec_modifiers().last() == modifier,
            final(self).spec_recognizer() == old(self).spec_recognizer(),
            final(self).spec_scopes() == old(self).spec_scopes(),
            final(self).spec_routes() == old(self).spec_routes(),
            final(self).spec_config() == old(self).spec_config(),
    {
        self.modifiers.push(modifier);
    }

    /// Routes a handler under each listed method at a resource.  Fails
    /// when a listed method is already routed there; a failed call
    /// registers nothing.
    pub fn route(&mut self, entry_id: usize, methods: Vec<Method>, handler: H) -> (r: Result<
        (),
        BuildError,
    >)
        requires
            old(self).wf(),
            entry_id < old(self).spec_recognizer().spec_len(),
        ensures
            final(self).wf(),
            final(self).spec_recognizer().spec_pats() == old(self).spec_recognizer().spec_pats(),
            final(self).spec_scopes() == old(self).spec_scopes(),
            final(self).spec_modifiers() == old(self).spec_modifiers(),
            final(self).spec_config() == old(self).spec_config(),
            match r {
                Ok(()) => {
                    &&& forall|i: int|
                        0 <= i < methods@.len() ==> crate::recognizer::verb_lookup(
                            old(self).spec_recognizer().spec_resources()[entry_id as int]
                                .spec_verbs(),
                            #[trigger] methods@[i],
                        ) is None
                    &&& forall|i: int, j: int|
                        0 <= i < j < methods@.len() ==> methods@[i] != methods@[j]
                    &&& final(self).spec_recognizer().spec_resources()[entry_id as int]
                        .spec_verbs() == old(self).spec_recognizer()
                        .spec_resources()[entry_id as int].spec_verbs() + methods@.map_values(
                        |m: Method| (m, old(self).spec_routes().len() as usize),
                    )
                    &&& final(self).spec_routes() == old(self).spec_routes().push(handler)
                    &&& final(self).spec_recognizer().spec_resources().len() == old(self)
                        .spec_recognizer().spec_resources().len()
                    &&& forall|i: int|
                        0 <= i < old(self).spec_recognizer().spec_len() && i != entry_id
                            ==> final(self).spec_recognizer().spec_resources()[i] == old(self)
                            .spec_recognizer().spec_resources()[i]
                    &&& final(self).spec_recognizer().spec_resources()[entry_id as int].spec_uri()
                        == old(self).spec_recognizer().spec_resources()[entry_id as int].spec_uri()
                    &&& final(self).spec_recognizer().spec_resources()[entry_id as int]
                        .spec_scope() == old(self).spec_recognizer()
                        .spec_resources()[entry_id as int].spec_scope()
                    &&& final(self).spec_recognizer().spec_resources()[entry_id as int]
                        .spec_ancestors() == old(self).spec_recognizer()
                        .spec_resources()[entry_id as int].spec_ancestors()
                    &&& final(self).spec_recognizer().spec_resources()[entry_id as int]
                        .spec_default_route() == old(self).spec_recognizer()
                        .spec_resources()[entry_id as int].spec_default_route()
                },
                Err(BuildError::DuplicateMethod) => {
                    &&& final(self).same_state(old(self))
                    &&& (exists|i: int|
                        0 <= i < methods@.len() && crate::recognizer::verb_lookup(
                            old(self).spec_recognizer().spec_resources()[entry_id as int]
                                .spec_verbs(),
                            #[trigger] methods@[i],
                        ) is Some) || (exists|i: int, j: int|
                        0 <= i < j < methods@.len() && methods@[i] == methods@[j])
                },
                Err(_) => false,
            },
    {
        let route_id = self.routes.len();
        match self.recognizer.add_route_at(entry_id, &methods, route_id) {
            Ok(()) => {},
            Err(e) => {
                proof {
                    assert(self.same_state(old(self))) by {
                        assert(self.spec_recognizer().spec_resources()
                            =~= old(self).spec_recognizer().spec_resources());
                    }
                }
                return Err(e);
            },
        }
        self.routes.push(handler);
        proof {
            let n = self.spec_routes().len();
            assert forall|i: int|
                0 <= i < self.spec_recognizer().spec_len() implies (#[trigger] self
                .spec_recognizer().spec_resources()[i]).routes_ok(n) by {
                let res = self.spec_recognizer().spec_resources()[i];
                let olds = old(self).spec_recognizer().spec_resources()[i];
                assert(olds.routes_ok((n - 1) as nat));
                if i == entry_id {
                    assert forall|k: int|
                        0 <= k < res.spec_verbs().len() implies (#[trigger] res.spec_verbs()[k]).1
                        < n by {
                        if k < olds.spec_verbs().len() {
                            assert(res.spec_verbs()[k] == olds.spec_verbs()[k]);
                        } else {
                            assert(res.spec_verbs()[k] == methods@.map_values(
                                |m: Method| (m, route_id),
                            )[k - olds.spec_verbs().len()]);
                        }
                    }
                }
            }
        }
        Ok(())
    }

    /// Registers the default (any-method) route of a resource.  Fails
    /// when the resource already has one.
    pub fn default_route(&mut self, entry_id: usize, handler: H) -> (r: Result<(), BuildError>)
        requires
            old(self).wf(),
            entry_id < old(self).spec_recognizer().spec_len(),
        ensures
            final(self).wf(),
            final(self).spec_recognizer().spec_pats() == old(self).spec_recognizer().spec_pats(),
            final(self).spec_scopes() == old(self).spec_scopes(),
            final(self).spec_modifiers() == old(self).spec_modifiers(),
            final(self).spec_config() == old(self).spec_config(),
            match r {
                Ok(()) => {
                    &&& old(self).spec_recognizer().spec_resources()[entry_id as int]
                        .spec_default_route() is None
                    &&& final(self).spec_recognizer().spec_resources()[entry_id as int]
                        .spec_default_route() == Some(old(self).spec_routes().len() as usize)
                    &&& final(self).spec_routes() == old(self).spec_routes().push(handler)
                    &&& final(self).spec_recognizer().spec_resources().len() == old(self)
                        .spec_recognizer().spec_resources().len()
                    &&& forall|i: int|
                        0 <= i < old(self).spec_recognizer().spec_len() && i != entry_id
                            ==> final(self).spec_recognizer().spec_resources()[i] == old(self)
                            .spec_recognizer().spec_resources()[i]
                    &&& final(self).spec_recognizer().spec_resources()[entry_id as int].spec_uri()
                        == old(self).spec_recognizer().spec_resources()[entry_id as int].spec_uri()
                    &&& final(self).spec_recognizer().spec_resources()[entry_id as int]
                        .spec_scope() == old(self).spec_recognizer()
                        .spec_resources()[entry_id as int].spec_scope()
                    &&& final(self).spec_recognizer().spec_resources()[entry_id as int]
                        .spec_ancestors() == old(self).spec_recognizer()
                        .spec_resources()[entry_id as int].spec_ancestors()
                    &&& final(self).spec_recognizer().spec_resources()[entry_id as int]
                        .spec_verbs() == old(self).spec_recognizer()
                        .spec_resources()[entry_id as int].spec_verbs()
                },
                Err(BuildError::DuplicateDefaultRoute) => {
                    &&& final(self).same_state(old(self))
                    &&& old(self).spec_recognizer().spec_resources()[entry_id as int]
                        .spec_default_route() is Some
                },
                Err(_) => false,
            },
    {
        let route_id = self.routes.len();
        match self.recognizer.set_default_route_at(entry_id, route_id) {
            Ok(()) => {},
            Err(e) => {
                proof {
                    assert(self.same_state(old(self))) by {
                        assert(self.spec_recognizer().spec_resources()
                            =~= old(self).spec_recognizer().spec_resources());
                    }
                }
                return Err(e);
            },
        }
        self.routes.push(handler);
        proof {
            let n = self.spec_routes().len();
            assert forall|i: int|
                0 <= i < self.spec_recognizer().spec_len() implies (#[trigger] self
                .spec_recognizer().spec_resources()[i]).routes_ok(n) by {
                let olds = old(self).spec_recognizer().spec_resources()[i];
                assert(olds.routes_ok((n - 1) as nat));
                if i == entry_id {
                    assert(self.spec_recognizer().spec_resources()[i].spec_verbs()
                        == olds.spec_verbs());
                }
            }
        }
        Ok(())
    }
}

/// A handle to one scope of the tree under configuration.
pub struct Scope {
    /// The scope's index in the tree.
    pub id: usize,
}

impl Scope {
    /// Creates a child scope under this one.  The child's prefix is this
    /// scope's prefix joined with the declared text; joining fails on
    /// malformed text, on a capture-name collision across the scopes, or
    /// when this scope's prefix already holds a catch-all.
    pub fn mount<H, M>(&self, cfg: &mut AppConfig<H, M>, prefix: &str) -> (r: Result<
        Scope,
        BuildError,
    >)
        requires
            old(cfg).wf(),
            self.id < old(cfg).spec_scopes().spec_len(),
        ensures
            final(cfg).wf(),
            final(cfg).spec_recognizer() == old(cfg).spec_recognizer(),
            final(cfg).spec_routes() == old(cfg).spec_routes(),
            final(cfg).spec_modifiers() == old(cfg).spec_modifiers(),
            final(cfg).spec_config() == old(cfg).spec_config(),
            match r {
                Ok(s) => {
                    &&& spec_parse(prefix@) is Some
                    &&& join_ok(
                        old(cfg).spec_scopes().spec_nodes()[self.id as int].prefix@,
                        spec_parse(prefix@).unwrap(),
                    )
                    &&& s.id == old(cfg).spec_scopes().spec_len()
                    &&& final(cfg).spec_scopes().spec_len() == old(cfg).spec_scopes().spec_len()
                        + 1
                    &&& forall|i: int|
                        0 <= i < old(cfg).spec_scopes().spec_len() ==> final(cfg).spec_scopes()
                            .spec_nodes()[i] == old(cfg).spec_scopes().spec_nodes()[i]
                    &&& final(cfg).spec_scopes().spec_nodes()[s.id as int].parent == Some(self.id)
                    &&& final(cfg).spec_scopes().spec_nodes()[s.id as int].prefix@.text
                        == join_text(
                        old(cfg).spec_scopes().spec_nodes()[self.id as int].prefix@.text,
                        prefix@,
                    )
                    &&& final(cfg).spec_scopes().spec_nodes()[s.id as int].prefix@.names == old(
                        cfg,
                    ).spec_scopes().spec_nodes()[self.id as int].prefix@.names + spec_parse(
                        prefix@,
                    ).unwrap().names
                    &&& final(cfg).spec_scopes().spec_nodes()[s.id as int].ancestors@ == old(
                        cfg,
                    ).spec_scopes().spec_nodes()[self.id as int].ancestors@.push(self.id)
                },
                Err(BuildError::Uri(_)) => {
                    &&& final(cfg).same_state(old(cfg))
                    &&& (spec_parse(prefix@) is None || !join_ok(
                        old(cfg).spec_scopes().spec_nodes()[self.id as int].prefix@,
                        spec_parse(prefix@).unwrap(),
                    ))
                },
                Err(_) => false,
            },
    {
        let parsed = match Uri::parse(prefix) {
            Ok(u) => u,
            Err(e) => {
                return Err(BuildError::Uri(e));
            },
        };
        let parent_prefix = &cfg.scopes.node(self.id).prefix;
        proof {
            assert(parent_prefix.wf()) by {
                assert(cfg.spec_scopes().spec_nodes()[self.id as int].prefix.wf());
            }
        }
        let joined = match parent_prefix.join(&parsed) {
            Ok(u) => u,
            Err(e) => {
                proof {
                    let av = parent_prefix@;
                    let bv = parsed@;
                    parent_prefix.lemma_wf();
                    parsed.lemma_wf();
                    if e == crate::uri::UriError::WildcardAlreadySet {
                        assert(!parsed.spec_is_root());
                        assert(bv.text != seq!['/']);
                        assert(!join_ok(av, bv));
                    } else {
                        assert(e == crate::uri::UriError::DuplicateParameterName);
                        let j = choose|j: int|
                            0 <= j < bv.names.len() && av.names.contains(#[trigger] bv.names[j]);
                        let i = choose|i: int|
                            0 <= i < av.names.len() && av.names[i] == bv.names[j];
                        assert(!join_ok(av, bv));
                    }
                }
                return Err(BuildError::Uri(e));
            },
        };
        proof {
            assert(parsed@ == spec_parse(prefix@).unwrap());
            let av = parent_prefix@;
            let bv = parsed@;
            parent_prefix.lemma_wf();
            parsed.lemma_wf();
            assert(join_ok(av, bv)) by {
                if av.has_wildcard {
                    assert(parsed.spec_is_root());
                    assert(bv.text == seq!['/']);
                }
            }
            assert(spec_parse(av.text) == Some(av));
            crate::uri::lemma_join_reparse(av, bv);
            assert(spec_parse(joined@.text).unwrap() =~= joined@);
        }
        let id = cfg.scopes.add_node(self.id, joined);
        proof {
            assert forall|i: int|
                0 <= i < cfg.spec_scopes().spec_len() implies ((#[trigger] cfg.spec_scopes()
                .spec_nodes()[i]).default_route matches Some(rid) ==> rid < cfg.spec_routes()
                .len()) by {
                if i < old(cfg).spec_scopes().spec_len() {
                    assert(cfg.spec_scopes().spec_nodes()[i] == old(cfg).spec_scopes()
                        .spec_nodes()[i]);
                }
            }
        }
        Ok(Scope { id })
    }

    /// Appends a modifier to the application-wide chain and returns this
    /// scope's handle again for further configuration.
    pub fn with<H, M>(&self, cfg: &mut AppConfig<H, M>, modifier: M) -> (r: Scope)
        requires
            old(cfg).wf(),
        ensures
            final(cfg).wf(),
            r.id == self.id,
            final(cfg).spec_modifiers().len() == old(cfg).spec_modifiers().len() + 1,
            forall|i: int|
                0 <= i < old(cfg).spec_modifiers().len() ==> final(cfg).spec_modifiers()[i] == old(
                    cfg,
                ).spec_modifiers()[i],
            final(cfg).spec_modifiers().last() == modifier,
            final(cfg).spec_recognizer() == old(cfg).spec_recognizer(),
            final(cfg).spec_scopes() == old(cfg).spec_scopes(),
            final(cfg).spec_routes() == old(cfg).spec_routes(),
            final(cfg).spec_config() == old(cfg).spec_config(),
    {
        cfg.modifier(modifier);
        Scope { id: self.id }
    }

    /// Finishes configuration through this handle, yielding the scope's
    /// index.
    pub fn done(self) -> (r: usize)
        ensures
            r == self.id,
    {
        self.id
    }

    /// Creates a resource at this scope for the declared path, joined
    /// onto the scope's prefix, and returns its entry.  Fails on
    /// malformed text, a capture-name collision with the prefix, or a
    /// pattern that cannot be told apart from a registered one.
    pub fn at<H, M>(&self, cfg: &mut AppConfig<H, M>, path: &str) -> (r: Result<usize, BuildError>)
        requires
            old(cfg).wf(),
            self.id < old(cfg).spec_scopes().spec_len(),
        ensures
            final(cfg).wf(),
            final(cfg).spec_scopes() == old(cfg).spec_scopes(),
            final(cfg).spec_routes() == old(cfg).spec_routes(),
            final(cfg).spec_modifiers() == old(cfg).spec_modifiers(),
            final(cfg).spec_config() == old(cfg).spec_config(),
            match r {
                Ok(entry_id) => {
                    &&& spec_parse(path@) is Some
                    &&& join_ok(
                        old(cfg).spec_scopes().spec_nodes()[self.id as int].prefix@,
                        spec_parse(path@).unwrap(),
                    )
                    &&& entry_id == old(cfg).spec_recognizer().spec_len()
                    &&& final(cfg).spec_recognizer().spec_len() == old(cfg).spec_recognizer()
                        .spec_len() + 1
                    &&& final(cfg).spec_recognizer().spec_resources()[entry_id as int].spec_uri()@
                        .text == join_text(
                        old(cfg).spec_scopes().spec_nodes()[self.id as int].prefix@.text,
                        path@,
                    )
                    &&& final(cfg).spec_recognizer().spec_resources()[entry_id as int].spec_uri()@
                        .names == old(cfg).spec_scopes().spec_nodes()[self.id as int].prefix@.names
                        + spec_parse(path@).unwrap().names
                    &&& final(cfg).spec_recognizer().spec_resources()[entry_id as int].spec_uri()@
                        .has_wildcard == (old(cfg).spec_scopes().spec_nodes()[self.id as int]
                        .prefix@.has_wildcard || spec_parse(path@).unwrap().has_wildcard)
                    &&& final(cfg).spec_recognizer().spec_resources()[entry_id as int]
                        .spec_scope() == self.id
                    &&& final(cfg).spec_recognizer().spec_resources()[entry_id as int]
                        .spec_ancestors() == old(cfg).spec_scopes().spec_nodes()[self.id as int]
                        .ancestors@.push(self.id)
                    &&& final(cfg).spec_recognizer().spec_resources()[entry_id as int]
                        .spec_verbs() == Seq::<(Method, usize)>::empty()
                    &&& final(cfg).spec_recognizer().spec_resources()[entry_id as int]
                        .spec_default_route() is None
                    &&& forall|i: int|
                        0 <= i < old(cfg).spec_recognizer().spec_len() ==> final(cfg)
                            .spec_recognizer().spec_resources()[i] == old(cfg).spec_recognizer()
                            .spec_resources()[i]
                },
                Err(BuildError::Uri(_)) => {
                    &&& final(cfg).same_state(old(cfg))
                    &&& (spec_parse(path@) is None || !join_ok(
                        old(cfg).spec_scopes().spec_nodes()[self.id as int].prefix@,
                        spec_parse(path@).unwrap(),
                    ))
                },
                Err(BuildError::ConflictingPattern) => {
                    &&& final(cfg).same_state(old(cfg))
                    &&& exists|j: int|
                        0 <= j < old(cfg).spec_recognizer().spec_len() && old(cfg)
                            .spec_recognizer().spec_pats()[j] == crate::recognizer::pat_segs_of(
                            join_text(
                                old(cfg).spec_scopes().spec_nodes()[self.id as int].prefix@.text,
                                path@,
                            ),
                        )
                },
                Err(_) => false,
            },
    {
        let parsed = match Uri::parse(path) {
            Ok(u) => u,
            Err(e) => {
                return Err(BuildError::Uri(e));
            },
        };
        let joined = {
            let parent_prefix = &cfg.scopes.node(self.id).prefix;
            proof {
                assert(parent_prefix.wf()) by {
                    assert(cfg.spec_scopes().spec_nodes()[self.id as int].prefix.wf());
                }
            }
            match parent_prefix.join(&parsed) {
                Ok(u) => u,
                Err(e) => {
                    proof {
                        let av = parent_prefix@;
                        let bv = parsed@;
                        parent_prefix.lemma_wf();
                        parsed.lemma_wf();
                        if e == crate::uri::UriError::WildcardAlreadySet {
                            assert(!parsed.spec_is_root());
                            assert(bv.text != seq!['/']);
                            assert(!join_ok(av, bv));
                        } else {
                            assert(e == crate::uri::UriError::DuplicateParameterName);
                            let j = choose|j: int|
                                0 <= j < bv.names.len() && av.names.contains(
                                    #[trigger] bv.names[j],
                                );
                            let i = choose|i: int|
                                0 <= i < av.names.len() && av.names[i] == bv.names[j];
                            assert(!join_ok(av, bv));
                        }
                    }
                    return Err(BuildError::Uri(e));
                },
            }
        };
        proof {
            let av = cfg.spec_scopes().spec_nodes()[self.id as int].prefix@;
            let bv = parsed@;
            let parent = cfg.spec_scopes().spec_nodes()[self.id as int].prefix;
            parent.lemma_wf();
            parsed.lemma_wf();
            assert(join_ok(av, bv)) by {
                if av.has_wildcard {
                    assert(parsed.spec_is_root());
                    assert(bv.text == seq!['/']);
                }
            }
            assert(spec_parse(av.text) == Some(av));
            crate::uri::lemma_join_reparse(av, bv);
            assert(spec_parse(joined@.text).unwrap() =~= joined@);
        }
        let node = cfg.scopes.node(self.id);
        let mut ancestors: Vec<usize> = Vec::new();
        let alen = node.ancestors.len();
        let mut i: usize = 0;
        while i < alen
            invariant
                alen == node.ancestors@.len(),
                node == cfg.spec_scopes().spec_nodes()[self.id as int],
                self.id < cfg.spec_scopes().spec_len(),
                i <= alen,
                ancestors@ == node.ancestors@.take(i as int),
            decreases alen - i,
        {
            ancestors.push(node.ancestors[i]);
            proof {
                assert(ancestors@ =~= node.ancestors@.take(i + 1));
            }
            i = i + 1;
        }
        proof {
            assert(node.ancestors@.take(alen as int) =~= node.ancestors@);
        }
        ancestors.push(self.id);
        let entry = match cfg.recognizer.insert(joined.as_str(), self.id, ancestors) {
            Ok(entry) => entry,
            Err(e) => {
                proof {
                    assert(cfg.same_state(old(cfg))) by {
                        assert(cfg.spec_recognizer().spec_pats() =~= old(cfg).spec_recognizer()
                            .spec_pats());
                        assert(cfg.spec_recognizer().spec_resources() =~= old(cfg)
                            .spec_recognizer().spec_resources());
                    }
                    if e is Uri {
                        assert(false);
                    }
                }
                return Err(e);
            },
        };
        proof {
            assert forall|i: int|
                0 <= i < cfg.spec_recognizer().spec_len() implies (#[trigger] cfg.spec_recognizer()
                .spec_resources()[i]).routes_ok(cfg.spec_routes().len()) by {
                if i < old(cfg).spec_recognizer().spec_len() {
                    assert(cfg.spec_recognizer().spec_resources()[i] == old(cfg).spec_recognizer()
                        .spec_resources()[i]);
                }
            }
            assert forall|i: int|
                0 <= i < cfg.spec_recognizer().spec_len() implies (#[trigger] cfg.spec_recognizer()
                .spec_resources()[i]).spec_scope() < cfg.spec_scopes().spec_len() by {
                if i < old(cfg).spec_recognizer().spec_len() {
                    assert(cfg.spec_recognizer().spec_resources()[i] == old(cfg).spec_recognizer()
                        .spec_resources()[i]);
                }
            }
        }
        Ok(entry)
    }

    /// Registers the scope-level fallback handler of this scope.
    pub fn fallback<H, M>(&self, cfg: &mut AppConfig<H, M>, handler: H)
        requires
            old(cfg).wf(),
            self.id < old(cfg).spec_scopes().spec_len(),
        ensures
            final(cfg).wf(),
            final(cfg).spec_scopes().spec_nodes()[self.id as int].default_route == Some(
                old(cfg).spec_routes().len() as usize,
            ),
            final(cfg).spec_routes() == old(cfg).spec_routes().push(handler),
            final(cfg).spec_recognizer() == old(cfg).spec_recognizer(),
            final(cfg).spec_modifiers() == old(cfg).spec_modifiers(),
            final(cfg).spec_config() == old(cfg).spec_config(),
    {
        let route_id = cfg.routes.len();
        cfg.scopes.set_default_route(self.id, route_id);
        cfg.routes.push(handler);
        proof {
            let n = cfg.spec_routes().len();
            assert forall|i: int|
                0 <= i < cfg.spec_recognizer().spec_len() implies (#[trigger] cfg.spec_recognizer()
                .spec_resources()[i]).routes_ok(n) by {
                assert(old(cfg).spec_recognizer().spec_resources()[i].routes_ok((n - 1) as nat));
            }
            assert forall|i: int|
                0 <= i < cfg.spec_scopes().spec_len() implies ((#[trigger] cfg.spec_scopes()
                .spec_nodes()[i]).default_route matches Some(rid) ==> rid < n) by {
                if i != self.id {
                    assert(cfg.spec_scopes().spec_nodes()[i] == old(cfg).spec_scopes()
                        .spec_nodes()[i]);
                }
            }
        }
    }
}

/// The immutable, assembled application: the recognizer, the scope tree,
/// the endpoint table, the handlers, and the modifier chain, shared
/// read-only by every concurrent request dispatch.
pub struct App<H, M> {
    recognizer: Recognizer,
    scopes: Scopes,
    routes: Vec<H>,
    modifiers: Vec<M>,
    config: Config,
}

impl<H, M> App<H, M> {
    /// The frozen pattern index.
    pub closed spec fn spec_recognizer(&self) -> Recognizer {
        self.recognizer
    }

    /// The frozen scope tree.
    pub closed spec fn spec_scopes(&self) -> Scopes {
        self.scopes
    }

    /// The handlers, by route id.
    pub closed spec fn spec_routes(&self) -> Seq<H> {
        self.routes@
    }

    /// The modifier chain, in registration order.
    pub closed spec fn spec_modifiers(&self) -> Seq<M> {
        self.modifiers@
    }

    /// The recognition switches.
    pub closed spec fn spec_config(&self) -> Config {
        self.config
    }

    /// Same consistency as the configuration it was built from.
    pub open spec fn wf(&self) -> bool {
        &&& self.spec_recognizer().wf()
        &&& self.spec_scopes().wf()
        &&& forall|i: int|
            0 <= i < self.spec_recognizer().spec_len() ==> (#[trigger] self.spec_recognizer()
                .spec_resources()[i]).routes_ok(self.spec_routes().len())
        &&& forall|i: int|
            0 <= i < self.spec_scopes().spec_len() ==> ((#[trigger] self.spec_scopes()
                .spec_nodes()[i]).default_route matches Some(id) ==> id < self.spec_routes().len())
    }

    /// Atomically freezes a configuration into the immutable
    /// application; nothing can be registered afterwards, which is what
    /// lets concurrent dispatches read it without locks.
    pub fn build(config: AppConfig<H, M>) -> (r: Self)
        requires
            config.wf(),
        ensures
            r.wf(),
            r.spec_recognizer() == config.spec_recognizer(),
            r.spec_scopes() == config.spec_scopes(),
            r.spec_routes() == config.spec_routes(),
            r.spec_modifiers() == config.spec_modifiers(),
            r.spec_config() == config.spec_config(),
    {
        let AppConfig { recognizer, scopes, routes, modifiers, config } = config;
        App { recognizer, scopes, routes, modifiers, config }
    }

    /// The recognizer, for direct queries.
    pub fn recognizer(&self) -> (r: &Recognizer)
        ensures
            *r == self.spec_recognizer(),
    {
        &self.recognizer
    }

    /// The number of modifiers in the chain.
    pub fn modifier_count(&self) -> (r: usize)
        ensures
            r == self.spec_modifiers().len(),
    {
        self.modifiers.len()
    }

    /// The modifier at a chain position.
    pub fn modifier_at(&self, i: usize) -> (r: &M)
        requires
            i < self.spec_modifiers().len(),
        ensures
            *r == self.spec_modifiers()[i as int],
    {
        &self.modifiers[i]
    }

    /// The handler of a route.
    pub fn route_handler(&self, route_id: usize) -> (r: &H)
        requires
            route_id < self.spec_routes().len(),
        ensures
            *r == self.spec_routes()[route_id as int],
    {
        &self.routes[route_id]
    }

    /// The recognition switches.
    pub fn config(&self) -> (r: &Config)
        ensures
            *r == self.spec_config(),
    {
        &self.config
    }

    /// The scope tree, for ancestor-chain queries.
    pub fn scopes(&self) -> (r: &Scopes)
        ensures
            *r == self.spec_scopes(),
    {
        &self.scopes
    }
}

} // verus!
