//! Request-routing and dispatch core of an HTTP server runtime.
//!
//! The crate provides a path recognizer that maps declared URI patterns
//! (static segments, named parameters, and a trailing catch-all) to
//! endpoints, a scope tree for nested mount points, an endpoint table of
//! method-tagged routes, a modifier chain of before/after hooks, and a
//! dispatch pipeline that sequences recognition, hooks, and the handler.

use vstd::prelude::*;

pub mod body;
pub mod captures;
pub mod config;
pub mod error;
pub mod fallback;
pub mod handler;
pub mod input;
pub mod method;
pub mod path;
pub mod pipeline;
pub mod recognizer;
pub mod scope;
pub mod segments;
pub mod service;
pub mod uri;
