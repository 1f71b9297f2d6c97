//! A client runtime for the wrap packaging format: URIs name wrappers,
//! a configurable resolver tree maps a URI to a wrapper, a package that can
//! produce one, or another URI to resolve in turn, and the invoker runs a
//! named method of the resolved wrapper over byte arguments, threading an
//! environment and serving re-entrant sub-invocations.

pub mod client;
pub mod context;
pub mod error;
pub mod laws;
pub mod manifest;
pub mod package;
pub mod resolvers;
pub mod uri;
pub mod wrapper;
