//! Rate-limit decision core of an HTTP gateway: strategies that derive a
//! counter key for each request, limiters built from settings, the verdict
//! that a counter's value gives, and the per-request evaluation that checks
//! the identity limiters before the request limiters.
//!
//! `evaluation` is the decision as a state machine for callers whose counter
//! store is remote; `decision` runs it in one call against the in-memory
//! store of `store`.
pub mod counter_key;
pub mod decision;
pub mod evaluation;
pub mod limiter;
pub mod request;
pub mod settings;
pub mod store;
pub mod strategy;
