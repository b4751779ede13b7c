//! Boundary layer for driving an asynchronous key-value store client from a
//! host runtime with its own memory manager.
//!
//! The crate models the three coupled problems at that boundary: ownership of
//! opaque handles that must be released exactly once, an asynchronous
//! completion protocol that delivers exactly one outcome per operation, and
//! lossless conversion of dynamically shaped response values into a flat,
//! boundary-safe tree of nodes.

pub mod response;
pub mod routing;
pub mod scan;
pub mod dispatch;
