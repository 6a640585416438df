//! Lifecycle engine for a Docker-backed test harness.
//!
//! A test run carries a batch of container specifications through the
//! phases Bootstrapping, Fueling, Igniting, Orbiting and Debris. This
//! crate holds the verified core of that engine: handle bookkeeping,
//! final-name and volume-name rewriting, environment injection, the
//! strict/relaxed start discipline, and the teardown policy. The
//! asynchronous Docker daemon calls themselves live outside the
//! library and feed their outcomes into these functions as plain
//! values.

use vstd::prelude::*;

pub mod composition;
pub mod container;
pub mod dockertest;
pub mod engine;
pub mod env;
pub mod error;
pub mod text;
pub mod inspect;
pub mod keeper;
pub mod naming;
pub mod orbit;
pub mod prune;
pub mod startup;

verus! {

/// The start discipline of a single container within the batch.
#[derive(Clone, Copy, Debug, PartialEq, Eq, Structural)]
pub enum StartPolicy {
    /// Started one by one in declaration order; the first failure aborts.
    Strict,
    /// Started concurrently; failures are collected, not fatal to peers.
    Relaxed,
}

} // verus!
