//! Reactivity runtime for `dynatos`: the bookkeeping behind signals, effects
//! and triggers (dependency graph, run queue, running effects, world tags),
//! the decisions of derived kinds of signals (mapped, memo'd, async, enum
//! split, with a default), a keyed value store, and the query-string and
//! location handling of routing.

pub mod holey_stack;
pub mod tags;
pub mod loc;
pub mod dep_graph;
pub mod run_queue;
pub mod effect_stack;
pub mod world;
pub mod laws;
pub mod store;
pub mod query;
pub mod signal;
pub mod with_default;
pub mod mapped;
pub mod memo;
pub mod abort;
pub mod async_load;
pub mod ctx;
pub mod location;
