//! Least-recently-used cache whose entries are loaded and flushed by an I/O back end.
//!
//! Waiting for a lock, for the back end or for another cache is not done here.  Each operation
//! is a state machine: it asks for one piece of outside work at a time (an [`Action`]), and is
//! handed the outcome (an [`Event`]) together with the cache.  Two locks guard the cache: one on
//! the map of entries, shared or exclusive, and one on the list of flush dependencies.  A machine
//! asks for a lock with an action and keeps it as its documentation says.
//!
//! Caches can depend on each other: everything that a cache depends on is flushed before the
//! cache itself writes anything back, e.g. when the L2 table cache of a qcow2 image must reach
//! the disk before the refblock cache.
//!
//! [`Action`]: step::Action
//! [`Event`]: step::Event

pub mod cache;
pub mod call_laws;
pub mod check_circular;
pub mod depend_on;
pub mod dependency_laws;
pub mod entry;
pub mod error;
pub mod eviction;
pub mod eviction_laws;
pub mod flush;
pub mod get_or_insert;
pub mod graph;
pub mod graph_laws;
pub mod held;
pub mod history;
pub mod insert;
pub mod invalidate;
pub mod invalidate_laws;
pub mod laws;
pub mod locks;
pub mod outcome_laws;
pub mod state;
pub mod step;
pub mod write_back;
