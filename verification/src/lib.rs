//! A work-dispatch pool that spawns worker threads on demand, bounded by a
//! configurable maximum, and terminates each worker the moment it finds no
//! pending work, together with a single-thread façade that runs tasks in
//! strict submission order.
//!
//! This crate holds the verified core: the shared queue/counter state with
//! the dispatch and worker-loop decisions ([`ShrinkPool`], [`SyncThread`]),
//! and an abstract model of the concurrent execution over which the pool's
//! laws are proved ([`model`]). A runtime drives these decisions from OS
//! threads under a single lock: it performs the spawns and runs the tasks,
//! and hands every state change back to the verified core.

pub mod model;
mod pool;
mod sync_thread;

pub use pool::ShrinkPool;
pub use sync_thread::SyncThread;
