//! A look-ahead generation scheduler: keeps a bounded window of expensive
//! geometry-generation jobs in flight on a worker pool, discards stale or
//! out-of-window jobs, and hands the render loop the best precomputed result
//! for the current frame without blocking.

pub mod channel;
pub mod params;
pub mod presenter;
pub mod scheduler;
