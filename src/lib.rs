//! Metrics collection for source-control repositories: which repositories
//! take part, how paged listings are walked, how daily counters merge, and
//! how derived series are rebuilt from stored snapshots.

pub mod filter;
pub mod listing;
pub mod model;
pub mod paging;
pub mod pipeline;
pub mod popular;
pub mod query;
pub mod stars;
pub mod store;
pub mod text;
