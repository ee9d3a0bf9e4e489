//! Monthly storage-cost estimates for container images hosted in a registry.
//!
//! The library holds the verified core of the report: aggregating paginated
//! listings, filtering and ranking image records by push time, an exact
//! integer cost model, and the assembly of the report lines. Network calls,
//! command-line handling and terminal output live outside the library.

pub mod cost;
pub mod decimal;
pub mod filter;
pub mod paginate;
pub mod record;
pub mod report;
pub mod summary;
pub mod timestamp;
