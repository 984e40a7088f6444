//! Connection pool and live-metrics engine for remote SSH hosts.
//!
//! The library holds the decisions of the service: parsing of connection
//! addresses and of diagnostic command output, the registry of open sessions
//! with their polling tasks, the polling schedule, the routing of requests,
//! and the bookkeeping of saved connection profiles. The transport, the
//! tasks and the storage are driven by the caller, who hands the library
//! plain values.

pub mod address;
pub mod metrics;
pub mod poll;
pub mod pool;
pub mod router;
pub mod session;
pub mod store;
pub mod text;
