//! Selecting the lowest-latency VPN relay from a provider's catalog.
//!
//! The library holds the decisions of the tool: which relays are admitted
//! by the user's filter, what a finished probe means, how the results are
//! ranked, and which countries the catalog covers. Fetching the catalog and
//! running the probes is left to the caller.

pub mod text;
pub mod rtt;
pub mod relay;
pub mod filter;
pub mod order;
pub mod rank;
pub mod scheduler;
pub mod countries;
pub mod probe;
pub mod report;
