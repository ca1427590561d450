//! An HTTP echo core: turns the parts of a request into a canonical echo
//! document, decides from a set of path patterns whether it is logged, and
//! counts requests and their latencies for a metrics endpoint.

pub mod config;
pub mod echo;
pub mod filter;
pub mod metrics;
pub mod strmap;
pub mod text;
