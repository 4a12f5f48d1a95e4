//! Core of a local DNS-to-HTTPS proxy.
//!
//! The library holds the query-resolution engine: the DNS wire codec, the
//! TTL-aware response cache, the path manager that enumerates and selects
//! routing paths over DoH, ODoH and MODoH, the ODoH configuration store,
//! and the query pipeline that composes them. Listeners, the HTTPS
//! transport and the token client live outside and drive the pipeline
//! through plain values.

pub mod bytes;
pub mod cache;
pub mod config;
pub mod counter;
pub mod dns;
pub mod errors;
pub mod frame;
pub mod odoh;
pub mod path;
pub mod pipeline;
pub mod urlenc;
pub mod urlparse;
