//! Publishes the status of a smart plug as labelled gauges.
//!
//! The library holds the decisions of the exporter: what each poll cycle
//! writes to the metric registry, how the registry changes, and how the
//! start-up settings are read. Fetching, decoding and serving happen around it.
pub mod metrics;
pub mod registry;
pub mod snapshot;
pub mod config;
pub mod cycle;
