//! Plans, batches and decodes view-function calls of EVM contracts for a Prometheus exporter.

pub mod cli;
pub mod config;
pub mod decoder;
pub mod exporter;
pub mod labels;
pub mod metrics;
pub mod multicall;
pub mod outcome;
pub mod planner;
pub mod server;
pub mod sol;
pub mod text;
pub mod words;
pub mod yaml;

