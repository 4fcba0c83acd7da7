//! Telemetry encoding for a UPS monitoring tool: line-protocol rendering of
//! measurements, the metrics endpoint and its write request, and the parsing of
//! the tool's configuration and of the monitoring daemon's `key: value` output.
pub mod text;
pub mod influxdb_config;
pub mod lines;
pub mod config;
pub mod upsc;
pub mod publish;
