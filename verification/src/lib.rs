//! Flow aggregation and NetFlow v9 / IPFIX encoding for a host flow-export agent.
pub mod bytes;
pub mod flow;
pub mod parse;
pub mod config;
pub mod export;
pub mod ipfix;
pub mod netflow_v9;
pub mod capture;
pub mod service;
