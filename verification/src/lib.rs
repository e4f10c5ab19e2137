//! A network intrusion detection library: packet decoding, pcap capture
//! files, detection rules and a stateful detection engine, with contracts
//! checked by Verus.

pub mod alerts;
pub mod capture;
pub mod cli;
pub mod engine;
pub mod parser;
pub mod rules;
pub mod text;
