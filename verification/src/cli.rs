//! The command-line options of the detector.
use vstd::prelude::*;

verus! {

/// What the command line asks for.
#[derive(Debug, Clone)]
pub struct Cli {
    /// Live capture on this network interface.
    pub interface: Option<String>,
    /// Analysis of this pcap capture file.
    pub pcap: Option<String>,
    /// The rules file (rules/default.yaml when absent).
    pub rules: Option<String>,
    /// File that receives the alerts (standard output when absent).
    pub output: Option<String>,
    pub verbose: bool,
    /// Syslog receiver (host:port) that alerts are also sent to.
    pub syslog: Option<String>,
    /// List the capture interfaces and stop.
    pub list_interfaces: bool,
}

} // verus!
