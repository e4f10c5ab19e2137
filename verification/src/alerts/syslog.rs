//! Syslog framing of alerts.
use vstd::prelude::*;
use vstd::string::StringExecFns;

verus! {

/// The priority and tag that start every syslog message of the detector:
/// facility user (1), severity error (3), as in RFC 3164.
pub open spec fn syslog_prefix() -> Seq<char> {
    "<11>vigil-ids: "@
}

/// The syslog message that carries the JSON text of an alert.
pub fn syslog_message(json: &str) -> (message: String)
    ensures
        message@ == syslog_prefix() + json@,
{
    let mut message = String::from_str("<11>vigil-ids: ");
    message.append(json);
    message
}

} // verus!
