//! Alerts: the records that detections are reported as, and the framing of
//! their JSON lines.
use vstd::prelude::*;
use vstd::string::StringExecFns;

pub mod syslog;

use crate::engine::{DetectionEvent, EventView};
use crate::parser::opt_text;
use crate::text::push_char;

verus! {

/// A free-form notice of the detector.
#[derive(Debug, Clone)]
pub struct Alert {
    pub message: String,
}

impl Alert {
    /// An alert that says `message`.
    pub fn new(message: String) -> (a: Self)
        ensures
            a.message@ == message@,
    {
        Alert { message }
    }
}

/// The record of a detection as it is written out in JSON.
#[derive(Debug, Clone)]
pub struct JsonAlert {
    pub timestamp_secs: Option<u64>,
    pub rule_id: String,
    pub severity: String,
    pub action: String,
    pub src_ip: Option<String>,
    pub dst_ip: Option<String>,
    pub message: String,
}

impl View for JsonAlert {
    type V = EventView;

    open spec fn view(&self) -> EventView {
        EventView {
            rule_id: self.rule_id@,
            severity: self.severity@,
            action: self.action@,
            timestamp_secs: self.timestamp_secs,
            src_ip: opt_text(self.src_ip),
            dst_ip: opt_text(self.dst_ip),
            message: self.message@,
        }
    }
}

fn copy_text(s: &Option<String>) -> (r: Option<String>)
    ensures
        r == *s,
{
    match s {
        Some(t) => Some(t.clone()),
        None => None,
    }
}

impl<'a> From<&'a DetectionEvent> for JsonAlert {
    fn from(detection: &'a DetectionEvent) -> (alert: Self) {
        JsonAlert {
            timestamp_secs: detection.timestamp_secs,
            rule_id: detection.rule_id.clone(),
            severity: detection.severity.clone(),
            action: detection.action.clone(),
            src_ip: copy_text(&detection.src_ip),
            dst_ip: copy_text(&detection.dst_ip),
            message: detection.message.clone(),
        }
    }
}

impl<'a> vstd::std_specs::convert::FromSpecImpl<&'a DetectionEvent> for JsonAlert {
    open spec fn obeys_from_spec() -> bool {
        true
    }

    open spec fn from_spec(detection: &'a DetectionEvent) -> Self {
        JsonAlert {
            timestamp_secs: detection.timestamp_secs,
            rule_id: detection.rule_id,
            severity: detection.severity,
            action: detection.action,
            src_ip: detection.src_ip,
            dst_ip: detection.dst_ip,
            message: detection.message,
        }
    }
}

/// Each line followed by a newline, in order.
pub open spec fn terminated_lines(lines: Seq<Seq<char>>) -> Seq<char>
    decreases lines.len(),
{
    if lines.len() == 0 {
        seq![]
    } else {
        terminated_lines(lines.drop_last()) + lines.last() + seq!['\n']
    }
}

/// The contents of an alerts file: one JSON line per alert, each ended by
/// a newline; nothing at all when there is no alert.
pub fn alerts_file_payload(lines: &Vec<String>) -> (payload: String)
    ensures
        payload@ == terminated_lines(lines@.map_values(|l: String| l@)),
{
    let ghost views = lines@.map_values(|l: String| l@);
    let mut payload = String::new();
    let mut i: usize = 0;
    assert(views.take(0) =~= Seq::<Seq<char>>::empty());
    while i < lines.len()
        invariant
            i <= lines@.len(),
            views == lines@.map_values(|l: String| l@),
            payload@ == terminated_lines(views.take(i as int)),
        decreases lines@.len() - i,
    {
        payload.append(lines[i].as_str());
        push_char(&mut payload, '\n');
        proof {
            assert(views.take(i + 1).drop_last() =~= views.take(i as int));
            assert(views.take(i + 1).last() == lines@[i as int]@);
        }
        i = i + 1;
    }
    assert(views.take(lines@.len() as int) =~= views);
    payload
}

} // verus!
