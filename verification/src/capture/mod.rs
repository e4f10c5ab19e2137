//! Packet capture: pcap capture files and live interfaces, and the loop
//! that hands every captured frame to the detection engine.
use vstd::prelude::*;

pub mod pcap_ffi;
pub mod pcap_file;

use crate::cli::Cli;
use crate::engine::{detect_outcome, event_views, DetectionEngine, DetectionEvent, EngineView, EventView};
use crate::parser::{decoded, opt_text, parse_with_timestamp};
use pcap_file::{pcap_error_message, pcap_records, read_pcap_bytes, CapturedPacket};

verus! {

/// Where packets come from.
#[derive(Debug, Clone)]
pub struct CaptureConfig {
    pub interface: Option<String>,
    pub pcap: Option<String>,
}

impl Default for CaptureConfig {
    fn default() -> (c: Self)
        ensures
            c.interface is None,
            c.pcap is None,
    {
        CaptureConfig { interface: None, pcap: None }
    }
}

impl CaptureConfig {
    /// The capture source that the command line names.
    pub fn from(cli: &Cli) -> (c: Self)
        ensures
            opt_text(c.interface) == opt_text(cli.interface),
            opt_text(c.pcap) == opt_text(cli.pcap),
    {
        CaptureConfig {
            interface: match &cli.interface {
                Some(s) => Some(s.clone()),
                None => None,
            },
            pcap: match &cli.pcap {
                Some(s) => Some(s.clone()),
                None => None,
            },
        }
    }

    /// The kind of source: an interface takes precedence over a file.
    pub fn source_label(&self) -> (label: &'static str)
        ensures
            label@ == (if self.interface is Some {
                "interface"@
            } else if self.pcap is Some {
                "pcap"@
            } else {
                "none"@
            }),
    {
        if self.interface.is_some() {
            "interface"
        } else if self.pcap.is_some() {
            "pcap"
        } else {
            "none"
        }
    }
}

/// An engine in state `e` handed the captured records `packets`, decoded
/// one after the other: the state after them, and all their events in order.
pub open spec fn replay(e: EngineView, packets: Seq<(u64, Seq<u8>)>) -> (EngineView, Seq<EventView>)
    decreases packets.len(),
{
    if packets.len() == 0 {
        (e, seq![])
    } else {
        let (e1, events) = replay(e, packets.drop_last());
        let last = packets.last();
        let (e2, more) = detect_outcome(e1, decoded(last.1, Some(last.0)));
        (e2, events + more)
    }
}

/// Decodes each captured packet, with its capture time, and runs the
/// engine on it; the events of all packets, in order.
pub fn process_packets(packets: &Vec<CapturedPacket>, engine: &mut DetectionEngine) -> (events: Vec<DetectionEvent>)
    ensures
        (final(engine)@, event_views(events@)) == replay(old(engine)@, packets@.map_values(|p: CapturedPacket| p@)),
{
    let ghost recs = packets@.map_values(|p: CapturedPacket| p@);
    let ghost e0 = engine@;
    let mut detections: Vec<DetectionEvent> = Vec::new();
    let mut i: usize = 0;
    assert(recs.take(0) =~= Seq::<(u64, Seq<u8>)>::empty());
    assert(event_views(detections@) =~= Seq::<EventView>::empty());
    while i < packets.len()
        invariant
            i <= packets@.len(),
            recs == packets@.map_values(|p: CapturedPacket| p@),
            (engine@, event_views(detections@)) == replay(e0, recs.take(i as int)),
        decreases packets@.len() - i,
    {
        let packet = &packets[i];
        let parsed = parse_with_timestamp(packet.data.as_slice(), packet.timestamp_secs);
        let ghost before = event_views(detections@);
        let mut found = engine.detect(&parsed);
        let ghost more = event_views(found@);
        detections.append(&mut found);
        proof {
            assert(recs.take(i + 1).drop_last() =~= recs.take(i as int));
            assert(recs.take(i + 1).last() == packet@);
            assert(event_views(detections@) =~= before + more);
        }
        i = i + 1;
    }
    assert(recs.take(packets@.len() as int) =~= recs);
    detections
}

/// Runs the engine on every packet of the capture file whose contents are
/// `contents`; a refused file leaves the engine as it was.
pub fn process_pcap_file(contents: &[u8], engine: &mut DetectionEngine) -> (r: Result<Vec<DetectionEvent>, String>)
    ensures
        match pcap_records(contents@) {
            Ok(records) => r matches Ok(events) && (final(engine)@, event_views(events@)) == replay(old(engine)@, records),
            Err(e) => r matches Err(msg) && msg@ == pcap_error_message(e) && final(engine)@ == old(engine)@,
        },
{
    let packets = match read_pcap_bytes(contents) {
        Ok(packets) => packets,
        Err(msg) => return Err(msg),
    };
    Ok(process_packets(&packets, engine))
}

/// Runs the engine on the packets of one round of live capture; a failed
/// capture is passed on and leaves the engine as it was.
pub fn process_live_interface(captured: Result<Vec<CapturedPacket>, String>, engine: &mut DetectionEngine) -> (r: Result<Vec<DetectionEvent>, String>)
    ensures
        match captured {
            Ok(packets) => r matches Ok(events) && (final(engine)@, event_views(events@)) == replay(
                old(engine)@,
                packets@.map_values(|p: CapturedPacket| p@),
            ),
            Err(msg) => r == Err::<Vec<DetectionEvent>, String>(msg) && final(engine)@ == old(engine)@,
        },
{
    let packets = match captured {
        Ok(packets) => packets,
        Err(msg) => return Err(msg),
    };
    Ok(process_packets(&packets, engine))
}

/// The capture interfaces, in a build without libpcap: refused, as live
/// capture is.
pub fn list_interfaces() -> (r: Result<Vec<String>, String>)
    ensures
        r matches Err(msg) && msg@ == pcap_ffi::live_capture_unavailable(),
{
    pcap_ffi::list_interfaces()
}

} // verus!
