use vigil_ids::capture::list_interfaces;
use vigil_ids::capture::pcap_ffi::{
    check_interface_name, live_capture_step, open_failure_message, start_live_capture, LiveAction,
    LiveCapture, NextOutcome,
};
use vigil_ids::engine::DetectionEngine;
use vigil_ids::parser::parse_with_timestamp;
use vigil_ids::rules::schema::{Rule, RuleCondition};
use vigil_ids::rules::RuleSet;

fn state(packets: usize, idle_timeouts: u32, max_packets: usize) -> LiveCapture {
    let (mut s, _) = start_live_capture(max_packets);
    for i in 0..packets {
        let (next, _) = live_capture_step(
            LiveCapture { packets: s.packets, idle_timeouts: 0, max_packets: usize::MAX },
            NextOutcome::Packet { ts_sec: i as i64, data: vec![i as u8] },
        );
        s.packets = next.packets;
    }
    s.idle_timeouts = idle_timeouts;
    s.max_packets = max_packets;
    s
}

#[test]
fn no_packet_wanted_reads_nothing() {
    let (s, a) = start_live_capture(0);
    assert!(matches!(a, LiveAction::Finish(ref v) if v.is_empty()));
    assert!(s.packets.is_empty());
    let (s, a) = start_live_capture(64);
    assert!(matches!(a, LiveAction::ReadNext));
    assert_eq!((s.packets.len(), s.idle_timeouts, s.max_packets), (0, 0, 64));
}

#[test]
fn packets_are_kept_until_the_limit() {
    let (s, a) = start_live_capture(2);
    assert!(matches!(a, LiveAction::ReadNext));
    let (s, a) = live_capture_step(s, NextOutcome::Packet { ts_sec: 7, data: vec![1, 2] });
    assert!(matches!(a, LiveAction::ReadNext));
    assert_eq!(s.packets.len(), 1);
    assert_eq!(s.packets[0].timestamp_secs, 7);
    assert_eq!(s.packets[0].data, vec![1, 2]);
    let (s, a) = live_capture_step(s, NextOutcome::Packet { ts_sec: -5, data: vec![3] });
    match a {
        LiveAction::Finish(v) => {
            assert_eq!(v.len(), 2);
            assert_eq!(v[1].timestamp_secs, 0);
            assert_eq!(v[1].data, vec![3]);
        }
        _ => panic!("the second packet reaches the limit"),
    }
    assert!(s.packets.is_empty());
}

#[test]
fn three_timeouts_in_a_row_stop_the_capture() {
    let s = state(1, 0, 10);
    let (s, a) = live_capture_step(s, NextOutcome::Timeout);
    assert!(matches!(a, LiveAction::ReadNext));
    assert_eq!(s.idle_timeouts, 1);
    let (s, a) = live_capture_step(s, NextOutcome::Timeout);
    assert!(matches!(a, LiveAction::ReadNext));
    // A reported packet, even one handed over without data, resets the count.
    let (s, a) = live_capture_step(s, NextOutcome::Missing);
    assert!(matches!(a, LiveAction::ReadNext));
    assert_eq!((s.idle_timeouts, s.packets.len()), (0, 1));
    let (s, _) = live_capture_step(s, NextOutcome::Timeout);
    let (s, _) = live_capture_step(s, NextOutcome::Timeout);
    let (s, a) = live_capture_step(s, NextOutcome::Timeout);
    assert_eq!(s.idle_timeouts, 3);
    assert!(matches!(a, LiveAction::Finish(ref v) if v.len() == 1));
}

#[test]
fn idle_count_saturates() {
    let (s, a) = live_capture_step(state(0, u32::MAX, 10), NextOutcome::Timeout);
    assert_eq!(s.idle_timeouts, u32::MAX);
    assert!(matches!(a, LiveAction::Finish(_)));
}

#[test]
fn end_of_capture_hands_back_the_packets() {
    let (_, a) = live_capture_step(state(2, 1, 10), NextOutcome::End);
    match a {
        LiveAction::Finish(v) => {
            assert_eq!(v.len(), 2);
            assert_eq!((v[0].timestamp_secs, v[1].timestamp_secs), (0, 1));
        }
        _ => panic!("the end of a capture finishes it"),
    }
}

#[test]
fn capture_errors_are_reported() {
    let (_, a) = live_capture_step(
        state(2, 0, 10),
        NextOutcome::Failed { message: Some("device went away".to_string()) },
    );
    assert!(matches!(a, LiveAction::Fail(ref m) if m == "libpcap capture error: device went away"));
    let (_, a) = live_capture_step(state(0, 0, 10), NextOutcome::Failed { message: None });
    assert!(matches!(a, LiveAction::Fail(ref m) if m == "libpcap capture error: unknown libpcap error"));
}

#[test]
fn interface_names_and_open_failures() {
    assert!(check_interface_name("eth0").is_ok());
    assert!(check_interface_name("").is_ok());
    assert_eq!(check_interface_name("eth\0").unwrap_err(), "interface contains an interior null byte");
    assert_eq!(
        open_failure_message("eth9", "  eth9: No such device exists\n"),
        "failed to open live interface eth9: eth9: No such device exists"
    );
    assert_eq!(open_failure_message("lo", "\t \u{3000}"), "failed to open live interface lo: ");
    assert_eq!(
        open_failure_message("lo", "\u{a0} no  such\tdevice \r\n"),
        "failed to open live interface lo: no  such\tdevice"
    );
    assert_eq!(
        list_interfaces().unwrap_err(),
        "live capture requires libpcap discovery (`--features pcap` or VIGIL_ENABLE_PCAP_DISCOVERY=1)"
    );
}

fn scan_rule(id: &str, threshold: u32, window_secs: u64) -> Rule {
    Rule {
        id: id.to_string(),
        name: id.to_string(),
        description: id.to_string(),
        severity: None,
        action: None,
        condition: RuleCondition::PortScan { threshold, window_secs },
    }
}

/// A TCP/IPv4 frame from 192.168.1.100 to 10.0.0.1 at `destination_port`.
fn tcp_frame(destination_port: u16) -> Vec<u8> {
    let mut bytes = vec![
        0x00, 0x11, 0x22, 0x33, 0x44, 0x55, 0x66, 0x77, 0x88, 0x99, 0xaa, 0xbb, 0x08, 0x00, 0x45,
        0x00, 0x00, 0x28, 0x00, 0x01, 0x00, 0x00, 0x40, 0x06, 0x00, 0x00, 0xc0, 0xa8, 0x01, 0x64,
        0x0a, 0x00, 0x00, 0x01, 0x30, 0x39, 0x00, 0x50, 0x00, 0x00, 0x00, 0x00, 0x00, 0x00, 0x00,
        0x00, 0x50, 0x02, 0xff, 0xff, 0x00, 0x00, 0x00, 0x00,
    ];
    let [high, low] = destination_port.to_be_bytes();
    bytes[36] = high;
    bytes[37] = low;
    bytes
}

#[test]
fn each_port_scan_rule_keeps_its_own_window() {
    let mut e = DetectionEngine::with_rules(
        RuleSet { rules: vec![scan_rule("A", 2, 1), scan_rule("B", 2, 100)] },
        None,
    );
    assert!(e.detect(&parse_with_timestamp(&tcp_frame(1), 100)).is_empty());
    let events = e.detect(&parse_with_timestamp(&tcp_frame(2), 150));
    assert_eq!(events.len(), 1);
    assert_eq!(events[0].rule_id, "B");
}

#[test]
fn lower_threshold_or_wider_window_still_fires() {
    let seen = vec![(100u64, 1u16), (105, 2), (110, 3)];
    assert!(DetectionEngine::is_port_scan(&seen, 110, 3, 10));
    assert!(DetectionEngine::is_port_scan(&seen, 110, 2, 10));
    assert!(DetectionEngine::is_port_scan(&seen, 110, 3, 20));
    assert!(!DetectionEngine::is_port_scan(&seen, 110, 3, 9));
    assert!(!DetectionEngine::is_port_scan(&seen, 110, 4, 100));
}
