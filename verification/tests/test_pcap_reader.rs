use vigil_ids::capture;
use vigil_ids::capture::pcap_file;
use vigil_ids::engine::DetectionEngine;
use vigil_ids::parser;
use vigil_ids::rules::schema::{Rule, RuleCondition, RuleFile};
use vigil_ids::rules::RuleSet;

fn rule(id: &str, name: &str, description: &str, severity: &str, condition: RuleCondition) -> Rule {
    Rule {
        id: id.to_string(),
        name: name.to_string(),
        description: description.to_string(),
        severity: Some(severity.to_string()),
        action: Some("alert".to_string()),
        condition,
    }
}

/// A little-endian pcap file (microsecond timestamps, Ethernet link type)
/// holding the given (seconds, frame) records.
fn pcap_file_bytes(records: &[(u32, Vec<u8>)]) -> Vec<u8> {
    let mut bytes = vec![
        0xd4, 0xc3, 0xb2, 0xa1, 0x02, 0x00, 0x04, 0x00, 0x00, 0x00, 0x00, 0x00, 0x00, 0x00, 0x00,
        0x00, 0xff, 0xff, 0x00, 0x00, 0x01, 0x00, 0x00, 0x00,
    ];
    for (secs, data) in records {
        bytes.extend_from_slice(&secs.to_le_bytes());
        bytes.extend_from_slice(&0u32.to_le_bytes());
        bytes.extend_from_slice(&(data.len() as u32).to_le_bytes());
        bytes.extend_from_slice(&(data.len() as u32).to_le_bytes());
        bytes.extend_from_slice(data);
    }
    bytes
}

#[test]
fn reads_sample_pcap_and_parses_tcp_headers() {
    // The contents of a minimal capture: one TCP frame captured at second 1.
    let contents = pcap_file_bytes(&[(1, tcp_packet_bytes(80))]);
    let packets = pcap_file::read_pcap_bytes(&contents).expect("sample pcap should load");

    assert_eq!(packets.len(), 1);
    assert_eq!(packets[0].timestamp_secs, 1);

    let parsed = parser::parse_with_timestamp(&packets[0].data, packets[0].timestamp_secs);
    assert_eq!(parsed.source_ip.as_deref(), Some("192.168.1.100"));
    assert_eq!(parsed.destination_ip.as_deref(), Some("10.0.0.1"));
    assert_eq!(parsed.source_port, Some(12345));
    assert_eq!(parsed.destination_port, Some(80));
}

#[test]
fn port_scan_rule_uses_packet_history() {
    let file = RuleFile {
        rules: vec![rule(
            "PS-HISTORY",
            "Port Scan History",
            "Triggers only after multiple destination ports",
            "high",
            RuleCondition::PortScan { threshold: 3, window_secs: 10 },
        )],
    };
    let rules = RuleSet { rules: file.rules };
    let mut engine = DetectionEngine::with_rules(rules, None);

    let first = parser::parse_with_timestamp(&tcp_packet_bytes(80), 100);
    let second = parser::parse_with_timestamp(&tcp_packet_bytes(443), 101);
    let third = parser::parse_with_timestamp(&tcp_packet_bytes(8080), 102);

    assert!(engine.detect(&first).is_empty());
    assert!(engine.detect(&second).is_empty());

    let detections = engine.detect(&third);
    assert_eq!(detections.len(), 1);
    assert_eq!(detections[0].rule_id, "PS-HISTORY");
}

#[test]
fn process_pcap_file_ingests_multiple_packets() {
    let file = RuleFile {
        rules: vec![rule(
            "PS-MULTI",
            "Port Scan Multi Packet",
            "Triggers after the third distinct destination port",
            "high",
            RuleCondition::PortScan { threshold: 3, window_secs: 10 },
        )],
    };
    let rules = RuleSet { rules: file.rules };
    let mut engine = DetectionEngine::with_rules(rules, None);

    // The contents of a capture of three frames to three ports, at seconds 1, 2, 3.
    let contents = pcap_file_bytes(&[
        (1, tcp_packet_bytes(80)),
        (2, tcp_packet_bytes(443)),
        (3, tcp_packet_bytes(8080)),
    ]);
    let detections = capture::process_pcap_file(&contents, &mut engine)
        .expect("pcap processing should succeed");

    assert_eq!(detections.len(), 1);
    assert_eq!(detections[0].rule_id, "PS-MULTI");
    assert_eq!(detections[0].timestamp_secs, Some(3));
}

fn tcp_packet_bytes(destination_port: u16) -> Vec<u8> {
    let mut bytes = vec![
        0x00, 0x11, 0x22, 0x33, 0x44, 0x55, 0x66, 0x77, 0x88, 0x99, 0xaa, 0xbb, 0x08, 0x00, 0x45,
        0x00, 0x00, 0x28, 0x00, 0x01, 0x00, 0x00, 0x40, 0x06, 0x00, 0x00, 0xc0, 0xa8, 0x01, 0x64,
        0x0a, 0x00, 0x00, 0x01, 0x30, 0x39, 0x00, 0x50, 0x00, 0x00, 0x00, 0x00, 0x00, 0x00, 0x00,
        0x00, 0x50, 0x02, 0xff, 0xff, 0x00, 0x00, 0x00, 0x00,
    ];

    let [high, low] = destination_port.to_be_bytes();
    bytes[36] = high;
    bytes[37] = low;
    bytes
}

fn ipv6_packet_bytes() -> Vec<u8> {
    vec![
        0x00, 0x11, 0x22, 0x33, 0x44, 0x55, 0x66, 0x77, 0x88, 0x99, 0xaa, 0xbb, 0x86, 0xdd, 0x60,
        0x00, 0x00, 0x00, 0x00, 0x00, 0x11, 0x40, 0x20, 0x01, 0x0d, 0xb8, 0x00, 0x00, 0x00, 0x00,
        0x00, 0x00, 0x00, 0x00, 0x00, 0x00, 0x00, 0x01, 0x20, 0x01, 0x0d, 0xb8, 0x00, 0x00, 0x00,
        0x00, 0x00, 0x00, 0x00, 0x00, 0x00, 0x00, 0x00, 0x02,
    ]
}

#[test]
fn reads_ipv6_packet_and_parses_headers() {
    let parsed = parser::parse_with_timestamp(&ipv6_packet_bytes(), 100);
    assert_eq!(parsed.source_ip.as_deref(), Some("2001:db8::1"));
    assert_eq!(parsed.destination_ip.as_deref(), Some("2001:db8::2"));
    assert!(parsed.ipv6.is_some());
    assert_eq!(parsed.ipv6.unwrap().next_header, 17);
}

#[test]
fn protocol_anomaly_detects_land_attack() {
    let file = RuleFile {
        rules: vec![rule(
            "PA-LAND",
            "Land Attack",
            "Source and destination ports are identical",
            "medium",
            RuleCondition::ProtocolAnomaly,
        )],
    };
    let rules = RuleSet { rules: file.rules };
    let mut engine = DetectionEngine::with_rules(rules, None);

    // Land attack: src_port == dst_port (both 12345)
    let land_packet = parser::parse_with_timestamp(&tcp_packet_bytes(12345), 100);
    let detections = engine.detect(&land_packet);
    assert_eq!(detections.len(), 1);
    assert_eq!(detections[0].rule_id, "PA-LAND");
}

#[test]
fn protocol_anomaly_ignores_normal_packet() {
    let file = RuleFile {
        rules: vec![rule(
            "PA-NORMAL",
            "Protocol Anomaly",
            "Should not trigger on normal traffic",
            "medium",
            RuleCondition::ProtocolAnomaly,
        )],
    };
    let rules = RuleSet { rules: file.rules };
    let mut engine = DetectionEngine::with_rules(rules, None);

    // Normal packet: src_port 12345, dst_port 80 — different ports, no anomaly
    let normal_packet = parser::parse_with_timestamp(&tcp_packet_bytes(80), 100);
    let detections = engine.detect(&normal_packet);
    assert!(detections.is_empty());
}

#[test]
fn blocklist_rule_matches_blocked_source_ip() {
    let file = RuleFile {
        rules: vec![rule(
            "BL-TEST",
            "Blocklist",
            "Traffic from blocklisted IP",
            "critical",
            RuleCondition::IpBlocklist { src_ips: vec!["192.168.1.100".to_string()] },
        )],
    };
    let rules = RuleSet { rules: file.rules };
    let mut engine = DetectionEngine::with_rules(rules, None);

    // tcp_packet_bytes has src IP 192.168.1.100 — should match
    let packet = parser::parse_with_timestamp(&tcp_packet_bytes(80), 100);
    let detections = engine.detect(&packet);
    assert_eq!(detections.len(), 1);
    assert_eq!(detections[0].rule_id, "BL-TEST");
}

#[test]
fn blocklist_rule_ignores_unblocked_source_ip() {
    let file = RuleFile {
        rules: vec![rule(
            "BL-MISS",
            "Blocklist",
            "Should not match unknown IPs",
            "critical",
            RuleCondition::IpBlocklist { src_ips: vec!["10.10.10.10".to_string()] },
        )],
    };
    let rules = RuleSet { rules: file.rules };
    let mut engine = DetectionEngine::with_rules(rules, None);

    // tcp_packet_bytes has src IP 192.168.1.100, not in blocklist
    let packet = parser::parse_with_timestamp(&tcp_packet_bytes(80), 100);
    let detections = engine.detect(&packet);
    assert!(detections.is_empty());
}
