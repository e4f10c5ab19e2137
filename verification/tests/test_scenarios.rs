use vigil_ids::alerts::JsonAlert;
use vigil_ids::capture::process_pcap_file;
use vigil_ids::engine::DetectionEngine;
use vigil_ids::parser::parse_with_timestamp;
use vigil_ids::rules::schema::{Rule, RuleCondition};
use vigil_ids::rules::RuleSet;

fn rule(id: &str, name: &str, description: &str, severity: &str, condition: RuleCondition) -> Rule {
    Rule {
        id: id.to_string(),
        name: name.to_string(),
        description: description.to_string(),
        severity: Some(severity.to_string()),
        action: Some("alert".to_string()),
        condition,
    }
}

/// The bundled default ruleset: a blocklist, a port-scan rule and a
/// protocol-anomaly rule.
fn default_rules() -> RuleSet {
    RuleSet {
        rules: vec![
            rule(
                "BL-001",
                "Blocked IP",
                "Traffic from a known malicious IP",
                "critical",
                RuleCondition::IpBlocklist {
                    src_ips: vec!["192.168.1.100".to_string(), "10.0.0.55".to_string()],
                },
            ),
            rule(
                "PS-001",
                "Port Scan Detected",
                "More than 15 unique ports contacted from one source in 10 seconds",
                "high",
                RuleCondition::PortScan { threshold: 15, window_secs: 10 },
            ),
            rule(
                "PA-001",
                "Protocol Anomaly",
                "Suspicious packet structure detected",
                "medium",
                RuleCondition::ProtocolAnomaly,
            ),
        ],
    }
}

fn tcp_frame(source: [u8; 4], destination: [u8; 4], source_port: u16, destination_port: u16) -> Vec<u8> {
    let mut bytes = vec![
        0x00, 0x11, 0x22, 0x33, 0x44, 0x55, 0x66, 0x77, 0x88, 0x99, 0xaa, 0xbb, 0x08, 0x00, 0x45,
        0x00, 0x00, 0x28, 0x00, 0x01, 0x00, 0x00, 0x40, 0x06, 0x00, 0x00,
    ];
    bytes.extend_from_slice(&source);
    bytes.extend_from_slice(&destination);
    bytes.extend_from_slice(&source_port.to_be_bytes());
    bytes.extend_from_slice(&destination_port.to_be_bytes());
    bytes.extend_from_slice(&[0, 0, 0, 0, 0, 0, 0, 0, 0x50, 0x02, 0xff, 0xff, 0, 0, 0, 0]);
    bytes
}

fn pcap_le(records: &[(u32, Vec<u8>)]) -> Vec<u8> {
    let mut bytes = vec![
        0xd4, 0xc3, 0xb2, 0xa1, 0x02, 0x00, 0x04, 0x00, 0, 0, 0, 0, 0, 0, 0, 0, 0xff, 0xff, 0, 0, 1, 0, 0, 0,
    ];
    for (secs, data) in records {
        bytes.extend_from_slice(&secs.to_le_bytes());
        bytes.extend_from_slice(&[0, 0, 0, 0]);
        bytes.extend_from_slice(&(data.len() as u32).to_le_bytes());
        bytes.extend_from_slice(&(data.len() as u32).to_le_bytes());
        bytes.extend_from_slice(data);
    }
    bytes
}

const BLOCKED: [u8; 4] = [192, 168, 1, 100];
const SERVER: [u8; 4] = [10, 0, 0, 1];

#[test]
fn minimal_capture_with_default_rules_raises_one_blocklist_alert() {
    let mut engine = DetectionEngine::with_rules(default_rules(), None);
    let capture = pcap_le(&[(1, tcp_frame(BLOCKED, SERVER, 12345, 80))]);
    let alerts = process_pcap_file(&capture, &mut engine).unwrap();
    assert_eq!(alerts.len(), 1);
    assert_eq!(alerts[0].rule_id, "BL-001");
    assert_eq!(alerts[0].severity, "critical");
}

#[test]
fn three_packet_scan_with_default_rules_raises_three_blocklist_alerts() {
    let mut engine = DetectionEngine::with_rules(default_rules(), None);
    let capture = pcap_le(&[
        (1, tcp_frame(BLOCKED, SERVER, 12345, 80)),
        (2, tcp_frame(BLOCKED, SERVER, 12345, 443)),
        (3, tcp_frame(BLOCKED, SERVER, 12345, 8080)),
    ]);
    let alerts = process_pcap_file(&capture, &mut engine).unwrap();
    assert_eq!(alerts.len(), 3);
    assert!(alerts.iter().all(|a| a.rule_id == "BL-001"));
    let times: Vec<Option<u64>> = alerts.iter().map(|a| a.timestamp_secs).collect();
    assert_eq!(times, vec![Some(1), Some(2), Some(3)]);
}

#[test]
fn land_attack_with_default_rules_raises_protocol_anomaly() {
    let mut engine = DetectionEngine::with_rules(default_rules(), None);
    let land = parse_with_timestamp(&tcp_frame([10, 1, 1, 1], SERVER, 139, 139), 1);
    let alerts = engine.detect(&land);
    assert_eq!(alerts.len(), 1);
    assert_eq!(alerts[0].rule_id, "PA-001");
    assert_eq!(alerts[0].severity, "medium");
}

#[test]
fn sixteen_ports_in_ten_seconds_is_a_port_scan() {
    let mut engine = DetectionEngine::with_rules(default_rules(), None);
    let scanner = [203, 0, 113, 5];
    for port in 1..15u16 {
        let p = parse_with_timestamp(&tcp_frame(scanner, SERVER, 40000, port), 100 + (port as u64) / 2);
        assert!(engine.detect(&p).is_empty());
    }
    let p = parse_with_timestamp(&tcp_frame(scanner, SERVER, 40000, 15), 108);
    let alerts = engine.detect(&p);
    assert_eq!(alerts.len(), 1);
    assert_eq!(alerts[0].rule_id, "PS-001");
    assert_eq!(alerts[0].src_ip.as_deref(), Some("203.0.113.5"));
}

#[test]
fn alert_record_matches_the_documented_json_line() {
    let mut engine = DetectionEngine::with_rules(default_rules(), None);
    let packet = parse_with_timestamp(&tcp_frame(BLOCKED, [10, 0, 0, 2], 5555, 443), 1685600000);
    let alerts = engine.detect(&packet);
    let record = JsonAlert::from(&alerts[0]);
    assert_eq!(record.timestamp_secs, Some(1685600000));
    assert_eq!(record.rule_id, "BL-001");
    assert_eq!(record.severity, "critical");
    assert_eq!(record.action, "alert");
    assert_eq!(record.src_ip.as_deref(), Some("192.168.1.100"));
    assert_eq!(record.dst_ip.as_deref(), Some("10.0.0.2"));
    assert_eq!(record.message, "Traffic from a known malicious IP matched for destination 10.0.0.2");
}

#[test]
fn match_all_matches_every_packet() {
    let mut engine = DetectionEngine::with_rules(
        RuleSet { rules: vec![rule("ALL", "All", "Every packet", "low", RuleCondition::MatchAll)] },
        None,
    );
    assert_eq!(engine.detect(&parse_with_timestamp(&[0u8; 3], 1)).len(), 1);
    assert_eq!(engine.detect(&parse_with_timestamp(&tcp_frame(SERVER, BLOCKED, 1, 2), 2)).len(), 1);
}
