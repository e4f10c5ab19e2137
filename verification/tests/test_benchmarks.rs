use std::time::Instant;
use vigil_ids::engine::DetectionEngine;
use vigil_ids::parser;
use vigil_ids::rules::schema::{Rule, RuleCondition, RuleFile};
use vigil_ids::rules::RuleSet;

fn tcp_packet_bytes(destination_port: u16) -> Vec<u8> {
    let mut bytes = vec![
        0x00, 0x11, 0x22, 0x33, 0x44, 0x55, 0x66, 0x77, 0x88, 0x99, 0xaa, 0xbb, 0x08, 0x00, 0x45,
        0x00, 0x00, 0x28, 0x00, 0x01, 0x00, 0x00, 0x40, 0x06, 0x00, 0x00, 0xc0, 0xa8, 0x01, 0x64,
        0x0a, 0x00, 0x00, 0x01, 0x30, 0x39, 0x00, 0x50, 0x00, 0x00, 0x00, 0x00, 0x00, 0x00, 0x00,
        0x00, 0x50, 0x02, 0xff, 0xff, 0x00, 0x00, 0x00, 0x00,
    ];
    let [high, low] = destination_port.to_be_bytes();
    bytes[36] = high;
    bytes[37] = low;
    bytes
}

fn rule(id: &str, name: &str, description: &str, severity: &str, condition: RuleCondition) -> Rule {
    Rule {
        id: id.to_string(),
        name: name.to_string(),
        description: description.to_string(),
        severity: Some(severity.to_string()),
        action: Some("alert".to_string()),
        condition,
    }
}

#[test]
fn benchmark_packet_parsing() {
    let raw_packet = tcp_packet_bytes(80);
    let num_packets: u64 = 10_000;
    let start = Instant::now();
    for i in 0..num_packets {
        let _ = parser::parse_with_timestamp(&raw_packet, i);
    }
    let elapsed = start.elapsed();
    let pps = num_packets as f64 / elapsed.as_secs_f64();
    println!(
        "Packet Parsing Throughput: {:.2} packets/sec ({:?} for {} packets)",
        pps, elapsed, num_packets
    );
}

#[test]
fn benchmark_detection_engine() {
    let file = RuleFile {
        rules: vec![
            rule(
                "BL-001",
                "Blocked IP",
                "Traffic from a known malicious IP",
                "critical",
                RuleCondition::IpBlocklist {
                    src_ips: vec!["192.168.1.100".to_string(), "10.0.0.55".to_string()],
                },
            ),
            rule(
                "PS-001",
                "Port Scan Detected",
                "Multiple destination ports contacted in a short window",
                "high",
                RuleCondition::PortScan { threshold: 15, window_secs: 10 },
            ),
            rule(
                "PA-001",
                "Protocol Anomaly",
                "Suspicious packet structure detected",
                "medium",
                RuleCondition::ProtocolAnomaly,
            ),
        ],
    };
    let rules = RuleSet { rules: file.rules };
    let mut engine = DetectionEngine::with_rules(rules, None);
    let raw_packet = tcp_packet_bytes(80);
    let mut parsed = parser::parse_with_timestamp(&raw_packet, 100);
    parsed.capture_time_secs = None; // Let synthetic time advance so sliding window expires old history

    let num_packets = 5_000;
    let start = Instant::now();
    let mut alerts = 0;
    for _ in 0..num_packets {
        let events = engine.detect(&parsed);
        alerts += events.len();
    }
    let elapsed = start.elapsed();
    let pps = num_packets as f64 / elapsed.as_secs_f64();
    println!(
        "Detection Engine Throughput (3 rules): {:.2} packets/sec ({:?} for {} packets, {} alerts generated)",
        pps, elapsed, num_packets, alerts
    );
}
