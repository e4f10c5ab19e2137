//! Rule sets and the conditions that a single packet can satisfy.
use vstd::prelude::*;

pub mod schema;

pub use schema::{rule_views, ConditionView, Rule, RuleCondition, RuleFile, RuleView};

use crate::parser::{PacketView, ParsedPacket};

verus! {

/// The rules that a detection engine applies, in file order.
#[derive(Debug, Clone)]
pub struct RuleSet {
    pub rules: Vec<Rule>,
}

impl Default for RuleSet {
    fn default() -> (s: Self)
        ensures
            s.rules@.len() == 0,
    {
        RuleSet { rules: Vec::new() }
    }
}

impl RuleSet {
    /// The rule set of a rules file, in the file's order.
    pub fn from_file(file: RuleFile) -> (s: Self)
        ensures
            s.rules@ == file.rules@,
    {
        RuleSet { rules: file.rules }
    }

    /// Number of rules.
    pub fn len(&self) -> (n: usize)
        ensures
            n == self.rules@.len(),
    {
        self.rules.len()
    }

    /// There are no rules.
    pub fn is_empty(&self) -> (b: bool)
        ensures
            b == (self.rules@.len() == 0),
    {
        self.rules.len() == 0
    }

    /// The rules in order.
    pub fn iter(&self) -> (it: std::slice::Iter<'_, Rule>)
        ensures
            vstd::std_specs::slice::into_iter_elts(it) == self.rules@,
    {
        self.rules.iter()
    }
}

/// The packet is shorter than its IPv4 or IPv6 header says it is.
pub open spec fn is_truncated(p: PacketView) -> bool {
    ||| p.ipv4 matches Some(h) && 14 + h.total_length > p.bytes.len()
    ||| p.ipv6 matches Some(h) && 54 + h.payload_length > p.bytes.len()
}

/// Source and destination ports are both known and equal (a land attack).
pub open spec fn has_same_ports(p: PacketView) -> bool {
    p.source_port is Some && p.destination_port is Some && p.source_port == p.destination_port
}

/// The packet's header is suspicious.
pub open spec fn is_protocol_anomaly(p: PacketView) -> bool {
    has_same_ports(p) || is_truncated(p)
}

/// The packet's source address is one of `blocked`.
pub open spec fn source_blocked(blocked: Seq<Seq<char>>, p: PacketView) -> bool {
    p.source_ip matches Some(src) && blocked.contains(src)
}

/// What `condition` says of a single packet (port scans need history and
/// never match one packet alone).
pub open spec fn condition_holds(condition: ConditionView, p: PacketView) -> bool {
    match condition {
        ConditionView::MatchAll => true,
        ConditionView::IpBlocklist { src_ips } => source_blocked(src_ips, p),
        ConditionView::PortScan { .. } => false,
        ConditionView::ProtocolAnomaly => is_protocol_anomaly(p),
    }
}

fn is_blocked(blocked: &Vec<String>, source_ip: &String) -> (b: bool)
    ensures
        b == schema::texts(blocked@).contains(source_ip@),
{
    let mut i: usize = 0;
    while i < blocked.len()
        invariant
            i <= blocked@.len(),
            forall|j: int| 0 <= j < i ==> #[trigger] blocked@[j]@ != source_ip@,
        decreases blocked@.len() - i,
    {
        if blocked[i] == *source_ip {
            assert(schema::texts(blocked@)[i as int] == source_ip@);
            return true;
        }
        i = i + 1;
    }
    assert(!schema::texts(blocked@).contains(source_ip@)) by {
        if schema::texts(blocked@).contains(source_ip@) {
            let k = choose|k: int| 0 <= k < blocked@.len() && schema::texts(blocked@)[k] == source_ip@;
            assert(blocked@[k]@ != source_ip@);
        }
    }
    false
}

fn protocol_anomaly(p: &ParsedPacket) -> (b: bool)
    ensures
        b == is_protocol_anomaly(p@),
{
    let same_ports = match (p.source_port, p.destination_port) {
        (Some(s), Some(d)) => s == d,
        _ => false,
    };
    let n: usize = p.bytes.len();
    let truncated_v4 = match p.ipv4 {
        Some(h) => (h.total_length as usize) > n || n - (h.total_length as usize) < 14,
        None => false,
    };
    let truncated_v6 = match p.ipv6 {
        Some(h) => (h.payload_length as usize) > n || n - (h.payload_length as usize) < 54,
        None => false,
    };
    same_ports || truncated_v4 || truncated_v6
}

/// An IP blocklist holds of a packet exactly when the packet has a source
/// address whose whole text is one of the listed texts: a source that is
/// not listed is never blocked, even when a listed text is a prefix of it
/// or it is a prefix of a listed text.
pub proof fn lemma_blocklist_is_exact_match(src_ips: Seq<Seq<char>>, p: PacketView)
    ensures
        condition_holds(ConditionView::IpBlocklist { src_ips }, p) <==> exists|k: int|
            0 <= k < src_ips.len() && p.source_ip == Some(#[trigger] src_ips[k]),
        p.source_ip is None ==> !condition_holds(ConditionView::IpBlocklist { src_ips }, p),
        forall|src: Seq<char>|
            p.source_ip == Some(src) && (forall|k: int| 0 <= k < src_ips.len() ==> #[trigger] src_ips[k]
                != src) ==> !condition_holds(ConditionView::IpBlocklist { src_ips }, p),
{
}

/// A protocol anomaly holds of a packet exactly when its source and
/// destination ports are both known and equal, or when fewer bytes were
/// captured than its IP header announces: 14 bytes of Ethernet header plus
/// the IPv4 total length, or 14 plus the 40-byte IPv6 header plus the IPv6
/// payload length. A frame of exactly the announced length, or longer, with
/// different ports is no anomaly.
pub proof fn lemma_protocol_anomaly_exact(p: PacketView)
    ensures
        condition_holds(ConditionView::ProtocolAnomaly, p) <==> {
            ||| (p.source_port matches Some(sp) && p.destination_port matches Some(dp) && sp == dp)
            ||| (p.ipv4 matches Some(h) && p.bytes.len() < 14 + h.total_length)
            ||| (p.ipv6 matches Some(h) && p.bytes.len() < 14 + 40 + h.payload_length)
        },
        (p.source_port != p.destination_port || p.source_port is None) && (p.ipv4 matches Some(h)
            ==> p.bytes.len() >= 14 + h.total_length) && (p.ipv6 matches Some(h) ==> p.bytes.len()
            >= 14 + 40 + h.payload_length) ==> !condition_holds(ConditionView::ProtocolAnomaly, p),
{
}

/// Whether `packet` satisfies `condition` on its own.
pub fn matches_condition(condition: &RuleCondition, packet: &ParsedPacket) -> (b: bool)
    ensures
        b == condition_holds(condition@, packet@),
{
    match condition {
        RuleCondition::MatchAll => true,
        RuleCondition::IpBlocklist { src_ips } => match &packet.source_ip {
            Some(source_ip) => is_blocked(src_ips, source_ip),
            None => false,
        },
        RuleCondition::PortScan { .. } => false,
        RuleCondition::ProtocolAnomaly => protocol_anomaly(packet),
    }
}

} // verus!
