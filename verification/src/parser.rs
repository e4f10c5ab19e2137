//! Decoding of captured Ethernet frames: the IPv4 and IPv6 headers, the
//! textual source and destination addresses and the TCP/UDP ports.
use vstd::prelude::*;

use crate::text::{ipv4_text, ipv6_text, push_ipv4, push_ipv6};

verus! {

/// EtherType of IPv4.
pub const ETHERTYPE_IPV4: u16 = 0x0800;

/// EtherType of IPv6.
pub const ETHERTYPE_IPV6: u16 = 0x86dd;

/// IP protocol number of TCP.
pub const PROTOCOL_TCP: u8 = 6;

/// IP protocol number of UDP.
pub const PROTOCOL_UDP: u8 = 17;

/// The fields of an IPv4 header that detection reads.
#[derive(Debug, Clone, Copy)]
pub struct Ipv4Header {
    /// Header length in bytes (IHL times four).
    pub header_length: u8,
    /// Total length of the datagram, header included, as the header states it.
    pub total_length: u16,
    pub ttl: u8,
    pub protocol: u8,
}

/// The fields of an IPv6 fixed header that detection reads.
#[derive(Debug, Clone, Copy)]
pub struct Ipv6Header {
    /// Length of what follows the fixed header, as the header states it.
    pub payload_length: u16,
    pub next_header: u8,
    pub hop_limit: u8,
}

/// A captured frame together with what was decoded from it.
#[derive(Debug, Clone)]
pub struct ParsedPacket {
    pub bytes: Vec<u8>,
    pub capture_time_secs: Option<u64>,
    pub ipv4: Option<Ipv4Header>,
    pub ipv6: Option<Ipv6Header>,
    pub source_ip: Option<String>,
    pub destination_ip: Option<String>,
    pub source_port: Option<u16>,
    pub destination_port: Option<u16>,
}

/// A big-endian 16-bit value.
pub open spec fn be16(hi: u8, lo: u8) -> u16 {
    (hi * 256 + lo) as u16
}

/// The EtherType of a frame, when it has a full Ethernet header.
pub open spec fn ethertype(b: Seq<u8>) -> Option<u16> {
    if b.len() >= 14 {
        Some(be16(b[12], b[13]))
    } else {
        None
    }
}

/// The IPv4 header of a frame: EtherType IPv4, version 4, a header length
/// of at least 20 bytes, and the whole header present.
pub open spec fn ipv4_header_of(b: Seq<u8>) -> Option<Ipv4Header> {
    if ethertype(b) == Some(ETHERTYPE_IPV4) && b.len() >= 34 && b[14] / 16 == 4 && b[14] % 16 >= 5
        && 14 + (b[14] % 16) * 4 <= b.len() {
        Some(
            Ipv4Header {
                header_length: ((b[14] % 16) * 4) as u8,
                total_length: be16(b[16], b[17]),
                ttl: b[22],
                protocol: b[23],
            },
        )
    } else {
        None
    }
}

/// The IPv6 header of a frame: EtherType IPv6, version 6, and the whole
/// fixed header present.
pub open spec fn ipv6_header_of(b: Seq<u8>) -> Option<Ipv6Header> {
    if ethertype(b) == Some(ETHERTYPE_IPV6) && b.len() >= 54 && b[14] / 16 == 6 {
        Some(Ipv6Header { payload_length: be16(b[18], b[19]), next_header: b[20], hop_limit: b[21] })
    } else {
        None
    }
}

/// Where the TCP or UDP header starts, when the IP header announces one.
pub open spec fn transport_offset(b: Seq<u8>) -> Option<int> {
    match ipv4_header_of(b) {
        Some(h) => if h.protocol == PROTOCOL_TCP || h.protocol == PROTOCOL_UDP {
            Some(14 + h.header_length)
        } else {
            None
        },
        None => match ipv6_header_of(b) {
            Some(h) => if h.next_header == PROTOCOL_TCP || h.next_header == PROTOCOL_UDP {
                Some(54)
            } else {
                None
            },
            None => None,
        },
    }
}

/// Source and destination ports, when the transport header's first four
/// bytes are present.
pub open spec fn ports_of(b: Seq<u8>) -> Option<(u16, u16)> {
    match transport_offset(b) {
        Some(o) => if o + 4 <= b.len() {
            Some((be16(b[o], b[o + 1]), be16(b[o + 2], b[o + 3])))
        } else {
            None
        },
        None => None,
    }
}

/// The text of the source address.
pub open spec fn source_ip_of(b: Seq<u8>) -> Option<Seq<char>> {
    if ipv4_header_of(b) is Some {
        Some(ipv4_text(b.subrange(26, 30)))
    } else if ipv6_header_of(b) is Some {
        Some(ipv6_text(b.subrange(22, 38)))
    } else {
        None
    }
}

/// The text of the destination address.
pub open spec fn destination_ip_of(b: Seq<u8>) -> Option<Seq<char>> {
    if ipv4_header_of(b) is Some {
        Some(ipv4_text(b.subrange(30, 34)))
    } else if ipv6_header_of(b) is Some {
        Some(ipv6_text(b.subrange(38, 54)))
    } else {
        None
    }
}

/// The characters of an optional string.
pub open spec fn opt_text(s: Option<String>) -> Option<Seq<char>> {
    match s {
        Some(t) => Some(t@),
        None => None,
    }
}

/// What a decoded packet holds, with texts as character sequences.
pub struct PacketView {
    pub bytes: Seq<u8>,
    pub capture_time_secs: Option<u64>,
    pub ipv4: Option<Ipv4Header>,
    pub ipv6: Option<Ipv6Header>,
    pub source_ip: Option<Seq<char>>,
    pub destination_ip: Option<Seq<char>>,
    pub source_port: Option<u16>,
    pub destination_port: Option<u16>,
}

impl View for ParsedPacket {
    type V = PacketView;

    open spec fn view(&self) -> PacketView {
        PacketView {
            bytes: self.bytes@,
            capture_time_secs: self.capture_time_secs,
            ipv4: self.ipv4,
            ipv6: self.ipv6,
            source_ip: opt_text(self.source_ip),
            destination_ip: opt_text(self.destination_ip),
            source_port: self.source_port,
            destination_port: self.destination_port,
        }
    }
}

/// What decoding the frame `b`, captured at `time`, gives.
pub open spec fn decoded(b: Seq<u8>, time: Option<u64>) -> PacketView {
    PacketView {
        bytes: b,
        capture_time_secs: time,
        ipv4: ipv4_header_of(b),
        ipv6: ipv6_header_of(b),
        source_ip: source_ip_of(b),
        destination_ip: destination_ip_of(b),
        source_port: match ports_of(b) {
            Some(pp) => Some(pp.0),
            None => None,
        },
        destination_port: match ports_of(b) {
            Some(pp) => Some(pp.1),
            None => None,
        },
    }
}

impl Default for ParsedPacket {
    fn default() -> (p: Self)
        ensures
            p@ == decoded(Seq::empty(), None),
    {
        ParsedPacket {
            bytes: Vec::new(),
            capture_time_secs: None,
            ipv4: None,
            ipv6: None,
            source_ip: None,
            destination_ip: None,
            source_port: None,
            destination_port: None,
        }
    }
}

impl ParsedPacket {
    /// Length of the captured frame in bytes.
    pub fn len(&self) -> (n: usize)
        ensures
            n == self.bytes@.len(),
    {
        self.bytes.len()
    }
}

fn read_be16(b: &[u8], i: usize) -> (v: u16)
    requires
        i + 1 < b@.len(),
    ensures
        v == be16(b@[i as int], b@[i + 1]),
{
    (b[i] as u16) * 256 + (b[i + 1] as u16)
}

fn ipv4_text_at(b: &[u8], off: usize) -> (s: String)
    requires
        off + 4 <= b@.len(),
    ensures
        s@ == ipv4_text(b@.subrange(off as int, off + 4)),
{
    let mut s = String::new();
    push_ipv4(&mut s, b, off);
    s
}

fn ipv6_text_at(b: &[u8], off: usize) -> (s: String)
    requires
        off + 16 <= b@.len(),
    ensures
        s@ == ipv6_text(b@.subrange(off as int, off + 16)),
{
    let mut s = String::new();
    push_ipv6(&mut s, b, off);
    s
}

fn decode(bytes: &[u8], time: Option<u64>) -> (p: ParsedPacket)
    ensures
        p@ == decoded(bytes@, time),
{
    let n: usize = bytes.len();
    let b = Ghost(bytes@);
    let mut ipv4: Option<Ipv4Header> = None;
    let mut ipv6: Option<Ipv6Header> = None;
    let mut source_ip: Option<String> = None;
    let mut destination_ip: Option<String> = None;
    let mut transport: Option<usize> = None;
    if n >= 14 {
        let et: u16 = read_be16(bytes, 12);
        if et == ETHERTYPE_IPV4 && n >= 34 && bytes[14] / 16 == 4 && bytes[14] % 16 >= 5 {
            let header_length: u8 = (bytes[14] % 16) * 4;
            if 14 + (header_length as usize) <= n {
                let h = Ipv4Header {
                    header_length,
                    total_length: read_be16(bytes, 16),
                    ttl: bytes[22],
                    protocol: bytes[23],
                };
                ipv4 = Some(h);
                source_ip = Some(ipv4_text_at(bytes, 26));
                destination_ip = Some(ipv4_text_at(bytes, 30));
                if h.protocol == PROTOCOL_TCP || h.protocol == PROTOCOL_UDP {
                    transport = Some(14 + header_length as usize);
                }
            }
        } else if et == ETHERTYPE_IPV6 && n >= 54 && bytes[14] / 16 == 6 {
            let h = Ipv6Header {
                payload_length: read_be16(bytes, 18),
                next_header: bytes[20],
                hop_limit: bytes[21],
            };
            ipv6 = Some(h);
            source_ip = Some(ipv6_text_at(bytes, 22));
            destination_ip = Some(ipv6_text_at(bytes, 38));
            if h.next_header == PROTOCOL_TCP || h.next_header == PROTOCOL_UDP {
                transport = Some(54);
            }
        }
    }
    assert(ipv4 == ipv4_header_of(b@));
    assert(ipv6 == ipv6_header_of(b@));
    assert(transport matches Some(o) ==> transport_offset(b@) == Some(o as int));
    assert(transport is None ==> transport_offset(b@) is None);
    let mut source_port: Option<u16> = None;
    let mut destination_port: Option<u16> = None;
    if let Some(o) = transport {
        if o <= n && n - o >= 4 {
            source_port = Some(read_be16(bytes, o));
            destination_port = Some(read_be16(bytes, o + 2));
        }
    }
    ParsedPacket {
        bytes: vstd::slice::slice_to_vec(bytes),
        capture_time_secs: time,
        ipv4,
        ipv6,
        source_ip,
        destination_ip,
        source_port,
        destination_port,
    }
}

/// Decodes a frame captured at `timestamp_secs` (seconds).
pub fn parse_with_timestamp(bytes: &[u8], timestamp_secs: u64) -> (p: ParsedPacket)
    ensures
        p@ == decoded(bytes@, Some(timestamp_secs)),
{
    decode(bytes, Some(timestamp_secs))
}

/// Decodes a frame whose capture time is not known.
pub fn parse(bytes: &[u8]) -> (p: ParsedPacket)
    ensures
        p@ == decoded(bytes@, None),
{
    decode(bytes, None)
}

/// The capture time is carried along and changes nothing else of the
/// decoding: `parse` and `parse_with_timestamp` decode a frame alike.
pub proof fn lemma_decoding_ignores_time(b: Seq<u8>, t1: Option<u64>, t2: Option<u64>)
    ensures
        decoded(b, t1) == (PacketView { capture_time_secs: t1, ..decoded(b, t2) }),
{
}

/// TCP and UDP ports of an IPv4 frame: when the frame carries EtherType
/// 0x0800, version 4 with a header of `ihl` 32-bit words (at least 5) that
/// is present, protocol 6 (TCP) or 17 (UDP), and the first four transport
/// bytes after the header, the source and destination ports are the
/// big-endian 16-bit values at offsets `14 + 4 * ihl` and `14 + 4 * ihl + 2`.
/// Any other protocol number gives no ports.
pub proof fn lemma_ipv4_transport_ports(b: Seq<u8>, t: Option<u64>)
    requires
        b.len() >= 34,
        b[12] == 0x08 && b[13] == 0x00,
        b[14] / 16 == 4,
        b[14] % 16 >= 5,
        14 + 4 * (b[14] % 16) + 4 <= b.len(),
    ensures
        ({
            let o = 14 + 4 * (b[14] % 16);
            let p = decoded(b, t);
            &&& b[23] == 6 || b[23] == 17 ==> (p.source_port matches Some(sp) && sp == b[o] * 256
                + b[o + 1]) && (p.destination_port matches Some(dp) && dp == b[o + 2] * 256 + b[o + 3])
            &&& b[23] != 6 && b[23] != 17 ==> p.source_port is None && p.destination_port is None
        }),
{
    let o = 14 + 4 * (b[14] % 16);
    assert(be16(b[12], b[13]) == 0x0800);
    assert(ipv4_header_of(b) is Some);
    assert(b[o] * 256 + b[o + 1] < 0x10000);
    assert(b[o + 2] * 256 + b[o + 3] < 0x10000);
}

/// TCP and UDP ports of an IPv6 frame: when the frame carries EtherType
/// 0x86dd and version 6, its next header is 6 (TCP) or 17 (UDP), and the
/// first four transport bytes after the 40-byte header are present, the
/// source and destination ports are the big-endian 16-bit values at offsets
/// 54 and 56. Any other next header gives no ports.
pub proof fn lemma_ipv6_transport_ports(b: Seq<u8>, t: Option<u64>)
    requires
        b.len() >= 58,
        b[12] == 0x86 && b[13] == 0xdd,
        b[14] / 16 == 6,
    ensures
        ({
            let p = decoded(b, t);
            &&& b[20] == 6 || b[20] == 17 ==> (p.source_port matches Some(sp) && sp == b[54] * 256
                + b[55]) && (p.destination_port matches Some(dp) && dp == b[56] * 256 + b[57])
            &&& b[20] != 6 && b[20] != 17 ==> p.source_port is None && p.destination_port is None
        }),
{
    assert(be16(b[12], b[13]) == 0x86dd);
    assert(ipv4_header_of(b) is None);
    assert(ipv6_header_of(b) is Some);
}

} // verus!
