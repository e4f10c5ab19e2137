//! Live capture. Packets come from libpcap, whose C interface the
//! application drives; this module decides everything around those calls:
//! which interface names can be handed over, how many packets to take,
//! when to stop, how a packet's time is read and which error is reported.
use vstd::prelude::*;
use vstd::string::StringExecFns;
use vstd::string::StringSliceAdditionalSpecFns;

pub use super::pcap_file::CapturedPacket;
use crate::text::{trim_text, trimmed};

verus! {

/// The name of the capture backend: "libpcap" when the library was found
/// at build time, "disabled" otherwise.
pub fn backend_name(libpcap_found: bool) -> (name: &'static str)
    ensures
        name@ == (if libpcap_found {
            "libpcap"@
        } else {
            "disabled"@
        }),
{
    if libpcap_found {
        "libpcap"
    } else {
        "disabled"
    }
}

/// The message of a live capture attempted without libpcap.
pub open spec fn live_capture_unavailable() -> Seq<char> {
    "live capture requires libpcap discovery (`--features pcap` or VIGIL_ENABLE_PCAP_DISCOVERY=1)"@
}

/// Live capture of up to `max_packets` packets on `interface`, in a build
/// without libpcap: always refused.
pub fn capture_live(_interface: &str, _max_packets: usize) -> (r: Result<Vec<CapturedPacket>, String>)
    ensures
        r matches Err(msg) && msg@ == live_capture_unavailable(),
{
    Err(
        String::from_str(
            "live capture requires libpcap discovery (`--features pcap` or VIGIL_ENABLE_PCAP_DISCOVERY=1)",
        ),
    )
}

/// The capture interfaces, in a build without libpcap: there is no way to
/// list them.
pub fn list_interfaces() -> (r: Result<Vec<String>, String>)
    ensures
        r matches Err(msg) && msg@ == live_capture_unavailable(),
{
    Err(
        String::from_str(
            "live capture requires libpcap discovery (`--features pcap` or VIGIL_ENABLE_PCAP_DISCOVERY=1)",
        ),
    )
}

/// The message for an interface name that cannot be handed to libpcap.
pub open spec fn interior_null_message() -> Seq<char> {
    "interface contains an interior null byte"@
}

/// The UTF-8 encoding of a character holds a zero byte only for the NUL
/// character: every byte of a longer encoding has its high bit set.
proof fn lemma_scalar_zero_byte(c: u32)
    requires
        vstd::utf8::is_scalar(c),
    ensures
        vstd::utf8::encode_scalar(c).contains(0u8) <==> c == 0,
{
    let e = vstd::utf8::encode_scalar(c);
    if vstd::utf8::has_width_1_encoding(c) {
        assert(vstd::utf8::leading_byte_width_1(c) == 0 <==> c == 0) by (bit_vector)
            requires
                c <= 0x7f,
        ;
        assert(e[0] == vstd::utf8::leading_byte_width_1(c));
    } else {
        assert(vstd::utf8::last_continuation_byte(c) != 0) by (bit_vector);
        assert(vstd::utf8::second_last_continuation_byte(c) != 0) by (bit_vector);
        assert(vstd::utf8::third_last_continuation_byte(c) != 0) by (bit_vector);
        assert(vstd::utf8::leading_byte_width_2(c) != 0) by (bit_vector);
        assert(vstd::utf8::leading_byte_width_3(c) != 0) by (bit_vector);
        assert(vstd::utf8::leading_byte_width_4(c) != 0) by (bit_vector);
        assert forall|i: int| 0 <= i < e.len() implies e[i] != 0u8 by {}
    }
}

/// The UTF-8 encoding of `chars` holds a zero byte exactly when `chars`
/// holds the NUL character.
proof fn lemma_encoding_zero_byte(chars: Seq<char>)
    ensures
        vstd::utf8::encode_utf8(chars).contains(0u8) <==> chars.contains('\0'),
    decreases chars.len(),
{
    if chars.len() > 0 {
        let head = vstd::utf8::encode_scalar(chars[0] as u32);
        let rest = vstd::utf8::encode_utf8(chars.drop_first());
        vstd::utf8::char_is_scalar(chars[0]);
        lemma_scalar_zero_byte(chars[0] as u32);
        lemma_encoding_zero_byte(chars.drop_first());
        let all = head + rest;
        assert(all.contains(0u8) <==> head.contains(0u8) || rest.contains(0u8)) by {
            if all.contains(0u8) {
                let k = choose|k: int| 0 <= k < all.len() && all[k] == 0u8;
                if k < head.len() {
                    assert(head[k] == 0u8);
                } else {
                    assert(rest[k - head.len()] == 0u8);
                }
            }
            if head.contains(0u8) {
                let k = choose|k: int| 0 <= k < head.len() && head[k] == 0u8;
                assert(all[k] == 0u8);
            }
            if rest.contains(0u8) {
                let k = choose|k: int| 0 <= k < rest.len() && rest[k] == 0u8;
                assert(all[k + head.len()] == 0u8);
            }
        }
        vstd::utf8::char_u32_cast(chars[0], chars[0] as u32);
        vstd::utf8::char_u32_cast('\0', 0u32);
        assert(chars.contains('\0') <==> chars[0] == '\0' || chars.drop_first().contains('\0')) by {
            if chars.contains('\0') {
                let k = choose|k: int| 0 <= k < chars.len() && chars[k] == '\0';
                if k > 0 {
                    assert(chars.drop_first()[k - 1] == '\0');
                }
            }
            if chars.drop_first().contains('\0') {
                let k = choose|k: int| 0 <= k < chars.len() - 1 && chars.drop_first()[k] == '\0';
                assert(chars[k + 1] == '\0');
            }
        }
    }
}

/// Checks that `interface` can be handed to libpcap as a C string: it
/// holds no NUL character (whose UTF-8 encoding is the only one with a zero
/// byte).
pub fn check_interface_name(interface: &str) -> (r: Result<(), String>)
    ensures
        r is Ok <==> !interface@.contains('\0'),
        r matches Err(msg) ==> msg@ == interior_null_message(),
{
    proof {
        lemma_encoding_zero_byte(interface@);
    }
    let bytes = interface.as_bytes();
    let mut i: usize = 0;
    while i < bytes.len()
        invariant
            bytes@ == interface.spec_bytes(),
            0 <= i <= bytes@.len(),
            forall|k: int| 0 <= k < i ==> bytes@[k] != 0u8,
        decreases bytes@.len() - i,
    {
        if bytes[i] == 0u8 {
            assert(bytes@[i as int] == 0u8);
            assert(interface.spec_bytes().contains(0u8));
            proof {
                lemma_encoding_zero_byte(interface@);
            }
            return Err(String::from_str("interface contains an interior null byte"));
        }
        i = i + 1;
    }
    Ok(())
}

/// The message for an interface that libpcap could not open, given the
/// text that libpcap left in its error buffer.
pub open spec fn open_failure_text(interface: Seq<char>, errbuf: Seq<char>) -> Seq<char> {
    "failed to open live interface "@ + interface + ": "@ + trimmed(errbuf)
}

/// The error reported when libpcap cannot open `interface`; `errbuf` is the
/// text of libpcap's error buffer, whose surrounding white space is dropped.
pub fn open_failure_message(interface: &str, errbuf: &str) -> (m: String)
    ensures
        m@ == open_failure_text(interface@, errbuf@),
{
    let mut m = String::from_str("failed to open live interface ");
    m.append(interface);
    m.append(": ");
    m.append(trim_text(errbuf));
    m
}

/// What one read from libpcap gave.
pub enum NextOutcome {
    /// A packet with its capture time in seconds and its captured bytes.
    Packet { ts_sec: i64, data: Vec<u8> },
    /// A read that reported a packet but handed over no header or no data.
    Missing,
    /// The read timed out with no packet.
    Timeout,
    /// libpcap reported an error, with its message when it gave one.
    Failed { message: Option<String> },
    /// The capture ended.
    End,
}

/// The state of a live capture: the packets taken so far, the number of
/// timeouts in a row, and how many packets to take at most.
pub struct LiveCapture {
    pub packets: Vec<CapturedPacket>,
    pub idle_timeouts: u32,
    pub max_packets: usize,
}

/// What the capture loop does next.
pub enum LiveAction {
    /// Read the next packet.
    ReadNext,
    /// Stop and hand back these packets.
    Finish(Vec<CapturedPacket>),
    /// Stop with this error.
    Fail(String),
}

/// The number of timeouts in a row after which a live capture stops.
pub const MAX_IDLE_TIMEOUTS: u32 = 3;

/// The capture time of a packet in whole seconds: times before the epoch
/// count as zero.
pub open spec fn capture_secs(ts_sec: i64) -> u64 {
    if ts_sec < 0 {
        0
    } else {
        ts_sec as u64
    }
}

/// The packets held after `o`.
pub open spec fn held_after(held: Seq<CapturedPacket>, o: NextOutcome) -> Seq<CapturedPacket> {
    match o {
        NextOutcome::Packet { ts_sec, data } => held.push(
            CapturedPacket { timestamp_secs: capture_secs(ts_sec), data },
        ),
        _ => held,
    }
}

/// The count of timeouts in a row after `o`: a read that reported a packet
/// resets it, a timeout adds one (saturating).
pub open spec fn idle_after(idle: u32, o: NextOutcome) -> u32 {
    match o {
        NextOutcome::Packet { .. } => 0,
        NextOutcome::Missing => 0,
        NextOutcome::Timeout => if idle == u32::MAX {
            idle
        } else {
            (idle + 1) as u32
        },
        _ => idle,
    }
}

/// Whether the capture reads on after `o`: not after an error or the end of
/// the capture, nor after the third timeout in a row, and only while fewer
/// than `max` packets are held.
pub open spec fn keeps_reading(s: LiveCapture, o: NextOutcome) -> bool {
    match o {
        NextOutcome::Failed { .. } => false,
        NextOutcome::End => false,
        _ => idle_after(s.idle_timeouts, o) < MAX_IDLE_TIMEOUTS && held_after(s.packets@, o).len()
            < s.max_packets,
    }
}

/// The message of a capture that libpcap failed.
pub open spec fn capture_error_text(message: Option<String>) -> Seq<char> {
    "libpcap capture error: "@ + match message {
        Some(m) => m@,
        None => "unknown libpcap error"@,
    }
}

/// The state and first action of a live capture of up to `max_packets`
/// packets: nothing is read when no packet is wanted.
pub fn start_live_capture(max_packets: usize) -> (r: (LiveCapture, LiveAction))
    ensures
        r.0.packets@.len() == 0,
        r.0.idle_timeouts == 0,
        r.0.max_packets == max_packets,
        r.1 is ReadNext <==> max_packets > 0,
        r.1 matches LiveAction::Finish(v) ==> v@.len() == 0,
        !(r.1 is Fail),
{
    let s = LiveCapture { packets: Vec::new(), idle_timeouts: 0, max_packets };
    if max_packets > 0 {
        (s, LiveAction::ReadNext)
    } else {
        (s, LiveAction::Finish(Vec::new()))
    }
}

/// One step of a live capture: takes what a read from libpcap gave and
/// says what to do next. A packet is kept with its time clamped at zero,
/// and the capture goes on while fewer than `max_packets` packets are held;
/// it stops at the third timeout in a row, at the end of the capture, or
/// with an error when libpcap fails.
pub fn live_capture_step(s: LiveCapture, o: NextOutcome) -> (r: (LiveCapture, LiveAction))
    ensures
        r.0.max_packets == s.max_packets,
        r.0.idle_timeouts == idle_after(s.idle_timeouts, o),
        r.1 is ReadNext <==> keeps_reading(s, o),
        r.1 is Fail <==> o is Failed,
        r.1 is ReadNext ==> r.0.packets@ == held_after(s.packets@, o),
        !(r.1 is ReadNext) ==> r.0.packets@.len() == 0,
        r.1 matches LiveAction::Finish(v) ==> v@ == held_after(s.packets@, o),
        r.1 matches LiveAction::Fail(msg) ==> (o matches NextOutcome::Failed { message }
            && msg@ == capture_error_text(message)),
{
    let LiveCapture { packets, idle_timeouts, max_packets } = s;
    let mut packets = packets;
    let ghost held = packets@;
    let idle: u32 = match o {
        NextOutcome::Packet { ts_sec, data } => {
            let t: u64 = if ts_sec < 0 {
                0
            } else {
                ts_sec as u64
            };
            packets.push(CapturedPacket { timestamp_secs: t, data });
            0
        },
        NextOutcome::Missing => 0,
        NextOutcome::Timeout => {
            if idle_timeouts == u32::MAX {
                idle_timeouts
            } else {
                idle_timeouts + 1
            }
        },
        NextOutcome::Failed { message } => {
            let mut msg = String::from_str("libpcap capture error: ");
            match message {
                Some(m) => msg.append(m.as_str()),
                None => msg.append("unknown libpcap error"),
            }
            return (
                LiveCapture { packets: Vec::new(), idle_timeouts, max_packets },
                LiveAction::Fail(msg),
            );
        },
        NextOutcome::End => {
            return (
                LiveCapture { packets: Vec::new(), idle_timeouts, max_packets },
                LiveAction::Finish(packets),
            );
        },
    };
    assert(packets@ == held_after(held, o));
    if idle < MAX_IDLE_TIMEOUTS && packets.len() < max_packets {
        (LiveCapture { packets, idle_timeouts: idle, max_packets }, LiveAction::ReadNext)
    } else {
        (LiveCapture { packets: Vec::new(), idle_timeouts: idle, max_packets }, LiveAction::Finish(packets))
    }
}

/// The count of timeouts in a row after the reads `outs`, starting from
/// `idle`.
pub open spec fn idle_after_all(idle: u32, outs: Seq<NextOutcome>) -> u32
    decreases outs.len(),
{
    if outs.len() == 0 {
        idle
    } else {
        idle_after(idle_after_all(idle, outs.drop_last()), outs.last())
    }
}

/// The number of timeouts at the end of `outs`, after its last read of
/// another kind.
pub open spec fn trailing_timeouts(outs: Seq<NextOutcome>) -> nat
    decreases outs.len(),
{
    if outs.len() > 0 && outs.last() is Timeout {
        1 + trailing_timeouts(outs.drop_last())
    } else {
        0
    }
}

/// A live capture counts timeouts in a row: from the start, after reads
/// that each gave a packet, a packet without data, or a timeout, the
/// count is the number of timeouts since the last read that reported a
/// packet. So a capture stops for timeouts only after three with no packet
/// between them.
pub proof fn lemma_idle_count_is_timeouts_in_a_row(outs: Seq<NextOutcome>)
    requires
        outs.len() < 0xffff_ffff,
        forall|k: int| 0 <= k < outs.len() ==> (#[trigger] outs[k] is Packet || outs[k] is Missing
            || outs[k] is Timeout),
    ensures
        idle_after_all(0, outs) == trailing_timeouts(outs),
        trailing_timeouts(outs) <= outs.len(),
    decreases outs.len(),
{
    if outs.len() > 0 {
        let rest = outs.drop_last();
        assert forall|k: int| 0 <= k < rest.len() implies (#[trigger] rest[k] is Packet || rest[k] is Missing
            || rest[k] is Timeout) by {
            assert(rest[k] == outs[k]);
        }
        lemma_idle_count_is_timeouts_in_a_row(rest);
        assert(outs[outs.len() - 1] == outs.last());
    }
}

/// When a live capture reads on after one read, for a capture that could
/// still read: after a packet while the packets held, it included, stay
/// below the limit, the packet being kept with its capture time, or zero
/// for a time before the epoch; after a read that handed over no packet
/// while the limit is not reached; after a timeout only while it is the
/// first or second in a row; never after an error or the end of capture.
pub proof fn lemma_when_capture_reads_on(s: LiveCapture, o: NextOutcome)
    requires
        s.packets@.len() < s.max_packets,
        s.idle_timeouts < 3,
    ensures
        o matches NextOutcome::Packet { ts_sec, data } ==> {
            &&& keeps_reading(s, o) <==> s.packets@.len() + 1 < s.max_packets
            &&& held_after(s.packets@, o).last() == (CapturedPacket {
                timestamp_secs: if ts_sec >= 0 { ts_sec as u64 } else { 0 },
                data,
            })
            &&& held_after(s.packets@, o).drop_last() == s.packets@
        },
        o is Missing ==> keeps_reading(s, o),
        o is Timeout ==> (keeps_reading(s, o) <==> s.idle_timeouts + 1 < 3),
        o is Failed || o is End ==> !keeps_reading(s, o),
{
    if o is Packet {
        assert(held_after(s.packets@, o).drop_last() =~= s.packets@);
    }
}

/// A live capture never holds more than `max_packets` packets: from a
/// state that can still read, a step either reads on with fewer than
/// `max_packets` packets, or stops with at most `max_packets`.
pub proof fn lemma_live_capture_within_limit(s: LiveCapture, o: NextOutcome)
    requires
        s.packets@.len() < s.max_packets,
    ensures
        held_after(s.packets@, o).len() <= s.max_packets,
        keeps_reading(s, o) ==> held_after(s.packets@, o).len() < s.max_packets,
        o is Packet ==> held_after(s.packets@, o).len() == s.packets@.len() + 1,
        !(o is Packet) ==> held_after(s.packets@, o) == s.packets@,
{
}

} // verus!
