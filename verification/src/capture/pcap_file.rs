//! Reading of classic pcap capture files (the libpcap file format): a
//! 24-byte global header whose magic number gives the byte order, then
//! records of a 16-byte header and the captured bytes.
use vstd::prelude::*;
use vstd::string::StringExecFns;

verus! {

/// Length of the global header of a pcap file.
pub const PCAP_GLOBAL_HEADER_LEN: usize = 24;

/// Length of the header of each packet record.
pub const PCAP_PACKET_HEADER_LEN: usize = 16;

/// Byte order of the integers of a pcap file.
#[derive(Debug, Clone, Copy)]
pub enum Endianness {
    Little,
    Big,
}

/// A packet record of a capture: its timestamp (seconds) and captured bytes.
#[derive(Debug, Clone)]
pub struct CapturedPacket {
    pub timestamp_secs: u64,
    pub data: Vec<u8>,
}

impl View for CapturedPacket {
    type V = (u64, Seq<u8>);

    open spec fn view(&self) -> (u64, Seq<u8>) {
        (self.timestamp_secs, self.data@)
    }
}

/// Why a capture file is refused.
pub enum PcapError {
    TooSmall,
    UnsupportedMagic,
    TruncatedHeader,
    TruncatedData,
}

/// The message that reports `e`.
pub open spec fn pcap_error_message(e: PcapError) -> Seq<char> {
    match e {
        PcapError::TooSmall => "pcap file is too small to contain a global header"@,
        PcapError::UnsupportedMagic => "unsupported pcap magic number"@,
        PcapError::TruncatedHeader => "truncated pcap packet header"@,
        PcapError::TruncatedData => "truncated pcap packet data"@,
    }
}

/// The byte order that the magic number at the start of `b` announces:
/// microsecond or nanosecond timestamps, written either way round.
pub open spec fn magic_order(b: Seq<u8>) -> Option<Endianness> {
    if b.len() < 4 {
        None
    } else if (b[0] == 0xd4 && b[1] == 0xc3 && b[2] == 0xb2 && b[3] == 0xa1) || (b[0] == 0x4d
        && b[1] == 0x3c && b[2] == 0xb2 && b[3] == 0xa1) {
        Some(Endianness::Little)
    } else if (b[0] == 0xa1 && b[1] == 0xb2 && b[2] == 0xc3 && b[3] == 0xd4) || (b[0] == 0xa1
        && b[1] == 0xb2 && b[2] == 0x3c && b[3] == 0x4d) {
        Some(Endianness::Big)
    } else {
        None
    }
}

/// The 32-bit integer `b[i..i + 4]` in byte order `e`.
pub open spec fn u32_at(b: Seq<u8>, i: int, e: Endianness) -> u32 {
    match e {
        Endianness::Little => (b[i] + b[i + 1] * 0x100 + b[i + 2] * 0x10000 + b[i + 3]
            * 0x1000000) as u32,
        Endianness::Big => (b[i + 3] + b[i + 2] * 0x100 + b[i + 1] * 0x10000 + b[i]
            * 0x1000000) as u32,
    }
}

/// The record that starts at `off`, with the offset that follows it;
/// `None` at the end of the file.
pub open spec fn record_at(b: Seq<u8>, off: int, e: Endianness) -> Result<
    Option<((u64, Seq<u8>), int)>,
    PcapError,
> {
    if off >= b.len() {
        Ok(None)
    } else if b.len() - off < 16 {
        Err(PcapError::TruncatedHeader)
    } else {
        let incl = u32_at(b, off + 8, e) as int;
        let start = off + 16;
        if b.len() - start < incl {
            Err(PcapError::TruncatedData)
        } else {
            Ok(Some(((u32_at(b, off, e) as u64, b.subrange(start, start + incl)), start + incl)))
        }
    }
}

/// Where the reader stands after one read at `off`: after the record that
/// was read; where it was at the end of the file or before a truncated
/// record header; after the header of a record whose data is truncated.
pub open spec fn next_offset(b: Seq<u8>, off: int, e: Endianness) -> int {
    match record_at(b, off, e) {
        Ok(Some((_, next))) => next,
        Err(PcapError::TruncatedData) => off + 16,
        _ => off,
    }
}

/// The records of `b` from `off` to the end, in file order.
pub open spec fn records_from(b: Seq<u8>, off: int, e: Endianness) -> Result<
    Seq<(u64, Seq<u8>)>,
    PcapError,
>
    decreases b.len() - off,
{
    match record_at(b, off, e) {
        Ok(None) => Ok(seq![]),
        Ok(Some((p, next))) => if next > off {
            match records_from(b, next, e) {
                Ok(rest) => Ok(seq![p] + rest),
                Err(err) => Err(err),
            }
        } else {
            Ok(seq![])
        },
        Err(err) => Err(err),
    }
}

/// The packet records of the capture file `b`, or why it is refused.
pub open spec fn pcap_records(b: Seq<u8>) -> Result<Seq<(u64, Seq<u8>)>, PcapError> {
    if b.len() < 24 {
        Err(PcapError::TooSmall)
    } else {
        match magic_order(b) {
            Some(e) => records_from(b, 24, e),
            None => Err(PcapError::UnsupportedMagic),
        }
    }
}

struct PcapReader<'a> {
    bytes: &'a [u8],
    offset: usize,
    endianness: Endianness,
}

fn error_text(e: PcapError) -> (s: String)
    ensures
        s@ == pcap_error_message(e),
{
    match e {
        PcapError::TooSmall => String::from_str("pcap file is too small to contain a global header"),
        PcapError::UnsupportedMagic => String::from_str("unsupported pcap magic number"),
        PcapError::TruncatedHeader => String::from_str("truncated pcap packet header"),
        PcapError::TruncatedData => String::from_str("truncated pcap packet data"),
    }
}

impl<'a> PcapReader<'a> {
    fn new(bytes: &'a [u8]) -> (r: Result<Self, String>)
        ensures
            match r {
                Ok(reader) => {
                    &&& bytes@.len() >= 24
                    &&& magic_order(bytes@) == Some(reader.endianness)
                    &&& reader.bytes@ == bytes@
                    &&& reader.offset == 24
                },
                Err(msg) => pcap_records(bytes@) matches Err(e) && (e is TooSmall
                    || e is UnsupportedMagic) && msg@ == pcap_error_message(e),
            },
    {
        if bytes.len() < PCAP_GLOBAL_HEADER_LEN {
            return Err(error_text(PcapError::TooSmall));
        }
        let endianness = if (bytes[0] == 0xd4 && bytes[1] == 0xc3 && bytes[2] == 0xb2 && bytes[3]
            == 0xa1) || (bytes[0] == 0x4d && bytes[1] == 0x3c && bytes[2] == 0xb2 && bytes[3]
            == 0xa1) {
            Endianness::Little
        } else if (bytes[0] == 0xa1 && bytes[1] == 0xb2 && bytes[2] == 0xc3 && bytes[3] == 0xd4)
            || (bytes[0] == 0xa1 && bytes[1] == 0xb2 && bytes[2] == 0x3c && bytes[3] == 0x4d) {
            Endianness::Big
        } else {
            return Err(error_text(PcapError::UnsupportedMagic));
        };
        Ok(PcapReader { bytes, offset: PCAP_GLOBAL_HEADER_LEN, endianness })
    }

    fn read_u32(&self, bytes: &[u8]) -> (v: u32)
        requires
            bytes@.len() >= 4,
        ensures
            v == u32_at(bytes@, 0, self.endianness),
    {
        match self.endianness {
            Endianness::Little => (bytes[0] as u32) + (bytes[1] as u32) * 0x100 + (bytes[2] as u32)
                * 0x10000 + (bytes[3] as u32) * 0x1000000,
            Endianness::Big => (bytes[3] as u32) + (bytes[2] as u32) * 0x100 + (bytes[1] as u32)
                * 0x10000 + (bytes[0] as u32) * 0x1000000,
        }
    }

    fn next_packet(&mut self) -> (r: Result<Option<CapturedPacket>, String>)
        ensures
            final(self).bytes == old(self).bytes,
            final(self).endianness == old(self).endianness,
            match record_at(old(self).bytes@, old(self).offset as int, old(self).endianness) {
                Ok(None) => r matches Ok(None) && final(self).offset == old(self).offset,
                Ok(Some((p, next))) => r matches Ok(Some(packet)) && packet@ == p
                    && final(self).offset == next,
                Err(e) => r matches Err(msg) && msg@ == pcap_error_message(e) && (e is TruncatedHeader
                    ==> final(self).offset == old(self).offset) && (e is TruncatedData
                    ==> final(self).offset == old(self).offset + 16),
            },
            final(self).offset == next_offset(old(self).bytes@, old(self).offset as int, old(self).endianness),
            24 <= old(self).offset <= old(self).bytes@.len() ==> 24 <= final(self).offset
                <= final(self).bytes@.len(),
            r matches Ok(Some(packet)) ==> final(self).offset == old(self).offset + 16
                + packet.data@.len(),
    {
        let len: usize = self.bytes.len();
        if self.offset >= len {
            return Ok(None);
        }
        if len - self.offset < PCAP_PACKET_HEADER_LEN {
            return Err(error_text(PcapError::TruncatedHeader));
        }
        let header = vstd::slice::slice_subrange(
            self.bytes,
            self.offset,
            self.offset + PCAP_PACKET_HEADER_LEN,
        );
        let ts_sec: u64 = self.read_u32(vstd::slice::slice_subrange(header, 0, 4)) as u64;
        let incl_len: usize = self.read_u32(vstd::slice::slice_subrange(header, 8, 12)) as usize;
        proof {
            assert(header@.subrange(0, 4) =~= self.bytes@.subrange(self.offset as int, self.offset + 4));
            assert(header@.subrange(8, 12) =~= self.bytes@.subrange(self.offset + 8, self.offset + 12));
        }
        self.offset = self.offset + PCAP_PACKET_HEADER_LEN;
        if len - self.offset < incl_len {
            return Err(error_text(PcapError::TruncatedData));
        }
        let data = vstd::slice::slice_to_vec(
            vstd::slice::slice_subrange(self.bytes, self.offset, self.offset + incl_len),
        );
        self.offset = self.offset + incl_len;
        Ok(Some(CapturedPacket { timestamp_secs: ts_sec, data }))
    }
}

/// Reads every packet record of the capture file whose contents are `bytes`.
pub fn read_pcap_bytes(bytes: &[u8]) -> (r: Result<Vec<CapturedPacket>, String>)
    ensures
        match pcap_records(bytes@) {
            Ok(records) => r matches Ok(packets) && packets@.map_values(
                |p: CapturedPacket| p@,
            ) == records,
            Err(e) => r matches Err(msg) && msg@ == pcap_error_message(e),
        },
{
    let mut reader = match PcapReader::new(bytes) {
        Ok(reader) => reader,
        Err(msg) => return Err(msg),
    };
    let ghost b = bytes@;
    let ghost e = reader.endianness;
    let mut packets: Vec<CapturedPacket> = Vec::new();
    loop
        invariant
            reader.bytes@ == b,
            b == bytes@,
            reader.endianness == e,
            b.len() >= 24,
            magic_order(b) == Some(e),
            match records_from(b, 24, e) {
                Ok(all) => records_from(b, reader.offset as int, e) matches Ok(rest) && all
                    == packets@.map_values(|p: CapturedPacket| p@) + rest,
                Err(err) => records_from(b, reader.offset as int, e) == Err::<
                    Seq<(u64, Seq<u8>)>,
                    PcapError,
                >(err),
            },
        decreases b.len() - reader.offset,
    {
        let ghost off = reader.offset as int;
        let ghost old_packets = packets@.map_values(|p: CapturedPacket| p@);
        match reader.next_packet() {
            Ok(Some(packet)) => {
                packets.push(packet);
                proof {
                    assert(packets@.map_values(|p: CapturedPacket| p@) =~= old_packets.push(
                        packet@,
                    ));
                    match records_from(b, off, e) {
                        Ok(rest) => {
                            assert(rest =~= seq![packet@] + rest.drop_first());
                        },
                        Err(_) => {},
                    }
                }
            },
            Ok(None) => {
                proof {
                    assert(records_from(b, off, e) == Ok::<Seq<(u64, Seq<u8>)>, PcapError>(seq![]));
                    assert(packets@.map_values(|p: CapturedPacket| p@) + seq![] =~= packets@.map_values(
                        |p: CapturedPacket| p@,
                    ));
                }
                return Ok(packets);
            },
            Err(msg) => {
                proof {
                    assert(record_at(b, off, e) is Err);
                    assert(records_from(b, off, e) == Err::<Seq<(u64, Seq<u8>)>, PcapError>(
                        record_at(b, off, e)->Err_0,
                    ));
                }
                return Err(msg);
            },
        }
    }
}

/// Bytes that records take in a file: a 16-byte header and the data each.
pub open spec fn records_size(records: Seq<(u64, Seq<u8>)>) -> int
    decreases records.len(),
{
    if records.len() == 0 {
        0
    } else {
        16 + records[0].1.len() + records_size(records.drop_first())
    }
}

/// An accepted capture file is read to its last byte: after the global
/// header, its records and their headers take the whole file.
pub proof fn lemma_records_cover_file(b: Seq<u8>)
    ensures
        pcap_records(b) matches Ok(records) ==> 24 + records_size(records) == b.len(),
{
    if b.len() >= 24 {
        if let Some(e) = magic_order(b) {
            lemma_records_from_cover(b, 24, e);
        }
    }
}

/// Each record that is read moves the read position forward by its 16-byte
/// header and its captured bytes, and never past the end of the file.
pub proof fn lemma_record_advances(b: Seq<u8>, off: int, e: Endianness)
    requires
        0 <= off <= b.len(),
    ensures
        record_at(b, off, e) matches Ok(Some((p, next))) ==> next == off + 16 + p.1.len() && off
            < next <= b.len(),
        record_at(b, off, e) matches Ok(None) <==> off == b.len(),
{
}

/// The reader never leaves the file: from any position between the end of
/// the global header and the end of the file, one read leaves it between
/// them, and a read that gives a packet moves it forward by the 16-byte
/// record header and the packet's bytes, so by at least 16.
pub proof fn lemma_reader_stays_in_file(b: Seq<u8>, off: int, e: Endianness)
    requires
        24 <= off <= b.len(),
    ensures
        24 <= next_offset(b, off, e) <= b.len(),
        record_at(b, off, e) matches Ok(Some((p, next))) ==> next_offset(b, off, e) == off + 16
            + p.1.len(),
        record_at(b, off, e) is Ok ==> next_offset(b, off, e) - off == 0 || next_offset(b, off, e)
            - off >= 16,
{
}

/// A record is framed by its captured length, the `incl_len` field at
/// bytes 8..12 of its 16-byte header; the original length at bytes 12..16
/// plays no part. When the header and `incl_len` bytes of data are present,
/// the record is read with the timestamp of bytes 0..4 and exactly those
/// bytes, and the next record starts right after them, whatever the
/// original length says; when fewer than `incl_len` bytes follow the
/// header, the data is truncated.
pub proof fn lemma_record_framed_by_captured_length(b: Seq<u8>, off: int, e: Endianness)
    requires
        0 <= off,
        off + 16 <= b.len(),
    ensures
        ({
            let incl = u32_at(b, off + 8, e) as int;
            &&& off + 16 + incl <= b.len() ==> record_at(b, off, e) == Ok::<
                Option<((u64, Seq<u8>), int)>,
                PcapError,
            >(Some(((u32_at(b, off, e) as u64, b.subrange(off + 16, off + 16 + incl)), off + 16 + incl)))
            &&& off + 16 + incl > b.len() ==> record_at(b, off, e) == Err::<
                Option<((u64, Seq<u8>), int)>,
                PcapError,
            >(PcapError::TruncatedData)
        }),
        forall|x: u8, k: int|
            off + 12 <= k < off + 16 ==> #[trigger] record_at(b.update(k, x), off, e) == record_at(b, off, e),
{
    assert forall|x: u8, k: int| off + 12 <= k < off + 16 implies #[trigger] record_at(b.update(k, x), off, e)
        == record_at(b, off, e) by {
        let b2 = b.update(k, x);
        let incl = u32_at(b, off + 8, e) as int;
        assert(u32_at(b2, off + 8, e) == u32_at(b, off + 8, e));
        assert(u32_at(b2, off, e) == u32_at(b, off, e));
        if off + 16 + incl <= b.len() {
            assert(b2.subrange(off + 16, off + 16 + incl) =~= b.subrange(off + 16, off + 16 + incl));
        }
    }
}

/// A little-endian capture file (magic d4 c3 b2 a1) holding one complete
/// record is read as that one packet: the timestamp of bytes 24..28 and the
/// captured bytes that follow the record header, as many as its `incl_len`
/// field (bytes 32..36) says and up to the end of the file.
pub proof fn lemma_single_record_file(b: Seq<u8>)
    requires
        b.len() >= 40,
        b[0] == 0xd4 && b[1] == 0xc3 && b[2] == 0xb2 && b[3] == 0xa1,
        40 + (b[32] + b[33] * 0x100 + b[34] * 0x10000 + b[35] * 0x1000000) == b.len(),
    ensures
        pcap_records(b) == Ok::<Seq<(u64, Seq<u8>)>, PcapError>(
            seq![((b[24] + b[25] * 0x100 + b[26] * 0x10000 + b[27] * 0x1000000) as u64, b.subrange(40, b.len() as int))],
        ),
{
    let e = Endianness::Little;
    assert(magic_order(b) == Some(e));
    assert(u32_at(b, 32, e) as int == b[32] + b[33] * 0x100 + b[34] * 0x10000 + b[35] * 0x1000000);
    assert(record_at(b, b.len() as int, e) is Ok);
    assert(records_from(b, b.len() as int, e) == Ok::<Seq<(u64, Seq<u8>)>, PcapError>(seq![]));
    let p = (u32_at(b, 24, e) as u64, b.subrange(40, b.len() as int));
    assert(record_at(b, 24, e) == Ok::<Option<((u64, Seq<u8>), int)>, PcapError>(Some((p, b.len() as int))));
    assert(seq![p] + Seq::<(u64, Seq<u8>)>::empty() =~= seq![p]);
}

/// An accepted capture file of `n` bytes holds at most `(n - 24) / 16`
/// records, as each takes its 16-byte header after the 24-byte global
/// header.
pub proof fn lemma_record_count_bound(b: Seq<u8>)
    ensures
        pcap_records(b) matches Ok(records) ==> records.len() <= (b.len() - 24) / 16,
{
    lemma_records_cover_file(b);
    if let Ok(records) = pcap_records(b) {
        lemma_records_size_at_least(records);
    }
}

proof fn lemma_records_size_at_least(records: Seq<(u64, Seq<u8>)>)
    ensures
        records_size(records) >= 16 * records.len(),
    decreases records.len(),
{
    if records.len() > 0 {
        lemma_records_size_at_least(records.drop_first());
    }
}

proof fn lemma_records_from_cover(b: Seq<u8>, off: int, e: Endianness)
    requires
        0 <= off <= b.len(),
    ensures
        records_from(b, off, e) matches Ok(records) ==> off + records_size(records) == b.len(),
    decreases b.len() - off,
{
    match record_at(b, off, e) {
        Ok(Some((p, next))) => {
            if next > off {
                lemma_records_from_cover(b, next, e);
                if let Ok(rest) = records_from(b, next, e) {
                    let all = seq![p] + rest;
                    assert(all.drop_first() =~= rest);
                }
            }
        },
        _ => {},
    }
}

} // verus!
