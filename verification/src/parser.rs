//! Reading NetFlow v5 packets, with the decoder of the `netflow_parser` crate.

use netflow_parser::static_versions::v5::{FlowSet, Header};
use netflow_parser::NetflowPacket;
use vstd::prelude::*;

use crate::aggregator;
use crate::time::{self, Timestamp};

verus! {

// ── decoded packets ─────────────────────────────────────────────────────────

/// What the header of a v5 packet says.
#[derive(Clone, Copy, Debug, PartialEq, Eq, Structural)]
pub struct PacketHeader {
    /// How many records the packet has.
    pub count: u16,
    /// Milliseconds since the exporter started, modulo 2^32.
    pub sys_up_time: u32,
    /// Seconds since 1970-01-01T00:00:00Z, by the exporter's clock.
    pub unix_secs: u32,
    /// Nanoseconds after that.
    pub unix_nsecs: u32,
    /// The number of the first record.
    pub flow_sequence: u32,
}

/// One record of a v5 packet.
#[derive(Clone, Copy, Debug, PartialEq, Eq, Structural)]
pub struct PacketFlow {
    pub src_addr: u32,
    pub dst_addr: u32,
    pub input: u16,
    pub output: u16,
    pub d_pkts: u32,
    pub d_octets: u32,
    /// When the flow ended, on the same scale as `sys_up_time`.
    pub last: u32,
    pub src_port: u16,
    pub dst_port: u16,
    pub tcp_flags: u8,
    pub protocol_number: u8,
    pub tos: u8,
}

/// A packet as decoded.
pub enum Packet {
    V5(PacketHeader, Vec<PacketFlow>),
    /// Of another version.
    Other,
}

/// A packet as decoded.
pub enum PacketModel {
    V5(PacketHeader, Seq<PacketFlow>),
    Other,
}

impl View for Packet {
    type V = PacketModel;

    open spec fn view(&self) -> PacketModel {
        match *self {
            Packet::V5(header, flows) => PacketModel::V5(header, flows@),
            Packet::Other => PacketModel::Other,
        }
    }
}

/// Packets as decoded.
pub open spec fn models(packets: Seq<Packet>) -> Seq<PacketModel> {
    Seq::new(packets.len(), |i: int| packets[i]@)
}

// ── the wire format ─────────────────────────────────────────────────────────

/// The bytes before the first record.
pub const HEADER_BYTES: usize = 24;

/// The bytes of one record.
pub const RECORD_BYTES: usize = 48;

/// The most records that a packet can have.
pub const MAX_RECORDS: u16 = 30;

/// A number of two bytes, the high byte first.
pub open spec fn u16_at(buf: Seq<u8>, at: int) -> u16 {
    (buf[at] * 0x100 + buf[at + 1]) as u16
}

/// A number of four bytes, the high byte first.
pub open spec fn u32_at(buf: Seq<u8>, at: int) -> u32 {
    (buf[at] * 0x100_0000 + buf[at + 1] * 0x1_0000 + buf[at + 2] * 0x100 + buf[at + 3]) as u32
}

/// The header of a v5 packet, as its bytes lie.
pub open spec fn header_at(buf: Seq<u8>) -> PacketHeader {
    PacketHeader {
        count: u16_at(buf, 2),
        sys_up_time: u32_at(buf, 4),
        unix_secs: u32_at(buf, 8),
        unix_nsecs: u32_at(buf, 12),
        flow_sequence: u32_at(buf, 16),
    }
}

/// A record of a v5 packet, as its bytes lie.
pub open spec fn record_at(buf: Seq<u8>, at: int) -> PacketFlow {
    PacketFlow {
        src_addr: u32_at(buf, at),
        dst_addr: u32_at(buf, at + 4),
        input: u16_at(buf, at + 12),
        output: u16_at(buf, at + 14),
        d_pkts: u32_at(buf, at + 16),
        d_octets: u32_at(buf, at + 20),
        last: u32_at(buf, at + 28),
        src_port: u16_at(buf, at + 32),
        dst_port: u16_at(buf, at + 34),
        tcp_flags: buf[at + 37],
        protocol_number: buf[at + 38],
        tos: buf[at + 39],
    }
}

/// All records of a v5 packet, as their bytes lie.
pub open spec fn records_of(buf: Seq<u8>) -> Seq<PacketFlow> {
    Seq::new(u16_at(buf, 2) as nat, |i: int| record_at(buf, HEADER_BYTES + RECORD_BYTES * i))
}

/// Whether a datagram starts with a v5 packet that is all there.
pub open spec fn starts_with_v5(buf: Seq<u8>) -> bool {
    &&& buf.len() >= HEADER_BYTES
    &&& u16_at(buf, 0) == 5
    &&& 1 <= u16_at(buf, 2) <= MAX_RECORDS
    &&& buf.len() >= HEADER_BYTES + RECORD_BYTES * u16_at(buf, 2)
}

/// Whether a datagram is one v5 packet.
pub open spec fn is_v5(buf: Seq<u8>) -> bool {
    &&& starts_with_v5(buf)
    &&& buf.len() == HEADER_BYTES + RECORD_BYTES * u16_at(buf, 2)
}

/// Whether a datagram has something in it, but starts with no packet of a known version, or with a
/// v5 packet that is broken.
pub open spec fn is_junk(buf: Seq<u8>) -> bool {
    ||| buf.len() == 1
    ||| buf.len() >= 2 && u16_at(buf, 0) == 5 && !starts_with_v5(buf)
    ||| buf.len() >= 2 && u16_at(buf, 0) != 5 && u16_at(buf, 0) != 7 && u16_at(buf, 0) != 9
        && u16_at(buf, 0) != 10
}

// ── decoding ────────────────────────────────────────────────────────────────

/// The decoder of the `netflow_parser` crate, which remembers templates from packet to packet.
#[verifier::external_type_specification]
#[verifier::external_body]
pub struct ExNetflowParser(netflow_parser::NetflowParser);

/// A decoder, and the datagrams that it has been given so far.
pub struct FlowDecoder {
    parser: netflow_parser::NetflowParser,
    fed: Ghost<Seq<Seq<u8>>>,
}

/// What came out of one datagram.
pub struct Decoded {
    pub packets: Vec<Packet>,
    /// Whether decoding stopped at something that could not be read.
    pub failed: bool,
}

/// What `netflow_parser::NetflowParser::parse_bytes` makes of a datagram after others: the packets,
/// and whether it stopped at an error.
pub uninterp spec fn decoded(fed: Seq<Seq<u8>>, buf: Seq<u8>) -> (Seq<PacketModel>, bool);

/// `netflow_parser::NetflowParser::default`: a decoder without templates.
#[verifier::external_body]
fn fresh_parser() -> (r: netflow_parser::NetflowParser) {
    netflow_parser::NetflowParser::default()
}

impl FlowDecoder {
    /// The datagrams that the decoder has been given, from the first to the last.
    pub closed spec fn fed(&self) -> Seq<Seq<u8>> {
        self.fed@
    }

    /// A decoder that has been given nothing.
    pub fn new() -> (r: Self)
        ensures
            r.fed() == Seq::<Seq<u8>>::empty(),
    {
        FlowDecoder { parser: fresh_parser(), fed: Ghost(Seq::empty()) }
    }

    /// `netflow_parser::NetflowParser::parse_bytes`, with its v5 packets copied out.
    ///
    /// The outcome depends on the datagram and on those before it. An empty datagram gives nothing,
    /// one that is a v5 packet gives that packet, and junk gives an error and no packet, whatever
    /// came before.
    #[verifier::external_body]
    fn parse_bytes(&mut self, buf: &[u8]) -> (r: Decoded)
        ensures
            final(self).fed() == old(self).fed().push(buf@),
            (models(r.packets@), r.failed) == decoded(old(self).fed(), buf@),
            buf@.len() == 0 ==> models(r.packets@) == Seq::<PacketModel>::empty() && !r.failed,
            is_v5(buf@) ==> models(r.packets@) == seq![
                PacketModel::V5(header_at(buf@), records_of(buf@)),
            ] && !r.failed,
            is_junk(buf@) ==> models(r.packets@) == Seq::<PacketModel>::empty() && r.failed,
    {
        let result = self.parser.parse_bytes(buf);
        let failed = result.error.is_some();
        let packets = result.packets.into_iter().map(|packet| match packet {
            NetflowPacket::V5(v5) => {
                let Header { count, sys_up_time, unix_secs, unix_nsecs, flow_sequence, .. } = v5.header;
                let header = PacketHeader { count, sys_up_time, unix_secs, unix_nsecs, flow_sequence };
                Packet::V5(header, v5.flowsets.iter().map(|&FlowSet {
                    src_addr, dst_addr, input, output, d_pkts, d_octets, last, src_port, dst_port, tcp_flags,
                    protocol_number, tos, ..
                }| PacketFlow {
                    src_addr: src_addr.into(), dst_addr: dst_addr.into(), input, output, d_pkts, d_octets, last,
                    src_port, dst_port, tcp_flags, protocol_number, tos }).collect())
            },
            _ => Packet::Other }).collect();
        Decoded { packets, failed }
    }
}

// ── flows ───────────────────────────────────────────────────────────────────

/// One flow, with its end as an instant.
#[derive(Clone, Copy, Debug, PartialEq, Eq, Structural)]
pub struct FlowRecord {
    /// When the flow ended.
    pub ts: Timestamp,
    pub src_addr: u32,
    pub dst_addr: u32,
    pub src_port: u16,
    pub dst_port: u16,
    pub d_pkts: u32,
    pub d_octets: u32,
    pub protocol_number: u8,
    pub tcp_flags: u8,
    pub input: u16,
    pub output: u16,
    pub tos: u8,
}

impl FlowRecord {
    /// The calendar has the flow's end, and the day in Taipei that it falls on.
    pub open spec fn wf(self) -> bool {
        self.ts.regular() && aggregator::has_local_day(self.ts)
    }
}

/// What one datagram says.
pub struct ParseResult {
    pub flows: Vec<FlowRecord>,
    /// Whether there was something in it that could not be read.
    pub has_error: bool,
    /// The first number and the count of the records of each v5 packet.
    pub sequences: Vec<(u32, u16)>,
}

impl ParseResult {
    /// Whether this is what a datagram says after others.
    ///
    /// A datagram that is one v5 packet gives a flow for each of its records, and no error; an empty
    /// one gives nothing; junk gives an error and nothing else.
    pub open spec fn says(&self, fed: Seq<Seq<u8>>, buf: Seq<u8>) -> bool {
        &&& self.flows@ == flows_in(decoded(fed, buf).0)
        &&& self.sequences@ == sequences_in(decoded(fed, buf).0)
        &&& self.has_error == decoded(fed, buf).1
        &&& is_v5(buf) ==> {
            &&& self.flows@ == packet_flows(PacketModel::V5(header_at(buf), records_of(buf)))
            &&& self.sequences@ == seq![(u32_at(buf, 16), u16_at(buf, 2))]
            &&& !self.has_error
        }
        &&& buf.len() == 0 ==> self.flows@.len() == 0 && self.sequences@.len() == 0
            && !self.has_error
        &&& is_junk(buf) ==> self.flows@.len() == 0 && self.sequences@.len() == 0 && self.has_error
    }
}

/// The milliseconds from one reading of the exporter's uptime to a later one, which are fewer than
/// 2^32: the counter starts again at zero after 2^32 - 1.
pub open spec fn elapsed(later: u32, earlier: u32) -> int {
    (later - earlier) % 0x1_0000_0000
}

/// When a flow ended: as long before the export as the uptime says.
pub open spec fn end_time(base: Timestamp, sys_up_time: u32, last: u32) -> Timestamp {
    time::at_nanos(base.total_nanos() - elapsed(sys_up_time, last) * 1_000_000)
}

/// When a packet was exported; nanoseconds that are none are taken as zero.
pub open spec fn exported_at(unix_secs: u32, unix_nsecs: u32) -> Timestamp {
    Timestamp {
        secs: unix_secs as i64,
        nanos: if unix_nsecs < 1_000_000_000 {
            unix_nsecs
        } else {
            0
        },
    }
}

/// A record as a flow.
pub open spec fn flow_of(header: PacketHeader, flow: PacketFlow) -> FlowRecord {
    FlowRecord {
        ts: end_time(
            exported_at(header.unix_secs, header.unix_nsecs),
            header.sys_up_time,
            flow.last,
        ),
        src_addr: flow.src_addr,
        dst_addr: flow.dst_addr,
        src_port: flow.src_port,
        dst_port: flow.dst_port,
        d_pkts: flow.d_pkts,
        d_octets: flow.d_octets,
        protocol_number: flow.protocol_number,
        tcp_flags: flow.tcp_flags,
        input: flow.input,
        output: flow.output,
        tos: flow.tos,
    }
}

/// The flows of one packet.
pub open spec fn packet_flows(packet: PacketModel) -> Seq<FlowRecord> {
    match packet {
        PacketModel::V5(header, flows) => Seq::new(
            flows.len(),
            |i: int| flow_of(header, flows[i]),
        ),
        PacketModel::Other => Seq::empty(),
    }
}

/// The flows of packets, in order.
pub open spec fn flows_in(packets: Seq<PacketModel>) -> Seq<FlowRecord>
    decreases packets.len(),
{
    if packets.len() == 0 {
        Seq::empty()
    } else {
        flows_in(packets.drop_last()) + packet_flows(packets.last())
    }
}

/// The first number and the count of the records of one packet.
pub open spec fn packet_sequence(packet: PacketModel) -> Seq<(u32, u16)> {
    match packet {
        PacketModel::V5(header, _) => seq![(header.flow_sequence, header.count)],
        PacketModel::Other => Seq::empty(),
    }
}

/// The first number and the count of the records of each v5 packet, in order.
pub open spec fn sequences_in(packets: Seq<PacketModel>) -> Seq<(u32, u16)>
    decreases packets.len(),
{
    if packets.len() == 0 {
        Seq::empty()
    } else {
        sequences_in(packets.drop_last()) + packet_sequence(packets.last())
    }
}

/// When a flow ended, from when it was exported and the exporter's uptime then and at its end.
pub fn flow_end_time(base: Timestamp, sys_up_time: u32, last: u32) -> (r: Timestamp)
    requires
        base.regular(),
        base.total_nanos() - elapsed(sys_up_time, last) * 1_000_000 >= time::MIN_SECONDS
            * 1_000_000_000,
    ensures
        r == end_time(base, sys_up_time, last),
        r.regular(),
        r.total_nanos() == base.total_nanos() - elapsed(sys_up_time, last) * 1_000_000,
        r.nanos < 1_000_000_000,
        r.secs * 1_000_000_000 + r.nanos == base.secs * 1_000_000_000 + base.nanos - (if sys_up_time
            >= last {
            sys_up_time - last
        } else {
            0x1_0000_0000 + sys_up_time - last
        }) * 1_000_000,
{
    let delta_ms: u32 = sys_up_time.wrapping_sub(last);
    assert(delta_ms == elapsed(sys_up_time, last));
    time::minus_millis(base, delta_ms as i64)
}

/// When a packet was exported.
///
/// Some exporters leave junk in the nanoseconds, and they matter little, so junk counts as zero.
pub fn export_time(unix_secs: u32, unix_nsecs: u32) -> (r: Option<Timestamp>)
    ensures
        r == Some(exported_at(unix_secs, unix_nsecs)),
        exported_at(unix_secs, unix_nsecs).regular(),
        r matches Some(at) && at.secs == unix_secs && at.nanos == if unix_nsecs < 1_000_000_000 {
            unix_nsecs
        } else {
            0
        },
{
    let nsecs: u32 = if unix_nsecs < 1_000_000_000 {
        unix_nsecs
    } else {
        0
    };
    time::timestamp_opt(unix_secs as i64, nsecs)
}

/// The end of a flow comes out right on both sides of the point where the uptime starts again at
/// zero: it is the true number of milliseconds before the export, as long as that is below 2^32.
pub proof fn end_time_survives_the_rollover(base: Timestamp, last: u32, millis: u32)
    ensures
        elapsed(((last + millis) % 0x1_0000_0000) as u32, last) == millis,
        end_time(base, ((last + millis) % 0x1_0000_0000) as u32, last) == time::at_nanos(
            base.total_nanos() - millis * 1_000_000,
        ),
{
}

/// The flows and the sequence numbers of decoded packets. Packets of other versions are passed over.
pub fn extract(packets: &Vec<Packet>, failed: bool) -> (r: ParseResult)
    ensures
        r.flows@ == flows_in(models(packets@)),
        r.sequences@ == sequences_in(models(packets@)),
        r.has_error == failed,
        forall|i: int| 0 <= i < r.flows@.len() ==> (#[trigger] r.flows@[i]).wf(),
{
    let mut has_error = failed;
    let mut flows: Vec<FlowRecord> = Vec::new();
    let mut sequences: Vec<(u32, u16)> = Vec::new();
    let mut i: usize = 0;
    while i < packets.len()
        invariant
            i <= packets.len(),
            flows@ == flows_in(models(packets@).take(i as int)),
            sequences@ == sequences_in(models(packets@).take(i as int)),
            has_error == failed,
            forall|j: int| 0 <= j < flows@.len() ==> (#[trigger] flows@[j]).wf(),
        decreases packets.len() - i,
    {
        let ghost done = models(packets@).take(i as int);
        let ghost seen = models(packets@).take(i + 1);
        assert(seen.drop_last() =~= done);
        assert(seen.last() == packets@[i as int]@);
        match &packets[i] {
            Packet::V5(header, records) => {
                match export_time(header.unix_secs, header.unix_nsecs) {
                    Some(base) => {
                        sequences.push((header.flow_sequence, header.count));
                        push_flows(&mut flows, *header, base, records);
                    },
                    None => {
                        has_error = true;
                    },
                }
            },
            Packet::Other => {
                assert(flows@ =~= flows_in(seen));
                assert(sequences@ =~= sequences_in(seen));
            },
        }
        assert(flows@ =~= flows_in(seen));
        assert(sequences@ =~= sequences_in(seen));
        i += 1;
    }
    assert(models(packets@).take(i as int) =~= models(packets@));
    ParseResult { flows, has_error, sequences }
}

/// Adds the flows of one packet.
fn push_flows(
    flows: &mut Vec<FlowRecord>,
    header: PacketHeader,
    base: Timestamp,
    records: &Vec<PacketFlow>,
)
    requires
        base == exported_at(header.unix_secs, header.unix_nsecs),
        forall|j: int| 0 <= j < old(flows)@.len() ==> (#[trigger] old(flows)@[j]).wf(),
    ensures
        final(flows)@ == old(flows)@ + packet_flows(PacketModel::V5(header, records@)),
        forall|j: int| 0 <= j < final(flows)@.len() ==> (#[trigger] final(flows)@[j]).wf(),
{
    let ghost before = flows@;
    let ghost all = packet_flows(PacketModel::V5(header, records@));
    let mut k: usize = 0;
    while k < records.len()
        invariant
            k <= records.len(),
            base == exported_at(header.unix_secs, header.unix_nsecs),
            all == packet_flows(PacketModel::V5(header, records@)),
            flows@ == before + all.take(k as int),
            forall|j: int| 0 <= j < flows@.len() ==> (#[trigger] flows@[j]).wf(),
        decreases records.len() - k,
    {
        let flow = records[k];
        assert(all.take(k + 1) =~= all.take(k as int).push(all[k as int]));
        flows.push(
            FlowRecord {
                ts: flow_end_time(base, header.sys_up_time, flow.last),
                src_addr: flow.src_addr,
                dst_addr: flow.dst_addr,
                src_port: flow.src_port,
                dst_port: flow.dst_port,
                d_pkts: flow.d_pkts,
                d_octets: flow.d_octets,
                protocol_number: flow.protocol_number,
                tcp_flags: flow.tcp_flags,
                input: flow.input,
                output: flow.output,
                tos: flow.tos,
            },
        );
        k += 1;
        assert(flows@ =~= before + all.take(k as int));
    }
    assert(all.take(k as int) =~= all);
}

/// Reads the v5 packets in a datagram. Packets of other versions are passed over.
pub fn parse(parser: &mut FlowDecoder, buf: &[u8]) -> (r: ParseResult)
    ensures
        final(parser).fed() == old(parser).fed().push(buf@),
        r.says(old(parser).fed(), buf@),
        forall|i: int| 0 <= i < r.flows@.len() ==> (#[trigger] r.flows@[i]).wf(),
{
    let result = parser.parse_bytes(buf);
    proof {
        reveal_with_fuel(flows_in, 2);
        reveal_with_fuel(sequences_in, 2);
        if is_v5(buf@) {
            let packet = PacketModel::V5(header_at(buf@), records_of(buf@));
            assert(seq![packet].drop_last() =~= Seq::<PacketModel>::empty());
            assert(flows_in(seq![packet]) =~= packet_flows(packet));
            assert(sequences_in(seq![packet]) =~= packet_sequence(packet));
        }
    }
    extract(&result.packets, result.failed)
}

// ── laws ────────────────────────────────────────────────────────────────────

/// A flow says what its record says, field by field. Its end is as many milliseconds before the export
/// as the exporter's uptime has gone on since, where the uptime may have started again at zero once.
pub proof fn a_flow_says_what_its_record_says(header: PacketHeader, record: PacketFlow)
    ensures
        ({
            let flow = flow_of(header, record);
            let since = if header.sys_up_time >= record.last {
                header.sys_up_time - record.last
            } else {
                0x1_0000_0000 + header.sys_up_time - record.last
            };
            let nanos = if header.unix_nsecs < 1_000_000_000 {
                header.unix_nsecs as int
            } else {
                0
            };
            &&& flow.src_addr == record.src_addr && flow.dst_addr == record.dst_addr
            &&& flow.src_port == record.src_port && flow.dst_port == record.dst_port
            &&& flow.d_pkts == record.d_pkts && flow.d_octets == record.d_octets
            &&& flow.protocol_number == record.protocol_number
            &&& flow.tcp_flags == record.tcp_flags && flow.tos == record.tos
            &&& flow.input == record.input && flow.output == record.output
            &&& flow.ts.nanos < 1_000_000_000
            &&& flow.ts.secs * 1_000_000_000 + flow.ts.nanos == header.unix_secs * 1_000_000_000
                + nanos - since * 1_000_000
        }),
{
}

/// A v5 packet gives a flow for each of its records, in their order, and the number of its first record
/// with the count that its header gives. A packet of another version gives neither.
pub proof fn a_packet_gives_its_records(header: PacketHeader, records: Seq<PacketFlow>, i: int)
    requires
        0 <= i < records.len(),
    ensures
        packet_flows(PacketModel::V5(header, records)).len() == records.len(),
        packet_flows(PacketModel::V5(header, records))[i] == flow_of(header, records[i]),
        packet_sequence(PacketModel::V5(header, records)) == seq![
            (header.flow_sequence, header.count),
        ],
        packet_flows(PacketModel::Other).len() == 0,
        packet_sequence(PacketModel::Other).len() == 0,
{
}

/// Packets are read one after the other: what some give and then others give is what all of them give,
/// and one alone gives what is in it.
pub proof fn packets_are_read_in_order(
    first: Seq<PacketModel>,
    then: Seq<PacketModel>,
    packet: PacketModel,
)
    ensures
        flows_in(first + then) == flows_in(first) + flows_in(then),
        sequences_in(first + then) == sequences_in(first) + sequences_in(then),
        flows_in(seq![packet]) == packet_flows(packet),
        sequences_in(seq![packet]) == packet_sequence(packet),
    decreases then.len(),
{
    reveal_with_fuel(flows_in, 2);
    reveal_with_fuel(sequences_in, 2);
    assert(seq![packet].drop_last() =~= Seq::empty());
    assert(flows_in(seq![packet]) =~= packet_flows(packet));
    assert(sequences_in(seq![packet]) =~= packet_sequence(packet));
    if then.len() > 0 {
        packets_are_read_in_order(first, then.drop_last(), packet);
        assert((first + then).drop_last() =~= first + then.drop_last());
        assert((first + then).last() == then.last());
        assert(flows_in(first + then) =~= flows_in(first) + flows_in(then));
        assert(sequences_in(first + then) =~= sequences_in(first) + sequences_in(then));
    } else {
        assert(first + then =~= first);
        assert(flows_in(first) + flows_in(then) =~= flows_in(first));
        assert(sequences_in(first) + sequences_in(then) =~= sequences_in(first));
    }
}

/// Where the header of a v5 packet and its records lie in a datagram: the header from the start, its
/// numbers with the high byte first, and the records after 24 bytes, 48 bytes each.
pub proof fn a_packet_lies_in_its_bytes(buf: Seq<u8>, i: int)
    requires
        is_v5(buf),
        0 <= i < records_of(buf).len(),
    ensures
        buf[0] == 0 && buf[1] == 5,
        buf.len() == 24 + 48 * header_at(buf).count && 1 <= header_at(buf).count <= 30,
        records_of(buf).len() == header_at(buf).count,
        header_at(buf).count == buf[2] * 256 + buf[3],
        lies_at(buf, 4, header_at(buf).sys_up_time),
        lies_at(buf, 8, header_at(buf).unix_secs),
        lies_at(buf, 12, header_at(buf).unix_nsecs),
        lies_at(buf, 16, header_at(buf).flow_sequence),
        ({
            let record = records_of(buf)[i];
            let at = 24 + 48 * i;
            &&& lies_at(buf, at, record.src_addr)
            &&& lies_at(buf, at + 4, record.dst_addr)
            &&& record.input == buf[at + 12] * 256 + buf[at + 13]
            &&& record.output == buf[at + 14] * 256 + buf[at + 15]
            &&& lies_at(buf, at + 16, record.d_pkts)
            &&& lies_at(buf, at + 20, record.d_octets)
            &&& lies_at(buf, at + 28, record.last)
            &&& record.src_port == buf[at + 32] * 256 + buf[at + 33]
            &&& record.dst_port == buf[at + 34] * 256 + buf[at + 35]
            &&& record.tcp_flags == buf[at + 37]
            &&& record.protocol_number == buf[at + 38]
            &&& record.tos == buf[at + 39]
        }),
{
}

/// Whether a number lies in four bytes from a place on, the high byte first.
pub open spec fn lies_at(buf: Seq<u8>, at: int, n: u32) -> bool {
    n == ((buf[at] * 256 + buf[at + 1]) * 256 + buf[at + 2]) * 256 + buf[at + 3]
}

} // verus!
