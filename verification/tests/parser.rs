use netflow_collector::parser::{export_time, extract, flow_end_time, parse, FlowDecoder, Packet};
use netflow_collector::time::Timestamp;

fn minus_millis(at: Timestamp, millis: i64) -> Timestamp {
    let start = chrono::DateTime::<chrono::Utc>::from_timestamp(at.secs, at.nanos).unwrap();
    let rest = start - chrono::Duration::milliseconds(millis);
    Timestamp { secs: rest.timestamp(), nanos: rest.timestamp_subsec_nanos() }
}

fn base() -> Timestamp {
    Timestamp { secs: 1_700_000_000, nanos: 0 }
}

#[test]
fn end_time_subtracts_the_delta() {
    let ts = flow_end_time(base(), 5_000_000, 4_998_800);
    assert_eq!(ts, minus_millis(base(), 1200));
}

#[test]
fn end_time_survives_the_49_day_rollover() {
    let last = u32::MAX - 295;
    let sys_up_time = 500u32;
    let ts = flow_end_time(base(), sys_up_time, last);
    assert_eq!(ts, minus_millis(base(), 796));
}

#[test]
fn junk_nanoseconds_are_clamped_not_fatal() {
    assert!(export_time(1_700_000_000, 4_000_000_000).is_some());
}

#[test]
fn export_times_keep_good_nanoseconds() {
    assert_eq!(export_time(7, 999_999_999), Some(Timestamp { secs: 7, nanos: 999_999_999 }));
    assert_eq!(export_time(7, 1_000_000_000), Some(Timestamp { secs: 7, nanos: 0 }));
    assert_eq!(export_time(u32::MAX, 0), Some(Timestamp { secs: 4_294_967_295, nanos: 0 }));
}

fn header(count: u16, sequence: u32) -> Vec<u8> {
    let mut out: Vec<u8> = Vec::new();
    out.extend_from_slice(&5u16.to_be_bytes());
    out.extend_from_slice(&count.to_be_bytes());
    out.extend_from_slice(&5_000_000u32.to_be_bytes());
    out.extend_from_slice(&1_700_000_000u32.to_be_bytes());
    out.extend_from_slice(&250_000_000u32.to_be_bytes());
    out.extend_from_slice(&sequence.to_be_bytes());
    out.extend_from_slice(&[1, 2, 0, 0]);
    out
}

fn record(n: u8) -> Vec<u8> {
    let mut out: Vec<u8> = Vec::new();
    out.extend_from_slice(&[10, 0, 0, n]);
    out.extend_from_slice(&[8, 8, 4, n]);
    out.extend_from_slice(&[1, 1, 1, 1]);
    out.extend_from_slice(&11u16.to_be_bytes());
    out.extend_from_slice(&12u16.to_be_bytes());
    out.extend_from_slice(&13u32.to_be_bytes());
    out.extend_from_slice(&1400u32.to_be_bytes());
    out.extend_from_slice(&4_000_000u32.to_be_bytes());
    out.extend_from_slice(&4_998_800u32.to_be_bytes());
    out.extend_from_slice(&40_000u16.to_be_bytes());
    out.extend_from_slice(&443u16.to_be_bytes());
    out.extend_from_slice(&[0, 0x1b, 6, 0x20]);
    out.extend_from_slice(&[0; 8]);
    out
}

fn datagram(count: u16, sequence: u32) -> Vec<u8> {
    let mut out = header(count, sequence);
    for n in 0..count {
        out.extend_from_slice(&record(n as u8));
    }
    out
}

#[test]
fn a_v5_packet_gives_its_records() {
    let mut decoder = FlowDecoder::new();
    let parsed = parse(&mut decoder, &datagram(2, 77));
    assert!(!parsed.has_error);
    assert_eq!(parsed.sequences, vec![(77, 2)]);
    assert_eq!(parsed.flows.len(), 2);
    let flow = parsed.flows[1];
    assert_eq!(flow.ts, Timestamp { secs: 1_699_999_999, nanos: 50_000_000 });
    assert_eq!((flow.src_addr, flow.dst_addr), (0x0a00_0001, 0x0808_0401));
    assert_eq!((flow.src_port, flow.dst_port), (40_000, 443));
    assert_eq!((flow.d_pkts, flow.d_octets), (13, 1400));
    assert_eq!((flow.input, flow.output), (11, 12));
    assert_eq!((flow.tcp_flags, flow.protocol_number, flow.tos), (0x1b, 6, 0x20));
}

#[test]
fn the_largest_packet_has_thirty_records() {
    let mut decoder = FlowDecoder::new();
    let parsed = parse(&mut decoder, &datagram(30, 1));
    assert_eq!((parsed.flows.len(), parsed.has_error), (30, false));
    let parsed = parse(&mut decoder, &datagram(31, 1));
    assert_eq!((parsed.flows.len(), parsed.has_error), (0, true));
}

#[test]
fn an_empty_datagram_says_nothing() {
    let mut decoder = FlowDecoder::new();
    let parsed = parse(&mut decoder, &[]);
    assert!(parsed.flows.is_empty() && parsed.sequences.is_empty() && !parsed.has_error);
}

#[test]
fn junk_is_an_error_and_no_flow() {
    let mut decoder = FlowDecoder::new();
    let whole = datagram(2, 1);
    for junk in [
        vec![5u8],
        vec![0u8, 6, 0, 0],
        datagram(0, 1),
        whole[..23].to_vec(),
        whole[..whole.len() - 1].to_vec(),
    ] {
        let parsed = parse(&mut decoder, &junk);
        assert!(parsed.flows.is_empty() && parsed.sequences.is_empty() && parsed.has_error);
    }
    assert_eq!(parse(&mut decoder, &whole).flows.len(), 2);
}

#[test]
fn what_follows_a_good_packet_does_not_spoil_it() {
    let mut decoder = FlowDecoder::new();
    let mut both = datagram(2, 1);
    both.extend_from_slice(&[0xff, 0xff, 0xff]);
    let parsed = parse(&mut decoder, &both);
    assert_eq!((parsed.flows.len(), parsed.has_error), (2, true));
}

#[test]
fn packets_of_other_versions_are_passed_over() {
    let parsed = extract(&vec![Packet::Other], false);
    assert!(parsed.flows.is_empty() && parsed.sequences.is_empty() && !parsed.has_error);
    assert!(extract(&Vec::new(), true).has_error);
}
