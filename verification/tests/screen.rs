use std::collections::{HashSet, VecDeque};

use netflow_collector::live::{
    apply_resize, fmt_commas, format_flow_line, redraw, LiveMonitor, LiveRecord,
};
use netflow_collector::printer::{flow_line, header_line, paint, PrintContext, ShownFlow};
use netflow_collector::text::{eq_ignoring_case, pad, parse_byte, parse_ipv4, split_words, trim};

fn record(n: u32) -> LiveRecord {
    LiveRecord {
        src_addr: 0x0a00_0001,
        src_port: 40_000,
        dst_addr: 0x0808_0808,
        dst_port: 443,
        d_pkts: n,
        d_octets: 1500,
        src_matched: true,
        dst_matched: false,
    }
}

fn ports() -> HashSet<u16> {
    [443u16].into_iter().collect()
}

#[test]
fn columns_have_their_names() {
    assert_eq!(
        header_line(),
        "SRC_IP            SRC_PORT  DST_IP            DST_PORT  PACKETS   BYTES"
    );
}

#[test]
fn a_line_without_colours_is_plain() {
    assert_eq!(
        format_flow_line(&record(3), false, &ports()),
        "10.0.0.1          40000     8.8.8.8           443       3         1500"
    );
}

#[test]
fn matches_are_yellow_and_highlighted_ports_green() {
    assert_eq!(
        format_flow_line(&record(3), true, &ports()),
        "\x1b[33m10.0.0.1          \x1b[0m40000     8.8.8.8           \
         \x1b[92m443       \x1b[0m3         1500"
    );
    let lit = ports();
    let ctx = PrintContext {
        color: true,
        src_matched: false,
        dst_matched: true,
        highlighted_ports: &lit,
    };
    let flow = ShownFlow {
        src_addr: 0,
        src_port: 443,
        dst_addr: u32::MAX,
        dst_port: 65_535,
        d_pkts: u32::MAX,
        d_octets: 0,
    };
    assert_eq!(
        flow_line(&flow, &ctx),
        "0.0.0.0           \x1b[92m443       \x1b[0m\x1b[33m255.255.255.255   \x1b[0m65535     42949672950"
    );
}

#[test]
fn paint_is_put_on_or_left_off() {
    assert_eq!(paint("x".to_string(), "\x1b[33m", true), "\x1b[33mx\x1b[0m");
    assert_eq!(paint("x".to_string(), "\x1b[33m", false), "x");
}

#[test]
fn numbers_have_commas() {
    assert_eq!(fmt_commas(0), "0");
    assert_eq!(fmt_commas(999), "999");
    assert_eq!(fmt_commas(1_000), "1,000");
    assert_eq!(fmt_commas(1_234_567), "1,234,567");
    assert_eq!(fmt_commas(u64::MAX), "18,446,744,073,709,551,615");
    assert_eq!(fmt_commas(1_002_003).replace(',', ""), "1002003");
}

#[test]
fn the_flows_that_came_last_are_kept() {
    let mut monitor = LiveMonitor::new(2, 100);
    for n in 0..5 {
        monitor.record(record(n), 2);
    }
    let kept: Vec<u32> = monitor.ring.iter().map(|r| r.d_pkts).collect();
    assert_eq!(kept, vec![3, 4]);
    monitor.tick(130, 1);
    assert_eq!((monitor.nps, monitor.ring.len(), monitor.ring_size), (30, 1, 1));
    assert_eq!(monitor.ring[0].d_pkts, 4);
    monitor.record(record(9), 0);
    monitor.record(record(10), 0);
    assert_eq!((monitor.ring.len(), monitor.ring_size), (0, 0));
    monitor.record(record(11), 3);
    assert_eq!((monitor.ring.len(), monitor.ring[0].d_pkts), (1, 11));
}

#[test]
fn a_smaller_ring_loses_the_oldest() {
    let mut ring: VecDeque<LiveRecord> = (0..4).map(record).collect();
    let mut size = 4;
    apply_resize(&mut ring, &mut size, 6);
    assert_eq!((ring.len(), size), (4, 6));
    apply_resize(&mut ring, &mut size, 3);
    let kept: Vec<u32> = ring.iter().map(|r| r.d_pkts).collect();
    assert_eq!((kept, size), (vec![1, 2, 3], 3));
}

#[test]
fn the_screen_has_a_fixed_height() {
    let ring: VecDeque<LiveRecord> = (0..2).map(record).collect();
    let screen = redraw(&ring, 10, 1_234, 56, 7, false, &ports());
    let lines: Vec<&str> = screen.split_terminator('\n').collect();
    assert_eq!(lines.len(), 15);
    assert_eq!(lines[0], format!("\x1b[H╔{}╗\x1b[K", "═".repeat(66)));
    assert_eq!(lines[1], "  NetFlow Live Monitor\x1b[K");
    assert_eq!(lines[2], "  NPS: 7           Total: 1,234           Filtered: 56\x1b[K");
    assert_eq!(lines[3], format!("╚{}╝\x1b[K", "═".repeat(66)));
    assert_eq!(lines[4], format!("{}\x1b[K", header_line()));
    assert_eq!(lines[6], format!("{}\x1b[K", format_flow_line(&record(1), false, &ports())));
    assert!(lines[7..].iter().all(|l| *l == "\x1b[K"));
    let empty: VecDeque<LiveRecord> = VecDeque::new();
    assert_eq!(redraw(&empty, 10, 0, 0, 0, true, &ports()).matches('\n').count(), 15);
}

#[test]
fn texts_are_read_as_rust_reads_them() {
    for s in ["0", "+7", "255", "256", "", "+", "-1", "007", "1 ", "٣"] {
        assert_eq!(parse_byte(s), s.parse::<u8>().ok(), "{}", s);
    }
    assert_eq!(parse_ipv4("1.2.3.4"), Some(0x0102_0304));
    for s in ["1.2.3", "1.2.3.4.5", "01.2.3.4", "1.2.3.256", "1..3.4", " 1.2.3.4", "1.2.3.+4", ""] {
        assert_eq!(parse_ipv4(s), None, "{}", s);
    }
    for s in ["  a b\t", "\u{3000}x\u{85}", "", " \n "] {
        assert_eq!(trim(s), s.trim());
        let words: Vec<String> = s.split_whitespace().map(|w| w.to_string()).collect();
        assert_eq!(split_words(s), words);
    }
    assert_eq!(pad("ab", 4), "ab  ");
    assert_eq!(pad("abcde", 4), "abcde");
    assert!(eq_ignoring_case("YesterDay", "yesterday") && !eq_ignoring_case("ſ", "s"));
}
