//! Flows as lines of text.

use std::collections::HashSet;
use vstd::prelude::*;
use vstd::string::*;

use crate::text;

verus! {

broadcast use vstd::std_specs::hash::group_hash_axioms;

/// The width of a column of addresses.
pub const IP_WIDTH: usize = 18;

/// The width of a column of numbers.
pub const NUM_WIDTH: usize = 10;

pub const YELLOW: &'static str = "\x1b[33m";

pub const BRIGHT_GREEN: &'static str = "\x1b[92m";

pub const RESET: &'static str = "\x1b[0m";

/// What decides on the colours of a line.
pub struct PrintContext<'a> {
    /// Whether there are any.
    pub color: bool,
    pub src_matched: bool,
    pub dst_matched: bool,
    pub highlighted_ports: &'a HashSet<u16>,
}

/// A flow, as far as a line shows it.
#[derive(Clone, Copy, Debug, PartialEq, Eq, Structural)]
pub struct ShownFlow {
    pub src_addr: u32,
    pub src_port: u16,
    pub dst_addr: u32,
    pub dst_port: u16,
    pub d_pkts: u32,
    pub d_octets: u32,
}

/// A text in a colour, or as it is.
pub open spec fn painted(s: Seq<char>, color: Seq<char>, apply: bool) -> Seq<char> {
    if apply {
        color + s + RESET@
    } else {
        s
    }
}

/// Puts a text in a colour, or leaves it as it is.
pub fn paint(s: String, color: &str, apply: bool) -> (r: String)
    ensures
        r@ == painted(s@, color@, apply),
        apply ==> r@ == color@ + s@ + "\x1b[0m"@,
        !apply ==> r@ == s@,
{
    if apply {
        let mut out: String = color.to_owned();
        out.append(s.as_str());
        out.append(RESET);
        out
    } else {
        s
    }
}

/// The names of the columns.
pub open spec fn header_text() -> Seq<char> {
    text::padded("SRC_IP"@, IP_WIDTH as nat) + text::padded("SRC_PORT"@, NUM_WIDTH as nat)
        + text::padded("DST_IP"@, IP_WIDTH as nat) + text::padded("DST_PORT"@, NUM_WIDTH as nat)
        + text::padded("PACKETS"@, NUM_WIDTH as nat) + "BYTES"@
}

/// The names of the columns.
pub fn header_line() -> (r: String)
    ensures
        r@ == header_text(),
{
    let mut out = text::pad("SRC_IP", IP_WIDTH);
    out.append(text::pad("SRC_PORT", NUM_WIDTH).as_str());
    out.append(text::pad("DST_IP", IP_WIDTH).as_str());
    out.append(text::pad("DST_PORT", NUM_WIDTH).as_str());
    out.append(text::pad("PACKETS", NUM_WIDTH).as_str());
    out.append("BYTES");
    out
}

/// An address in its column.
pub open spec fn address_cell(ip: u32) -> Seq<char> {
    text::padded(text::dotted(ip), IP_WIDTH as nat)
}

/// A number in its column.
pub open spec fn number_cell(n: int) -> Seq<char> {
    text::padded(text::decimal(n as nat), NUM_WIDTH as nat)
}

/// A flow as a line: addresses that matched in yellow and highlighted ports in green, where there
/// are colours. The columns are filled up before they are coloured, so they stay in line.
pub open spec fn flow_text(
    flow: ShownFlow,
    color: bool,
    src_matched: bool,
    dst_matched: bool,
    ports: Set<u16>,
) -> Seq<char> {
    painted(address_cell(flow.src_addr), YELLOW@, color && src_matched) + painted(
        number_cell(flow.src_port as int),
        BRIGHT_GREEN@,
        color && ports.contains(flow.src_port),
    ) + painted(address_cell(flow.dst_addr), YELLOW@, color && dst_matched) + painted(
        number_cell(flow.dst_port as int),
        BRIGHT_GREEN@,
        color && ports.contains(flow.dst_port),
    ) + number_cell(flow.d_pkts as int) + text::decimal(flow.d_octets as nat)
}

fn address_column(ip: u32) -> (r: String)
    ensures
        r@ == address_cell(ip),
{
    let mut out: String = "".to_owned();
    proof {
        reveal_strlit("");
    }
    text::append_dotted(&mut out, ip);
    assert(out@ =~= text::dotted(ip));
    text::pad(out.as_str(), IP_WIDTH)
}

fn number_column(n: u32) -> (r: String)
    ensures
        r@ == number_cell(n as int),
{
    let mut out: String = "".to_owned();
    proof {
        reveal_strlit("");
    }
    text::append_decimal(&mut out, n as u64);
    assert(out@ =~= text::decimal(n as nat));
    text::pad(out.as_str(), NUM_WIDTH)
}

/// A flow as a line.
pub fn flow_line(flow: &ShownFlow, ctx: &PrintContext<'_>) -> (r: String)
    ensures
        r@ == flow_text(
            *flow,
            ctx.color,
            ctx.src_matched,
            ctx.dst_matched,
            ctx.highlighted_ports@,
        ),
{
    let src_lit = ctx.highlighted_ports.contains(&flow.src_port);
    let dst_lit = ctx.highlighted_ports.contains(&flow.dst_port);
    let mut out = paint(address_column(flow.src_addr), YELLOW, ctx.color && ctx.src_matched);
    let src_port = paint(number_column(flow.src_port as u32), BRIGHT_GREEN, ctx.color && src_lit);
    out.append(src_port.as_str());
    let dst_ip = paint(address_column(flow.dst_addr), YELLOW, ctx.color && ctx.dst_matched);
    out.append(dst_ip.as_str());
    let dst_port = paint(number_column(flow.dst_port as u32), BRIGHT_GREEN, ctx.color && dst_lit);
    out.append(dst_port.as_str());
    out.append(number_column(flow.d_pkts).as_str());
    text::append_decimal(&mut out, flow.d_octets as u64);
    out
}

// ── laws ────────────────────────────────────────────────────────────────────

/// Whether a text stands in a line from one place on, with spaces after it up to another.
pub open spec fn is_in_column(line: Seq<char>, from: int, to: int, s: Seq<char>) -> bool {
    &&& 0 <= from <= to <= line.len()
    &&& s.len() <= to - from
    &&& line.subrange(from, from + s.len()) == s
    &&& forall|i: int| from + s.len() <= i < to ==> #[trigger] line[i] == ' '
}

proof fn lemma_cell(head: Seq<char>, s: Seq<char>, width: nat, tail: Seq<char>)
    requires
        s.len() <= width,
    ensures
        is_in_column(
            head + text::padded(s, width) + tail,
            head.len() as int,
            (head.len() + width) as int,
            s,
        ),
        text::padded(s, width).len() == width,
{
    let line = head + text::padded(s, width) + tail;
    assert(line.subrange(head.len() as int, (head.len() + s.len()) as int) =~= s);
}

/// A line without colours has the sender, its port, the receiver, its port and the packets in columns
/// that start at the places 0, 18, 28, 46 and 56, and the bytes from place 66 on.
pub proof fn a_line_has_its_columns(
    flow: ShownFlow,
    src_matched: bool,
    dst_matched: bool,
    ports: Set<u16>,
)
    ensures
        ({
            let line = flow_text(flow, false, src_matched, dst_matched, ports);
            &&& is_in_column(line, 0, 18, text::dotted(flow.src_addr))
            &&& is_in_column(line, 18, 28, text::decimal(flow.src_port as nat))
            &&& is_in_column(line, 28, 46, text::dotted(flow.dst_addr))
            &&& is_in_column(line, 46, 56, text::decimal(flow.dst_port as nat))
            &&& is_in_column(line, 56, 66, text::decimal(flow.d_pkts as nat))
            &&& line.skip(66) == text::decimal(flow.d_octets as nat)
        }),
{
    let src = text::dotted(flow.src_addr);
    let src_port = text::decimal(flow.src_port as nat);
    let dst = text::dotted(flow.dst_addr);
    let dst_port = text::decimal(flow.dst_port as nat);
    let packets = text::decimal(flow.d_pkts as nat);
    let bytes = text::decimal(flow.d_octets as nat);
    text::dotted_is_short(flow.src_addr);
    text::dotted_is_short(flow.dst_addr);
    reveal_with_fuel(text::tens, 11);
    text::a_number_has_few_digits(flow.src_port as nat, 10);
    text::a_number_has_few_digits(flow.dst_port as nat, 10);
    text::a_number_has_few_digits(flow.d_pkts as nat, 10);
    let a = text::padded(src, 18);
    let b = text::padded(src_port, 10);
    let c = text::padded(dst, 18);
    let d = text::padded(dst_port, 10);
    let e = text::padded(packets, 10);
    let line = flow_text(flow, false, src_matched, dst_matched, ports);
    let none = Seq::<char>::empty();
    assert(line == a + b + c + d + e + bytes);
    lemma_cell(none, src, 18, b + c + d + e + bytes);
    assert(none + a + (b + c + d + e + bytes) =~= line);
    lemma_cell(a, src_port, 10, c + d + e + bytes);
    assert(a + b + (c + d + e + bytes) =~= line);
    lemma_cell(a + b, dst, 18, d + e + bytes);
    assert(a + b + c + (d + e + bytes) =~= line);
    lemma_cell(a + b + c, dst_port, 10, e + bytes);
    assert(a + b + c + d + (e + bytes) =~= line);
    lemma_cell(a + b + c + d, packets, 10, bytes);
    assert(line.skip(66) =~= bytes);
}

/// A text between the marks that start a colour and end it, or as it is.
pub open spec fn lit(s: Seq<char>, start: Seq<char>, on: bool) -> Seq<char> {
    if on {
        start + s + "\x1b[0m"@
    } else {
        s
    }
}

/// Colours change nothing of a line but add marks around columns: yellow ones around the address of a
/// side that matched, and bright green ones around a port that is highlighted.
pub proof fn colours_only_add_marks(
    flow: ShownFlow,
    src_matched: bool,
    dst_matched: bool,
    ports: Set<u16>,
)
    ensures
        ({
            let plain = flow_text(flow, false, src_matched, dst_matched, ports);
            flow_text(flow, true, src_matched, dst_matched, ports) == lit(
                plain.subrange(0, 18),
                "\x1b[33m"@,
                src_matched,
            ) + lit(plain.subrange(18, 28), "\x1b[92m"@, ports.contains(flow.src_port)) + lit(
                plain.subrange(28, 46),
                "\x1b[33m"@,
                dst_matched,
            ) + lit(plain.subrange(46, 56), "\x1b[92m"@, ports.contains(flow.dst_port)) + plain.skip(
                56,
            )
        }),
{
    text::dotted_is_short(flow.src_addr);
    text::dotted_is_short(flow.dst_addr);
    reveal_with_fuel(text::tens, 11);
    text::a_number_has_few_digits(flow.src_port as nat, 10);
    text::a_number_has_few_digits(flow.dst_port as nat, 10);
    let a = address_cell(flow.src_addr);
    let b = number_cell(flow.src_port as int);
    let c = address_cell(flow.dst_addr);
    let d = number_cell(flow.dst_port as int);
    let rest = number_cell(flow.d_pkts as int) + text::decimal(flow.d_octets as nat);
    let plain = flow_text(flow, false, src_matched, dst_matched, ports);
    assert(plain =~= a + b + c + d + rest);
    assert(plain.subrange(0, 18) =~= a);
    assert(plain.subrange(18, 28) =~= b);
    assert(plain.subrange(28, 46) =~= c);
    assert(plain.subrange(46, 56) =~= d);
    assert(plain.skip(56) =~= rest);
    let coloured = flow_text(flow, true, src_matched, dst_matched, ports);
    assert(coloured =~= lit(a, "\x1b[33m"@, src_matched) + lit(
        b,
        "\x1b[92m"@,
        ports.contains(flow.src_port),
    ) + lit(c, "\x1b[33m"@, dst_matched) + lit(d, "\x1b[92m"@, ports.contains(flow.dst_port)) + rest);
}

/// The names of the columns stand where the columns start.
pub proof fn names_stand_above_their_columns()
    ensures
        is_in_column(header_text(), 0, 18, "SRC_IP"@),
        is_in_column(header_text(), 18, 28, "SRC_PORT"@),
        is_in_column(header_text(), 28, 46, "DST_IP"@),
        is_in_column(header_text(), 46, 56, "DST_PORT"@),
        is_in_column(header_text(), 56, 66, "PACKETS"@),
        header_text().skip(66) == "BYTES"@,
{
    reveal_strlit("SRC_IP");
    reveal_strlit("SRC_PORT");
    reveal_strlit("DST_IP");
    reveal_strlit("DST_PORT");
    reveal_strlit("PACKETS");
    let a = text::padded("SRC_IP"@, 18);
    let b = text::padded("SRC_PORT"@, 10);
    let c = text::padded("DST_IP"@, 18);
    let d = text::padded("DST_PORT"@, 10);
    let e = text::padded("PACKETS"@, 10);
    let f = "BYTES"@;
    let line = header_text();
    let none = Seq::<char>::empty();
    assert(line == a + b + c + d + e + f);
    lemma_cell(none, "SRC_IP"@, 18, b + c + d + e + f);
    assert(none + a + (b + c + d + e + f) =~= line);
    lemma_cell(a, "SRC_PORT"@, 10, c + d + e + f);
    assert(a + b + (c + d + e + f) =~= line);
    lemma_cell(a + b, "DST_IP"@, 18, d + e + f);
    assert(a + b + c + (d + e + f) =~= line);
    lemma_cell(a + b + c, "DST_PORT"@, 10, e + f);
    assert(a + b + c + d + (e + f) =~= line);
    lemma_cell(a + b + c + d, "PACKETS"@, 10, f);
    assert(line.skip(66) =~= f);
}

} // verus!
