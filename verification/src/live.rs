//! The live monitor: the flows that came last, and a screen that shows them.

use std::collections::{HashSet, VecDeque};
use vstd::prelude::*;
use vstd::string::*;

use crate::printer::{self, PrintContext, ShownFlow};
use crate::text;

verus! {

/// How wide the frame is, without its corners.
pub const BOX_INNER: usize = 66;

/// A flow for the live monitor.
#[derive(Clone, Copy, Debug, PartialEq, Eq, Structural)]
pub struct LiveRecord {
    pub src_addr: u32,
    pub src_port: u16,
    pub dst_addr: u32,
    pub dst_port: u16,
    pub d_pkts: u32,
    pub d_octets: u32,
    pub src_matched: bool,
    pub dst_matched: bool,
}

// ── the flows that came last ────────────────────────────────────────────────

/// The last elements of a sequence, no more than a number of them.
pub open spec fn latest<T>(s: Seq<T>, most: nat) -> Seq<T> {
    if s.len() > most {
        s.skip(s.len() - most)
    } else {
        s
    }
}

/// Changes how many flows are kept. Where that are fewer than before, the oldest go.
pub fn apply_resize(ring: &mut VecDeque<LiveRecord>, ring_size: &mut usize, new_size: usize)
    ensures
        *final(ring_size) == new_size,
        final(ring)@ == (if new_size == *old(ring_size) {
            old(ring)@
        } else {
            latest(old(ring)@, new_size as nat)
        }),
        new_size != *old(ring_size) ==> final(ring)@.len() == if old(ring)@.len() < new_size {
            old(ring)@.len() as int
        } else {
            new_size as int
        },
        forall|i: int|
            0 <= i < final(ring)@.len() ==> #[trigger] final(ring)@[i] == old(ring)@[old(ring)@.len()
                - final(ring)@.len() + i],
{
    if new_size == *ring_size {
        return;
    }
    *ring_size = new_size;
    let ghost mut gone: int = 0;
    let ghost all = ring@;
    assert(ring@ =~= all.skip(0));
    while ring.len() > new_size
        invariant
            0 <= gone <= all.len(),
            ring@ == all.skip(gone),
            gone > 0 ==> all.len() - gone >= new_size,
        decreases ring.len(),
    {
        ring.pop_front();
        proof {
            gone = gone + 1;
            assert(ring@ =~= all.skip(gone));
        }
    }
    assert(ring@ =~= latest(all, new_size as nat));
}

/// What the live monitor keeps.
pub struct LiveMonitor {
    pub ring: VecDeque<LiveRecord>,
    pub ring_size: usize,
    pub prev_matched: u64,
    /// How many flows matched in the last second.
    pub nps: u64,
}

impl LiveMonitor {
    /// No more flows than are shown.
    pub open spec fn wf(&self) -> bool {
        self.ring@.len() <= self.ring_size
    }

    /// No flows yet, after so many had matched.
    pub fn new(live_lines: usize, matched: u64) -> (r: Self)
        ensures
            r.wf(),
            r.ring@ == Seq::<LiveRecord>::empty(),
            r.ring_size == live_lines,
            r.prev_matched == matched,
            r.nps == 0,
    {
        LiveMonitor {
            ring: VecDeque::new(),
            ring_size: live_lines,
            prev_matched: matched,
            nps: 0,
        }
    }

    /// A flow came in: the oldest one goes, where there is no room.
    pub fn record(&mut self, rec: LiveRecord, live_lines: usize)
        requires
            old(self).wf(),
        ensures
            final(self).wf(),
            final(self).ring_size == live_lines,
            final(self).prev_matched == old(self).prev_matched,
            final(self).nps == old(self).nps,
            final(self).ring@ == latest(old(self).ring@.push(rec), live_lines as nat),
    {
        apply_resize(&mut self.ring, &mut self.ring_size, live_lines);
        if live_lines > 0 {
            if self.ring.len() >= live_lines {
                self.ring.pop_front();
            }
            self.ring.push_back(rec);
        }
        assert(self.ring@ =~= latest(old(self).ring@.push(rec), live_lines as nat));
    }

    /// A second has passed, and so many flows have matched by now.
    pub fn tick(&mut self, matched: u64, live_lines: usize)
        requires
            old(self).wf(),
            matched >= old(self).prev_matched,
        ensures
            final(self).wf(),
            final(self).ring_size == live_lines,
            final(self).prev_matched == matched,
            final(self).nps == matched - old(self).prev_matched,
            final(self).ring@ == (if live_lines == old(self).ring_size {
                old(self).ring@
            } else {
                latest(old(self).ring@, live_lines as nat)
            }),
    {
        self.nps = matched - self.prev_matched;
        self.prev_matched = matched;
        apply_resize(&mut self.ring, &mut self.ring_size, live_lines);
    }
}

// ── numbers ─────────────────────────────────────────────────────────────────

/// Digits with a comma before every three from the right.
pub open spec fn commas(digits: Seq<char>) -> Seq<char>
    decreases digits.len(),
{
    if digits.len() <= 3 {
        digits
    } else {
        commas(digits.take(digits.len() - 3)) + ","@ + digits.skip(digits.len() - 3)
    }
}

/// Without its commas.
pub open spec fn without_commas(s: Seq<char>) -> Seq<char>
    decreases s.len(),
{
    if s.len() == 0 {
        s
    } else if s.last() == ',' {
        without_commas(s.drop_last())
    } else {
        without_commas(s.drop_last()).push(s.last())
    }
}

/// A number with commas.
pub open spec fn grouped(n: nat) -> Seq<char> {
    commas(text::decimal(n))
}

/// A number below 1000 has at most three digits.
proof fn lemma_few_digits(n: nat)
    requires
        n < 1000,
    ensures
        text::decimal(n).len() <= 3,
{
    reveal_with_fuel(text::decimal, 3);
}

/// The digits of a larger number are those of its thousands and three more.
proof fn lemma_last_three_digits(n: nat)
    requires
        n >= 1000,
    ensures
        text::decimal(n) == text::decimal(n / 1000) + three_digits((n % 1000) as int),
{
    let tens = n / 10;
    let hundreds = tens / 10;
    assert(hundreds / 10 == n / 1000);
    assert(hundreds % 10 == n % 1000 / 100 && tens % 10 == n % 1000 / 10 % 10 && n % 10 == n % 1000
        % 10);
    assert(text::decimal(n) == text::decimal(tens).push(text::digit_char((n % 10) as int)));
    assert(text::decimal(tens) == text::decimal(hundreds).push(
        text::digit_char((tens % 10) as int),
    ));
    assert(text::decimal(hundreds) == text::decimal(n / 1000).push(
        text::digit_char((hundreds % 10) as int),
    ));
    assert(text::decimal(n) =~= text::decimal(n / 1000) + three_digits((n % 1000) as int));
}

/// A larger number with commas is its thousands with commas, a comma and three more digits.
proof fn lemma_grouped(n: nat)
    requires
        n >= 1000,
    ensures
        grouped(n) == grouped(n / 1000) + ","@ + three_digits((n % 1000) as int),
{
    lemma_last_three_digits(n);
    let digits = text::decimal(n);
    let head = text::decimal(n / 1000);
    assert(head.len() > 0);
    assert(digits.take(digits.len() - 3) =~= head);
    assert(digits.skip(digits.len() - 3) =~= three_digits((n % 1000) as int));
}

fn append_grouped(out: &mut String, n: u64)
    ensures
        final(out)@ == old(out)@ + grouped(n as nat),
    decreases n,
{
    if n < 1000 {
        proof {
            lemma_few_digits(n as nat);
        }
        text::append_decimal(out, n);
    } else {
        proof {
            lemma_grouped(n as nat);
        }
        append_grouped(out, n / 1000);
        out.append(",");
        append_three(out, n % 1000);
        assert(out@ =~= old(out)@ + grouped(n as nat));
    }
}

/// A number below 1000 in three digits.
pub open spec fn three_digits(n: int) -> Seq<char> {
    seq![text::digit_char(n / 100), text::digit_char(n / 10 % 10), text::digit_char(n % 10)]
}

fn append_three(out: &mut String, n: u64)
    requires
        n < 1000,
    ensures
        final(out)@ == old(out)@ + three_digits(n as int),
{
    proof {
        reveal_with_fuel(text::decimal, 2);
    }
    text::append_decimal(out, n / 100);
    text::append_decimal(out, n / 10 % 10);
    text::append_decimal(out, n % 10);
    assert(out@ =~= old(out)@ + three_digits(n as int));
}

/// A number with a comma before every three digits from the right.
pub fn fmt_commas(n: u64) -> (r: String)
    ensures
        r@ == grouped(n as nat),
        without_commas(r@) == text::decimal(n as nat),
        forall|k: int|
            0 <= k < r@.len() ==> (#[trigger] r@[r@.len() - 1 - k] == ',' <==> k % 4 == 3),
        r@.len() > 0 && r@[0] != ',',
{
    let mut out: String = "".to_owned();
    proof {
        reveal_strlit("");
    }
    append_grouped(&mut out, n);
    assert(out@ =~= grouped(n as nat));
    proof {
        let digits = text::decimal(n as nat);
        text::a_number_reads_back(n as nat);
        assert forall|i: int| 0 <= i < digits.len() implies #[trigger] digits[i] != ',' by {
            assert(text::is_digit(digits[i]));
        }
        commas_keep_the_digits(digits);
        commas_stand_before_every_three(digits);
    }
    out
}

/// Commas add nothing but themselves: without them the digits are as they were.
pub proof fn commas_keep_the_digits(digits: Seq<char>)
    requires
        forall|i: int| 0 <= i < digits.len() ==> #[trigger] digits[i] != ',',
    ensures
        without_commas(commas(digits)) == digits,
    decreases digits.len(),
{
    reveal_strlit(",");
    if digits.len() <= 3 {
        lemma_without_commas_keeps(Seq::empty(), digits);
        assert(Seq::<char>::empty() + digits =~= digits);
    } else {
        let head = digits.take(digits.len() - 3);
        let tail = digits.skip(digits.len() - 3);
        commas_keep_the_digits(head);
        let with_comma = commas(head) + ","@;
        assert(with_comma.drop_last() =~= commas(head));
        assert(with_comma.last() == ',');
        lemma_without_commas_keeps(with_comma, tail);
        assert(commas(digits) =~= with_comma + tail);
        assert(head + tail =~= digits);
    }
}

/// Counted from the right, every fourth character is a comma, and no other is; a comma never comes first.
pub proof fn commas_stand_before_every_three(digits: Seq<char>)
    requires
        forall|i: int| 0 <= i < digits.len() ==> #[trigger] digits[i] != ',',
        digits.len() > 0,
    ensures
        ({
            let s = commas(digits);
            &&& forall|k: int|
                0 <= k < s.len() ==> (#[trigger] s[s.len() - 1 - k] == ',' <==> k % 4 == 3)
            &&& s.len() > 0 && s[0] != ','
        }),
    decreases digits.len(),
{
    reveal_strlit(",");
    let s = commas(digits);
    let n = digits.len() as int;
    if n > 3 {
        let head = digits.take(n - 3);
        let tail = digits.skip(n - 3);
        commas_stand_before_every_three(head);
        let front = commas(head);
        assert(s =~= front + ","@ + tail);
        assert(s[0] == front[0]);
        assert forall|k: int| 0 <= k < s.len() implies (#[trigger] s[s.len() - 1 - k] == ',' <==> k % 4
            == 3) by {
            if k < 3 {
                assert(s[s.len() - 1 - k] == tail[2 - k]);
                assert(tail[2 - k] == digits[n - 1 - k]);
            } else if k > 3 {
                let j = k - 4;
                assert(s[s.len() - 1 - k] == front[front.len() - 1 - j]);
                assert(j % 4 == k % 4);
            }
        }
    } else {
        assert forall|k: int| 0 <= k < s.len() implies (#[trigger] s[s.len() - 1 - k] == ',' <==> k % 4
            == 3) by {
            assert(s[s.len() - 1 - k] == digits[n - 1 - k]);
        }
    }
}

proof fn lemma_without_commas_keeps(head: Seq<char>, tail: Seq<char>)
    requires
        forall|i: int| 0 <= i < tail.len() ==> #[trigger] tail[i] != ',',
    ensures
        without_commas(head + tail) == without_commas(head) + tail,
    decreases tail.len(),
{
    if tail.len() == 0 {
        assert(head + tail =~= head);
        assert(without_commas(head) + tail =~= without_commas(head));
    } else {
        assert(tail.last() == tail[tail.len() - 1]);
        lemma_without_commas_keeps(head, tail.drop_last());
        assert((head + tail).drop_last() =~= head + tail.drop_last());
        assert((head + tail).last() == tail.last());
        assert(without_commas(head + tail) =~= without_commas(head) + tail);
    }
}

// ── the screen ──────────────────────────────────────────────────────────────

/// Moves the cursor to the top left corner.
pub const HOME: &'static str = "\x1b[H";

/// Clears the rest of the line and moves on to the next.
pub const END_OF_LINE: &'static str = "\x1b[K\n";

/// The upper edge of the frame.
pub open spec fn top_edge() -> Seq<char> {
    "\u{2554}"@ + text::repeated("\u{2550}"@, BOX_INNER as nat) + "\u{2557}"@
}

/// The lower edge of the frame.
pub open spec fn bottom_edge() -> Seq<char> {
    "\u{255a}"@ + text::repeated("\u{2550}"@, BOX_INNER as nat) + "\u{255d}"@
}

/// The line with the numbers.
pub open spec fn numbers_text(nps: u64, total: u64, filtered: u64) -> Seq<char> {
    "  NPS: "@ + text::padded(grouped(nps as nat), 12) + "Total: "@ + text::padded(
        grouped(total as nat),
        16,
    ) + "Filtered: "@ + grouped(filtered as nat)
}

/// A record as a line.
pub open spec fn record_text(rec: LiveRecord, color: bool, ports: Set<u16>) -> Seq<char> {
    printer::flow_text(
        ShownFlow {
            src_addr: rec.src_addr,
            src_port: rec.src_port,
            dst_addr: rec.dst_addr,
            dst_port: rec.dst_port,
            d_pkts: rec.d_pkts,
            d_octets: rec.d_octets,
        },
        color,
        rec.src_matched,
        rec.dst_matched,
        ports,
    )
}

/// A record as a line.
pub fn format_flow_line(rec: &LiveRecord, color: bool, highlighted_ports: &HashSet<u16>) -> (r:
    String)
    ensures
        r@ == record_text(*rec, color, highlighted_ports@),
{
    let flow = ShownFlow {
        src_addr: rec.src_addr,
        src_port: rec.src_port,
        dst_addr: rec.dst_addr,
        dst_port: rec.dst_port,
        d_pkts: rec.d_pkts,
        d_octets: rec.d_octets,
    };
    let ctx = PrintContext {
        color,
        src_matched: rec.src_matched,
        dst_matched: rec.dst_matched,
        highlighted_ports,
    };
    printer::flow_line(&flow, &ctx)
}

/// The lines above the flows.
pub open spec fn head_lines(nps: u64, total: u64, filtered: u64) -> Seq<Seq<char>> {
    seq![
        top_edge(),
        "  NetFlow Live Monitor"@,
        numbers_text(nps, total, filtered),
        bottom_edge(),
        printer::header_text(),
    ]
}

/// The lines of the flows.
pub open spec fn flow_lines(ring: Seq<LiveRecord>, color: bool, ports: Set<u16>) -> Seq<Seq<char>> {
    Seq::new(ring.len(), |i: int| record_text(ring[i], color, ports))
}

/// The empty lines that wipe out what stood below the flows before.
pub open spec fn blank_lines(shown: nat, ring_size: nat) -> Seq<Seq<char>> {
    Seq::new(
        if ring_size > shown {
            (ring_size - shown) as nat
        } else {
            0
        },
        |i: int| Seq::empty(),
    )
}

/// All lines of the screen.
pub open spec fn screen_lines(
    ring: Seq<LiveRecord>,
    ring_size: nat,
    received: u64,
    matched: u64,
    nps: u64,
    color: bool,
    ports: Set<u16>,
) -> Seq<Seq<char>> {
    head_lines(nps, received, matched) + flow_lines(ring, color, ports) + blank_lines(
        ring.len(),
        ring_size,
    )
}

/// Lines, each with what clears the rest of it.
pub open spec fn written(lines: Seq<Seq<char>>) -> Seq<char>
    decreases lines.len(),
{
    if lines.len() == 0 {
        Seq::empty()
    } else {
        written(lines.drop_last()) + lines.last() + END_OF_LINE@
    }
}

/// The number of lines is always the same as long as the settings are: five above the flows, and one
/// for each flow that there is room for.
pub proof fn the_screen_keeps_its_height(
    ring: Seq<LiveRecord>,
    ring_size: nat,
    received: u64,
    matched: u64,
    nps: u64,
    color: bool,
    ports: Set<u16>,
)
    requires
        ring.len() <= ring_size,
    ensures
        screen_lines(ring, ring_size, received, matched, nps, color, ports).len() == 5 + ring_size,
{
}

fn push_line(out: &mut String, line: &str)
    ensures
        forall|lines: Seq<Seq<char>>|
            old(out)@ == HOME@ + #[trigger] written(lines) ==> final(out)@ == HOME@ + written(
                lines.push(line@),
            ),
{
    out.append(line);
    out.append(END_OF_LINE);
    proof {
        assert forall|lines: Seq<Seq<char>>|
            old(out)@ == HOME@ + #[trigger] written(lines) implies out@ == HOME@ + written(
            lines.push(line@),
        ) by {
            assert(lines.push(line@).drop_last() =~= lines);
            assert(out@ =~= HOME@ + written(lines.push(line@)));
        }
    }
}

fn edge(left: &str, right: &str) -> (r: String)
    ensures
        r@ == left@ + text::repeated("\u{2550}"@, BOX_INNER as nat) + right@,
{
    let mut out: String = left.to_owned();
    text::append_repeated(&mut out, "\u{2550}", BOX_INNER);
    out.append(right);
    out
}

fn numbers_line(nps: u64, total: u64, filtered: u64) -> (r: String)
    ensures
        r@ == numbers_text(nps, total, filtered),
{
    let mut out: String = "  NPS: ".to_owned();
    out.append(text::pad(fmt_commas(nps).as_str(), 12).as_str());
    out.append("Total: ");
    out.append(text::pad(fmt_commas(total).as_str(), 16).as_str());
    out.append("Filtered: ");
    out.append(fmt_commas(filtered).as_str());
    out
}

/// The whole screen, to be written over what stood there before.
pub fn redraw(
    ring: &VecDeque<LiveRecord>,
    ring_size: usize,
    received: u64,
    matched: u64,
    nps: u64,
    color: bool,
    highlighted_ports: &HashSet<u16>,
) -> (r: String)
    ensures
        r@ == HOME@ + written(
            screen_lines(
                ring@,
                ring_size as nat,
                received,
                matched,
                nps,
                color,
                highlighted_ports@,
            ),
        ),
{
    let ghost heads = head_lines(nps, received, matched);
    let ghost flows = flow_lines(ring@, color, highlighted_ports@);
    let ghost blanks = blank_lines(ring@.len(), ring_size as nat);
    let ghost none = Seq::<Seq<char>>::empty();
    let mut out: String = HOME.to_owned();
    assert(out@ =~= HOME@ + written(none));
    push_line(&mut out, edge("\u{2554}", "\u{2557}").as_str());
    push_line(&mut out, "  NetFlow Live Monitor");
    push_line(&mut out, numbers_line(nps, received, matched).as_str());
    push_line(&mut out, edge("\u{255a}", "\u{255d}").as_str());
    push_line(&mut out, printer::header_line().as_str());
    proof {
        assert(heads =~= none.push(top_edge()).push("  NetFlow Live Monitor"@).push(
            numbers_text(nps, received, matched),
        ).push(bottom_edge()).push(printer::header_text()));
        assert(heads + flows.take(0) =~= heads);
    }
    let mut i: usize = 0;
    while i < ring.len()
        invariant
            i <= ring.len(),
            flows == flow_lines(ring@, color, highlighted_ports@),
            out@ == HOME@ + written(heads + flows.take(i as int)),
        decreases ring.len() - i,
    {
        let line = format_flow_line(&ring[i], color, highlighted_ports);
        push_line(&mut out, line.as_str());
        assert((heads + flows.take(i as int)).push(line@) =~= heads + flows.take(i + 1));
        i += 1;
    }
    assert(heads + flows.take(i as int) =~= heads + flows + blanks.take(0));
    while i < ring_size
        invariant
            ring@.len() <= i,
            i <= ring_size || i == ring@.len(),
            blanks == blank_lines(ring@.len(), ring_size as nat),
            out@ == HOME@ + written(heads + flows + blanks.take(i - ring@.len())),
        decreases ring_size - i,
    {
        proof {
            reveal_strlit("");
        }
        push_line(&mut out, "");
        assert(""@ =~= Seq::<char>::empty());
        assert((heads + flows + blanks.take(i - ring@.len())).push(""@) =~= heads + flows
            + blanks.take(i + 1 - ring@.len()));
        i += 1;
    }
    assert(blanks.take(i - ring@.len()) =~= blanks);
    out
}

/// The ring once flows have come in one after the other, with the same number of lines all along.
pub open spec fn recorded(ring: Seq<LiveRecord>, records: Seq<LiveRecord>, lines: nat) -> Seq<LiveRecord>
    decreases records.len(),
{
    if records.len() == 0 {
        ring
    } else {
        latest(recorded(ring, records.drop_last(), lines).push(records.last()), lines)
    }
}

/// However many flows come in, those are kept that came last, in the order in which they came, and
/// as many of them as there are lines.
pub proof fn the_newest_flows_are_kept(records: Seq<LiveRecord>, lines: nat)
    ensures
        recorded(Seq::empty(), records, lines) == latest(records, lines),
    decreases records.len(),
{
    if records.len() > 0 {
        the_newest_flows_are_kept(records.drop_last(), lines);
        let before = latest(records.drop_last(), lines);
        assert(latest(before.push(records.last()), lines) =~= latest(records, lines));
    }
}

/// The last elements are taken from the end, in their order, and as many as there may be.
pub proof fn the_latest_come_from_the_end<T>(s: Seq<T>, most: nat, i: int)
    requires
        0 <= i < latest(s, most).len(),
    ensures
        latest(s, most).len() == if s.len() < most {
            s.len()
        } else {
            most
        },
        latest(s, most)[i] == s[s.len() - latest(s, most).len() + i],
{
}

/// The screen, line by line: the upper edge, the title, the numbers, the lower edge and the names of the
/// columns; then a line for each flow, in order; then empty lines.
pub proof fn the_screen_line_by_line(
    ring: Seq<LiveRecord>,
    ring_size: nat,
    received: u64,
    matched: u64,
    nps: u64,
    color: bool,
    ports: Set<u16>,
    flow: ShownFlow,
    i: int,
)
    requires
        0 <= i < ring.len() <= ring_size,
        flow.src_addr == ring[i].src_addr && flow.src_port == ring[i].src_port,
        flow.dst_addr == ring[i].dst_addr && flow.dst_port == ring[i].dst_port,
        flow.d_pkts == ring[i].d_pkts && flow.d_octets == ring[i].d_octets,
    ensures
        ({
            let lines = screen_lines(ring, ring_size, received, matched, nps, color, ports);
            &&& lines[0] == top_edge()
            &&& lines[1] == "  NetFlow Live Monitor"@
            &&& lines[2] == "  NPS: "@ + text::padded(grouped(nps as nat), 12) + "Total: "@
                + text::padded(grouped(received as nat), 16) + "Filtered: "@ + grouped(
                matched as nat,
            )
            &&& lines[3] == bottom_edge()
            &&& lines[4] == printer::header_text()
            &&& lines[5 + i] == printer::flow_text(
                flow,
                color,
                ring[i].src_matched,
                ring[i].dst_matched,
                ports,
            )
            &&& lines.len() == 5 + ring_size
            &&& forall|k: int|
                5 + ring.len() <= k < 5 + ring_size ==> (#[trigger] lines[k]).len() == 0
        }),
{
    assert(flow == (ShownFlow {
        src_addr: ring[i].src_addr,
        src_port: ring[i].src_port,
        dst_addr: ring[i].dst_addr,
        dst_port: ring[i].dst_port,
        d_pkts: ring[i].d_pkts,
        d_octets: ring[i].d_octets,
    }));
}

/// Lines are written one after the other, each with what clears the rest of it behind it.
pub proof fn lines_are_written_in_order(first: Seq<Seq<char>>, then: Seq<Seq<char>>, line: Seq<char>)
    ensures
        written(first + then) == written(first) + written(then),
        written(seq![line]) == line + "\x1b[K\n"@,
        HOME@ == "\x1b[H"@,
    decreases then.len(),
{
    reveal_with_fuel(written, 2);
    assert(seq![line].drop_last() =~= Seq::empty());
    assert(written(seq![line]) =~= line + "\x1b[K\n"@);
    if then.len() > 0 {
        lines_are_written_in_order(first, then.drop_last(), line);
        assert((first + then).drop_last() =~= first + then.drop_last());
        assert((first + then).last() == then.last());
        assert(written(first + then) =~= written(first) + written(then));
    } else {
        assert(first + then =~= first);
        assert(written(first) + written(then) =~= written(first));
    }
}

/// The edges of the frame are sixty-six double lines wide, with the corners at their ends.
pub proof fn the_edges_have_corners(i: int)
    requires
        0 < i < 67,
    ensures
        top_edge().len() == 68 && bottom_edge().len() == 68,
        top_edge()[0] == '\u{2554}' && top_edge()[67] == '\u{2557}',
        bottom_edge()[0] == '\u{255a}' && bottom_edge()[67] == '\u{255d}',
        top_edge()[i] == '\u{2550}' && bottom_edge()[i] == '\u{2550}',
{
    reveal_strlit("\u{2554}");
    reveal_strlit("\u{2557}");
    reveal_strlit("\u{255a}");
    reveal_strlit("\u{255d}");
    reveal_strlit("\u{2550}");
    text::repeats_stand_side_by_side("\u{2550}"@, 66, i - 1, 0);
}

} // verus!
