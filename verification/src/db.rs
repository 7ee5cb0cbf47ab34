//! What is written to the database, and the decisions on when and whether to write it.

use vstd::prelude::*;
use vstd::string::*;

use crate::aggregator::{self, DayDelta, StatDelta, TAIPEI_OFFSET_SECONDS};
use crate::cidr;
use crate::stats::Stats;
use crate::text;
use crate::time::{self, Day, Timestamp};

verus! {

// ── rows ────────────────────────────────────────────────────────────────────

/// One flow, as it is stored.
#[derive(Clone, Copy, Debug, PartialEq, Eq, Structural)]
pub struct FlowRow {
    pub ts: Timestamp,
    pub src_addr: u32,
    pub dst_addr: u32,
    pub src_port: i32,
    pub dst_port: i32,
    pub protocol: i16,
    pub packets: i64,
    pub bytes: i64,
    pub tcp_flags: i16,
    pub input: i32,
    pub output: i32,
    pub tos: i16,
    pub sampling_interval: i32,
}

/// One row of the health table: how far the numbers of one window can be trusted.
#[derive(Clone, Copy, Debug, PartialEq, Eq, Structural)]
pub struct HealthRow {
    pub bucket: Option<Timestamp>,
    pub packets_received: i64,
    pub flows_parsed: i64,
    pub parse_failures: i64,
    pub seq_gap: i64,
    pub flows_matched: i64,
    pub rows_written: i64,
    pub db_failures: i64,
    pub clock_skew_min_ms: Option<i64>,
    pub clock_skew_max_ms: Option<i64>,
    pub clock_skew_last_ms: Option<i64>,
    pub clock_skew_rejects: i64,
}

impl HealthRow {
    /// A row for no window, with nothing in it.
    pub open spec fn blank() -> HealthRow {
        HealthRow {
            bucket: None,
            packets_received: 0,
            flows_parsed: 0,
            parse_failures: 0,
            seq_gap: 0,
            flows_matched: 0,
            rows_written: 0,
            db_failures: 0,
            clock_skew_min_ms: None,
            clock_skew_max_ms: None,
            clock_skew_last_ms: None,
            clock_skew_rejects: 0,
        }
    }
}

impl Default for HealthRow {
    fn default() -> (r: Self)
        ensures
            r == HealthRow::blank(),
            r.bucket is None && r.packets_received == 0 && r.flows_parsed == 0 && r.parse_failures == 0,
            r.seq_gap == 0 && r.flows_matched == 0 && r.rows_written == 0 && r.db_failures == 0,
            r.clock_skew_min_ms is None && r.clock_skew_max_ms is None,
            r.clock_skew_last_ms is None && r.clock_skew_rejects == 0,
    {
        HealthRow {
            bucket: None,
            packets_received: 0,
            flows_parsed: 0,
            parse_failures: 0,
            seq_gap: 0,
            flows_matched: 0,
            rows_written: 0,
            db_failures: 0,
            clock_skew_min_ms: None,
            clock_skew_max_ms: None,
            clock_skew_last_ms: None,
            clock_skew_rejects: 0,
        }
    }
}

/// What one window brings.
pub struct FlushBatch {
    pub buckets: Vec<StatDelta>,
    pub days: Vec<DayDelta>,
    pub health: HealthRow,
}

// ── the intranet ────────────────────────────────────────────────────────────

/// The boundary of the intranet: a network and its mask.
#[derive(Clone, Copy, Debug, PartialEq, Eq, Structural)]
pub struct IntraCidr {
    pub network: u32,
    pub mask: u32,
}

impl IntraCidr {
    /// Whether an address is inside.
    pub fn contains(&self, ip: u32) -> (r: bool)
        ensures
            r == cidr::in_network(self.network, self.mask, ip),
            r == (ip & self.mask == self.network),
    {
        ip & self.mask == self.network
    }
}

/// Why a text is no network.
#[derive(Clone, Copy, Debug, PartialEq, Eq, Structural)]
pub enum CidrError {
    PrefixLength,
    PrefixTooLong(u8),
    Address,
}

/// What a text means as a network and its mask: an address, which may have white space around it,
/// and then possibly a slash and a prefix length. Without a prefix length it is one address.
pub open spec fn network_of(s: Seq<char>) -> Result<(u32, u32), CidrError> {
    match text::cut(s, '/') {
        Some((ip_text, prefix_text)) => match text::byte_text(prefix_text) {
            None => Err(CidrError::PrefixLength),
            Some(prefix) => masked_address(ip_text, prefix),
        },
        None => masked_address(s, 32),
    }
}

/// The network with a prefix length that an address text falls into.
pub open spec fn masked_address(s: Seq<char>, prefix: u8) -> Result<(u32, u32), CidrError> {
    if prefix > 32 {
        Err(CidrError::PrefixTooLong(prefix))
    } else {
        match text::address_of(text::trimmed(s)) {
            None => Err(CidrError::Address),
            Some(ip) => Ok((ip & cidr::mask_of(prefix), cidr::mask_of(prefix))),
        }
    }
}

/// The intranet of an address, a slash and a prefix length holds the addresses that share as many first
/// bits with the address as the length says, and no others; that of an address alone holds that address
/// and no other. White space around the address is passed over.
pub proof fn an_intranet_holds_what_shares_its_prefix(
    before: Seq<char>,
    ip: u32,
    behind: Seq<char>,
    prefix: u8,
    other: u32,
)
    requires
        prefix <= 32,
        text::is_blank(before),
        text::is_blank(behind),
    ensures
        ({
            let address = before + text::dotted(ip) + behind;
            let found = network_of(address + "/"@ + text::decimal(prefix as nat));
            let alone = network_of(address);
            let size = vstd::arithmetic::power2::pow2((32 - prefix) as nat) as int;
            &&& found is Ok && alone is Ok
            &&& other & found->Ok_0.1 == found->Ok_0.0 <==> other as int / size == ip as int / size
            &&& other & alone->Ok_0.1 == alone->Ok_0.0 <==> other == ip
        }),
{
    let digits = text::decimal(prefix as nat);
    let address = before + text::dotted(ip) + behind;
    assert(!address.contains('/')) by {
        if address.contains('/') {
            let i = choose|i: int| 0 <= i < address.len() && address[i] == '/';
            let from = before.len() as int;
            let to = from + text::dotted(ip).len();
            if i < from {
                assert(text::is_white_space(before[i]));
            } else if i < to {
                text::dotted_is_digits_and_dots(ip, i - from);
            } else {
                assert(text::is_white_space(behind[i - to]));
            }
        }
    }
    reveal_strlit("/");
    assert("/"@ =~= seq!['/']);
    text::a_text_is_cut_once(address, '/', digits);
    text::a_byte_is_read_from_its_digits(0, prefix as nat, digits, 0);
    assert(Seq::new(0, |k: int| '0') + digits =~= digits);
    text::a_number_reads_back((ip / 0x100_0000) as nat);
    text::dotted_is_digits_and_dots(ip, 0);
    text::white_space_around_a_text_goes(before, text::dotted(ip), behind);
    text::address_reads_back(ip);
    cidr::networks_share_their_first_bits(ip, other, prefix);
    cidr::full_prefix_is_one_address(ip, other);
}

/// A text is no network where no address stands before the slash, nor where the number behind it is too
/// large or none at all.
pub proof fn texts_that_are_no_networks(ip: u32, n: nat, tail: Seq<char>, head: Seq<char>, prefix: u8)
    requires
        n > 32,
        prefix <= 32,
        text::byte_text(tail) is None,
        !head.contains('/'),
        forall|other: u32| text::trimmed(head) != #[trigger] text::dotted(other),
    ensures
        network_of(head) == Err::<(u32, u32), CidrError>(CidrError::Address),
        network_of(head + "/"@ + text::decimal(prefix as nat)) == Err::<(u32, u32), CidrError>(
            CidrError::Address,
        ),
        network_of(head + "/"@ + tail) == Err::<(u32, u32), CidrError>(CidrError::PrefixLength),
        network_of(head + "/"@ + text::decimal(n)) == Err::<(u32, u32), CidrError>(
            if n <= 255 {
                CidrError::PrefixTooLong(n as u8)
            } else {
                CidrError::PrefixLength
            },
        ),
{
    let digits = text::decimal(n);
    let short = text::decimal(prefix as nat);
    reveal_strlit("/");
    assert("/"@ =~= seq!['/']);
    text::a_text_is_cut_once(head, '/', tail);
    text::a_text_is_cut_once(head, '/', digits);
    text::a_text_is_cut_once(head, '/', short);
    text::a_byte_is_read_from_its_digits(0, n, digits, 0);
    text::a_byte_is_read_from_its_digits(0, prefix as nat, digits, 0);
    assert(Seq::new(0, |k: int| '0') + digits =~= digits);
    assert(Seq::new(0, |k: int| '0') + short =~= short);
}

/// Reads a network and its mask. Bits of the address beyond the prefix are cleared.
pub fn parse_cidr(s: &str) -> (r: Result<(u32, u32), CidrError>)
    ensures
        r == network_of(s@),
        r matches Ok((network, mask)) ==> cidr::is_network(network, mask),
{
    let (ip_text, prefix): (&str, u8) = match text::split_once(s, '/') {
        Some((ip_text, prefix_text)) => match text::parse_byte(prefix_text) {
            Some(prefix) => (ip_text, prefix),
            None => return Err(CidrError::PrefixLength),
        },
        None => (s, 32),
    };
    if prefix > 32 {
        return Err(CidrError::PrefixTooLong(prefix));
    }
    match text::parse_ipv4(text::trim(ip_text)) {
        Some(ip) => {
            let mask = cidr::prefix_mask(prefix);
            proof {
                cidr::masking_makes_a_network(ip, prefix);
            }
            Ok((ip & mask, mask))
        },
        None => Err(CidrError::Address),
    }
}

/// Reads the boundary of the intranet.
pub fn parse_intra_cidr(text: &str) -> (r: Result<IntraCidr, CidrError>)
    ensures
        match r {
            Ok(intra) => network_of(text@) == Ok::<(u32, u32), CidrError>(
                (intra.network, intra.mask),
            ) && cidr::is_network(intra.network, intra.mask),
            Err(e) => network_of(text@) == Err::<(u32, u32), CidrError>(e),
        },
{
    match parse_cidr(text) {
        Ok((network, mask)) => Ok(IntraCidr { network, mask }),
        Err(e) => Err(e),
    }
}

/// What is said of a setting that is no network.
pub open spec fn intra_cidr_message(text: Seq<char>) -> Seq<char> {
    "[netflow].intra_cidr is not a valid IPv4 CIDR: '"@ + text + "'"@
}

/// What is said of a setting that is no network.
pub fn describe_intra_cidr(text: &str) -> (r: String)
    ensures
        r@ == intra_cidr_message(text@),
        r@ == "[netflow].intra_cidr is not a valid IPv4 CIDR: '"@ + text@ + "'"@,
{
    let mut out: String = "[netflow].intra_cidr is not a valid IPv4 CIDR: '".to_owned();
    out.append(text);
    out.append("'");
    out
}

/// What lies behind it.
pub open spec fn cidr_message(error: CidrError) -> Seq<char> {
    match error {
        CidrError::PrefixLength => "invalid prefix length"@,
        CidrError::PrefixTooLong(n) => "prefix length "@ + text::decimal(n as nat) + " > 32"@,
        CidrError::Address => "invalid IPv4 address"@,
    }
}

impl CidrError {
    /// What is said of it.
    pub fn message(&self) -> (r: String)
        ensures
            r@ == cidr_message(*self),
            r@ == (match *self {
                CidrError::PrefixLength => "invalid prefix length"@,
                CidrError::PrefixTooLong(n) => "prefix length "@ + text::decimal(n as nat) + " > 32"@,
                CidrError::Address => "invalid IPv4 address"@,
            }),
    {
        match self {
            CidrError::PrefixLength => "invalid prefix length".to_owned(),
            CidrError::PrefixTooLong(n) => {
                let mut out: String = "prefix length ".to_owned();
                text::append_decimal(&mut out, *n as u64);
                out.append(" > 32");
                out
            },
            CidrError::Address => "invalid IPv4 address".to_owned(),
        }
    }
}

/// The boundary that was in use before, where that was another one.
pub fn changed_cidr(previous: Option<String>, cidr: &str) -> (r: Option<String>)
    ensures
        r is Some <==> previous is Some && previous->0@ != cidr@,
        r is Some ==> r->0@ == previous->0@,
{
    match previous {
        Some(text) => if text::same_text(text.as_str(), cidr) {
            None
        } else {
            Some(text)
        },
        None => None,
    }
}

// ── connecting ──────────────────────────────────────────────────────────────

/// The first wait between two attempts to connect.
pub const RECONNECT_BASE_DELAY_SECS: u64 = 1;

/// The longest wait between two attempts to connect.
pub const RECONNECT_MAX_DELAY_SECS: u64 = 30;

/// The wait, in seconds, after an attempt that failed when some had failed before it: it doubles
/// from one second up to thirty.
pub open spec fn backoff(failures: nat) -> nat {
    let doubled = vstd::arithmetic::power2::pow2(failures);
    if doubled < RECONNECT_MAX_DELAY_SECS {
        doubled
    } else {
        RECONNECT_MAX_DELAY_SECS as nat
    }
}

/// What the connection at hand is like.
#[derive(Clone, Copy, Debug, PartialEq, Eq, Structural)]
pub enum Link {
    Absent,
    Open,
    Closed,
}

/// What to do next on the way to an open connection.
#[derive(Clone, Copy, Debug, PartialEq, Eq, Structural)]
pub enum ConnectStep {
    /// Use the connection at hand.
    Use,
    /// Make a new one; `lost` says that the one at hand is closed and has to go.
    Dial { lost: bool },
}

/// Attempts to get an open connection.
pub struct Reconnect {
    pub delay_secs: u64,
    pub attempts: u32,
    pub recovering: bool,
}

impl Reconnect {
    /// The wait fits the number of attempts that failed.
    pub open spec fn wf(&self) -> bool {
        self.delay_secs == backoff(self.attempts as nat)
    }

    /// No attempt yet.
    pub fn new() -> (r: Self)
        ensures
            r.wf(),
            r.attempts == 0,
            !r.recovering,
    {
        proof {
            vstd::arithmetic::power2::lemma2_to64();
        }
        Reconnect { delay_secs: RECONNECT_BASE_DELAY_SECS, attempts: 0, recovering: false }
    }

    /// What to do with the connection at hand.
    pub fn next(&mut self, link: Link) -> (r: ConnectStep)
        requires
            old(self).wf(),
        ensures
            final(self).wf(),
            final(self).attempts == old(self).attempts,
            final(self).recovering == (old(self).recovering || link == Link::Closed),
            r == (match link {
                Link::Open => ConnectStep::Use,
                Link::Closed => ConnectStep::Dial { lost: true },
                Link::Absent => ConnectStep::Dial { lost: false },
            }),
    {
        match link {
            Link::Open => ConnectStep::Use,
            Link::Closed => {
                self.recovering = true;
                ConnectStep::Dial { lost: true }
            },
            Link::Absent => ConnectStep::Dial { lost: false },
        }
    }

    /// An attempt succeeded: whether that is worth a report, which it is after a loss or a failure.
    pub fn succeeded(&self) -> (r: bool)
        ensures
            r == (self.recovering || self.attempts > 0),
    {
        self.recovering || self.attempts > 0
    }

    /// An attempt failed: how many seconds to wait before the next one.
    pub fn failed(&mut self) -> (r: u64)
        requires
            old(self).wf(),
            old(self).attempts < u32::MAX,
        ensures
            final(self).wf(),
            final(self).attempts == old(self).attempts + 1,
            final(self).recovering == old(self).recovering,
            r == backoff(old(self).attempts as nat),
    {
        let wait: u64 = self.delay_secs;
        proof {
            vstd::arithmetic::power2::lemma_pow2_unfold((self.attempts + 1) as nat);
        }
        self.attempts = self.attempts + 1;
        self.delay_secs = if wait * 2 < RECONNECT_MAX_DELAY_SECS {
            wait * 2
        } else {
            RECONNECT_MAX_DELAY_SECS
        };
        wait
    }
}

/// The waits are 1, 2, 4, 8 and 16 seconds, and 30 seconds from then on.
pub proof fn waits_double_up_to_the_limit(failures: nat)
    ensures
        backoff(0) == 1,
        backoff(1) == 2,
        backoff(2) == 4,
        backoff(3) == 8,
        backoff(4) == 16,
        failures >= 5 ==> backoff(failures) == 30,
    decreases failures,
{
    vstd::arithmetic::power2::lemma2_to64();
    if failures > 5 {
        waits_double_up_to_the_limit((failures - 1) as nat);
        vstd::arithmetic::power2::lemma_pow2_unfold(failures);
    }
}

// ── raw rows ────────────────────────────────────────────────────────────────

/// How many rows are written at once.
pub const BATCH_SIZE: usize = 1000;

/// How often rows are written that are fewer than that, in seconds.
pub const FLUSH_INTERVAL_SECS: u64 = 5;

/// What happened to the writer of raw rows.
pub enum RawEvent {
    Row(FlowRow),
    Tick,
    /// No more rows will come.
    Closed,
}

/// What the writer of raw rows does next.
#[derive(Clone, Copy, Debug, PartialEq, Eq, Structural)]
pub struct RawAction {
    /// Write what has been gathered.
    pub write: bool,
    /// Stop after that.
    pub stop: bool,
}

/// Gathers raw rows to write them together.
pub struct RawWriter {
    pub buffer: Vec<FlowRow>,
}

impl RawWriter {
    /// Fewer rows than are written at once.
    pub open spec fn wf(&self) -> bool {
        self.buffer@.len() < BATCH_SIZE
    }

    /// No rows.
    pub fn new() -> (r: Self)
        ensures
            r.wf(),
            r.buffer@ == Seq::<FlowRow>::empty(),
    {
        RawWriter { buffer: Vec::new() }
    }

    /// Takes in what happened. Rows are written when enough have come together, when the time is up
    /// and when no more will come.
    pub fn next(&mut self, event: RawEvent) -> (r: RawAction)
        requires
            old(self).wf(),
        ensures
            final(self).buffer@ == (match event {
                RawEvent::Row(row) => old(self).buffer@.push(row),
                _ => old(self).buffer@,
            }),
            r.write == (match event {
                RawEvent::Row(_) => old(self).buffer@.len() + 1 == BATCH_SIZE,
                _ => old(self).buffer@.len() > 0,
            }),
            r.stop == (event is Closed),
            event is Row ==> r.write == (old(self).buffer@.len() == 999),
            !r.write ==> final(self).wf(),
            final(self).buffer@.len() <= BATCH_SIZE,
    {
        match event {
            RawEvent::Row(row) => {
                self.buffer.push(row);
                RawAction { write: self.buffer.len() >= BATCH_SIZE, stop: false }
            },
            RawEvent::Tick => RawAction { write: self.buffer.len() > 0, stop: false },
            RawEvent::Closed => RawAction { write: self.buffer.len() > 0, stop: true },
        }
    }

    /// The rows have been written, or have not: either way they go. What to add to the totals.
    pub fn settle(&mut self, written: bool) -> (r: Stats)
        ensures
            final(self).wf(),
            final(self).buffer@ == Seq::<FlowRow>::empty(),
            r == (if written {
                Stats { db_written: old(self).buffer@.len() as u64, ..Stats::zero() }
            } else {
                Stats { db_failed: old(self).buffer@.len() as u64, ..Stats::zero() }
            }),
    {
        let count: u64 = self.buffer.len() as u64;
        let mut change = Stats::new();
        if written {
            change.db_written = count;
        } else {
            change.db_failed = count;
        }
        self.buffer.clear();
        change
    }
}

// ── rebuilding ──────────────────────────────────────────────────────────────

/// What rebuilding a day has brought about.
pub struct RollupOutcome {
    pub rows: u64,
    pub bytes_before: i64,
    pub bytes_after: i64,
}

impl RollupOutcome {
    /// By how much the day's total has changed. Anything but zero shows that something was lost or
    /// counted twice during the day.
    pub fn drift(&self) -> (r: i64)
        requires
            i64::MIN <= self.bytes_after - self.bytes_before <= i64::MAX,
        ensures
            r == self.bytes_after - self.bytes_before,
    {
        self.bytes_after - self.bytes_before
    }

    /// Whether a number can hold the change.
    pub fn has_drift(&self) -> (r: bool)
        ensures
            r == (i64::MIN <= self.bytes_after - self.bytes_before <= i64::MAX),
    {
        let change: i128 = self.bytes_after as i128 - self.bytes_before as i128;
        i64::MIN as i128 <= change && change <= i64::MAX as i128
    }
}

/// The second at which a day in Taipei starts.
pub open spec fn day_start(day: Day) -> int {
    (day.number - time::EPOCH_DAY) * 86_400 - TAIPEI_OFFSET_SECONDS
}

/// Whether the calendar has the start of a day in Taipei and the start of the next.
pub open spec fn has_bounds(day: Day) -> bool {
    &&& day.valid()
    &&& time::MIN_SECONDS <= day_start(day)
    &&& day_start(day) + 86_400 <= time::MAX_SECONDS
}

/// Whether the calendar has the start of a day in Taipei and the start of the next.
pub fn is_bounded(day: Day) -> (r: bool)
    ensures
        r == has_bounds(day),
        r == ({
            let start = (day.number - 719_163) * 86_400 - 28_800;
            &&& -95_746_129 <= day.number <= 95_745_399
            &&& -8_334_601_228_800 <= start
            &&& start + 86_400 <= 8_210_266_876_799
        }),
{
    if day.number < time::MIN_DAY || day.number > time::MAX_DAY {
        return false;
    }
    let start: i64 = (day.number as i64 - time::EPOCH_DAY as i64) * 86_400 - TAIPEI_OFFSET_SECONDS;
    time::MIN_SECONDS <= start && start + 86_400 <= time::MAX_SECONDS
}

/// The instants at which a day in Taipei starts and the next one starts.
pub fn taipei_day_bounds(day: Day) -> (r: (Timestamp, Timestamp))
    requires
        has_bounds(day),
    ensures
        r.0.secs == day_start(day),
        r.0.nanos == 0,
        r.1.secs == day_start(day) + 86_400,
        r.1.nanos == 0,
        r.0.secs + 28_800 == (day.number - 719_163) * 86_400,
        r.1.secs == r.0.secs + 86_400,
        r.0.valid(),
        r.1.valid(),
{
    let local_midnight = time::midnight(day);
    let from = time::minus_millis(local_midnight, TAIPEI_OFFSET_SECONDS * 1000);
    let to = time::plus_seconds(from, 86_400);
    (from, to)
}

/// The bounds of a day in Taipei take in the instants of that day and no others.
pub proof fn bounds_hold_the_day(day: Day, at: Timestamp)
    requires
        has_bounds(day),
        aggregator::has_local_day(at),
    ensures
        aggregator::local_day(at) == day <==> day_start(day) <= at.secs < day_start(day) + 86_400,
{
}

/// Whether a range can be rebuilt: there have to be raw rows to rebuild it from.
pub fn can_rebuild(raw_rows: i64) -> (r: bool)
    ensures
        r == (raw_rows != 0),
{
    raw_rows != 0
}

/// What is said when a range cannot be rebuilt.
pub open spec fn refusal_message(from: Timestamp, to: Timestamp, existing: i64) -> Seq<char> {
    "flow_raw holds no rows for "@ + time::instant_text(from.secs, from.nanos) + " .. "@
        + time::instant_text(to.secs, to.nanos)
        + " (past the retention window, or the wrong range); refusing to rebuild, because doing so would delete the "@
        + text::signed_decimal(existing as int) + " existing statistics rows and put nothing back"@
}

/// What is said when a range cannot be rebuilt.
pub fn describe_refusal(from: Timestamp, to: Timestamp, existing: i64) -> (r: String)
    requires
        from.valid(),
        to.valid(),
    ensures
        r@ == refusal_message(from, to, existing),
        r@ == "flow_raw holds no rows for "@ + time::instant_text(from.secs, from.nanos) + " .. "@
            + time::instant_text(to.secs, to.nanos)
            + " (past the retention window, or the wrong range); refusing to rebuild, because doing so would delete the "@
            + text::signed_decimal(existing as int)
            + " existing statistics rows and put nothing back"@,
{
    let mut out: String = "flow_raw holds no rows for ".to_owned();
    out.append(time::display_instant(from).as_str());
    out.append(" .. ");
    out.append(time::display_instant(to).as_str());
    out.append(
        " (past the retention window, or the wrong range); refusing to rebuild, because doing so would delete the ",
    );
    text::append_signed(&mut out, existing);
    out.append(" existing statistics rows and put nothing back");
    out
}

} // verus!
