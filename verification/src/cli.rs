//! Reading what the command line and the settings ask for.

use vstd::prelude::*;
use vstd::string::*;

use crate::aggregator::{self, BUCKET_SECONDS};
use crate::cidr;
use crate::config::{Config, DatabaseConfig};
use crate::db::IntraCidr;
use crate::filter::{self, FilterConfig, FilterError, FilterFault};
use crate::text;
use crate::time::{self, Day, Timestamp};

verus! {

// ── settings that have to be there ──────────────────────────────────────────

/// A setting that is missing.
#[derive(Clone, Copy, Debug, PartialEq, Eq, Structural)]
pub enum Missing {
    IntraCidr,
    Database,
}

/// What is said of a setting that is missing.
pub open spec fn missing_message(missing: Missing) -> Seq<char> {
    match missing {
        Missing::IntraCidr => "[netflow].intra_cidr is missing"@,
        Missing::Database => "[database] section missing"@,
    }
}

/// What is logged of a setting that an option needs and that is missing.
pub open spec fn missing_hint(missing: Missing, flag: Seq<char>) -> Seq<char> {
    match missing {
        Missing::IntraCidr => flag
            + " requires intra_cidr in the [netflow] section of the config file"@,
        Missing::Database => flag + " requires a [database] section in the config file"@,
    }
}

impl Missing {
    /// What is said of it.
    pub fn message(&self) -> (r: String)
        ensures
            r@ == missing_message(*self),
            r@ == (match *self {
                Missing::IntraCidr => "[netflow].intra_cidr is missing"@,
                Missing::Database => "[database] section missing"@,
            }),
    {
        match self {
            Missing::IntraCidr => "[netflow].intra_cidr is missing".to_owned(),
            Missing::Database => "[database] section missing".to_owned(),
        }
    }

    /// What is logged of it, with the option that needs it.
    pub fn hint(&self, flag: &str) -> (r: String)
        ensures
            r@ == missing_hint(*self, flag@),
            r@ == flag@ + (match *self {
                Missing::IntraCidr => " requires intra_cidr in the [netflow] section of the config file"@,
                Missing::Database => " requires a [database] section in the config file"@,
            }),
    {
        let mut out: String = flag.to_owned();
        match self {
            Missing::IntraCidr => {
                out.append(" requires intra_cidr in the [netflow] section of the config file");
            },
            Missing::Database => {
                out.append(" requires a [database] section in the config file");
            },
        }
        out
    }
}

/// The boundary of the intranet, as set.
pub fn require_intra_cidr(config: &Config) -> (r: Result<String, Missing>)
    ensures
        r == (match config.netflow {
            Some(set) => match set.intra_cidr {
                Some(cidr) => Ok::<String, Missing>(cidr),
                None => Err(Missing::IntraCidr),
            },
            None => Err(Missing::IntraCidr),
        }),
{
    match config.netflow().intra_cidr {
        Some(cidr) => Ok(cidr),
        None => Err(Missing::IntraCidr),
    }
}

/// Where the database is, as set.
pub fn require_db(config: &Config) -> (r: Result<&DatabaseConfig, Missing>)
    ensures
        match r {
            Ok(set) => config.database == Some(*set),
            Err(missing) => config.database is None && missing == Missing::Database,
        },
{
    match &config.database {
        Some(set) => Ok(set),
        None => Err(Missing::Database),
    }
}

// ── days ────────────────────────────────────────────────────────────────────

/// What is said of a text that is no day.
pub open spec fn day_message(given: Seq<char>) -> Seq<char> {
    "expected YYYY-MM-DD or 'yesterday', got '"@ + given + "'"@
}

/// What a text means as a day in Taipei, at some instant.
pub open spec fn day_of(given: Seq<char>, now: Timestamp) -> Option<Day> {
    if text::same_ignoring_case(given, "yesterday"@) {
        Some(Day { number: (aggregator::local_day(now).number - 1) as i32 })
    } else {
        match time::formatted_date(text::trimmed(given), "%Y-%m-%d"@) {
            Some(number) => Some(Day { number }),
            None => None,
        }
    }
}

/// Reads a day in Taipei: a date, or `yesterday`. Where it is neither, what is said of it.
pub fn parse_day(given: &str, now: Timestamp) -> (r: Result<Day, String>)
    requires
        aggregator::has_local_day(now),
        aggregator::local_day(now).number > time::MIN_DAY,
    ensures
        match r {
            Ok(day) => day_of(given@, now) == Some(day) && day.valid(),
            Err(message) => day_of(given@, now) is None && message@ == day_message(given@),
        },
        r matches Err(message) ==> message@ == "expected YYYY-MM-DD or 'yesterday', got '"@ + given@
            + "'"@,
        text::same_ignoring_case(given@, "yesterday"@) ==> r is Ok && (r->Ok_0.number - 719_162)
            * 86_400 <= now.secs + 28_800 < (r->Ok_0.number - 719_161) * 86_400,
{
    if text::eq_ignoring_case(given, "yesterday") {
        let today = aggregator::taipei_day(now);
        return Ok(time::minus_days(today, 1));
    }
    match time::parse_date(text::trim(given), "%Y-%m-%d") {
        Ok(day) => Ok(day),
        Err(_) => {
            let mut out: String = "expected YYYY-MM-DD or 'yesterday', got '".to_owned();
            out.append(given);
            out.append("'");
            Err(out)
        },
    }
}

// ── ranges ──────────────────────────────────────────────────────────────────

/// Why a text is no range of instants.
#[derive(Debug)]
pub enum RangeError {
    /// Fewer than two words.
    NotTwo,
    /// More than two words.
    MoreThanTwo,
    /// A word that is no instant.
    NotAnInstant(String),
    /// The end does not come after the start.
    Empty(Timestamp, Timestamp),
}

/// Why a text is no range of instants.
pub enum RangeFault {
    NotTwo,
    MoreThanTwo,
    NotAnInstant(Seq<char>),
    Empty(Timestamp, Timestamp),
}

impl View for RangeError {
    type V = RangeFault;

    open spec fn view(&self) -> RangeFault {
        match *self {
            RangeError::NotTwo => RangeFault::NotTwo,
            RangeError::MoreThanTwo => RangeFault::MoreThanTwo,
            RangeError::NotAnInstant(s) => RangeFault::NotAnInstant(s@),
            RangeError::Empty(from, to) => RangeFault::Empty(from, to),
        }
    }
}

/// What is said of a text that is no range.
pub open spec fn range_message(fault: RangeFault) -> Seq<char> {
    match fault {
        RangeFault::NotTwo => "expected two RFC3339 instants separated by a space"@,
        RangeFault::MoreThanTwo => "expected exactly two instants, got more"@,
        RangeFault::NotAnInstant(s) => "'"@ + s + "' is not an RFC3339 instant"@,
        RangeFault::Empty(from, to) => "the range is empty: "@ + time::instant_text(
            from.secs,
            from.nanos,
        ) + " .. "@ + time::instant_text(to.secs, to.nanos),
    }
}

impl RangeError {
    /// The instants in it are ones that the calendar has.
    pub open spec fn wf(&self) -> bool {
        match *self {
            RangeError::Empty(from, to) => from.valid() && to.valid(),
            _ => true,
        }
    }

    /// What is said of it.
    pub fn message(&self) -> (r: String)
        requires
            self.wf(),
        ensures
            r@ == range_message(self@),
            r@ == (match *self {
                RangeError::NotTwo => "expected two RFC3339 instants separated by a space"@,
                RangeError::MoreThanTwo => "expected exactly two instants, got more"@,
                RangeError::NotAnInstant(s) => "'"@ + s@ + "' is not an RFC3339 instant"@,
                RangeError::Empty(from, to) => "the range is empty: "@ + time::instant_text(
                    from.secs,
                    from.nanos,
                ) + " .. "@ + time::instant_text(to.secs, to.nanos),
            }),
    {
        match self {
            RangeError::NotTwo => "expected two RFC3339 instants separated by a space".to_owned(),
            RangeError::MoreThanTwo => "expected exactly two instants, got more".to_owned(),
            RangeError::NotAnInstant(s) => {
                let mut out: String = "'".to_owned();
                out.append(s.as_str());
                out.append("' is not an RFC3339 instant");
                out
            },
            RangeError::Empty(from, to) => {
                let mut out: String = "the range is empty: ".to_owned();
                out.append(time::display_instant(*from).as_str());
                out.append(" .. ");
                out.append(time::display_instant(*to).as_str());
                out
            },
        }
    }
}

/// The start of a bucket that does not come before an instant: the instant itself, or the start of
/// the bucket after the one that it falls into.
pub open spec fn bucket_end(at: Timestamp) -> Timestamp {
    if aggregator::bucket(at) == at {
        at
    } else {
        Timestamp { secs: (aggregator::bucket(at).secs + BUCKET_SECONDS) as i64, nanos: 0 }
    }
}

/// A range widened to whole buckets, unless there is nothing in it.
pub open spec fn aligned(from: Timestamp, to: Timestamp) -> Result<(Timestamp, Timestamp), RangeFault> {
    if aggregator::bucket(from).before(bucket_end(to)) {
        Ok((aggregator::bucket(from), bucket_end(to)))
    } else {
        Err(RangeFault::Empty(aggregator::bucket(from), bucket_end(to)))
    }
}

/// Whether a range is another one widened to multiples of five minutes: its start by less than that
/// backwards, its end by less than that forwards.
pub open spec fn widens(from: Timestamp, to: Timestamp, start: Timestamp, end: Timestamp) -> bool {
    &&& start.nanos == 0 && start.secs as int % 300 == 0
    &&& start.secs <= from.secs < start.secs + 300
    &&& end.nanos == 0 && end.secs as int % 300 == 0
    &&& if to.nanos == 0 && to.secs as int % 300 == 0 {
        end.secs == to.secs
    } else {
        end.secs - 300 <= to.secs < end.secs
    }
}

/// Widens a range to whole buckets, so that none is rebuilt by half.
pub fn align_range(from: Timestamp, to: Timestamp) -> (r: Result<(Timestamp, Timestamp), RangeError>)
    requires
        from.valid(),
        to.valid(),
        to.secs + BUCKET_SECONDS <= time::MAX_SECONDS,
    ensures
        match r {
            Ok(range) => aligned(from, to) == Ok::<(Timestamp, Timestamp), RangeFault>(range)
                && range.0.valid() && range.1.valid(),
            Err(e) => aligned(from, to) == Err::<(Timestamp, Timestamp), RangeFault>(e@) && e.wf(),
        },
        match r {
            Ok((start, end)) => widens(from, to, start, end) && start.secs < end.secs,
            Err(RangeError::Empty(start, end)) => widens(from, to, start, end) && start.secs >= end.secs,
            Err(_) => false,
        },
{
    let start = aggregator::bucket_of(from);
    let floored = aggregator::bucket_of(to);
    let end = if floored == to {
        floored
    } else {
        time::plus_seconds(floored, BUCKET_SECONDS)
    };
    if start.is_before(&end) {
        Ok((start, end))
    } else {
        Err(RangeError::Empty(start, end))
    }
}

/// A range is widened outwards, to bucket boundaries, by less than a bucket on each side; one that
/// lies on bucket boundaries is left alone.
pub proof fn ranges_are_widened_to_buckets(from: Timestamp, to: Timestamp)
    requires
        from.valid(),
        to.valid(),
        to.secs + BUCKET_SECONDS <= time::MAX_SECONDS,
    ensures
        aligned(from, to) matches Ok((start, end)) ==> {
            &&& start.secs as int % BUCKET_SECONDS as int == 0 && start.nanos == 0
            &&& end.secs as int % BUCKET_SECONDS as int == 0 && end.nanos == 0
            &&& !from.before(start) && from.secs < start.secs + BUCKET_SECONDS
            &&& !end.before(to) && (Timestamp {
                secs: (end.secs - BUCKET_SECONDS) as i64,
                nanos: 0,
            }).before(to)
            &&& start.before(end)
        },
        aggregator::bucket(from) == from && aggregator::bucket(to) == to && from.before(to)
            ==> aligned(from, to) == Ok::<(Timestamp, Timestamp), RangeFault>((from, to)),
        aligned(from, to) matches Err(fault) ==> !from.before(to),
{
}

/// The instant that a word means.
pub open spec fn instant_of(word: Seq<char>) -> Option<Timestamp> {
    match time::rfc3339_instant(word) {
        Some((secs, nanos)) => Some(Timestamp { secs, nanos }),
        None => None,
    }
}

/// What a text means as a range: two instants with white space between them, widened to whole
/// buckets.
pub open spec fn range_of(given: Seq<char>) -> Result<(Timestamp, Timestamp), RangeFault> {
    let words = text::words(given);
    if words.len() < 2 {
        Err(RangeFault::NotTwo)
    } else if words.len() > 2 {
        Err(RangeFault::MoreThanTwo)
    } else {
        match (instant_of(words[0]), instant_of(words[1])) {
            (None, _) => Err(RangeFault::NotAnInstant(words[0])),
            (Some(_), None) => Err(RangeFault::NotAnInstant(words[1])),
            (Some(from), Some(to)) => aligned(from, to),
        }
    }
}

/// A range is read from two words, with white space between them and perhaps around them: the first is
/// where it starts and the second is where it ends. One word is too few, and more than two are too many.
pub proof fn a_range_is_two_instants(
    before: Seq<char>,
    first: Seq<char>,
    gap: Seq<char>,
    second: Seq<char>,
    behind: Seq<char>,
    third: Seq<char>,
    from: Timestamp,
    to: Timestamp,
)
    requires
        text::is_blank(before) && text::is_blank(gap) && text::is_blank(behind),
        gap.len() > 0,
        first.len() > 0 && second.len() > 0 && third.len() > 0,
        text::is_solid(first) && text::is_solid(second) && text::is_solid(third),
    ensures
        ({
            let read = range_of(before + first + gap + (second + behind));
            &&& time::rfc3339_instant(first) == Some((from.secs, from.nanos)) && time::rfc3339_instant(
                second,
            ) == Some((to.secs, to.nanos)) ==> read == aligned(from, to)
            &&& time::rfc3339_instant(first) is None ==> read == Err::<
                (Timestamp, Timestamp),
                RangeFault,
            >(RangeFault::NotAnInstant(first))
            &&& time::rfc3339_instant(first) is Some && time::rfc3339_instant(second) is None ==> read
                == Err::<(Timestamp, Timestamp), RangeFault>(RangeFault::NotAnInstant(second))
        }),
        range_of(before) == Err::<(Timestamp, Timestamp), RangeFault>(RangeFault::NotTwo),
        range_of(before + first + behind) == Err::<(Timestamp, Timestamp), RangeFault>(
            RangeFault::NotTwo,
        ),
        range_of(before + first + gap + (second + gap + third)) == Err::<
            (Timestamp, Timestamp),
            RangeFault,
        >(RangeFault::MoreThanTwo),
{
    let none = Seq::<char>::empty();
    text::words_stand_between_white_space(none, second, behind, none);
    assert(none + second + behind + none =~= second + behind);
    text::words_stand_between_white_space(before, first, gap, second + behind);
    text::words_stand_between_white_space(before, first, behind, none);
    assert(before + first + behind + none =~= before + first + behind);
    text::words_stand_between_white_space(none, third, none, none);
    assert(none + third + none + none =~= third);
    text::words_stand_between_white_space(none, second, gap, third);
    assert(none + second + gap + third =~= second + gap + third);
    text::words_stand_between_white_space(before, first, gap, second + gap + third);
    assert(text::words(none) =~= Seq::<Seq<char>>::empty()) by {
        text::words_stand_between_white_space(none, first, none, none);
    }
    assert(text::words(second + behind) =~= seq![second]);
    assert(text::words(third) =~= seq![third]);
}

/// Reads a range.
pub fn parse_range(given: &str) -> (r: Result<(Timestamp, Timestamp), RangeError>)
    ensures
        match r {
            Ok(range) => range_of(given@) == Ok::<(Timestamp, Timestamp), RangeFault>(range)
                && range.0.valid() && range.1.valid(),
            Err(e) => range_of(given@) == Err::<(Timestamp, Timestamp), RangeFault>(e@)
                && e.wf(),
        },
{
    let words = text::split_words(given);
    if words.len() < 2 {
        return Err(RangeError::NotTwo);
    }
    if words.len() > 2 {
        return Err(RangeError::MoreThanTwo);
    }
    let from = match time::parse_rfc3339(words[0].as_str()) {
        Ok(at) => at,
        Err(_) => return Err(RangeError::NotAnInstant(words[0].clone())),
    };
    let to = match time::parse_rfc3339(words[1].as_str()) {
        Ok(at) => at,
        Err(_) => return Err(RangeError::NotAnInstant(words[1].clone())),
    };
    align_range(from, to)
}

// ── the filter and the intranet ─────────────────────────────────────────────

/// How the addresses of a filter lie.
#[derive(Clone, Copy, Debug, PartialEq, Eq, Structural)]
pub struct FilterScope {
    /// How many there are.
    pub addresses: usize,
    /// How many of them are outside the intranet, where the names of the counters read backwards.
    pub outside: usize,
}

/// Counts the addresses of a filter, and those among them that are outside the intranet.
pub fn report_filter_scope(filter: &FilterConfig, intra: &IntraCidr) -> (r: Result<
    FilterScope,
    FilterError,
>)
    requires
        filter.wf(),
    ensures
        match r {
            Ok(scope) => {
                &&& filter::filtered(filter@).len() <= filter::EXPAND_LIMIT
                &&& scope.addresses == filter::filtered(filter@).len()
                &&& scope.outside == filter::filtered(filter@).filter(
                    |ip: u32| !cidr::in_network(intra.network, intra.mask, ip),
                ).len()
            },
            Err(e) => {
                &&& filter::filtered(filter@).len() > filter::EXPAND_LIMIT
                &&& e@ == FilterFault::TooManyAddresses
            },
        },
{
    let set = match filter.expand() {
        Ok(set) => set,
        Err(e) => return Err(e),
    };
    let list = filter::address_list(&set);
    let ghost is_outside = |ip: u32| !cidr::in_network(intra.network, intra.mask, ip);
    let mut outside: Vec<u32> = Vec::new();
    let mut i: usize = 0;
    while i < list.len()
        invariant
            i <= list.len(),
            is_outside == (|ip: u32| !cidr::in_network(intra.network, intra.mask, ip)),
            list@.no_duplicates(),
            outside@.no_duplicates(),
            forall|ip: u32| #[trigger]
                outside@.contains(ip) <==> list@.take(i as int).contains(ip) && is_outside(ip),
        decreases list.len() - i,
    {
        let ip: u32 = list[i];
        let ghost before = outside@;
        let ghost earlier = list@.take(i as int);
        let ghost next = list@.take(i + 1);
        proof {
            assert(next =~= earlier.push(ip));
            assert(next[i as int] == ip);
            assert forall|x: u32| #[trigger] next.contains(x) <==> earlier.contains(x) || x == ip by {
                if earlier.contains(x) {
                    let k = choose|k: int| 0 <= k < earlier.len() && earlier[k] == x;
                    assert(next[k] == x);
                }
            }
            if earlier.contains(ip) {
                let k = choose|k: int| 0 <= k < earlier.len() && earlier[k] == ip;
                assert(list@[k] == list@[i as int]);
            }
        }
        if !intra.contains(ip) {
            outside.push(ip);
            proof {
                assert(outside@[before.len() as int] == ip);
                assert(!before.contains(ip));
                assert forall|x: u32| #[trigger]
                    outside@.contains(x) <==> before.contains(x) || x == ip by {
                    if before.contains(x) {
                        let k = choose|k: int| 0 <= k < before.len() && before[k] == x;
                        assert(outside@[k] == x);
                    }
                }
            }
        }
        i += 1;
    }
    proof {
        assert(list@.take(i as int) =~= list@);
        assert(set@ =~= filter::filtered(filter@));
        outside@.unique_seq_to_set();
        assert forall|ip: u32| outside@.to_set().contains(ip) == filter::filtered(filter@).filter(
            is_outside,
        ).contains(ip) by {
            assert(outside@.contains(ip) <==> list@.contains(ip) && is_outside(ip));
            assert(list@.contains(ip) <==> list@.to_set().contains(ip));
        }
        assert(outside@.to_set() =~= filter::filtered(filter@).filter(is_outside));
    }
    Ok(FilterScope { addresses: list.len(), outside: outside.len() })
}

/// Whether the system has given less room for incoming packets than was asked for.
pub fn is_capped(requested: usize, actual: usize) -> (r: bool)
    ensures
        r == (actual < requested),
{
    actual < requested
}

} // verus!
