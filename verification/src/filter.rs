//! The filter: which addresses are watched, and which side of a flow they have to be on.

use std::collections::HashSet;
use vstd::prelude::*;
use vstd::string::*;

use crate::cidr;
use crate::config::{Config, FilterEntry, HighlightedPortsConfig};
use crate::text;

verus! {

broadcast use vstd::std_specs::hash::group_hash_axioms;

/// Above this many addresses, an expansion is refused: a prefix is a typing mistake.
pub const EXPAND_LIMIT: u64 = 1_048_576;

/// Which sides of a flow matched.
pub struct MatchResult {
    pub src_matched: bool,
    pub dst_matched: bool,
}

impl MatchResult {
    /// Whether either side matched.
    pub fn is_match(&self) -> (r: bool)
        ensures
            r == (self.src_matched || self.dst_matched),
    {
        self.src_matched || self.dst_matched
    }
}

// ── one rule ────────────────────────────────────────────────────────────────

/// What the text of a rule stands for.
pub enum Rule {
    Host(u32),
    Range(u32, u32),
}

/// Why a text is no rule, with the part of it that is at fault.
pub enum RuleFault {
    Address(Seq<char>),
    PrefixLength(Seq<char>),
    PrefixTooLong(u8),
}

/// Why a text is no rule, with the part of it that is at fault.
#[derive(Debug)]
pub enum RuleError {
    Address(String),
    PrefixLength(String),
    PrefixTooLong(u8),
}

impl View for RuleError {
    type V = RuleFault;

    open spec fn view(&self) -> RuleFault {
        match *self {
            RuleError::Address(s) => RuleFault::Address(s@),
            RuleError::PrefixLength(s) => RuleFault::PrefixLength(s@),
            RuleError::PrefixTooLong(n) => RuleFault::PrefixTooLong(n),
        }
    }
}

/// What the text of a rule stands for: an address, or an address, a slash and a prefix length.
pub open spec fn rule_of(text: Seq<char>) -> Result<Rule, RuleFault> {
    match text::cut(text, '/') {
        Some((ip_text, prefix_text)) => match text::address_of(ip_text) {
            None => Err(RuleFault::Address(ip_text)),
            Some(ip) => match text::byte_text(prefix_text) {
                None => Err(RuleFault::PrefixLength(prefix_text)),
                Some(prefix) => if prefix > 32 {
                    Err(RuleFault::PrefixTooLong(prefix))
                } else if prefix == 32 {
                    Ok(Rule::Host(ip))
                } else {
                    Ok(Rule::Range(ip & cidr::mask_of(prefix), cidr::mask_of(prefix)))
                },
            },
        },
        None => match text::address_of(text) {
            None => Err(RuleFault::Address(text)),
            Some(ip) => Ok(Rule::Host(ip)),
        },
    }
}

/// Reads the text of a rule.
fn parse_rule(cidr: &str) -> (r: Result<Rule, RuleError>)
    ensures
        match r {
            Ok(rule) => rule_of(cidr@) == Ok::<Rule, RuleFault>(rule),
            Err(e) => rule_of(cidr@) == Err::<Rule, RuleFault>(e@),
        },
{
    match text::split_once(cidr, '/') {
        Some((ip_text, prefix_text)) => {
            let ip: u32 = match text::parse_ipv4(ip_text) {
                Some(ip) => ip,
                None => return Err(RuleError::Address(ip_text.to_owned())),
            };
            let prefix: u8 = match text::parse_byte(prefix_text) {
                Some(prefix) => prefix,
                None => return Err(RuleError::PrefixLength(prefix_text.to_owned())),
            };
            if prefix > 32 {
                return Err(RuleError::PrefixTooLong(prefix));
            }
            if prefix == 32 {
                Ok(Rule::Host(ip))
            } else {
                let mask = cidr::prefix_mask(prefix);
                Ok(Rule::Range(ip & mask, mask))
            }
        },
        None => match text::parse_ipv4(cidr) {
            Some(ip) => Ok(Rule::Host(ip)),
            None => Err(RuleError::Address(cidr.to_owned())),
        },
    }
}

// ── a group of rules ────────────────────────────────────────────────────────

/// Addresses, one by one and in ranges. A range is a network and its mask.
pub struct Addresses {
    pub hosts: Set<u32>,
    pub ranges: Seq<(u32, u32)>,
}

impl Addresses {
    /// No address at all.
    pub open spec fn none() -> Addresses {
        Addresses { hosts: Set::empty(), ranges: Seq::empty() }
    }

    /// With one more rule.
    pub open spec fn with(self, rule: Rule) -> Addresses {
        match rule {
            Rule::Host(ip) => Addresses { hosts: self.hosts.insert(ip), ranges: self.ranges },
            Rule::Range(network, mask) => Addresses {
                hosts: self.hosts,
                ranges: self.ranges.push((network, mask)),
            },
        }
    }

    /// Whether an address is one of these.
    pub open spec fn accept(self, ip: u32) -> bool {
        ||| self.hosts.contains(ip)
        ||| exists|i: int|
            0 <= i < self.ranges.len() && cidr::in_network(
                (#[trigger] self.ranges[i]).0,
                self.ranges[i].1,
                ip,
            )
    }

    /// Whether every range is one that a prefix length makes.
    pub open spec fn proper(self) -> bool {
        forall|i: int|
            0 <= i < self.ranges.len() ==> cidr::is_network(
                (#[trigger] self.ranges[i]).0,
                self.ranges[i].1,
            )
    }

    /// All of these addresses.
    pub open spec fn all(self) -> Set<u32> {
        Set::new(|ip: u32| self.accept(ip))
    }
}

/// A group of rules.
#[derive(Debug)]
pub struct FilterGroup {
    exact: HashSet<u32>,
    cidrs: Vec<(u32, u32)>,
}

impl View for FilterGroup {
    type V = Addresses;

    closed spec fn view(&self) -> Addresses {
        Addresses { hosts: self.exact@, ranges: self.cidrs@ }
    }
}

impl Default for FilterGroup {
    fn default() -> (r: Self)
        ensures
            r@ == Addresses::none(),
    {
        FilterGroup::new()
    }
}

impl FilterGroup {
    /// A group without rules.
    pub fn new() -> (r: Self)
        ensures
            r@ == Addresses::none(),
    {
        FilterGroup { exact: HashSet::new(), cidrs: Vec::new() }
    }

    /// Whether an address is in the group.
    pub fn matches(&self, ip: u32) -> (r: bool)
        ensures
            r == self@.accept(ip),
    {
        if self.exact.contains(&ip) {
            return true;
        }
        let mut i: usize = 0;
        while i < self.cidrs.len()
            invariant
                i <= self.cidrs.len(),
                forall|k: int|
                    0 <= k < i ==> !cidr::in_network(
                        (#[trigger] self@.ranges[k]).0,
                        self@.ranges[k].1,
                        ip,
                    ),
            decreases self.cidrs.len() - i,
        {
            let (network, mask) = self.cidrs[i];
            assert(self@.ranges[i as int] == (network, mask));
            if ip & mask == network {
                return true;
            }
            i += 1;
        }
        false
    }

    /// Adds a rule by its text.
    pub fn add(&mut self, cidr: &str) -> (r: Result<(), RuleError>)
        ensures
            match r {
                Ok(_) => rule_of(cidr@) is Ok && final(self)@ == old(self)@.with(rule_of(cidr@)->Ok_0),
                Err(e) => rule_of(cidr@) == Err::<Rule, RuleFault>(e@) && final(self)@ == old(self)@,
            },
            old(self)@.proper() ==> final(self)@.proper(),
    {
        match parse_rule(cidr) {
            Ok(Rule::Host(ip)) => {
                self.exact.insert(ip);
                Ok(())
            },
            Ok(Rule::Range(network, mask)) => {
                self.cidrs.push((network, mask));
                proof {
                    lemma_rule_is_proper(cidr@);
                    assert(self@.ranges =~= old(self)@.ranges.push((network, mask)));
                    if old(self)@.proper() {
                        assert forall|i: int| 0 <= i < self@.ranges.len() implies cidr::is_network(
                            (#[trigger] self@.ranges[i]).0,
                            self@.ranges[i].1,
                        ) by {
                            if i < old(self)@.ranges.len() {
                                assert(self@.ranges[i] == old(self)@.ranges[i]);
                            }
                        }
                    }
                }
                Ok(())
            },
            Err(e) => Err(e),
        }
    }

    /// Adds every address of the group to a set, as long as the set stays within the limit.
    ///
    /// Where it would not, that is an error, and the set holds some of the addresses only.
    pub fn enumerate_into(&self, out: &mut HashSet<u32>) -> (r: Result<(), FilterError>)
        requires
            self@.proper(),
            old(out)@.len() <= EXPAND_LIMIT,
        ensures
            match r {
                Ok(_) => {
                    &&& final(out)@ == old(out)@.union(self@.all())
                    &&& final(out)@.len() <= EXPAND_LIMIT
                },
                Err(e) => {
                    &&& old(out)@.union(self@.all()).len() > EXPAND_LIMIT
                    &&& e@ == FilterFault::TooManyAddresses
                    &&& final(out)@.subset_of(old(out)@.union(self@.all()))
                },
            },
    {
        let ghost before = out@;
        let ghost target = before.union(self@.all());
        let hosts = address_list(&self.exact);
        let mut k: usize = 0;
        while k < hosts.len()
            invariant
                k <= hosts.len(),
                hosts@.to_set() == self@.hosts,
                before == old(out)@,
                target == before.union(self@.all()),
                out@.len() <= EXPAND_LIMIT,
                out@.subset_of(target),
                before.subset_of(out@),
                forall|j: int| 0 <= j < k ==> out@.contains(#[trigger] hosts@[j]),
            decreases hosts.len() - k,
        {
            let ip: u32 = hosts[k];
            proof {
                assert(hosts@.to_set().contains(hosts@[k as int]));
                assert(self@.accept(ip));
            }
            if !insert_within_limit(out, ip) {
                proof {
                    lemma_sets_of_addresses_are_finite(target);
                    vstd::set_lib::lemma_len_subset(out@, target);
                }
                return Err(FilterError::TooManyAddresses);
            }
            k += 1;
        }
        proof {
            assert forall|ip: u32| self@.hosts.contains(ip) implies out@.contains(ip) by {
                assert(hosts@.to_set().contains(ip));
                let j = choose|j: int| 0 <= j < hosts@.len() && hosts@[j] == ip;
                assert(out@.contains(hosts@[j]));
            }
        }
        let mut i: usize = 0;
        while i < self.cidrs.len()
            invariant
                i <= self.cidrs.len(),
                self@.proper(),
                before == old(out)@,
                target == before.union(self@.all()),
                out@.len() <= EXPAND_LIMIT,
                out@.subset_of(target),
                before.subset_of(out@),
                self@.hosts.subset_of(out@),
                forall|ip: u32|
                    in_some_range(self@.ranges.take(i as int), ip) ==> #[trigger] out@.contains(ip),
            decreases self.cidrs.len() - i,
        {
            let (network, mask) = self.cidrs[i];
            proof {
                assert(self@.ranges[i as int] == (network, mask));
                cidr::network_is_an_interval(network, mask, 0);
                assert forall|ip: u32| network <= ip < network + cidr::network_size(mask) implies #[trigger] target.contains(
                    ip,
                ) by {
                    cidr::network_is_an_interval(network, mask, ip);
                    assert(cidr::in_network(self@.ranges[i as int].0, self@.ranges[i as int].1, ip));
                    assert(self@.accept(ip));
                }
            }
            let count: u64 = (!mask) as u64 + 1;
            let ghost earlier = out@;
            if !insert_range(out, network, count, Ghost(target)) {
                return Err(FilterError::TooManyAddresses);
            }
            proof {
                assert forall|ip: u32| in_some_range(self@.ranges.take(i + 1), ip) implies #[trigger] out@.contains(
                    ip,
                ) by {
                    cidr::network_is_an_interval(network, mask, ip);
                    lemma_one_more_range(self@.ranges, i as int, ip);
                    if in_some_range(self@.ranges.take(i as int), ip) {
                        assert(earlier.contains(ip));
                    }
                }
            }
            i += 1;
        }
        proof {
            assert(self@.ranges.take(i as int) =~= self@.ranges);
            assert forall|ip: u32| target.contains(ip) implies out@.contains(ip) by {
                if self@.accept(ip) && !self@.hosts.contains(ip) {
                    assert(in_some_range(self@.ranges, ip));
                }
            }
            assert(out@ =~= target);
        }
        Ok(())
    }
}

/// Whether an address is in one of some ranges.
pub open spec fn in_some_range(ranges: Seq<(u32, u32)>, ip: u32) -> bool {
    exists|i: int|
        0 <= i < ranges.len() && cidr::in_network((#[trigger] ranges[i]).0, ranges[i].1, ip)
}

proof fn lemma_one_more_range(ranges: Seq<(u32, u32)>, n: int, ip: u32)
    requires
        0 <= n < ranges.len(),
    ensures
        in_some_range(ranges.take(n + 1), ip) <==> in_some_range(ranges.take(n), ip)
            || cidr::in_network(ranges[n].0, ranges[n].1, ip),
{
    let less = ranges.take(n);
    let more = ranges.take(n + 1);
    if in_some_range(more, ip) {
        let i = choose|i: int|
            0 <= i < more.len() && cidr::in_network((#[trigger] more[i]).0, more[i].1, ip);
        if i < n {
            assert(less[i] == more[i]);
        }
    }
    if in_some_range(less, ip) {
        let i = choose|i: int|
            0 <= i < less.len() && cidr::in_network((#[trigger] less[i]).0, less[i].1, ip);
        assert(more[i] == less[i]);
    }
    if cidr::in_network(ranges[n].0, ranges[n].1, ip) {
        assert(more[n] == ranges[n]);
    }
}

/// There are only so many addresses.
proof fn lemma_sets_of_addresses_are_finite(s: Set<u32>)
    ensures
        s.finite(),
{
    let numbers = vstd::set_lib::set_int_range(0, 0x1_0000_0000);
    let every = numbers.map(|n: int| n as u32);
    vstd::set_lib::lemma_int_range(0, 0x1_0000_0000);
    numbers.lemma_map_finite(|n: int| n as u32);
    assert forall|ip: u32| s.contains(ip) implies every.contains(ip) by {
        assert(numbers.contains(ip as int) && (ip as int) as u32 == ip);
    }
    vstd::set_lib::lemma_set_subset_finite(every, s);
}

proof fn lemma_rule_is_proper(text: Seq<char>)
    ensures
        match rule_of(text) {
            Ok(Rule::Range(network, mask)) => cidr::is_network(network, mask),
            _ => true,
        },
{
    if let Some((ip_text, prefix_text)) = text::cut(text, '/') {
        if let (Some(ip), Some(prefix)) = (text::address_of(ip_text), text::byte_text(prefix_text)) {
            if prefix <= 32 {
                cidr::masking_makes_a_network(ip, prefix);
            }
        }
    }
}

/// The addresses of a set, each once, in no particular order.
pub fn address_list(set: &HashSet<u32>) -> (r: Vec<u32>)
    ensures
        r@.to_set() == set@,
        r@.no_duplicates(),
        r@.len() == set@.len(),
{
    let mut out: Vec<u32> = Vec::new();
    let ghost seen = vstd::std_specs::iter::IteratorSpec::remaining(
        &vstd::std_specs::hash::spec_hash_keys_iter(set),
    );
    for ip in it: set.iter()
        invariant
            it.seq() == seen,
            out@ == seen.unref().take(it.index()),
    {
        out.push(*ip);
        assert(out@ =~= seen.unref().take(it.index() + 1));
    }
    proof {
        assert(out@ =~= seen.unref());
        assert forall|i: int, j: int| 0 <= i < j < out@.len() implies out@[i] != out@[j] by {
            assert(seen[i] != seen[j]);
        }
    }
    out
}

/// Adds an address to a set; whether the set is within the limit then.
fn insert_within_limit(out: &mut HashSet<u32>, ip: u32) -> (r: bool)
    ensures
        final(out)@ == old(out)@.insert(ip),
        r == (final(out)@.len() <= EXPAND_LIMIT),
{
    out.insert(ip);
    out.len() as u64 <= EXPAND_LIMIT
}

/// Adds a stretch of addresses to a set, as long as the set stays within the limit. Whether that was
/// so to the end; `target` holds all that may come into the set.
fn insert_range(out: &mut HashSet<u32>, network: u32, count: u64, target: Ghost<Set<u32>>) -> (r: bool)
    requires
        network + count <= 0x1_0000_0000,
        old(out)@.len() <= EXPAND_LIMIT,
        old(out)@.subset_of(target@),
        forall|ip: u32| network <= ip < network + count ==> #[trigger] target@.contains(ip),
    ensures
        final(out)@.subset_of(target@),
        old(out)@.subset_of(final(out)@),
        r ==> final(out)@.len() <= EXPAND_LIMIT,
        r ==> forall|ip: u32| network <= ip < network + count ==> #[trigger] final(out)@.contains(ip),
        !r ==> target@.len() > EXPAND_LIMIT,
{
    let mut offset: u64 = 0;
    while offset < count
        invariant
            offset <= count,
            network + count <= 0x1_0000_0000,
            out@.len() <= EXPAND_LIMIT,
            out@.subset_of(target@),
            old(out)@.subset_of(out@),
            forall|ip: u32| network <= ip < network + count ==> #[trigger] target@.contains(ip),
            forall|ip: u32| network <= ip < network + offset ==> #[trigger] out@.contains(ip),
        decreases count - offset,
    {
        let ip: u32 = network.wrapping_add(offset as u32);
        assert(ip == network + offset);
        assert(target@.contains(ip));
        if !insert_within_limit(out, ip) {
            proof {
                lemma_sets_of_addresses_are_finite(target@);
                vstd::set_lib::lemma_len_subset(out@, target@);
            }
            return false;
        }
        offset += 1;
    }
    true
}

// ── the filter as a whole ───────────────────────────────────────────────────

/// Why a filter cannot be built or expanded.
pub enum FilterFault {
    UnknownDirection(Seq<char>),
    Entry(Seq<char>, RuleFault),
    TooManyAddresses,
}

/// Why a filter cannot be built or expanded.
#[derive(Debug)]
pub enum FilterError {
    /// A direction that is none of `src`, `dst` and `any`.
    UnknownDirection(String),
    /// A text that is no rule, and why it is none.
    Entry(String, RuleError),
    /// More addresses than an expansion may have.
    TooManyAddresses,
}

impl View for FilterError {
    type V = FilterFault;

    open spec fn view(&self) -> FilterFault {
        match *self {
            FilterError::UnknownDirection(s) => FilterFault::UnknownDirection(s@),
            FilterError::Entry(s, e) => FilterFault::Entry(s@, e@),
            FilterError::TooManyAddresses => FilterFault::TooManyAddresses,
        }
    }
}

/// What is said of a text that is no rule.
pub open spec fn rule_message(fault: RuleFault) -> Seq<char> {
    match fault {
        RuleFault::Address(s) => "invalid IP address '"@ + s + "'"@,
        RuleFault::PrefixLength(s) => "invalid prefix length '"@ + s + "'"@,
        RuleFault::PrefixTooLong(n) => "prefix length "@ + text::decimal(n as nat) + " > 32"@,
    }
}

/// What is said of a filter that cannot be built or expanded.
pub open spec fn filter_message(fault: FilterFault) -> Seq<char> {
    match fault {
        FilterFault::UnknownDirection(s) => "unknown direction '"@ + s
            + "', expected src/dst/any"@,
        FilterFault::Entry(s, _) => "invalid filter cidr '"@ + s + "'"@,
        FilterFault::TooManyAddresses => "the filter expands to more than "@ + text::decimal(
            EXPAND_LIMIT as nat,
        ) + " addresses; check that no prefix is wider than intended"@,
    }
}

impl RuleError {
    /// What is said of it.
    pub fn message(&self) -> (r: String)
        ensures
            r@ == rule_message(self@),
            r@ == (match *self {
                RuleError::Address(s) => "invalid IP address '"@ + s@ + "'"@,
                RuleError::PrefixLength(s) => "invalid prefix length '"@ + s@ + "'"@,
                RuleError::PrefixTooLong(n) => "prefix length "@ + text::decimal(n as nat) + " > 32"@,
            }),
    {
        match self {
            RuleError::Address(s) => {
                let mut out: String = "invalid IP address '".to_owned();
                out.append(s.as_str());
                out.append("'");
                out
            },
            RuleError::PrefixLength(s) => {
                let mut out: String = "invalid prefix length '".to_owned();
                out.append(s.as_str());
                out.append("'");
                out
            },
            RuleError::PrefixTooLong(n) => {
                let mut out: String = "prefix length ".to_owned();
                text::append_decimal(&mut out, *n as u64);
                out.append(" > 32");
                out
            },
        }
    }
}

impl FilterError {
    /// What is said of it.
    pub fn message(&self) -> (r: String)
        ensures
            r@ == filter_message(self@),
            r@ == (match *self {
                FilterError::UnknownDirection(s) => "unknown direction '"@ + s@
                    + "', expected src/dst/any"@,
                FilterError::Entry(s, _) => "invalid filter cidr '"@ + s@ + "'"@,
                FilterError::TooManyAddresses => "the filter expands to more than "@ + text::decimal(
                    1_048_576,
                ) + " addresses; check that no prefix is wider than intended"@,
            }),
    {
        match self {
            FilterError::UnknownDirection(s) => {
                let mut out: String = "unknown direction '".to_owned();
                out.append(s.as_str());
                out.append("', expected src/dst/any");
                out
            },
            FilterError::Entry(s, _) => {
                let mut out: String = "invalid filter cidr '".to_owned();
                out.append(s.as_str());
                out.append("'");
                out
            },
            FilterError::TooManyAddresses => {
                let mut out: String = "the filter expands to more than ".to_owned();
                text::append_decimal(&mut out, EXPAND_LIMIT);
                out.append(" addresses; check that no prefix is wider than intended");
                out
            },
        }
    }

    /// What lies behind it, where something does.
    pub fn cause(&self) -> (r: Option<String>)
        ensures
            match self@ {
                FilterFault::Entry(_, fault) => r is Some && r->0@ == rule_message(fault),
                _ => r is None,
            },
    {
        match self {
            FilterError::Entry(_, e) => Some(e.message()),
            _ => None,
        }
    }
}

/// The three groups of a filter: by sender, by receiver, and by either.
pub struct Groups {
    pub src: Addresses,
    pub dst: Addresses,
    pub any: Addresses,
}

impl Groups {
    /// Groups without rules.
    pub open spec fn none() -> Groups {
        Groups { src: Addresses::none(), dst: Addresses::none(), any: Addresses::none() }
    }

    /// Whether a flow from this address matches by its sender.
    pub open spec fn src_matches(self, ip: u32) -> bool {
        self.src.accept(ip) || self.any.accept(ip)
    }

    /// Whether a flow to this address matches by its receiver.
    pub open spec fn dst_matches(self, ip: u32) -> bool {
        self.dst.accept(ip) || self.any.accept(ip)
    }

    /// Whether every range is one that a prefix length makes.
    pub open spec fn proper(self) -> bool {
        self.src.proper() && self.dst.proper() && self.any.proper()
    }
}

/// Every address that a filter can match, on either side.
pub open spec fn filtered(filter: Groups) -> Set<u32> {
    Set::new(|ip: u32| filter.src_matches(ip) || filter.dst_matches(ip))
}

/// The direction of a rule: `any`, where none is given.
pub open spec fn direction_of(entry: FilterEntry) -> Seq<char> {
    match entry.direction {
        Some(direction) => direction@,
        None => "any"@,
    }
}

/// Groups with one more rule, or why there is none.
pub open spec fn with_entry(groups: Groups, entry: FilterEntry) -> Result<Groups, FilterFault> {
    let direction = direction_of(entry);
    if direction != "src"@ && direction != "dst"@ && direction != "any"@ {
        Err(FilterFault::UnknownDirection(direction))
    } else {
        match rule_of(entry.cidr@) {
            Err(fault) => Err(FilterFault::Entry(entry.cidr@, fault)),
            Ok(rule) => if direction == "src"@ {
                Ok(Groups { src: groups.src.with(rule), ..groups })
            } else if direction == "dst"@ {
                Ok(Groups { dst: groups.dst.with(rule), ..groups })
            } else {
                Ok(Groups { any: groups.any.with(rule), ..groups })
            },
        }
    }
}

/// The groups that rules make one after the other, or why the first bad one of them is bad.
pub open spec fn groups_of(entries: Seq<FilterEntry>) -> Result<Groups, FilterFault>
    decreases entries.len(),
{
    if entries.len() == 0 {
        Ok(Groups::none())
    } else {
        match groups_of(entries.drop_last()) {
            Ok(groups) => with_entry(groups, entries.last()),
            Err(fault) => Err(fault),
        }
    }
}

/// A filter, with the settings of the display that come with it.
#[derive(Debug)]
pub struct FilterConfig {
    /// Rules on the sender.
    pub src_only: FilterGroup,
    /// Rules on the receiver.
    pub dst_only: FilterGroup,
    /// Rules on either.
    pub any: FilterGroup,
    /// The ports that are highlighted.
    pub highlighted_ports: HashSet<u16>,
    /// How many flows the live monitor shows.
    pub live_lines: usize,
}

impl View for FilterConfig {
    type V = Groups;

    open spec fn view(&self) -> Groups {
        Groups { src: self.src_only@, dst: self.dst_only@, any: self.any@ }
    }
}

impl FilterConfig {
    /// Every range is one that a prefix length makes.
    pub open spec fn wf(&self) -> bool {
        self@.proper()
    }

    /// Which sides of a flow match.
    pub fn check(&self, src: u32, dst: u32) -> (r: MatchResult)
        ensures
            r.src_matched == self@.src_matches(src),
            r.dst_matched == self@.dst_matches(dst),
            r.src_matched == (self.src_only@.accept(src) || self.any@.accept(src)),
            r.dst_matched == (self.dst_only@.accept(dst) || self.any@.accept(dst)),
    {
        MatchResult {
            src_matched: self.src_only.matches(src) || self.any.matches(src),
            dst_matched: self.dst_only.matches(dst) || self.any.matches(dst),
        }
    }

    /// Every address that the filter can match, one by one.
    pub fn expand(&self) -> (r: Result<HashSet<u32>, FilterError>)
        requires
            self.wf(),
        ensures
            match r {
                Ok(set) => set@ == filtered(self@) && set@.len() <= EXPAND_LIMIT,
                Err(e) => filtered(self@).len() > EXPAND_LIMIT && e@
                    == FilterFault::TooManyAddresses,
            },
            r is Ok <==> filtered(self@).len() <= 1_048_576,
            r matches Ok(set) ==> forall|ip: u32| #[trigger]
                set@.contains(ip) <==> self.src_only@.accept(ip) || self.dst_only@.accept(ip)
                    || self.any@.accept(ip),
    {
        let mut out: HashSet<u32> = HashSet::new();
        proof {
            lemma_sets_of_addresses_are_finite(filtered(self@));
        }
        if let Err(e) = self.src_only.enumerate_into(&mut out) {
            proof {
                vstd::set_lib::lemma_len_subset(
                    Set::empty().union(self@.src.all()),
                    filtered(self@),
                );
            }
            return Err(e);
        }
        let ghost src = out@;
        if let Err(e) = self.dst_only.enumerate_into(&mut out) {
            proof {
                vstd::set_lib::lemma_len_subset(src.union(self@.dst.all()), filtered(self@));
            }
            return Err(e);
        }
        let ghost both = out@;
        assert(both.union(self@.any.all()) =~= filtered(self@));
        if let Err(e) = self.any.enumerate_into(&mut out) {
            return Err(e);
        }
        Ok(out)
    }

    /// The addresses that match as senders and those that match as receivers, one by one; refused
    /// where `expand` is.
    pub fn expand_sides(&self) -> (r: Result<(HashSet<u32>, HashSet<u32>), FilterError>)
        requires
            self.wf(),
        ensures
            match r {
                Ok((senders, receivers)) => {
                    &&& forall|ip: u32| #[trigger]
                        senders@.contains(ip) <==> self@.src_matches(ip)
                    &&& forall|ip: u32| #[trigger]
                        receivers@.contains(ip) <==> self@.dst_matches(ip)
                    &&& filtered(self@).len() <= EXPAND_LIMIT
                },
                Err(e) => filtered(self@).len() > EXPAND_LIMIT && e@
                    == FilterFault::TooManyAddresses,
            },
            r is Ok <==> filtered(self@).len() <= 1_048_576,
            r matches Ok((senders, receivers)) ==> {
                &&& forall|ip: u32| #[trigger]
                    senders@.contains(ip) <==> self.src_only@.accept(ip) || self.any@.accept(ip)
                &&& forall|ip: u32| #[trigger]
                    receivers@.contains(ip) <==> self.dst_only@.accept(ip) || self.any@.accept(ip)
            },
    {
        if let Err(e) = self.expand() {
            return Err(e);
        }
        proof {
            lemma_sets_of_addresses_are_finite(filtered(self@));
        }
        let mut senders: HashSet<u32> = HashSet::new();
        let mut receivers: HashSet<u32> = HashSet::new();
        proof {
            vstd::set_lib::lemma_len_subset(Set::empty().union(self@.src.all()), filtered(self@));
            vstd::set_lib::lemma_len_subset(Set::empty().union(self@.dst.all()), filtered(self@));
            vstd::set_lib::lemma_len_subset(
                Set::empty().union(self@.src.all()).union(self@.any.all()),
                filtered(self@),
            );
            vstd::set_lib::lemma_len_subset(
                Set::empty().union(self@.dst.all()).union(self@.any.all()),
                filtered(self@),
            );
        }
        if let Err(e) = self.src_only.enumerate_into(&mut senders) {
            return Err(e);
        }
        if let Err(e) = self.any.enumerate_into(&mut senders) {
            return Err(e);
        }
        if let Err(e) = self.dst_only.enumerate_into(&mut receivers) {
            return Err(e);
        }
        if let Err(e) = self.any.enumerate_into(&mut receivers) {
            return Err(e);
        }
        Ok((senders, receivers))
    }
}

/// The ports that are highlighted where nothing is said.
pub open spec fn built_in_ports() -> Set<u16> {
    set![
        21u16, 22u16, 23u16, 25u16, 53u16, 80u16, 110u16, 143u16, 443u16, 993u16, 995u16, 3306u16,
        3389u16, 5432u16, 8080u16
    ]
}

/// The ports that are highlighted under some settings.
pub open spec fn highlighted(config: Option<HighlightedPortsConfig>) -> Set<u16> {
    match config {
        None => built_in_ports(),
        Some(set) => if set.mode@ == "override"@ {
            set.ports@.to_set()
        } else {
            built_in_ports().union(set.ports@.to_set())
        },
    }
}

/// The built-in list of ports.
pub fn default_highlighted_ports() -> (r: HashSet<u16>)
    ensures
        r@ == built_in_ports(),
        forall|p: u16| #[trigger]
            r@.contains(p) <==> p == 21 || p == 22 || p == 23 || p == 25 || p == 53 || p == 80 || p
                == 110 || p == 143 || p == 443 || p == 993 || p == 995 || p == 3306 || p == 3389 || p
                == 5432 || p == 8080,
{
    let mut out: HashSet<u16> = HashSet::new();
    out.insert(21);
    out.insert(22);
    out.insert(23);
    out.insert(25);
    out.insert(53);
    out.insert(80);
    out.insert(110);
    out.insert(143);
    out.insert(443);
    out.insert(993);
    out.insert(995);
    out.insert(3306);
    out.insert(3389);
    out.insert(5432);
    out.insert(8080);
    assert(out@ =~= built_in_ports());
    out
}

/// The ports that are highlighted under some settings.
pub fn build_port_set(config: Option<&HighlightedPortsConfig>) -> (r: HashSet<u16>)
    ensures
        r@ == highlighted(match config {
            Some(set) => Some(*set),
            None => None,
        }),
        match config {
            None => r@ == built_in_ports(),
            Some(set) => forall|p: u16| #[trigger]
                r@.contains(p) <==> set.ports@.contains(p) || (set.mode@ != "override"@
                    && built_in_ports().contains(p)),
        },
{
    match config {
        None => default_highlighted_ports(),
        Some(set) => {
            let mut out: HashSet<u16> = if text::same_text(set.mode.as_str(), "override") {
                HashSet::new()
            } else {
                default_highlighted_ports()
            };
            insert_ports(&mut out, &set.ports);
            assert(out@ =~= highlighted(Some(*set)));
            assert forall|p: u16| #[trigger] set.ports@.to_set().contains(p)
                <==> set.ports@.contains(p) by {}
            out
        },
    }
}

/// Adds ports to a set.
fn insert_ports(out: &mut HashSet<u16>, ports: &Vec<u16>)
    ensures
        final(out)@ == old(out)@.union(ports@.to_set()),
{
    let mut i: usize = 0;
    while i < ports.len()
        invariant
            i <= ports.len(),
            forall|p: u16| #[trigger]
                out@.contains(p) <==> old(out)@.contains(p) || ports@.take(i as int).contains(p),
        decreases ports.len() - i,
    {
        let ghost before = out@;
        out.insert(ports[i]);
        proof {
            assert(ports@.take(i + 1) =~= ports@.take(i as int).push(ports@[i as int]));
            assert forall|p: u16| #[trigger] out@.contains(p) <==> old(out)@.contains(p)
                || ports@.take(i + 1).contains(p) by {
                assert(before.contains(p) <==> old(out)@.contains(p) || ports@.take(i as int).contains(p));
                if p == ports@[i as int] {
                    assert(ports@.take(i + 1)[i as int] == p);
                }
                if ports@.take(i as int).contains(p) {
                    let k = choose|k: int| 0 <= k < i && ports@.take(i as int)[k] == p;
                    assert(ports@.take(i + 1)[k] == p);
                }
            }
        }
        i += 1;
    }
    proof {
        assert(ports@.take(i as int) =~= ports@);
        assert(out@ =~= old(out)@.union(ports@.to_set()));
    }
}

/// Builds the filter that the settings describe.
pub fn build(config: &Config) -> (r: Result<FilterConfig, FilterError>)
    ensures
        match r {
            Ok(filter) => {
                &&& groups_of(config.filters@) == Ok::<Groups, FilterFault>(filter@)
                &&& filter.wf()
                &&& filter.highlighted_ports@ == highlighted(config.highlighted_ports)
                &&& filter.live_lines == (match config.live {
                    Some(live) => live.lines,
                    None => 10,
                })
            },
            Err(e) => groups_of(config.filters@) == Err::<Groups, FilterFault>(e@),
        },
{
    let mut filter = FilterConfig {
        src_only: FilterGroup::new(),
        dst_only: FilterGroup::new(),
        any: FilterGroup::new(),
        highlighted_ports: build_port_set(config.highlighted_ports.as_ref()),
        live_lines: match &config.live {
            Some(live) => live.lines,
            None => 10,
        },
    };
    let ghost ports = filter.highlighted_ports@;
    let ghost lines = filter.live_lines;
    let mut i: usize = 0;
    assert(config.filters@.take(0) =~= Seq::<FilterEntry>::empty());
    while i < config.filters.len()
        invariant
            i <= config.filters.len(),
            groups_of(config.filters@.take(i as int)) == Ok::<Groups, FilterFault>(filter@),
            filter.wf(),
            filter.highlighted_ports@ == ports,
            filter.live_lines == lines,
        decreases config.filters.len() - i,
    {
        let entry = &config.filters[i];
        proof {
            assert(config.filters@.take(i + 1).drop_last() =~= config.filters@.take(i as int));
            assert(config.filters@.take(i + 1).last() == *entry);
            if with_entry(filter@, *entry) is Err {
                lemma_first_fault(config.filters@, i + 1);
            }
            lemma_directions_differ();
        }
        let direction: &str = match &entry.direction {
            Some(direction) => direction.as_str(),
            None => "any",
        };
        let added: Result<(), RuleError> = if text::same_text(direction, "src") {
            filter.src_only.add(entry.cidr.as_str())
        } else if text::same_text(direction, "dst") {
            filter.dst_only.add(entry.cidr.as_str())
        } else if text::same_text(direction, "any") {
            filter.any.add(entry.cidr.as_str())
        } else {
            return Err(FilterError::UnknownDirection(direction.to_owned()));
        };
        if let Err(e) = added {
            return Err(FilterError::Entry(entry.cidr.clone(), e));
        }
        i += 1;
    }
    assert(config.filters@.take(i as int) =~= config.filters@);
    Ok(filter)
}

proof fn lemma_directions_differ()
    ensures
        "src"@ != "dst"@,
        "src"@ != "any"@,
        "dst"@ != "any"@,
{
    reveal_strlit("src");
    reveal_strlit("dst");
    reveal_strlit("any");
    assert("src"@[0] != "dst"@[0]);
    assert("src"@[0] != "any"@[0]);
    assert("dst"@[0] != "any"@[0]);
}

/// Rules after a bad one change nothing.
proof fn lemma_first_fault(entries: Seq<FilterEntry>, n: int)
    requires
        0 <= n <= entries.len(),
        groups_of(entries.take(n)) is Err,
    ensures
        groups_of(entries) == groups_of(entries.take(n)),
    decreases entries.len(),
{
    if n < entries.len() {
        assert(entries.drop_last().take(n) =~= entries.take(n));
        lemma_first_fault(entries.drop_last(), n);
    } else {
        assert(entries.take(n) =~= entries);
    }
}

// ── what a filter matches ───────────────────────────────────────────────────

/// The addresses of one more rule are those there were and those of the rule.
proof fn lemma_one_more_rule(group: Addresses, rule: Rule, ip: u32)
    ensures
        group.with(rule).accept(ip) <==> group.accept(ip) || (match rule {
            Rule::Host(host) => ip == host,
            Rule::Range(network, mask) => ip & mask == network,
        }),
{
    let n = group.ranges.len() as int;
    let more = group.with(rule);
    match rule {
        Rule::Host(_) => {
            assert(more.ranges == group.ranges);
        },
        Rule::Range(network, mask) => {
            assert(more.hosts == group.hosts);
            assert(more.ranges[n] == (network, mask));
            assert forall|i: int| 0 <= i < n implies more.ranges[i] == #[trigger] group.ranges[i] by {}
            if ip & mask == network {
                assert(cidr::in_network(more.ranges[n].0, more.ranges[n].1, ip));
                assert(more.accept(ip));
            }
            if group.accept(ip) && !group.hosts.contains(ip) {
                let i = choose|i: int|
                    0 <= i < n && cidr::in_network(
                        (#[trigger] group.ranges[i]).0,
                        group.ranges[i].1,
                        ip,
                    );
                assert(cidr::in_network(more.ranges[i].0, more.ranges[i].1, ip));
                assert(more.accept(ip));
            }
            if more.accept(ip) && !group.hosts.contains(ip) {
                let i = choose|i: int|
                    0 <= i < more.ranges.len() && cidr::in_network(
                        (#[trigger] more.ranges[i]).0,
                        more.ranges[i].1,
                        ip,
                    );
                if i < n {
                    assert(cidr::in_network(group.ranges[i].0, group.ranges[i].1, ip));
                    assert(group.accept(ip));
                }
            }
        },
    }
}

proof fn lemma_rule_text(ip: u32, tail: Seq<char>)
    ensures
        text::cut(text::dotted(ip) + "/"@ + tail, '/') == Some((text::dotted(ip), tail)),
        text::cut(text::dotted(ip), '/') is None,
        text::address_of(text::dotted(ip)) == Some(ip),
{
    reveal_strlit("/");
    assert("/"@ =~= seq!['/']);
    assert(!text::dotted(ip).contains('/')) by {
        if text::dotted(ip).contains('/') {
            let i = choose|i: int| 0 <= i < text::dotted(ip).len() && text::dotted(ip)[i] == '/';
            text::dotted_is_digits_and_dots(ip, i);
        }
    }
    text::a_text_is_cut_once(text::dotted(ip), '/', tail);
    text::address_reads_back(ip);
}

/// A rule of an address, a slash and a prefix length adds to a group the addresses that share as many
/// first bits with the address as the length says, and no others.
pub proof fn a_rule_accepts_what_shares_its_prefix(
    group: Addresses,
    ip: u32,
    prefix: u8,
    other: u32,
)
    requires
        prefix <= 32,
    ensures
        ({
            let rule = rule_of(text::dotted(ip) + "/"@ + text::decimal(prefix as nat));
            let size = vstd::arithmetic::power2::pow2((32 - prefix) as nat) as int;
            &&& rule is Ok
            &&& group.with(rule->Ok_0).accept(other) <==> group.accept(other) || other as int / size
                == ip as int / size
        }),
{
    let digits = text::decimal(prefix as nat);
    let rule = rule_of(text::dotted(ip) + "/"@ + digits);
    lemma_rule_text(ip, digits);
    text::a_byte_is_read_from_its_digits(0, prefix as nat, digits, 0);
    assert(Seq::new(0, |k: int| '0') + digits =~= digits);
    assert(rule is Ok);
    lemma_one_more_rule(group, rule->Ok_0, other);
    cidr::networks_share_their_first_bits(ip, other, prefix);
    if prefix == 32 {
        vstd::arithmetic::power2::lemma2_to64();
        let size = vstd::arithmetic::power2::pow2((32 - prefix) as nat) as int;
        assert(size == 1);
        assert(other as int / 1 == other && ip as int / 1 == ip);
    } else {
        assert(rule->Ok_0 == Rule::Range(ip & cidr::mask_of(prefix), cidr::mask_of(prefix)));
    }
}

/// A rule of an address alone adds that address to a group, and no other.
pub proof fn a_rule_without_prefix_is_one_address(group: Addresses, ip: u32, other: u32)
    ensures
        rule_of(text::dotted(ip)) is Ok,
        group.with(rule_of(text::dotted(ip))->Ok_0).accept(other) <==> group.accept(other) || other
            == ip,
{
    lemma_rule_text(ip, Seq::empty());
    lemma_one_more_rule(group, rule_of(text::dotted(ip))->Ok_0, other);
}

/// A text is no rule where no address stands before the slash, nor where the number behind it is too
/// large or none at all.
pub proof fn texts_that_are_no_rules(ip: u32, n: nat, tail: Seq<char>, head: Seq<char>)
    requires
        n > 32,
        text::byte_text(tail) is None,
        !head.contains('/'),
        forall|other: u32| head != #[trigger] text::dotted(other),
    ensures
        ({
            let long = rule_of(text::dotted(ip) + "/"@ + text::decimal(n));
            long == Err::<Rule, RuleFault>(
                if n <= 255 {
                    RuleFault::PrefixTooLong(n as u8)
                } else {
                    RuleFault::PrefixLength(text::decimal(n))
                },
            )
        }),
        rule_of(text::dotted(ip) + "/"@ + tail) == Err::<Rule, RuleFault>(
            RuleFault::PrefixLength(tail),
        ),
        rule_of(head + "/"@ + tail) == Err::<Rule, RuleFault>(RuleFault::Address(head)),
        rule_of(head) == Err::<Rule, RuleFault>(RuleFault::Address(head)),
{
    let digits = text::decimal(n);
    lemma_rule_text(ip, digits);
    lemma_rule_text(ip, tail);
    text::a_byte_is_read_from_its_digits(0, n, digits, 0);
    assert(Seq::new(0, |k: int| '0') + digits =~= digits);
    reveal_strlit("/");
    assert("/"@ =~= seq!['/']);
    text::a_text_is_cut_once(head, '/', tail);
}

/// Whether an entry has a direction that there is and a text that is a rule.
pub open spec fn is_entry(entry: FilterEntry) -> bool {
    &&& match entry.direction {
        None => true,
        Some(direction) => direction@ == "src"@ || direction@ == "dst"@ || direction@ == "any"@,
    }
    &&& rule_of(entry.cidr@) is Ok
}

/// Whether an entry is about senders: it says so, or says `any`, or says nothing.
pub open spec fn is_about_senders(entry: FilterEntry) -> bool {
    match entry.direction {
        None => true,
        Some(direction) => direction@ == "src"@ || direction@ == "any"@,
    }
}

/// Whether an entry is about receivers: it says so, or says `any`, or says nothing.
pub open spec fn is_about_receivers(entry: FilterEntry) -> bool {
    match entry.direction {
        None => true,
        Some(direction) => direction@ == "dst"@ || direction@ == "any"@,
    }
}

/// Whether the rule of an entry is met by an address.
pub open spec fn meets(entry: FilterEntry, ip: u32) -> bool {
    match rule_of(entry.cidr@) {
        Ok(rule) => Addresses::none().with(rule).accept(ip),
        Err(_) => false,
    }
}

/// Whether an address meets the rule of an entry that is about senders.
pub open spec fn meets_some_for_senders(entries: Seq<FilterEntry>, ip: u32) -> bool {
    exists|i: int|
        0 <= i < entries.len() && is_about_senders(#[trigger] entries[i]) && meets(entries[i], ip)
}

/// Whether an address meets the rule of an entry that is about receivers.
pub open spec fn meets_some_for_receivers(entries: Seq<FilterEntry>, ip: u32) -> bool {
    exists|i: int|
        0 <= i < entries.len() && is_about_receivers(#[trigger] entries[i]) && meets(entries[i], ip)
}

/// A filter is made where every entry is one, and then an address matches as a sender just where it
/// meets the rule of an entry about senders, and as a receiver just where it meets the rule of an entry
/// about receivers.
pub proof fn a_filter_matches_by_its_entries(entries: Seq<FilterEntry>, ip: u32)
    ensures
        groups_of(entries) is Ok <==> forall|i: int|
            0 <= i < entries.len() ==> is_entry(#[trigger] entries[i]),
        groups_of(entries) matches Ok(groups) ==> {
            &&& groups.src_matches(ip) <==> meets_some_for_senders(entries, ip)
            &&& groups.dst_matches(ip) <==> meets_some_for_receivers(entries, ip)
        },
    decreases entries.len(),
{
    lemma_directions_differ();
    if entries.len() > 0 {
        let less = entries.drop_last();
        let last = entries.last();
        let n = less.len() as int;
        a_filter_matches_by_its_entries(less, ip);
        assert(entries[n] == last);
        assert forall|i: int| 0 <= i < n implies entries[i] == #[trigger] less[i] by {}
        if groups_of(less) is Ok {
            let before = groups_of(less)->Ok_0;
            assert forall|i: int| 0 <= i < n implies is_entry(#[trigger] entries[i]) by {
                assert(is_entry(less[i]));
            }
            if is_entry(last) {
                let rule = rule_of(last.cidr@)->Ok_0;
                lemma_one_more_rule(before.src, rule, ip);
                lemma_one_more_rule(before.dst, rule, ip);
                lemma_one_more_rule(before.any, rule, ip);
                lemma_one_more_rule(Addresses::none(), rule, ip);
                assert(!Addresses::none().accept(ip));
                if meets_some_for_senders(less, ip) {
                    let i = choose|i: int|
                        0 <= i < less.len() && is_about_senders(#[trigger] less[i]) && meets(less[i], ip);
                    assert(is_about_senders(entries[i]) && meets(entries[i], ip));
                }
                if meets_some_for_receivers(less, ip) {
                    let i = choose|i: int|
                        0 <= i < less.len() && is_about_receivers(#[trigger] less[i]) && meets(
                            less[i],
                            ip,
                        );
                    assert(is_about_receivers(entries[i]) && meets(entries[i], ip));
                }
                if meets_some_for_senders(entries, ip) {
                    let i = choose|i: int|
                        0 <= i < entries.len() && is_about_senders(#[trigger] entries[i]) && meets(
                            entries[i],
                            ip,
                        );
                    if i < n {
                        assert(is_about_senders(less[i]) && meets(less[i], ip));
                    }
                }
                if meets_some_for_receivers(entries, ip) {
                    let i = choose|i: int|
                        0 <= i < entries.len() && is_about_receivers(#[trigger] entries[i]) && meets(
                            entries[i],
                            ip,
                        );
                    if i < n {
                        assert(is_about_receivers(less[i]) && meets(less[i], ip));
                    }
                }
            }
        } else {
            let i = choose|i: int| 0 <= i < less.len() && !is_entry(#[trigger] less[i]);
            assert(!is_entry(entries[i]));
        }
    }
}

/// What is said of an entry that is none: of its direction, where there is no such direction, and of its
/// text otherwise. Of several entries the first that is none is reported, whatever comes after it.
pub proof fn the_first_bad_entry_is_reported(entries: Seq<FilterEntry>, i: int)
    requires
        0 <= i < entries.len(),
        forall|k: int| 0 <= k < i ==> is_entry(#[trigger] entries[k]),
        !is_entry(entries[i]),
    ensures
        match groups_of(entries) {
            Ok(_) => false,
            Err(FilterFault::UnknownDirection(direction)) => {
                &&& entries[i].direction matches Some(given) && given@ == direction
                &&& direction != "src"@ && direction != "dst"@ && direction != "any"@
            },
            Err(FilterFault::Entry(text, fault)) => {
                &&& text == entries[i].cidr@
                &&& rule_of(text) == Err::<Rule, RuleFault>(fault)
                &&& entries[i].direction matches Some(given) ==> given@ == "src"@ || given@ == "dst"@
                    || given@ == "any"@
            },
            Err(FilterFault::TooManyAddresses) => false,
        },
{
    let first = entries.take(i);
    let upto = entries.take(i + 1);
    assert(upto.drop_last() =~= first);
    assert(upto.last() == entries[i]);
    assert forall|k: int| 0 <= k < first.len() implies is_entry(#[trigger] first[k]) by {
        assert(first[k] == entries[k]);
    }
    a_filter_matches_by_its_entries(first, 0);
    assert(groups_of(upto) is Err);
    lemma_first_fault(entries, i + 1);
}

} // verus!
