use netflow_collector::config::{Config, FilterEntry, HighlightedPortsConfig, LiveConfig};
use netflow_collector::filter::{build, FilterConfig, FilterError, FilterGroup, RuleError};

fn ip(a: u8, b: u8, c: u8, d: u8) -> u32 {
    u32::from_be_bytes([a, b, c, d])
}

fn settings(entries: &[(&str, Option<&str>)]) -> Config {
    Config {
        filters: entries
            .iter()
            .map(|(cidr, dir)| FilterEntry {
                cidr: cidr.to_string(),
                direction: dir.map(|d| d.to_string()),
            })
            .collect(),
        highlighted_ports: None,
        database: None,
        live: None,
        netflow: None,
        stats: None,
    }
}

fn build_from(entries: &[(&str, &str)]) -> FilterConfig {
    let given: Vec<(&str, Option<&str>)> =
        entries.iter().map(|(cidr, dir)| (*cidr, Some(*dir))).collect();
    build(&settings(&given)).unwrap()
}

#[test]
fn a_range_expands_inclusive_of_network_and_broadcast() {
    let fc = build_from(&[("10.10.1.0/24", "any")]);
    let set = fc.expand().unwrap();
    assert_eq!(set.len(), 256);
    assert!(set.contains(&ip(10, 10, 1, 0)));
    assert!(set.contains(&ip(10, 10, 1, 255)));
    assert!(!set.contains(&ip(10, 10, 2, 0)));
}

#[test]
fn overlapping_entries_are_deduplicated() {
    let fc = build_from(&[("10.10.1.0/24", "any"), ("10.10.1.50", "any"), ("10.10.1.0/25", "any")]);
    assert_eq!(fc.expand().unwrap().len(), 256);
}

#[test]
fn expand_accepts_exactly_what_check_accepts() {
    let fc = build_from(&[
        ("10.10.1.0/24", "any"),
        ("10.10.5.7", "any"),
        ("192.168.0.0/30", "any"),
    ]);
    let expanded = fc.expand().unwrap();
    for base in [ip(10, 10, 0, 250), ip(10, 10, 5, 0), ip(192, 167, 255, 250)] {
        for ip in base..base + 600 {
            let matched = fc.check(ip, 0).src_matched;
            assert_eq!(matched, expanded.contains(&ip), "check and expand disagree on {}", ip);
        }
    }
}

#[test]
fn direction_decides_which_side_is_counted() {
    let fc = build_from(&[("10.10.1.50", "src")]);
    let host = ip(10, 10, 1, 50);
    let other = ip(8, 8, 8, 8);
    assert!(fc.check(host, other).src_matched);
    assert!(!fc.check(other, host).dst_matched);
}

#[test]
fn an_absurd_prefix_is_refused_rather_than_exhausting_memory() {
    let fc = build_from(&[("10.0.0.0/8", "any")]);
    assert!(fc.expand().unwrap_err().message().contains("more than"));
}

#[test]
fn a_rule_without_a_direction_matches_either_side() {
    let fc = build(&settings(&[("10.0.0.1", None)])).unwrap();
    assert!(fc.check(ip(10, 0, 0, 1), 0).is_match());
    assert!(fc.check(0, ip(10, 0, 0, 1)).is_match());
    assert!(!fc.check(0, 0).is_match());
}

#[test]
fn the_rule_for_everything_matches_everything() {
    let fc = build_from(&[("1.2.3.4/0", "dst")]);
    assert!(fc.check(0, 0).dst_matched && fc.check(0, u32::MAX).dst_matched);
    assert!(!fc.check(0, 0).src_matched);
}

#[test]
fn an_unknown_direction_is_an_error() {
    let e = build(&settings(&[("10.0.0.1", Some("both"))])).unwrap_err();
    assert!(matches!(e, FilterError::UnknownDirection(_)));
    assert_eq!(e.message(), "unknown direction 'both', expected src/dst/any");
    assert_eq!(e.cause(), None);
}

#[test]
fn rules_that_cannot_be_read_are_errors() {
    for (cidr, cause) in [
        ("10.0.0", "invalid IP address '10.0.0'"),
        ("10.0.0.256/8", "invalid IP address '10.0.0.256'"),
        ("010.0.0.1", "invalid IP address '010.0.0.1'"),
        ("10.0.0.0/x", "invalid prefix length 'x'"),
        ("10.0.0.0/", "invalid prefix length ''"),
        ("10.0.0.0/33", "prefix length 33 > 32"),
    ] {
        let e = build(&settings(&[(cidr, Some("any"))])).unwrap_err();
        assert_eq!(e.message(), format!("invalid filter cidr '{}'", cidr));
        assert_eq!(e.cause(), Some(cause.to_string()));
    }
    let e = build(&settings(&[("10.0.0.0/33", Some("any"))])).unwrap_err();
    assert!(matches!(e, FilterError::Entry(_, RuleError::PrefixTooLong(33))));
}

#[test]
fn the_limit_message_names_the_limit() {
    let e = build_from(&[("0.0.0.0/0", "any")]).expand().unwrap_err();
    assert_eq!(
        e.message(),
        "the filter expands to more than 1048576 addresses; check that no prefix is wider than intended"
    );
}

#[test]
fn highlighted_ports_extend_or_replace_the_built_in_list() {
    let mut config = settings(&[]);
    assert!(build(&config).unwrap().highlighted_ports.contains(&443));
    assert_eq!(build(&config).unwrap().highlighted_ports.len(), 15);
    config.highlighted_ports =
        Some(HighlightedPortsConfig { mode: "extend".to_string(), ports: vec![9000] });
    let ports = build(&config).unwrap().highlighted_ports;
    assert!(ports.contains(&443) && ports.contains(&9000));
    config.highlighted_ports =
        Some(HighlightedPortsConfig { mode: "override".to_string(), ports: vec![9000] });
    let ports = build(&config).unwrap().highlighted_ports;
    assert!(!ports.contains(&443) && ports.contains(&9000));
}

#[test]
fn live_lines_are_ten_unless_set() {
    let mut config = settings(&[]);
    assert_eq!(build(&config).unwrap().live_lines, 10);
    config.live = Some(LiveConfig { lines: 25 });
    assert_eq!(build(&config).unwrap().live_lines, 25);
}

#[test]
fn an_expansion_of_just_the_limit_is_accepted() {
    assert_eq!(build_from(&[("10.0.0.0/12", "any")]).expand().unwrap().len(), 1_048_576);
    let overlapping = build_from(&[("10.0.0.0/12", "src"), ("10.0.0.0/13", "dst"), ("10.1.2.3", "any")]);
    assert_eq!(overlapping.expand().unwrap().len(), 1_048_576);
    let one_more = build_from(&[("10.0.0.0/12", "any"), ("8.8.8.8", "any")]);
    assert!(matches!(one_more.expand(), Err(FilterError::TooManyAddresses)));
    assert!(matches!(one_more.expand_sides(), Err(FilterError::TooManyAddresses)));
}

#[test]
fn sides_are_expanded_by_direction() {
    let fc = build_from(&[("10.0.0.0/31", "src"), ("10.0.0.8", "dst"), ("10.0.0.9", "any")]);
    let (senders, receivers) = fc.expand_sides().unwrap();
    let mut sends: Vec<u32> = senders.into_iter().collect();
    let mut receives: Vec<u32> = receivers.into_iter().collect();
    sends.sort();
    receives.sort();
    assert_eq!(sends, vec![ip(10, 0, 0, 0), ip(10, 0, 0, 1), ip(10, 0, 0, 9)]);
    assert_eq!(receives, vec![ip(10, 0, 0, 8), ip(10, 0, 0, 9)]);
}

#[test]
fn a_default_group_matches_nothing_until_it_has_a_rule() {
    let mut group = FilterGroup::default();
    assert!(!group.matches(0) && !group.matches(ip(10, 0, 0, 1)));
    group.add("10.0.0.1").unwrap();
    assert!(group.matches(ip(10, 0, 0, 1)));
}
