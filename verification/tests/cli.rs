use chrono::{DateTime, NaiveDate, Utc};
use netflow_collector::cli::{
    align_range, is_capped, parse_day, parse_range, report_filter_scope, require_db,
    require_intra_cidr, FilterScope, Missing, RangeError,
};
use netflow_collector::config::{Config, DatabaseConfig, FilterEntry, NetflowConfig};
use netflow_collector::db::parse_intra_cidr;
use netflow_collector::filter::build;
use netflow_collector::time::{Day, Timestamp};

fn at(s: &str) -> Timestamp {
    let found = DateTime::parse_from_rfc3339(s).unwrap().with_timezone(&Utc);
    Timestamp { secs: found.timestamp(), nanos: found.timestamp_subsec_nanos() }
}

fn rfc3339(at: Timestamp) -> String {
    DateTime::<Utc>::from_timestamp(at.secs, at.nanos).unwrap().to_rfc3339()
}

fn date(day: Day) -> String {
    NaiveDate::from_num_days_from_ce_opt(day.number).unwrap().to_string()
}

#[test]
fn ranges_expand_outwards_to_bucket_boundaries() {
    let (from, to) = parse_range("2026-09-15T10:02:00Z 2026-09-15T10:07:00Z").unwrap();
    assert_eq!(rfc3339(from), "2026-09-15T10:00:00+00:00");
    assert_eq!(rfc3339(to), "2026-09-15T10:10:00+00:00");
}

#[test]
fn aligned_ranges_are_left_alone() {
    let (from, to) = parse_range("2026-09-15T10:00:00Z 2026-09-15T10:05:00Z").unwrap();
    assert_eq!(rfc3339(from), "2026-09-15T10:00:00+00:00");
    assert_eq!(rfc3339(to), "2026-09-15T10:05:00+00:00");
}

#[test]
fn an_empty_range_is_rejected() {
    assert!(parse_range("2026-09-15T10:05:00Z 2026-09-15T10:00:00Z").is_err());
}

#[test]
fn a_range_may_be_written_with_offsets_and_any_white_space() {
    let (from, to) = parse_range("  2026-09-15T18:00:00+08:00 \t 2026-09-15T10:00:00.5Z\n").unwrap();
    assert_eq!(rfc3339(from), "2026-09-15T10:00:00+00:00");
    assert_eq!(rfc3339(to), "2026-09-15T10:05:00+00:00");
}

#[test]
fn range_errors_say_what_is_wrong() {
    let e = parse_range("2026-09-15T10:05:00Z").unwrap_err();
    assert!(matches!(e, RangeError::NotTwo));
    assert_eq!(e.message(), "expected two RFC3339 instants separated by a space");
    let e = parse_range("a b c").unwrap_err();
    assert!(matches!(e, RangeError::MoreThanTwo));
    assert_eq!(e.message(), "expected exactly two instants, got more");
    let e = parse_range("2026-09-15T10:05:00Z later").unwrap_err();
    assert!(matches!(e, RangeError::NotAnInstant(_)));
    assert_eq!(e.message(), "'later' is not an RFC3339 instant");
    let e = parse_range("now later").unwrap_err();
    assert_eq!(e.message(), "'now' is not an RFC3339 instant");
    let e = parse_range("2026-09-15T10:05:00Z 2026-09-15T10:05:00Z").unwrap_err();
    assert!(matches!(e, RangeError::Empty(_, _)));
    assert_eq!(
        e.message(),
        "the range is empty: 2026-09-15 10:05:00 UTC .. 2026-09-15 10:05:00 UTC"
    );
}

#[test]
fn a_moment_widens_to_its_bucket() {
    let moment = at("2026-09-15T10:02:00Z");
    let (from, to) = align_range(moment, moment).unwrap();
    assert_eq!(to.secs - from.secs, 300);
}

#[test]
fn days_are_dates_or_yesterday() {
    let now = at("2026-09-15T16:30:00Z");
    assert_eq!(date(parse_day("yesterday", now).unwrap()), "2026-09-15");
    assert_eq!(date(parse_day("Yesterday", now).unwrap()), "2026-09-15");
    assert_eq!(date(parse_day(" 2024-02-29 ", now).unwrap()), "2024-02-29");
    let e = parse_day("2023-02-29", now).unwrap_err();
    assert_eq!(e, "expected YYYY-MM-DD or 'yesterday', got '2023-02-29'");
    assert!(parse_day(" yesterday", now).is_err());
}

fn config(cidrs: &[&str]) -> Config {
    Config {
        filters: cidrs
            .iter()
            .map(|c| FilterEntry { cidr: c.to_string(), direction: None })
            .collect(),
        highlighted_ports: None,
        database: None,
        live: None,
        netflow: None,
        stats: None,
    }
}

#[test]
fn missing_settings_are_named() {
    let mut set = config(&[]);
    assert_eq!(require_intra_cidr(&set), Err(Missing::IntraCidr));
    assert_eq!(require_db(&set).unwrap_err(), Missing::Database);
    assert_eq!(Missing::IntraCidr.message(), "[netflow].intra_cidr is missing");
    assert_eq!(Missing::Database.message(), "[database] section missing");
    assert_eq!(
        Missing::IntraCidr.hint("--db-store"),
        "--db-store requires intra_cidr in the [netflow] section of the config file"
    );
    assert_eq!(
        Missing::Database.hint("--migrate"),
        "--migrate requires a [database] section in the config file"
    );
    set.netflow = Some(NetflowConfig {
        intra_cidr: Some("10.0.0.0/8".to_string()),
        sampling_interval: 1,
        clock_skew_threshold_seconds: 60,
    });
    set.database = Some(DatabaseConfig {
        host: "db".to_string(),
        port: 5432,
        user: "u".to_string(),
        password: "p".to_string(),
        dbname: "n".to_string(),
    });
    assert_eq!(require_intra_cidr(&set), Ok("10.0.0.0/8".to_string()));
    assert_eq!(
        require_db(&set).unwrap().connection_string(),
        "host=db port=5432 user=u password=p dbname=n"
    );
}

#[test]
fn defaults_stand_in_for_settings() {
    let set = config(&[]);
    assert_eq!(set.netflow().sampling_interval, 1);
    assert_eq!(set.netflow().clock_skew_threshold_seconds, 60);
    assert_eq!(set.netflow().intra_cidr, None);
    assert_eq!(set.stats().flush_seconds, 60);
}

#[test]
fn addresses_outside_the_intranet_are_counted() {
    let intra = parse_intra_cidr("10.10.0.0/16").unwrap();
    let filter = build(&config(&["10.10.1.0/24", "10.11.0.0/30", "8.8.8.8"])).unwrap();
    assert_eq!(
        report_filter_scope(&filter, &intra).unwrap(),
        FilterScope { addresses: 261, outside: 5 }
    );
    let wide = build(&config(&["10.0.0.0/8"])).unwrap();
    assert!(report_filter_scope(&wide, &intra).is_err());
}

#[test]
fn less_room_than_asked_for_is_noticed() {
    assert!(is_capped(8_388_608, 425_984));
    assert!(!is_capped(8_388_608, 16_777_216) && !is_capped(8, 8));
}
