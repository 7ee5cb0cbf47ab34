//! The settings of the collector.

use vstd::prelude::*;
use vstd::string::*;

use crate::text;

verus! {

/// One rule of the filter.
#[derive(Debug)]
pub struct FilterEntry {
    /// An address, or an address and a prefix length.
    pub cidr: String,
    /// `src`, `dst` or `any`: which side of a flow has to match.
    pub direction: Option<String>,
}

/// Which ports are highlighted.
#[derive(Debug)]
pub struct HighlightedPortsConfig {
    /// `override` replaces the built-in list; anything else adds to it.
    pub mode: String,
    pub ports: Vec<u16>,
}

/// The mode where none is given.
pub fn default_mode() -> (r: String)
    ensures
        r@ == "extend"@,
{
    "extend".to_owned()
}

/// Settings of the live monitor.
#[derive(Debug)]
pub struct LiveConfig {
    pub lines: usize,
}

/// How many flows the live monitor shows where nothing is said.
pub fn default_live_lines() -> (r: usize)
    ensures
        r == 10,
{
    10
}

/// Where the database is.
#[derive(Debug, Clone)]
pub struct DatabaseConfig {
    pub host: String,
    pub port: u16,
    pub user: String,
    pub password: String,
    pub dbname: String,
}

impl DatabaseConfig {
    /// The settings in the form that PostgreSQL takes: keys and values with spaces between them.
    pub fn connection_string(&self) -> (r: String)
        ensures
            r@ == "host="@ + self.host@ + " port="@ + text::decimal(self.port as nat) + " user="@
                + self.user@ + " password="@ + self.password@ + " dbname="@ + self.dbname@,
    {
        let mut out: String = "host=".to_owned();
        out.append(self.host.as_str());
        out.append(" port=");
        text::append_decimal(&mut out, self.port as u64);
        out.append(" user=");
        out.append(self.user.as_str());
        out.append(" password=");
        out.append(self.password.as_str());
        out.append(" dbname=");
        out.append(self.dbname.as_str());
        out
    }
}

/// How far the exporter is trusted.
#[derive(Debug, Clone)]
pub struct NetflowConfig {
    /// The boundary between what is counted as `intra` and what is counted as `ext`.
    pub intra_cidr: Option<String>,
    /// What every byte count is multiplied by. 1 means no sampling.
    pub sampling_interval: i32,
    /// By how much the exporter's clock may differ from ours before ours is taken instead.
    pub clock_skew_threshold_seconds: i64,
}

/// No sampling.
pub fn default_sampling_interval() -> (r: i32)
    ensures
        r == 1,
{
    1
}

/// One minute.
pub fn default_clock_skew_threshold() -> (r: i64)
    ensures
        r == 60,
{
    60
}

impl Default for NetflowConfig {
    fn default() -> (r: Self)
        ensures
            r == NetflowConfig::where_nothing_is_said(),
    {
        NetflowConfig {
            intra_cidr: None,
            sampling_interval: default_sampling_interval(),
            clock_skew_threshold_seconds: default_clock_skew_threshold(),
        }
    }
}

impl NetflowConfig {
    /// The settings where nothing is said.
    pub open spec fn where_nothing_is_said() -> Self {
        NetflowConfig { intra_cidr: None, sampling_interval: 1, clock_skew_threshold_seconds: 60 }
    }
}

/// How often the counters are written.
#[derive(Debug, Clone, Copy)]
pub struct StatsConfig {
    pub flush_seconds: u64,
}

/// One minute.
pub fn default_flush_seconds() -> (r: u64)
    ensures
        r == 60,
{
    60
}

impl Default for StatsConfig {
    fn default() -> (r: Self)
        ensures
            r.flush_seconds == 60,
    {
        StatsConfig { flush_seconds: default_flush_seconds() }
    }
}

/// All settings.
#[derive(Debug)]
pub struct Config {
    /// The one list of addresses: it decides what is printed, what is stored and what is counted.
    pub filters: Vec<FilterEntry>,
    pub highlighted_ports: Option<HighlightedPortsConfig>,
    pub database: Option<DatabaseConfig>,
    pub live: Option<LiveConfig>,
    pub netflow: Option<NetflowConfig>,
    pub stats: Option<StatsConfig>,
}

impl Config {
    /// How far the exporter is trusted: as set, or the defaults.
    pub fn netflow(&self) -> (r: NetflowConfig)
        ensures
            r == (match self.netflow {
                Some(set) => set,
                None => NetflowConfig::where_nothing_is_said(),
            }),
    {
        match &self.netflow {
            Some(set) => NetflowConfig {
                intra_cidr: match &set.intra_cidr {
                    Some(cidr) => Some(cidr.clone()),
                    None => None,
                },
                sampling_interval: set.sampling_interval,
                clock_skew_threshold_seconds: set.clock_skew_threshold_seconds,
            },
            None => NetflowConfig::default(),
        }
    }

    /// How often the counters are written: as set, or the default.
    pub fn stats(&self) -> (r: StatsConfig)
        ensures
            r == (match self.stats {
                Some(set) => set,
                None => StatsConfig { flush_seconds: 60 },
            }),
    {
        match self.stats {
            Some(set) => set,
            None => StatsConfig::default(),
        }
    }
}

} // verus!
