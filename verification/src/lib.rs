//! The logic of a NetFlow v5 collector: what is counted, where it is counted, and what is written.

pub mod aggregator;
pub mod carry;
pub mod cidr;
pub mod cli;
pub mod config;
pub mod day_sums;
pub mod db;
pub mod filter;
pub mod ledger;
pub mod live;
pub mod parser;
pub mod printer;
pub mod server;
pub mod sql;
pub mod stats;
pub mod tables;
pub mod text;
pub mod time;
pub mod wording;
