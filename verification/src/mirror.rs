//! The mirror record and the status snapshot that the pipeline curates.
//!
//! Quantities the upstream feed reports as timestamps or fractions are held
//! as plain integers so every rule about them is checkable: times are Unix
//! seconds, the completion fraction is parts per million, the score is a
//! fixed-point value where lower stays better.

use vstd::prelude::*;
use crate::protocol::Protocol;

verus! {

/// One archive mirror and its statistics, as the upstream feed reports them.
#[derive(Debug, Clone, PartialEq)]
pub struct Mirror {
    /// The URL of the mirror, in serialized form.
    pub url: String,
    /// The transport scheme this mirror uses.
    pub protocol: Protocol,
    /// When the mirror last synchronized from the master archive, in Unix
    /// seconds; `None` means it was never observed synchronized.
    pub last_sync: Option<i64>,
    /// The fraction of successful mirror checks, in parts per million of 1.0.
    pub completion_ppm: Option<u64>,
    /// The mean mirroring delay, in seconds.
    pub delay: Option<u32>,
    /// The mean time to retrieve the sync marker file, in microseconds.
    pub duration_avg: Option<u64>,
    /// The standard deviation of that retrieval time, in microseconds.
    pub duration_stddev: Option<u64>,
    /// The precomputed quality score, fixed-point; lower is better.
    pub score: Option<u64>,
    /// Whether the mirror is active.
    pub active: bool,
    /// The country the mirror resides in.
    pub country: String,
    /// The ISO 3166-1 code of that country; empty keeps the mirror out of
    /// any country grouping, but not out of the mirror list itself.
    pub country_code: String,
    /// Whether the mirror hosts installable images.
    pub isos: bool,
    /// Whether the mirror is reachable over IPv4.
    pub ipv4: bool,
    /// Whether the mirror is reachable over IPv6.
    pub ipv6: bool,
    /// Free-text details about the mirror.
    pub details: String,
}

/// The status of all known mirrors: one snapshot per pipeline run,
/// immutable but for in-place filtering and sorting of `urls`.
#[derive(Debug, Clone, PartialEq)]
pub struct Status {
    /// The cutoff the upstream checker applies, in seconds.
    pub cutoff: u32,
    /// When the upstream consistency check last ran, in Unix seconds.
    pub last_check: i64,
    /// How many checks ran in the last 24 hours.
    pub num_checks: u32,
    /// The interval between checks, in seconds.
    pub check_frequency: u32,
    /// Every known mirror, in the order the feed lists them.
    pub urls: Vec<Mirror>,
    /// The schema version of the snapshot.
    pub version: u32,
}

} // verus!
