//! Verified core of a mirror-curation pipeline for an Arch Linux package
//! archive: cached retrieval decisions, multi-predicate filtering, rate
//! benchmarking support under a bounded concurrency limiter, stable
//! single-key ranking, and mirrorlist rendering.

pub mod cache;
pub mod countries;
pub mod filter;
pub mod limiter;
pub mod mirror;
pub mod output;
pub mod protocol;
pub mod ranker;
pub mod rate;
pub mod sortutil;
pub mod strutil;
