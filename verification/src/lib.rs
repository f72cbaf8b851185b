//! A rate-limited, concurrent hostname-normalization pipeline.
//!
//! Input hostnames are admitted by a token-bucket rate limiter, distributed
//! as jobs to a pool of workers, and each worker reduces its host to the
//! registrable domain `<domain>.<suffix>`; hosts without a resolvable
//! domain or suffix produce no output.

pub mod config;
pub mod limiter;
pub mod normalize;
pub mod pipeline;
