//! Adaptive per-process resource-usage estimation and ranking.
//!
//! Raw per-process samples (CPU share, memory share) are smoothed with a
//! Holt-style double-exponential model, clamped to a per-metric ceiling, and
//! decayed exponentially with the time elapsed since the last observation.
//! A store keeps one estimator pair per process and answers the filtering
//! and ranking queries used to report the top resource consumers when host
//! load crosses a threshold.
//!
//! All quantities are fixed-point integers: a real value `x` is stored as
//! `x * fixed::SCALE`, rounded toward negative infinity. Timestamps are plain
//! integers supplied by the caller, read from a monotonic clock.

pub mod fixed;
pub mod estimator;
pub mod datastore;
pub mod monitor;
