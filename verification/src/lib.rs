//! Load balancing and health management for a multi-backend model router.
//!
//! Times are `u64` milliseconds on a monotonic clock that the caller reads;
//! weights are unsigned integers in a unit of the caller's choice.

pub mod clock;
pub mod config;
pub mod fairness;
pub mod health_checker;
pub mod manager;
pub mod metrics;
pub mod sampling;
pub mod selector;
pub mod service;
pub mod text;
