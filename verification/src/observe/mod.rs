//! Decision and attempt events, observers, and metrics.

pub mod attempt;
pub mod event;
pub mod metrics;
pub mod observer;
pub mod policy;

pub use attempt::Attempt;
pub use event::{AttemptEvent, AttemptKind, DecisionEvent, DecisionKind, ReadinessFailure};
pub use metrics::{
    ATTEMPT_LATENCY_BUCKET_COUNT, LatencyBucket, LatencyHistogram, Metrics, MetricsSnapshot,
    attempt_latency_bounds,
};
pub use observer::{Fanout, NoopObserver, Observer};
pub use policy::{ObservedPolicy, TowerObserver, TracedPolicy};
