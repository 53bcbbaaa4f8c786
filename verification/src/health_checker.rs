//! The decisions of the two probe loops: what a liveness probe and a
//! recovery probe make of the metrics, and which backends a recovery round
//! probes. The loops and the probes themselves belong to the caller.

use crate::config::{Backend, BillingMode, GlobalSettings};
use crate::metrics::{
    after_failure, after_health_check, after_recovery_attempt, after_success, backend_key,
    compose_backend_key, recovery_check_due, KeyMetrics, MetricsCollector, UnhealthyBackend,
};
use crate::selector::key_of;
use vstd::prelude::*;

verus! {

/// What a liveness probe makes of a key's metrics.
pub open spec fn after_liveness_probe(m: KeyMetrics, reachable: bool, now: u64) -> KeyMetrics {
    if reachable {
        after_success(after_health_check(m, now))
    } else {
        after_failure(m, now)
    }
}

/// What a recovery probe makes of a key's metrics: a failed one is counted
/// as an attempt, not as another failure.
pub open spec fn after_recovery_probe(m: KeyMetrics, reachable: bool, now: u64) -> KeyMetrics {
    if reachable {
        after_success(m)
    } else {
        after_recovery_attempt(m, now)
    }
}

/// The unhealthy set at one moment.
#[derive(Debug)]
pub struct HealthSummary {
    pub unhealthy_backends: Vec<UnhealthyBackend>,
}

impl HealthSummary {
    /// No backend is a member of the unhealthy set.
    pub fn is_system_healthy(&self) -> (r: bool)
        ensures
            r == (self.unhealthy_backends@.len() == 0),
    {
        self.unhealthy_backends.len() == 0
    }
}

/// An interval of seconds in milliseconds, held at `u64::MAX`.
pub open spec fn interval_ms(seconds: u64) -> u64 {
    if seconds * 1000 <= u64::MAX {
        (seconds * 1000) as u64
    } else {
        u64::MAX
    }
}

/// Decides for the probe loops.
#[derive(Clone, Copy, Debug)]
pub struct HealthChecker {
    /// Milliseconds between two recovery probes of one backend.
    pub recovery_interval: u64,
}

impl HealthChecker {
    /// A checker that goes by the recovery interval of the settings.
    pub fn new(settings: &GlobalSettings) -> (r: HealthChecker)
        ensures
            r.recovery_interval == interval_ms(settings.recovery_check_interval_s),
    {
        let interval = if settings.recovery_check_interval_s <= u64::MAX / 1000 {
            settings.recovery_check_interval_s * 1000
        } else {
            u64::MAX
        };
        HealthChecker { recovery_interval: interval }
    }

    /// Whether an unhealthy backend is to be probed for recovery now: only
    /// one billed per token is ever probed, and only when a check is due.
    pub fn should_probe_recovery(&self, metrics: &MetricsCollector, backend: &Backend, now: u64) -> (r: bool)
        requires
            metrics.wf(),
        ensures
            r == (backend.billing_mode == BillingMode::PerToken && recovery_check_due(
                metrics.metrics(key_of(*backend)),
                self.recovery_interval,
                now,
            )),
    {
        match backend.billing_mode {
            BillingMode::PerRequest => false,
            BillingMode::PerToken => {
                let key = compose_backend_key(backend.provider.as_str(), backend.model.as_str());
                metrics.needs_recovery_check(key.as_str(), self.recovery_interval, now)
            },
        }
    }

    /// Records the outcome of a recovery probe.
    pub fn record_recovery_probe(
        &self,
        metrics: &mut MetricsCollector,
        provider: &str,
        model: &str,
        reachable: bool,
        now: u64,
    )
        requires
            old(metrics).wf(),
        ensures
            final(metrics).wf(),
            old(metrics).replaced(
                final(metrics),
                backend_key(provider@, model@),
                after_recovery_probe(old(metrics).metrics(backend_key(provider@, model@)), reachable, now),
            ),
    {
        let key = compose_backend_key(provider, model);
        if reachable {
            metrics.record_success(key.as_str());
        } else {
            metrics.record_recovery_attempt(key.as_str(), now);
        }
    }

    /// Records the outcome of a liveness probe.
    pub fn record_liveness_probe(
        &self,
        metrics: &mut MetricsCollector,
        provider: &str,
        model: &str,
        reachable: bool,
        now: u64,
    )
        requires
            old(metrics).wf(),
        ensures
            final(metrics).wf(),
            old(metrics).replaced(
                final(metrics),
                backend_key(provider@, model@),
                after_liveness_probe(old(metrics).metrics(backend_key(provider@, model@)), reachable, now),
            ),
    {
        let key = compose_backend_key(provider, model);
        if reachable {
            metrics.update_health_check(key.as_str(), now);
            metrics.record_success(key.as_str());
        } else {
            metrics.record_failure(key.as_str(), now);
        }
    }

    /// The unhealthy set as it stands.
    pub fn get_health_summary(&self, metrics: &MetricsCollector) -> (summary: HealthSummary)
        requires
            metrics.wf(),
        ensures
            snapshot_of(*metrics, summary),
    {
        HealthSummary { unhealthy_backends: metrics.get_unhealthy_backends() }
    }
}

/// Whether the summary lists exactly the members of the unhealthy set, each with what is recorded of it.
pub open spec fn snapshot_of(store: MetricsCollector, summary: HealthSummary) -> bool {
    &&& forall|j: int|
        0 <= j < summary.unhealthy_backends@.len() ==> store.metrics(
            #[trigger] summary.unhealthy_backends@[j].backend_key@,
        ).unhealthy == Some(summary.unhealthy_backends@[j].info())
    &&& forall|k: Seq<char>|
        store.in_unhealthy_set(k) ==> exists|j: int|
            0 <= j < summary.unhealthy_backends@.len() && #[trigger] summary.unhealthy_backends@[j].backend_key@
                == k
}

} // verus!
