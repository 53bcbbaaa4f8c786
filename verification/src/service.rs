//! The load-balancing service: selection with internal retry and the
//! recording of request outcomes, over the manager, the health checker and
//! the metrics store.

use crate::clock::{clock_now, time_since};
use crate::config::{
    copy_pairs, has_provider, is_provider_at, Backend, BillingMode, Config, ConfigError, GlobalSettings,
    ModelMapping, Provider, ProviderEntry,
};
use crate::health_checker::{
    after_liveness_probe, after_recovery_probe, interval_ms, snapshot_of, HealthChecker, HealthSummary,
};
use crate::manager::{
    advanced, cursors_moved, find_across, is_available, serves, stats_of, turns, HealthStats, LoadBalanceManager,
    SelectFailure,
};
use crate::metrics::{
    after_failure, after_init_recovery, after_latency, after_passive_success, after_success, backend_key,
    compose_backend_key, effective_weight, fresh_metrics, ladder_stage, recovery_check_due, stage_weight,
    KeyMetrics, MetricsCollector,
};
use crate::selector::{can_select, indices, kept, key_of, next_cursor, refused, selected};
use crate::text::{trim_leading, trim_trailing, without_leading, without_trailing};
use std::time::{Duration, Instant};
use vstd::prelude::*;
use vstd::string::*;

verus! {

/// The outcome of a request that a caller made on a selected backend.
#[derive(Debug)]
pub enum RequestResult {
    Success { latency: u64 },
    Failure { error: String },
}

/// A selection that failed on every attempt.
#[derive(Debug)]
pub struct BackendSelectionError {
    pub model_name: String,
    pub total_backends: usize,
    pub enabled_backends: usize,
    pub healthy_backends: usize,
    pub cause: SelectFailure,
}

/// What the service reports to its caller.
#[derive(Debug)]
pub enum LoadBalanceError {
    /// The selected backend names a provider that is not configured.
    ProviderMissing(String),
    /// No backend could be selected within the attempts allowed.
    BackendSelection(BackendSelectionError),
    /// The configuration was rejected.
    ConfigInvalid(ConfigError),
}

/// What to do after one selection attempt.
#[derive(Clone, Copy, Debug, PartialEq, Eq, Structural)]
pub enum AttemptVerdict {
    /// Return the backend selected.
    Accept,
    /// Select again.
    Retry,
    /// Give up with the attempt's error.
    Fail,
}

/// The verdict on an attempt: `selected_healthy` is `None` where the
/// attempt failed, else whether the selected backend is healthy; `attempt`
/// counts the attempts made before this one.
pub open spec fn verdict(selected_healthy: Option<bool>, attempt: u32, max_retries: u32) -> AttemptVerdict {
    match selected_healthy {
        Some(true) => AttemptVerdict::Accept,
        Some(false) => if attempt < max_retries {
            AttemptVerdict::Retry
        } else {
            AttemptVerdict::Accept
        },
        None => if attempt < max_retries {
            AttemptVerdict::Retry
        } else {
            AttemptVerdict::Fail
        },
    }
}

/// Decides what follows one selection attempt: a healthy backend is
/// accepted; an unhealthy one or a failure is retried while attempts
/// remain; on the last attempt an unhealthy backend is accepted all the
/// same and a failure is final.
pub fn judge_attempt(selected_healthy: Option<bool>, attempt: u32, max_retries: u32) -> (r: AttemptVerdict)
    ensures
        r == verdict(selected_healthy, attempt, max_retries),
{
    match selected_healthy {
        Some(true) => AttemptVerdict::Accept,
        Some(false) => if attempt < max_retries {
            AttemptVerdict::Retry
        } else {
            AttemptVerdict::Accept
        },
        None => if attempt < max_retries {
            AttemptVerdict::Retry
        } else {
            AttemptVerdict::Fail
        },
    }
}

/// What a reported outcome makes of a key's metrics; `configured` is the
/// billing mode and weight of the backend, if it is configured.
pub open spec fn after_result(
    m: KeyMetrics,
    configured: Option<(BillingMode, u32)>,
    result: RequestResult,
    now: u64,
) -> KeyMetrics {
    match result {
        RequestResult::Success { latency } => match configured {
            Some((BillingMode::PerRequest, weight)) => if m.unhealthy is Some {
                after_passive_success(m, weight, now)
            } else {
                after_latency(after_success(m), latency)
            },
            _ => after_latency(after_success(m), latency),
        },
        RequestResult::Failure { error } => match configured {
            Some((BillingMode::PerRequest, weight)) => after_init_recovery(
                after_failure(m, now),
                weight,
                now,
            ),
            _ => after_failure(m, now),
        },
    }
}

/// The metrics of a key after a run of reported successes, each with its
/// latency and its time, and no failure between them.
pub open spec fn after_successes(
    m: KeyMetrics,
    configured: Option<(BillingMode, u32)>,
    events: Seq<(u64, u64)>,
) -> KeyMetrics
    decreases events.len(),
{
    if events.len() == 0 {
        m
    } else {
        after_result(
            after_successes(m, configured, events.drop_last()),
            configured,
            RequestResult::Success { latency: events.last().0 },
            events.last().1,
        )
    }
}

proof fn lemma_successes_state(
    m: KeyMetrics,
    weight: u32,
    failure: RequestResult,
    failed_at: u64,
    events: Seq<(u64, u64)>,
)
    requires
        failure is Failure,
    ensures
        ({
            let configured = Some((BillingMode::PerRequest, weight));
            let end = after_successes(after_result(m, configured, failure, failed_at), configured, events);
            &&& events.len() <= 4 ==> end.unhealthy is Some && (end.recovery matches Some(r) && r.success_count
                == events.len() && r.recovery_stage == ladder_stage(events.len() as int) && r.current_weight
                == stage_weight(r.recovery_stage, weight))
            &&& events.len() >= 5 ==> end.healthy && end.unhealthy is None && end.recovery is None
        }),
    decreases events.len(),
{
    if events.len() > 0 {
        lemma_successes_state(m, weight, failure, failed_at, events.drop_last());
    }
}

/// After a reported failure of a backend billed per request, along any run
/// of reported successes with no failure between them, the effective weight
/// never falls and never exceeds the configured weight; from the fifth
/// success on it is the configured weight, and the key is healthy and out
/// of the unhealthy set.
pub proof fn lemma_recovery_by_results(
    m: KeyMetrics,
    weight: u32,
    failure: RequestResult,
    failed_at: u64,
    events: Seq<(u64, u64)>,
)
    requires
        failure is Failure,
    ensures
        ({
            let configured = Some((BillingMode::PerRequest, weight));
            let start = after_result(m, configured, failure, failed_at);
            let end = after_successes(start, configured, events);
            &&& events.len() > 0 ==> effective_weight(
                after_successes(start, configured, events.drop_last()),
                weight,
            ) <= effective_weight(end, weight)
            &&& 0 <= effective_weight(end, weight) <= weight
            &&& events.len() >= 5 ==> effective_weight(end, weight) == weight && end.healthy && end.unhealthy is None
        }),
{
    lemma_successes_state(m, weight, failure, failed_at, events);
    if events.len() > 0 {
        lemma_successes_state(m, weight, failure, failed_at, events.drop_last());
    }
}

/// What the number of attempts that a selection made says of its result:
/// a backend returned was selected at the cursor of the last attempt, an
/// unhealthy one only on the last attempt allowed, and a failure is
/// reported only after the last attempt allowed.
pub open spec fn attempts_used(
    pre: LoadBalanceService,
    model: Seq<char>,
    r: Result<SelectedBackend, LoadBalanceError>,
    attempts: nat,
) -> bool {
    match r {
        Ok(sel) => {
            &&& pre.store().metrics(key_of(sel.backend)).healthy || attempts
                == pre.settings().max_internal_retries + 1
            &&& forall|i: int|
                serves(pre.mappings(), model, i) ==> selected(
                    #[trigger] pre.mappings()[i],
                    pre.store(),
                    advanced(pre.cursors()[i], (attempts - 1) as nat),
                    sel.backend,
                )
        },
        Err(LoadBalanceError::BackendSelection(_)) => attempts == pre.settings().max_internal_retries + 1,
        Err(_) => true,
    }
}

/// Only a selection in turn depends on the cursor.
pub proof fn lemma_cursor_irrelevant(
    mapping: ModelMapping,
    metrics: MetricsCollector,
    cursor: usize,
    other: usize,
    chosen: Backend,
)
    requires
        selected(mapping, metrics, cursor, chosen),
        !turns(mapping) || cursor == other,
    ensures
        selected(mapping, metrics, other, chosen),
{
}

/// A backend selected for a request, with its provider.
#[derive(Debug)]
pub struct SelectedBackend {
    pub backend: Backend,
    pub provider: Provider,
    /// How long the selection took, retries included.
    pub selection_time: Duration,
}

/// A provider without a key was asked for its key.
#[derive(Debug)]
pub struct EmptyApiKey {
    /// The provider's display name.
    pub provider: String,
}

impl SelectedBackend {
    /// The URL of an endpoint of the provider: the base URL without slashes
    /// at its end, a slash, and the endpoint without slashes at its start.
    pub fn get_api_url(&self, endpoint: &str) -> (url: String)
        ensures
            url@ == without_trailing(self.provider.base_url@, '/') + seq!['/'] + without_leading(
                endpoint@,
                '/',
            ),
    {
        let mut url = String::from_str(trim_trailing(self.provider.base_url.as_str(), '/'));
        proof {
            reveal_strlit("/");
            assert("/"@ =~= seq!['/']);
        }
        url.append("/");
        url.append(trim_leading(endpoint, '/'));
        url
    }

    /// The provider's key; an empty one is an error.
    pub fn get_api_key(&self) -> (r: Result<String, EmptyApiKey>)
        ensures
            match r {
                Ok(key) => key@ == self.provider.api_key@ && key@.len() > 0,
                Err(e) => self.provider.api_key@.len() == 0 && e.provider@ == self.provider.name@,
            },
    {
        if self.provider.api_key.as_str().unicode_len() == 0 {
            Err(EmptyApiKey { provider: self.provider.name.clone() })
        } else {
            Ok(self.provider.api_key.clone())
        }
    }

    /// The extra request headers of the provider.
    pub fn get_headers(&self) -> (headers: Vec<(String, String)>)
        ensures
            headers@ == self.provider.headers@,
    {
        copy_pairs(&self.provider.headers)
    }

    /// The provider's timeout, in seconds.
    pub fn get_timeout(&self) -> (seconds: u64)
        ensures
            seconds == self.provider.timeout_seconds,
    {
        self.provider.timeout_seconds
    }
}

/// The state of the service at one moment.
#[derive(Debug)]
pub struct ServiceHealth {
    pub is_running: bool,
    pub health_summary: HealthSummary,
    pub model_stats: Vec<HealthStats>,
    pub total_requests: u64,
    pub successful_requests: u64,
}

impl ServiceHealth {
    /// The service is running and no backend is unhealthy.
    pub fn is_healthy(&self) -> (r: bool)
        ensures
            r == (self.is_running && self.health_summary.unhealthy_backends@.len() == 0),
    {
        self.is_running && self.health_summary.is_system_healthy()
    }
}

/// The service: the manager, the health checker, the metrics store and the running flag.
pub struct LoadBalanceService {
    manager: LoadBalanceManager,
    health_checker: HealthChecker,
    metrics: MetricsCollector,
    running: bool,
}

impl LoadBalanceService {
    /// The configured mappings, in their order.
    pub closed spec fn mappings(&self) -> Seq<ModelMapping> {
        self.manager.mappings()
    }

    /// The round-robin cursors of the mappings.
    pub closed spec fn cursors(&self) -> Seq<usize> {
        self.manager.cursors()
    }

    /// The metrics store.
    pub closed spec fn store(&self) -> MetricsCollector {
        self.metrics
    }

    /// The configured providers.
    pub closed spec fn providers(&self) -> Seq<ProviderEntry> {
        self.manager.providers()
    }

    /// The settings in force.
    pub closed spec fn settings(&self) -> GlobalSettings {
        self.manager.settings()
    }

    /// Whether the service is marked as running.
    pub closed spec fn running(&self) -> bool {
        self.running
    }

    /// The manager.
    pub closed spec fn manager(&self) -> LoadBalanceManager {
        self.manager
    }

    /// The store and the manager are well formed, and the health checker
    /// goes by the recovery interval of the settings.
    pub closed spec fn wf(&self) -> bool {
        &&& self.metrics.wf()
        &&& self.manager.wf()
        &&& self.health_checker.recovery_interval == interval_ms(
            self.manager.settings().recovery_check_interval_s,
        )
    }

    /// Everything but the cursors is as in `pre`.
    pub open spec fn same_setup(&self, pre: &LoadBalanceService) -> bool {
        &&& self.mappings() == pre.mappings()
        &&& self.store() == pre.store()
        &&& self.providers() == pre.providers()
        &&& self.settings() == pre.settings()
        &&& self.running() == pre.running()
    }

    /// Everything but the store is as in `pre`.
    pub open spec fn same_config(&self, pre: &LoadBalanceService) -> bool {
        &&& self.mappings() == pre.mappings()
        &&& self.cursors() == pre.cursors()
        &&& self.providers() == pre.providers()
        &&& self.settings() == pre.settings()
        &&& self.running() == pre.running()
    }

    fn resolve(&self, backend: Backend, started: &Instant) -> (r: Result<SelectedBackend, LoadBalanceError>)
        ensures
            match r {
                Ok(sel) => sel.backend == backend && exists|k: int|
                    is_provider_at(self.providers(), backend.provider@, k) && sel.provider@
                        == (#[trigger] self.providers()[k]).provider@,
                Err(LoadBalanceError::ProviderMissing(name)) => name@ == backend.provider@ && !has_provider(
                    self.providers(),
                    name@,
                ),
                Err(_) => false,
            },
    {
        match self.manager.get_provider(backend.provider.as_str()) {
            Some(found) => {
                let provider = found.clone();
                proof {
                    let k = choose|k: int|
                        is_provider_at(self.manager.providers(), backend.provider@, k) && *found
                            == (#[trigger] self.manager.providers()[k]).provider;
                    assert(is_provider_at(self.providers(), backend.provider@, k) && provider@
                        == self.providers()[k].provider@);
                }
                Ok(SelectedBackend { backend, provider, selection_time: time_since(started) })
            },
            None => Err(LoadBalanceError::ProviderMissing(backend.provider.clone())),
        }
    }

    fn describe_failure(&self, model_name: &str, cause: SelectFailure) -> (e: BackendSelectionError)
        requires
            self.wf(),
        ensures
            e.cause == cause,
            e.model_name@ == model_name@,
            self.manager().counted(
                self.store(),
                model_name@,
                e.total_backends,
                e.enabled_backends,
                e.healthy_backends,
            ),
    {
        let counts = self.manager.count_backends(&self.metrics, model_name);
        BackendSelectionError {
            model_name: String::from_str(model_name),
            total_backends: counts.0,
            enabled_backends: counts.1,
            healthy_backends: counts.2,
            cause,
        }
    }

    /// One selection attempt for a logical model.
    pub fn select_once(&mut self, model_name: &str) -> (r: Result<Backend, SelectFailure>)
        requires
            old(self).wf(),
        ensures
            final(self).wf(),
            final(self).same_setup(old(self)),
            match r {
                Ok(chosen) => exists|i: int|
                    serves(old(self).mappings(), model_name@, i) && selected(
                        old(self).mappings()[i],
                        old(self).store(),
                        #[trigger] old(self).cursors()[i],
                        chosen,
                    ),
                Err(SelectFailure::UnknownModel(name)) => name@ == model_name@ && forall|i: int|
                    !serves(old(self).mappings(), model_name@, i),
                Err(SelectFailure::Selection(error)) => exists|i: int|
                    serves(old(self).mappings(), model_name@, i) && refused(
                        old(self).mappings()[i],
                        old(self).store(),
                        #[trigger] old(self).cursors()[i],
                        error,
                    ),
            },
            r is Ok <==> exists|i: int|
                serves(old(self).mappings(), model_name@, i) && can_select(
                    #[trigger] old(self).mappings()[i],
                    old(self).store(),
                ),
            cursors_moved(old(self).cursors(), final(self).cursors(), old(self).mappings(), model_name@, 1),
    {
        let ghost pre = *self;
        let r = self.manager.select_backend(&self.metrics, model_name);
        let ghost outcome = r;
        proof {
            pre.manager.lemma_cursor_count();
            match outcome {
                Ok(chosen) => {
                    let i = choose|i: int|
                        serves(pre.manager.mappings(), model_name@, i) && selected(
                            pre.manager.mappings()[i],
                            pre.metrics,
                            #[trigger] pre.manager.cursors()[i],
                            chosen,
                        );
                    assert(serves(pre.mappings(), model_name@, i) && selected(
                        pre.mappings()[i],
                        pre.store(),
                        pre.cursors()[i],
                        chosen,
                    ));
                },
                Err(SelectFailure::Selection(error)) => {
                    let i = choose|i: int|
                        serves(pre.manager.mappings(), model_name@, i) && refused(
                            pre.manager.mappings()[i],
                            pre.metrics,
                            #[trigger] pre.manager.cursors()[i],
                            error,
                        );
                    assert(serves(pre.mappings(), model_name@, i) && refused(
                        pre.mappings()[i],
                        pre.store(),
                        pre.cursors()[i],
                        error,
                    ));
                },
                _ => {},
            }
        }
        r
    }

    /// Selects a backend for a logical model and resolves its provider,
    /// trying again, up to `max_internal_retries` more times, while the
    /// selection fails or gives an unhealthy backend. The last attempt's
    /// backend is returned even if it is unhealthy.
    ///
    /// The selection fails exactly when no enabled mapping serves the model
    /// or nothing can be selected from it; the health of the backends never
    /// makes it fail. Whatever the draws, a backend returned is one that the
    /// mapping's selector may return at some cursor.
    pub fn select_backend(&mut self, model_name: &str) -> (r: Result<SelectedBackend, LoadBalanceError>)
        requires
            old(self).wf(),
        ensures
            final(self).wf(),
            final(self).same_setup(old(self)),
            match r {
                Ok(sel) => (exists|i: int, cursor: usize|
                    serves(old(self).mappings(), model_name@, i) && #[trigger] selected(
                        old(self).mappings()[i],
                        old(self).store(),
                        cursor,
                        sel.backend,
                    )) && (exists|k: int|
                    is_provider_at(old(self).providers(), sel.backend.provider@, k) && sel.provider@
                        == (#[trigger] old(self).providers()[k]).provider@),
                Err(LoadBalanceError::ProviderMissing(name)) => !has_provider(old(self).providers(), name@)
                    && exists|i: int, cursor: usize, chosen: Backend|
                    serves(old(self).mappings(), model_name@, i) && #[trigger] selected(
                        old(self).mappings()[i],
                        old(self).store(),
                        cursor,
                        chosen,
                    ) && chosen.provider@ == name@,
                Err(LoadBalanceError::BackendSelection(e)) => e.model_name@ == model_name@
                    && old(self).manager().counted(
                    old(self).store(),
                    model_name@,
                    e.total_backends,
                    e.enabled_backends,
                    e.healthy_backends,
                ) && match e.cause {
                    SelectFailure::UnknownModel(name) => name@ == model_name@ && forall|i: int|
                        !serves(old(self).mappings(), model_name@, i),
                    SelectFailure::Selection(error) => exists|i: int, cursor: usize|
                        serves(old(self).mappings(), model_name@, i) && #[trigger] refused(
                            old(self).mappings()[i],
                            old(self).store(),
                            cursor,
                            error,
                        ),
                },
                Err(LoadBalanceError::ConfigInvalid(_)) => false,
            },
            r matches Err(LoadBalanceError::BackendSelection(_)) <==> !exists|i: int|
                serves(old(self).mappings(), model_name@, i) && can_select(
                    #[trigger] old(self).mappings()[i],
                    old(self).store(),
                ),
            exists|attempts: nat|
                {
                    &&& 1 <= attempts <= old(self).settings().max_internal_retries + 1
                    &&& #[trigger] cursors_moved(
                        old(self).cursors(),
                        final(self).cursors(),
                        old(self).mappings(),
                        model_name@,
                        attempts,
                    )
                    &&& attempts_used(*old(self), model_name@, r, attempts)
                },
    {
        let ghost pre = *self;
        let max = self.manager.get_settings().max_internal_retries;
        let started = clock_now();
        let mut attempt: u32 = 0;
        loop
            invariant
                pre == *old(self),
                max == pre.settings().max_internal_retries,
                attempt <= max,
                self.wf(),
                self.same_setup(&pre),
                cursors_moved(pre.cursors(), self.cursors(), pre.mappings(), model_name@, attempt as nat),
            decreases max - attempt,
        {
            let ghost cursors = self.cursors();
            proof {
                pre.manager.lemma_cursor_count();
                self.manager.lemma_cursor_count();
            }
            assert(forall|c: usize| advanced(c, (attempt + 1) as nat) == next_cursor(advanced(c, attempt as nat)));
            assert(forall|c: usize| advanced(c, 1) == next_cursor(advanced(c, 0)));
            match self.select_once(model_name) {
                Ok(backend) => {
                    let healthy = self.metrics.is_healthy(backend.provider.as_str(), backend.model.as_str());
                    match judge_attempt(Some(healthy), attempt, max) {
                        AttemptVerdict::Retry => {
                            attempt += 1;
                        },
                        _ => {
                            let r = self.resolve(backend, &started);
                            proof {
                                let i = choose|i: int|
                                    serves(pre.mappings(), model_name@, i) && selected(
                                        pre.mappings()[i],
                                        pre.store(),
                                        #[trigger] cursors[i],
                                        backend,
                                    );
                                assert(selected(pre.mappings()[i], pre.store(), cursors[i], backend));
                                assert forall|k: int| serves(pre.mappings(), model_name@, k) implies k == i by {}
                                assert(cursors[i] == if turns(pre.mappings()[i]) {
                                    advanced(pre.cursors()[i], attempt as nat)
                                } else {
                                    pre.cursors()[i]
                                });
                                lemma_cursor_irrelevant(pre.mappings()[i], pre.store(), cursors[i], advanced(pre.cursors()[i], attempt as nat), backend);
                                assert(cursors_moved(
                                    pre.cursors(),
                                    self.cursors(),
                                    pre.mappings(),
                                    model_name@,
                                    (attempt + 1) as nat,
                                ));
                                assert(attempts_used(pre, model_name@, r, (attempt + 1) as nat));
                            }
                            return r;
                        },
                    }
                },
                Err(cause) => {
                    match judge_attempt(None, attempt, max) {
                        AttemptVerdict::Retry => {
                            attempt += 1;
                        },
                        _ => {
                            let ghost seen = cause;
                            proof {
                                match seen {
                                    SelectFailure::Selection(error) => {
                                        let i = choose|i: int|
                                            serves(pre.mappings(), model_name@, i) && refused(
                                                pre.mappings()[i],
                                                pre.store(),
                                                #[trigger] cursors[i],
                                                error,
                                            );
                                        assert(refused(pre.mappings()[i], pre.store(), cursors[i], error));
                                    },
                                    _ => {},
                                }
                            }
                            let r = Err(
                                LoadBalanceError::BackendSelection(self.describe_failure(model_name, cause)),
                            );
                            proof {
                                assert(cursors_moved(
                                    pre.cursors(),
                                    self.cursors(),
                                    pre.mappings(),
                                    model_name@,
                                    (attempt + 1) as nat,
                                ));
                                assert(attempts_used(pre, model_name@, r, (attempt + 1) as nat));
                            }
                            return r;
                        },
                    }
                },
            }
        }
    }

    /// Builds the service from a configuration, which is checked first.
    /// The service is not running, and nothing is recorded yet.
    pub fn new(config: Config) -> (r: Result<LoadBalanceService, LoadBalanceError>)
        ensures
            match r {
                Ok(service) => {
                    &&& config.valid()
                    &&& service.wf()
                    &&& service.mappings() == config.mappings()
                    &&& service.providers() == config.providers@
                    &&& service.settings() == config.settings
                    &&& !service.running()
                    &&& forall|i: int| 0 <= i < service.cursors().len() ==> service.cursors()[i] == 0
                    &&& forall|k: Seq<char>| #[trigger] service.store().metrics(k) == fresh_metrics()
                },
                Err(LoadBalanceError::ConfigInvalid(e)) => config.fault() == Some(e.fault),
                Err(_) => false,
            },
    {
        match LoadBalanceManager::new(config) {
            Err(e) => Err(LoadBalanceError::ConfigInvalid(e)),
            Ok(manager) => {
                let settings = manager.get_settings();
                Ok(
                    LoadBalanceService {
                        manager,
                        health_checker: HealthChecker::new(&settings),
                        metrics: MetricsCollector::new(),
                        running: false,
                    },
                )
            },
        }
    }

    /// Marks the service as running. Returns whether this call started it:
    /// the caller then starts the two probe loops. Starting twice changes nothing.
    pub fn start(&mut self) -> (started: bool)
        requires
            old(self).wf(),
        ensures
            final(self).wf(),
            final(self).running(),
            started == !old(self).running(),
            final(self).mappings() == old(self).mappings(),
            final(self).cursors() == old(self).cursors(),
            final(self).store() == old(self).store(),
            final(self).providers() == old(self).providers(),
            final(self).settings() == old(self).settings(),
    {
        let started = !self.running;
        self.running = true;
        started
    }

    /// Marks the service as stopped: the probe loops end before their next round.
    pub fn stop(&mut self)
        requires
            old(self).wf(),
        ensures
            final(self).wf(),
            !final(self).running(),
            final(self).mappings() == old(self).mappings(),
            final(self).cursors() == old(self).cursors(),
            final(self).store() == old(self).store(),
            final(self).providers() == old(self).providers(),
            final(self).settings() == old(self).settings(),
    {
        self.running = false;
    }

    /// Whether the service is marked as running.
    pub fn is_running(&self) -> (r: bool)
        ensures
            r == self.running(),
    {
        self.running
    }

    /// The metrics store.
    pub fn get_metrics(&self) -> (r: &MetricsCollector)
        ensures
            *r == self.store(),
    {
        &self.metrics
    }

    /// The number of configured mappings.
    pub fn model_count(&self) -> (r: usize)
        ensures
            r == self.mappings().len(),
    {
        self.manager.model_count()
    }

    /// The mapping at a place in the configuration.
    pub fn get_mapping(&self, index: usize) -> (r: &ModelMapping)
        requires
            index < self.mappings().len(),
        ensures
            *r == self.mappings()[index as int],
    {
        self.manager.get_mapping(index)
    }

    /// The provider configured under `name`.
    pub fn get_provider(&self, name: &str) -> (r: Option<&Provider>)
        ensures
            match r {
                Some(p) => exists|k: int|
                    is_provider_at(self.providers(), name@, k) && *p == (#[trigger] self.providers()[k]).provider,
                None => !has_provider(self.providers(), name@),
            },
    {
        let r = self.manager.get_provider(name);
        proof {
            match r {
                Some(p) => {
                    let k = choose|k: int|
                        is_provider_at(self.manager.providers(), name@, k) && *p
                            == (#[trigger] self.manager.providers()[k]).provider;
                    assert(is_provider_at(self.providers(), name@, k) && *p == self.providers()[k].provider);
                },
                None => {},
            }
        }
        r
    }

    /// The settings in force.
    pub fn get_settings(&self) -> (r: GlobalSettings)
        ensures
            r == self.settings(),
    {
        self.manager.get_settings()
    }

    /// The configured weight of a backend.
    pub fn get_backend_original_weight(&self, provider: &str, model: &str) -> (r: Option<u32>)
        ensures
            r == match find_across(self.mappings(), provider@, model@) {
                Some(found) => Some(found.1),
                None => None,
            },
    {
        self.manager.get_backend_original_weight(provider, model)
    }

    /// Records a successful request on a backend: it is healthy, and its latency is the one given.
    pub fn record_success(&mut self, provider: &str, model: &str, latency: u64)
        requires
            old(self).wf(),
        ensures
            final(self).wf(),
            final(self).same_config(old(self)),
            old(self).store().replaced(
                &final(self).store(),
                backend_key(provider@, model@),
                after_latency(after_success(old(self).store().metrics(backend_key(provider@, model@))), latency),
            ),
    {
        self.manager.record_success(&mut self.metrics, provider, model, latency);
    }

    /// Records a failed request on a backend: it is unhealthy.
    pub fn record_failure(&mut self, provider: &str, model: &str, now: u64)
        requires
            old(self).wf(),
        ensures
            final(self).wf(),
            final(self).same_config(old(self)),
            old(self).store().replaced(
                &final(self).store(),
                backend_key(provider@, model@),
                after_failure(old(self).store().metrics(backend_key(provider@, model@)), now),
            ),
    {
        self.manager.record_failure(&mut self.metrics, provider, model, now);
    }

    /// Records the outcome of a request on a backend.
    ///
    /// A success on a backend billed per request that is a member of the
    /// unhealthy set advances its recovery ladder; any other success marks
    /// the backend healthy and records the latency. A failure marks it
    /// unhealthy and, for a backend billed per request, starts its ladder.
    /// A backend that is not configured is treated as billed per token.
    pub fn record_request_result(&mut self, provider: &str, model: &str, result: RequestResult, now: u64)
        requires
            old(self).wf(),
        ensures
            final(self).wf(),
            final(self).same_config(old(self)),
            old(self).store().replaced(
                &final(self).store(),
                backend_key(provider@, model@),
                after_result(
                    old(self).store().metrics(backend_key(provider@, model@)),
                    find_across(old(self).mappings(), provider@, model@),
                    result,
                    now,
                ),
            ),
    {
        let key = compose_backend_key(provider, model);
        let configured = self.manager.find_backend(provider, model);
        match result {
            RequestResult::Success { latency } => {
                match configured {
                    Some((BillingMode::PerRequest, weight)) => {
                        if self.metrics.is_in_unhealthy_list(key.as_str()) {
                            self.metrics.record_passive_success(key.as_str(), weight, now);
                        } else {
                            self.manager.record_success(&mut self.metrics, provider, model, latency);
                        }
                    },
                    _ => {
                        self.manager.record_success(&mut self.metrics, provider, model, latency);
                    },
                }
            },
            RequestResult::Failure { error } => {
                self.manager.record_failure(&mut self.metrics, provider, model, now);
                match configured {
                    Some((BillingMode::PerRequest, weight)) => {
                        self.metrics.initialize_per_request_recovery(key.as_str(), weight, now);
                    },
                    _ => {},
                }
            },
        }
    }

    /// Whether an unhealthy backend is to be probed for recovery now: only
    /// one billed per token is ever probed, and only when the recovery
    /// interval of the settings has passed since the last probe.
    pub fn should_probe_recovery(&self, backend: &Backend, now: u64) -> (r: bool)
        requires
            self.wf(),
        ensures
            r == (backend.billing_mode == BillingMode::PerToken && recovery_check_due(
                self.store().metrics(key_of(*backend)),
                interval_ms(self.settings().recovery_check_interval_s),
                now,
            )),
    {
        self.health_checker.should_probe_recovery(&self.metrics, backend, now)
    }

    /// Records the outcome of a recovery probe.
    pub fn record_recovery_probe(&mut self, provider: &str, model: &str, reachable: bool, now: u64)
        requires
            old(self).wf(),
        ensures
            final(self).wf(),
            final(self).same_config(old(self)),
            old(self).store().replaced(
                &final(self).store(),
                backend_key(provider@, model@),
                after_recovery_probe(
                    old(self).store().metrics(backend_key(provider@, model@)),
                    reachable,
                    now,
                ),
            ),
    {
        self.health_checker.record_recovery_probe(&mut self.metrics, provider, model, reachable, now);
    }

    /// Records the outcome of a liveness probe.
    pub fn record_liveness_probe(&mut self, provider: &str, model: &str, reachable: bool, now: u64)
        requires
            old(self).wf(),
        ensures
            final(self).wf(),
            final(self).same_config(old(self)),
            old(self).store().replaced(
                &final(self).store(),
                backend_key(provider@, model@),
                after_liveness_probe(
                    old(self).store().metrics(backend_key(provider@, model@)),
                    reachable,
                    now,
                ),
            ),
    {
        self.health_checker.record_liveness_probe(&mut self.metrics, provider, model, reachable, now);
    }

    /// The names of the enabled mappings that have an enabled backend, in their order.
    pub fn get_available_models(&self) -> (names: Vec<String>)
        ensures
            names@.len() == kept(indices(self.mappings().len()), is_available(self.mappings())).len(),
            forall|j: int|
                0 <= j < names@.len() ==> (#[trigger] names@[j])@ == self.mappings()[kept(
                    indices(self.mappings().len()),
                    is_available(self.mappings()),
                )[j] as int].name@,
    {
        self.manager.get_available_models()
    }

    /// Replaces the configuration by a new one, which is checked first; a
    /// rejected one changes nothing. The metrics are kept; the cursors
    /// start again at zero.
    pub fn reload_config(&mut self, new_config: Config) -> (r: Result<(), LoadBalanceError>)
        requires
            old(self).wf(),
        ensures
            final(self).wf(),
            final(self).store() == old(self).store(),
            final(self).running() == old(self).running(),
            match r {
                Ok(_) => {
                    &&& new_config.valid()
                    &&& final(self).mappings() == new_config.mappings()
                    &&& final(self).providers() == new_config.providers@
                    &&& final(self).settings() == new_config.settings
                    &&& forall|i: int| 0 <= i < final(self).cursors().len() ==> final(self).cursors()[i] == 0
                },
                Err(LoadBalanceError::ConfigInvalid(e)) => new_config.fault() == Some(e.fault) && *final(self)
                    == *old(self),
                Err(_) => false,
            },
    {
        match self.manager.reload_config(new_config) {
            Err(e) => Err(LoadBalanceError::ConfigInvalid(e)),
            Ok(_) => {
                let settings = self.manager.get_settings();
                self.health_checker = HealthChecker::new(&settings);
                Ok(())
            },
        }
    }

    /// Whether the service runs, the unhealthy set, and the backends of
    /// each mapping counted. Requests are not counted: both counts are zero.
    pub fn get_service_health(&self) -> (health: ServiceHealth)
        requires
            self.wf(),
        ensures
            health.is_running == self.running(),
            health.total_requests == 0,
            health.successful_requests == 0,
            snapshot_of(self.store(), health.health_summary),
            health.model_stats@.len() == self.mappings().len(),
            forall|i: int|
                0 <= i < self.mappings().len() ==> stats_of(
                    self.mappings()[i],
                    self.store(),
                    #[trigger] health.model_stats@[i],
                ),
    {
        ServiceHealth {
            is_running: self.running,
            health_summary: self.health_checker.get_health_summary(&self.metrics),
            model_stats: self.manager.get_health_stats(&self.metrics),
            total_requests: 0,
            successful_requests: 0,
        }
    }
}

} // verus!
