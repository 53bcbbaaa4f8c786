//! The registry of model mappings: one selector per mapping, the providers
//! and the settings of the configuration in force.

use crate::config::{
    find_provider_in, has_provider, is_provider_at, Backend, BillingMode, Config, ConfigError, GlobalSettings,
    LoadBalanceStrategy, ModelEntry, ModelMapping, Provider, ProviderEntry,
};
use crate::metrics::{
    after_failure, after_latency, after_success, backend_key, compose_backend_key, MetricsCollector,
};
use crate::selector::{
    can_select, enabled_pool, healthy_pool, indices, kept, lemma_kept_step, next_cursor, refused, selected,
    BackendSelector, SelectionError,
};
use vstd::prelude::*;
use vstd::string::*;

verus! {

/// Why one selection attempt gave no backend.
#[derive(Debug)]
pub enum SelectFailure {
    /// No mapping carries the name, or the mapping is disabled.
    UnknownModel(String),
    /// The mapping's selector could not select.
    Selection(SelectionError),
}

/// Billing mode and weight of the first backend in the list that a provider and a model name.
pub open spec fn find_in(backends: Seq<Backend>, provider: Seq<char>, model: Seq<char>) -> Option<
    (BillingMode, u32),
>
    decreases backends.len(),
{
    if backends.len() == 0 {
        None
    } else if backends[0].provider@ == provider && backends[0].model@ == model {
        Some((backends[0].billing_mode, backends[0].weight))
    } else {
        find_in(backends.drop_first(), provider, model)
    }
}

/// Billing mode and weight of the first backend of the first mapping that holds one for a provider and a model.
pub open spec fn find_across(mappings: Seq<ModelMapping>, provider: Seq<char>, model: Seq<char>) -> Option<
    (BillingMode, u32),
>
    decreases mappings.len(),
{
    if mappings.len() == 0 {
        None
    } else {
        match find_in(mappings[0].backends@, provider, model) {
            Some(found) => Some(found),
            None => find_across(mappings.drop_first(), provider, model),
        }
    }
}

/// Whether `i` is the first place of a mapping with the name.
pub open spec fn is_model_at(mappings: Seq<ModelMapping>, name: Seq<char>, i: int) -> bool {
    &&& 0 <= i < mappings.len()
    &&& mappings[i].name@ == name
    &&& forall|e: int| 0 <= e < i ==> #[trigger] mappings[e].name@ != name
}

/// Whether `i` is the place of the mapping that serves the name: the first with the name, and enabled.
pub open spec fn serves(mappings: Seq<ModelMapping>, name: Seq<char>, i: int) -> bool {
    is_model_at(mappings, name, i) && mappings[i].enabled
}

/// Whether the mapping at an index is enabled and has an enabled backend.
pub open spec fn is_available(mappings: Seq<ModelMapping>) -> spec_fn(usize) -> bool {
    |i: usize| mappings[i as int].enabled && enabled_pool(mappings[i as int].backends@).len() > 0
}

/// Whether a selection from the mapping moves its cursor: it selects in
/// turn and has an enabled backend.
pub open spec fn turns(mapping: ModelMapping) -> bool {
    mapping.strategy == LoadBalanceStrategy::RoundRobin && enabled_pool(mapping.backends@).len() > 0
}

/// The cursor after a number of selections in turn.
pub open spec fn advanced(cursor: usize, steps: nat) -> usize
    decreases steps,
{
    if steps == 0 {
        cursor
    } else {
        next_cursor(advanced(cursor, (steps - 1) as nat))
    }
}

/// `post` holds the cursors `pre` after `steps` selection attempts for a
/// model: only the cursor of the mapping that serves the model has moved,
/// and only if that mapping selects in turn.
pub open spec fn cursors_moved(
    pre: Seq<usize>,
    post: Seq<usize>,
    mappings: Seq<ModelMapping>,
    model: Seq<char>,
    steps: nat,
) -> bool {
    &&& post.len() == pre.len()
    &&& forall|k: int|
        0 <= k < pre.len() ==> #[trigger] post[k] == if serves(mappings, model, k) && turns(mappings[k]) {
            advanced(pre[k], steps)
        } else {
            pre[k]
        }
}

/// The backends of one model, counted.
#[derive(Debug)]
pub struct HealthStats {
    pub model: String,
    pub total_backends: usize,
    pub enabled_backends: usize,
    pub healthy_backends: usize,
}

/// Whether the counts are those of the mapping.
pub open spec fn stats_of(mapping: ModelMapping, store: MetricsCollector, stats: HealthStats) -> bool {
    let backends = mapping.backends@;
    &&& stats.model@ == mapping.name@
    &&& stats.total_backends == backends.len()
    &&& stats.enabled_backends == enabled_pool(backends).len()
    &&& stats.healthy_backends == healthy_pool(backends, store, enabled_pool(backends)).len()
}

fn find_in_backends(backends: &Vec<Backend>, provider: &String, model: &String) -> (r: Option<
    (BillingMode, u32),
>)
    ensures
        r == find_in(backends@, provider@, model@),
{
    let mut j: usize = 0;
    assert(backends@.skip(0) =~= backends@);
    while j < backends.len()
        invariant
            j <= backends@.len(),
            find_in(backends@, provider@, model@) == find_in(backends@.skip(j as int), provider@, model@),
        decreases backends@.len() - j,
    {
        assert(backends@.skip(j as int)[0] == backends@[j as int]);
        assert(backends@.skip(j as int).drop_first() =~= backends@.skip(j + 1));
        if backends[j].provider == *provider && backends[j].model == *model {
            return Some((backends[j].billing_mode, backends[j].weight));
        }
        j += 1;
    }
    None
}

fn build_selectors(models: Vec<ModelEntry>) -> (selectors: Vec<BackendSelector>)
    requires
        forall|i: int| 0 <= i < models@.len() ==> (#[trigger] models@[i]).mapping.backends@.len() <= u32::MAX,
    ensures
        selectors@.len() == models@.len(),
        forall|i: int|
            0 <= i < selectors@.len() ==> (#[trigger] selectors@[i]).wf() && selectors@[i].mapping()
                == models@[i].mapping && selectors@[i].cursor() == 0,
{
    let ghost all = models@;
    let mut rest = models;
    let mut selectors: Vec<BackendSelector> = Vec::new();
    while rest.len() > 0
        invariant
            selectors@.len() + rest@.len() == all.len(),
            forall|i: int| 0 <= i < all.len() ==> (#[trigger] all[i]).mapping.backends@.len() <= u32::MAX,
            forall|i: int| 0 <= i < rest@.len() ==> rest@[i] == all[selectors@.len() + i],
            forall|i: int|
                0 <= i < selectors@.len() ==> (#[trigger] selectors@[i]).wf() && selectors@[i].mapping()
                    == all[i].mapping && selectors@[i].cursor() == 0,
        decreases rest@.len(),
    {
        let ghost done = selectors@;
        let entry = rest.remove(0);
        assert(entry == all[done.len() as int]);
        selectors.push(BackendSelector::new(entry.mapping));
        assert forall|i: int| 0 <= i < selectors@.len() implies (#[trigger] selectors@[i]).wf()
            && selectors@[i].mapping() == all[i].mapping && selectors@[i].cursor() == 0 by {
            if i < done.len() {
                assert(selectors@[i] == done[i]);
            }
        }
    }
    selectors
}

/// The registry from logical model names to selectors.
pub struct LoadBalanceManager {
    providers: Vec<ProviderEntry>,
    settings: GlobalSettings,
    selectors: Vec<BackendSelector>,
}

impl LoadBalanceManager {
    /// The configured mappings, in their order.
    pub closed spec fn mappings(&self) -> Seq<ModelMapping> {
        Seq::new(self.selectors@.len(), |i: int| self.selectors@[i].mapping())
    }

    /// The round-robin cursors of the mappings.
    pub closed spec fn cursors(&self) -> Seq<usize> {
        Seq::new(self.selectors@.len(), |i: int| self.selectors@[i].cursor())
    }

    /// The configured providers.
    pub closed spec fn providers(&self) -> Seq<ProviderEntry> {
        self.providers@
    }

    /// The settings in force.
    pub closed spec fn settings(&self) -> GlobalSettings {
        self.settings
    }

    /// Each mapping has its cursor.
    pub proof fn lemma_cursor_count(&self)
        ensures
            self.cursors().len() == self.mappings().len(),
    {
    }

    /// Every mapping can be selected from.
    pub closed spec fn wf(&self) -> bool {
        forall|i: int| 0 <= i < self.selectors@.len() ==> (#[trigger] self.selectors@[i]).wf()
    }

    /// Mappings, providers and settings are as in `pre`; the cursors may differ.
    pub open spec fn same_setup(&self, pre: &LoadBalanceManager) -> bool {
        &&& self.mappings() == pre.mappings()
        &&& self.providers() == pre.providers()
        &&& self.settings() == pre.settings()
    }

    /// The counts of a model's backends: of the backends of the first
    /// mapping with the name, of the enabled ones among them, and of the
    /// healthy ones among those; zeros where no mapping has the name.
    pub open spec fn counted(
        &self,
        store: MetricsCollector,
        model: Seq<char>,
        total: usize,
        enabled: usize,
        healthy: usize,
    ) -> bool {
        if exists|i: int| is_model_at(self.mappings(), model, i) {
            forall|i: int|
                is_model_at(self.mappings(), model, i) ==> {
                    let backends = (#[trigger] self.mappings()[i]).backends@;
                    &&& total == backends.len()
                    &&& enabled == enabled_pool(backends).len()
                    &&& healthy == healthy_pool(backends, store, enabled_pool(backends)).len()
                }
        } else {
            total == 0 && enabled == 0 && healthy == 0
        }
    }

    /// Counts the backends of a model.
    pub fn count_backends(&self, metrics: &MetricsCollector, model_name: &str) -> (counts: (usize, usize, usize))
        requires
            metrics.wf(),
        ensures
            self.counted(*metrics, model_name@, counts.0, counts.1, counts.2),
    {
        match self.find_model(model_name) {
            Some(i) => {
                assert forall|k: int| is_model_at(self.mappings(), model_name@, k) implies k == i by {}
                self.selectors[i].health_counts(metrics)
            },
            None => (0, 0, 0),
        }
    }

    fn find_model(&self, name: &str) -> (r: Option<usize>)
        ensures
            match r {
                Some(i) => is_model_at(self.mappings(), name@, i as int),
                None => forall|i: int| 0 <= i < self.mappings().len() ==> self.mappings()[i].name@ != name@,
            },
    {
        let wanted = String::from_str(name);
        let mut i: usize = 0;
        while i < self.selectors.len()
            invariant
                wanted@ == name@,
                i <= self.selectors@.len(),
                forall|e: int| 0 <= e < i ==> #[trigger] self.mappings()[e].name@ != name@,
            decreases self.selectors@.len() - i,
        {
            if self.selectors[i].get_mapping().name == wanted {
                return Some(i);
            }
            i += 1;
        }
        None
    }

    /// Selects a backend for a logical model: the mapping that serves the
    /// model selects. A model that no enabled mapping serves is unknown.
    pub fn select_backend(&mut self, metrics: &MetricsCollector, model_name: &str) -> (r: Result<Backend, SelectFailure>)
        requires
            old(self).wf(),
            metrics.wf(),
        ensures
            final(self).wf(),
            final(self).same_setup(old(self)),
            match r {
                Ok(chosen) => exists|i: int|
                    serves(old(self).mappings(), model_name@, i) && selected(
                        old(self).mappings()[i],
                        *metrics,
                        #[trigger] old(self).cursors()[i],
                        chosen,
                    ),
                Err(SelectFailure::UnknownModel(name)) => name@ == model_name@ && forall|i: int|
                    !serves(old(self).mappings(), model_name@, i),
                Err(SelectFailure::Selection(error)) => exists|i: int|
                    serves(old(self).mappings(), model_name@, i) && refused(
                        old(self).mappings()[i],
                        *metrics,
                        #[trigger] old(self).cursors()[i],
                        error,
                    ),
            },
            r is Ok <==> exists|i: int|
                serves(old(self).mappings(), model_name@, i) && can_select(
                    #[trigger] old(self).mappings()[i],
                    *metrics,
                ),
            cursors_moved(old(self).cursors(), final(self).cursors(), old(self).mappings(), model_name@, 1),
    {
        let ghost pre = *self;
        assert(forall|c: usize| advanced(c, 1) == next_cursor(advanced(c, 0)));
        match self.find_model(model_name) {
            Some(i) => {
                if !self.selectors[i].get_mapping().enabled {
                    assert forall|k: int| !serves(pre.mappings(), model_name@, k) by {
                        if serves(pre.mappings(), model_name@, k) {
                            assert(k == i);
                        }
                    }
                    return Err(SelectFailure::UnknownModel(String::from_str(model_name)));
                }
                let outcome = self.selectors[i].select(metrics);
                proof {
                    assert(self.selectors@.len() == pre.selectors@.len());
                    assert forall|k: int| 0 <= k < self.selectors@.len() implies (#[trigger] self.selectors@[k]).wf()
                        && self.selectors@[k].mapping() == pre.selectors@[k].mapping() by {
                        if k != i {
                            assert(self.selectors@[k] == pre.selectors@[k]);
                        }
                    }
                    assert(self.mappings() =~= pre.mappings());
                    assert forall|k: int| 0 <= k < pre.cursors().len() implies #[trigger] self.cursors()[k] == if serves(
                        pre.mappings(),
                        model_name@,
                        k,
                    ) && turns(pre.mappings()[k]) {
                        advanced(pre.cursors()[k], 1)
                    } else {
                        pre.cursors()[k]
                    } by {
                        if k != i {
                            assert(self.selectors@[k] == pre.selectors@[k]);
                        }
                    }
                    assert(serves(pre.mappings(), model_name@, i as int));
                    assert(pre.cursors()[i as int] == pre.selectors@[i as int].cursor());
                    assert forall|k: int|
                        serves(pre.mappings(), model_name@, k) implies k == i by {}
                }
                match outcome {
                    Ok(chosen) => Ok(chosen),
                    Err(error) => Err(SelectFailure::Selection(error)),
                }
            },
            None => {
                assert forall|k: int| !serves(pre.mappings(), model_name@, k) by {}
                Err(SelectFailure::UnknownModel(String::from_str(model_name)))
            },
        }
    }

    /// Builds the registry from a configuration, which is checked first.
    /// Every cursor starts at zero.
    pub fn new(config: Config) -> (r: Result<LoadBalanceManager, ConfigError>)
        ensures
            match r {
                Ok(manager) => {
                    &&& config.valid()
                    &&& manager.wf()
                    &&& manager.mappings() == config.mappings()
                    &&& manager.providers() == config.providers@
                    &&& manager.settings() == config.settings
                    &&& manager.cursors().len() == manager.mappings().len()
                    &&& forall|i: int| 0 <= i < manager.cursors().len() ==> manager.cursors()[i] == 0
                },
                Err(e) => config.fault() == Some(e.fault),
            },
    {
        match config.validate() {
            Err(e) => Err(e),
            Ok(_) => {
                let ghost given = config;
                let Config { providers, models, settings } = config;
                let selectors = build_selectors(models);
                let manager = LoadBalanceManager { providers, settings, selectors };
                assert(manager.mappings() =~= given.mappings());
                Ok(manager)
            },
        }
    }

    /// Replaces the configuration by a new one, which is checked first; a
    /// rejected one changes nothing. The cursors start again at zero.
    pub fn reload_config(&mut self, new_config: Config) -> (r: Result<(), ConfigError>)
        requires
            old(self).wf(),
        ensures
            final(self).wf(),
            match r {
                Ok(_) => {
                    &&& new_config.valid()
                    &&& final(self).mappings() == new_config.mappings()
                    &&& final(self).providers() == new_config.providers@
                    &&& final(self).settings() == new_config.settings
                    &&& forall|i: int| 0 <= i < final(self).cursors().len() ==> final(self).cursors()[i] == 0
                },
                Err(e) => new_config.fault() == Some(e.fault) && *final(self) == *old(self),
            },
    {
        match new_config.validate() {
            Err(e) => Err(e),
            Ok(_) => {
                let ghost given = new_config;
                let Config { providers, models, settings } = new_config;
                self.selectors = build_selectors(models);
                self.providers = providers;
                self.settings = settings;
                assert(self.mappings() =~= given.mappings());
                Ok(())
            },
        }
    }

    /// The number of configured mappings.
    pub fn model_count(&self) -> (r: usize)
        ensures
            r == self.mappings().len(),
    {
        self.selectors.len()
    }

    /// The mapping at a place in the configuration.
    pub fn get_mapping(&self, index: usize) -> (r: &ModelMapping)
        requires
            index < self.mappings().len(),
        ensures
            *r == self.mappings()[index as int],
    {
        self.selectors[index].get_mapping()
    }

    /// The provider configured under `name`.
    pub fn get_provider(&self, name: &str) -> (r: Option<&Provider>)
        ensures
            match r {
                Some(p) => exists|k: int|
                    is_provider_at(self.providers(), name@, k) && *p == (#[trigger] self.providers()[k]).provider,
                None => !has_provider(self.providers(), name@),
            },
    {
        match find_provider_in(&self.providers, name) {
            Some(k) => {
                assert(is_provider_at(self.providers(), name@, k as int) && self.providers@[k as int].provider
                    == self.providers()[k as int].provider);
                Some(&self.providers[k].provider)
            },
            None => None,
        }
    }

    /// The settings in force.
    pub fn get_settings(&self) -> (r: GlobalSettings)
        ensures
            r == self.settings(),
    {
        self.settings
    }

    /// Billing mode and weight of a backend, if it is configured.
    pub fn find_backend(&self, provider: &str, model: &str) -> (r: Option<(BillingMode, u32)>)
        ensures
            r == find_across(self.mappings(), provider@, model@),
    {
        let p = String::from_str(provider);
        let m = String::from_str(model);
        let ghost all = self.mappings();
        let mut i: usize = 0;
        assert(all.skip(0) =~= all);
        while i < self.selectors.len()
            invariant
                all == self.mappings(),
                p@ == provider@,
                m@ == model@,
                i <= self.selectors@.len(),
                find_across(all, provider@, model@) == find_across(all.skip(i as int), provider@, model@),
            decreases self.selectors@.len() - i,
        {
            assert(all.skip(i as int)[0] == all[i as int]);
            assert(all.skip(i as int).drop_first() =~= all.skip(i + 1));
            match find_in_backends(&self.selectors[i].get_mapping().backends, &p, &m) {
                Some(found) => {
                    return Some(found);
                },
                None => {},
            }
            i += 1;
        }
        None
    }

    /// The configured weight of a backend.
    pub fn get_backend_original_weight(&self, provider: &str, model: &str) -> (r: Option<u32>)
        ensures
            r == match find_across(self.mappings(), provider@, model@) {
                Some(found) => Some(found.1),
                None => None,
            },
    {
        match self.find_backend(provider, model) {
            Some(found) => Some(found.1),
            None => None,
        }
    }

    /// Records a successful request on a backend: it is healthy, and its latency is the one given.
    pub fn record_success(&self, metrics: &mut MetricsCollector, provider: &str, model: &str, latency: u64)
        requires
            old(metrics).wf(),
        ensures
            final(metrics).wf(),
            old(metrics).replaced(
                final(metrics),
                backend_key(provider@, model@),
                after_latency(after_success(old(metrics).metrics(backend_key(provider@, model@))), latency),
            ),
    {
        let key = compose_backend_key(provider, model);
        metrics.record_success(key.as_str());
        metrics.record_latency(key.as_str(), latency);
    }

    /// Records a failed request on a backend: it is unhealthy.
    pub fn record_failure(&self, metrics: &mut MetricsCollector, provider: &str, model: &str, now: u64)
        requires
            old(metrics).wf(),
        ensures
            final(metrics).wf(),
            old(metrics).replaced(
                final(metrics),
                backend_key(provider@, model@),
                after_failure(old(metrics).metrics(backend_key(provider@, model@)), now),
            ),
    {
        let key = compose_backend_key(provider, model);
        metrics.record_failure(key.as_str(), now);
    }

    /// The names of the enabled mappings that have an enabled backend, in their order.
    pub fn get_available_models(&self) -> (names: Vec<String>)
        ensures
            names@.len() == kept(indices(self.mappings().len()), is_available(self.mappings())).len(),
            forall|j: int|
                0 <= j < names@.len() ==> (#[trigger] names@[j])@ == self.mappings()[kept(
                    indices(self.mappings().len()),
                    is_available(self.mappings()),
                )[j] as int].name@,
    {
        let ghost all = self.mappings();
        let ghost source = indices(all.len());
        let mut names: Vec<String> = Vec::new();
        let mut i: usize = 0;
        while i < self.selectors.len()
            invariant
                all == self.mappings(),
                source == indices(all.len()),
                i <= self.selectors@.len(),
                names@.len() == kept(source.take(i as int), is_available(all)).len(),
                forall|j: int|
                    0 <= j < names@.len() ==> (#[trigger] names@[j])@ == all[kept(
                        source.take(i as int),
                        is_available(all),
                    )[j] as int].name@,
            decreases self.selectors@.len() - i,
        {
            proof {
                lemma_kept_step(source, is_available(all), i as int);
            }
            let ghost before = names@;
            let mapping = self.selectors[i].get_mapping();
            if mapping.enabled && self.selectors[i].has_enabled_backend() {
                names.push(mapping.name.clone());
                assert forall|j: int| 0 <= j < names@.len() implies (#[trigger] names@[j])@ == all[kept(
                    source.take(i + 1),
                    is_available(all),
                )[j] as int].name@ by {
                    if j < before.len() {
                        assert(names@[j] == before[j]);
                    }
                }
            }
            i += 1;
        }
        assert(source.take(i as int) =~= source);
        names
    }

    /// The backends of each mapping, counted.
    pub fn get_health_stats(&self, metrics: &MetricsCollector) -> (stats: Vec<HealthStats>)
        requires
            metrics.wf(),
        ensures
            stats@.len() == self.mappings().len(),
            forall|i: int| 0 <= i < self.mappings().len() ==> stats_of(self.mappings()[i], *metrics, #[trigger] stats@[i]),
    {
        let mut model_stats: Vec<HealthStats> = Vec::new();
        let mut i: usize = 0;
        while i < self.selectors.len()
            invariant
                metrics.wf(),
                i <= self.selectors@.len(),
                model_stats@.len() == i,
                forall|e: int| 0 <= e < i ==> stats_of(self.mappings()[e], *metrics, #[trigger] model_stats@[e]),
            decreases self.selectors@.len() - i,
        {
            let ghost before = model_stats@;
            let counts = self.selectors[i].health_counts(metrics);
            model_stats.push(
                HealthStats {
                    model: self.selectors[i].get_mapping().name.clone(),
                    total_backends: counts.0,
                    enabled_backends: counts.1,
                    healthy_backends: counts.2,
                },
            );
            assert forall|e: int| 0 <= e < i + 1 implies stats_of(
                self.mappings()[e],
                *metrics,
                #[trigger] model_stats@[e],
            ) by {
                if e < i {
                    assert(model_stats@[e] == before[e]);
                }
            }
            i += 1;
        }
        model_stats
    }
}

} // verus!
