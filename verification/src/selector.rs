//! Choosing one backend of a model mapping per request.

use crate::config::{Backend, BackendView, LoadBalanceStrategy, ModelMapping};
use crate::metrics::{backend_key, effective_weight, MetricsCollector, compose_backend_key};
use crate::sampling::{lemma_total, random_index, sample_weighted, WeightedFault};
use vstd::prelude::*;
use vstd::string::*;

verus! {

/// Latency assumed of a backend whose latency was never recorded, in milliseconds.
pub const UNKNOWN_LATENCY_MS: u64 = 999000;

/// Why no backend could be selected; each names the logical model.
#[derive(Debug)]
pub enum SelectionError {
    /// The mapping has no enabled backend.
    NoEnabledBackends(String),
    /// The weights to sample from add up to zero.
    ZeroWeight(String),
    /// No enabled backend has a positive effective weight.
    NoPositiveWeight(String),
}

impl SelectionError {
    /// The error in words.
    pub fn message(&self) -> (text: String)
        ensures
            text@ == match *self {
                SelectionError::NoEnabledBackends(name) => "No enabled backends for model "@ + name@,
                SelectionError::ZeroWeight(name) => "All weights are zero for model "@ + name@,
                SelectionError::NoPositiveWeight(name) => "No backends with positive weight available for model "@
                    + name@,
            },
    {
        match self {
            SelectionError::NoEnabledBackends(name) => String::from_str("No enabled backends for model ").concat(
                name.as_str(),
            ),
            SelectionError::ZeroWeight(name) => String::from_str("All weights are zero for model ").concat(
                name.as_str(),
            ),
            SelectionError::NoPositiveWeight(name) => String::from_str(
                "No backends with positive weight available for model ",
            ).concat(name.as_str()),
        }
    }
}

/// The members of `source` that `keep` accepts, in their order.
pub open spec fn kept(source: Seq<usize>, keep: spec_fn(usize) -> bool) -> Seq<usize>
    decreases source.len(),
{
    if source.len() == 0 {
        source
    } else if keep(source.last()) {
        kept(source.drop_last(), keep).push(source.last())
    } else {
        kept(source.drop_last(), keep)
    }
}

/// The indices below `n`, ascending.
pub open spec fn indices(n: nat) -> Seq<usize> {
    Seq::new(n, |i: int| i as usize)
}

/// `kept` holds exactly the accepted members of its source.
pub proof fn lemma_kept(source: Seq<usize>, keep: spec_fn(usize) -> bool)
    ensures
        kept(source, keep).len() <= source.len(),
        forall|j: int|
            0 <= j < kept(source, keep).len() ==> keep(#[trigger] kept(source, keep)[j])
                && source.contains(kept(source, keep)[j]),
        forall|i: int|
            0 <= i < source.len() && keep(#[trigger] source[i]) ==> kept(source, keep).contains(
                source[i],
            ),
    decreases source.len(),
{
    if source.len() > 0 {
        let front = source.drop_last();
        let last = source.last();
        lemma_kept(front, keep);
        let sub = kept(front, keep);
        let all = kept(source, keep);
        assert forall|j: int| 0 <= j < all.len() implies keep(#[trigger] all[j]) && source.contains(
            all[j],
        ) by {
            if j < sub.len() {
                assert(all[j] == sub[j]);
                let w = choose|w: int| 0 <= w < front.len() && front[w] == sub[j];
                assert(source[w] == sub[j]);
            } else {
                assert(source[source.len() - 1] == last);
            }
        }
        assert forall|i: int| 0 <= i < source.len() && keep(#[trigger] source[i]) implies all.contains(
            source[i],
        ) by {
            if i < front.len() {
                assert(front[i] == source[i]);
                assert(sub.contains(front[i]));
                let w = choose|w: int| 0 <= w < sub.len() && sub[w] == front[i];
                assert(all[w] == source[i]);
            } else {
                assert(all[all.len() - 1] == last);
            }
        }
    }
}

/// `kept` of an ascending source is ascending.
pub proof fn lemma_kept_ascending(source: Seq<usize>, keep: spec_fn(usize) -> bool)
    requires
        forall|a: int, b: int| 0 <= a < b < source.len() ==> source[a] < source[b],
    ensures
        forall|a: int, b: int|
            0 <= a < b < kept(source, keep).len() ==> kept(source, keep)[a] < kept(source, keep)[b],
    decreases source.len(),
{
    if source.len() > 0 {
        let front = source.drop_last();
        lemma_kept_ascending(front, keep);
        lemma_kept(front, keep);
        let sub = kept(front, keep);
        let all = kept(source, keep);
        assert forall|a: int, b: int| 0 <= a < b < all.len() implies all[a] < all[b] by {
            if b < sub.len() {
                assert(all[a] == sub[a] && all[b] == sub[b]);
            } else {
                assert(all[a] == sub[a]);
                assert(front.contains(sub[a]));
                let w = choose|w: int| 0 <= w < front.len() && front[w] == sub[a];
                assert(source[w] == sub[a]);
            }
        }
    }
}

/// Taking one more member of the source adds it to `kept` where it is accepted.
pub proof fn lemma_kept_step(source: Seq<usize>, keep: spec_fn(usize) -> bool, i: int)
    requires
        0 <= i < source.len(),
    ensures
        kept(source.take(i + 1), keep) == if keep(source[i]) {
            kept(source.take(i), keep).push(source[i])
        } else {
            kept(source.take(i), keep)
        },
{
    assert(source.take(i + 1).drop_last() =~= source.take(i));
    assert(source.take(i + 1).last() == source[i]);
}

/// The position of the first least value of a list; zero for an empty one.
pub open spec fn first_least(values: Seq<int>) -> int
    decreases values.len(),
{
    if values.len() <= 1 {
        0
    } else {
        let before = first_least(values.drop_last());
        if values.last() < values[before] {
            values.len() - 1
        } else {
            before
        }
    }
}

/// `first_least` is the position of a least value, and no earlier value is as small.
pub proof fn lemma_first_least(values: Seq<int>)
    requires
        values.len() > 0,
    ensures
        0 <= first_least(values) < values.len(),
        forall|j: int| 0 <= j < values.len() ==> values[first_least(values)] <= #[trigger] values[j],
        forall|j: int|
            0 <= j < first_least(values) ==> values[first_least(values)] < #[trigger] values[j],
    decreases values.len(),
{
    if values.len() > 1 {
        let front = values.drop_last();
        lemma_first_least(front);
        let before = first_least(front);
        assert(front[before] == values[before]);
        assert forall|j: int| 0 <= j < values.len() implies values[first_least(values)]
            <= #[trigger] values[j] by {
            if j < front.len() {
                assert(front[j] == values[j]);
            }
        }
        assert forall|j: int| 0 <= j < first_least(values) implies values[first_least(values)]
            < #[trigger] values[j] by {
            assert(front[j] == values[j]);
        }
    }
}

/// The cursor after one more round-robin selection: it wraps to zero past `usize::MAX`.
pub open spec fn next_cursor(cursor: usize) -> usize {
    if cursor == usize::MAX {
        0
    } else {
        (cursor + 1) as usize
    }
}

/// The backend with another weight.
pub open spec fn with_weight(backend: BackendView, weight: u32) -> BackendView {
    BackendView { weight, ..backend }
}

/// The key under which the store keeps a backend.
pub open spec fn key_of(backend: Backend) -> Seq<char> {
    backend_key(backend.provider@, backend.model@)
}

/// The latency a backend is ranked by.
pub open spec fn ranked_latency(metrics: MetricsCollector, backend: Backend) -> int {
    match metrics.metrics(key_of(backend)).latency {
        Some(latency) => latency as int,
        None => UNKNOWN_LATENCY_MS as int,
    }
}

/// What a weighted draw over `pool` (indices into `backends`, each with the
/// weight at its position in `weights`) may return.
pub open spec fn weighted_pick(
    backends: Seq<Backend>,
    model: Seq<char>,
    pool: Seq<usize>,
    weights: Seq<u64>,
    r: Result<Backend, SelectionError>,
) -> bool {
    if forall|j: int| 0 <= j < weights.len() ==> weights[j] == 0 {
        r matches Err(SelectionError::ZeroWeight(name)) && name@ == model
    } else {
        r matches Ok(chosen) && exists|j: int|
            0 <= j < pool.len() && #[trigger] weights[j] > 0 && chosen@ == with_weight(
                backends[pool[j] as int]@,
                weights[j] as u32,
            )
    }
}

/// The configured weights of a pool of backends.
pub open spec fn pool_weights(backends: Seq<Backend>, pool: Seq<usize>) -> Seq<u64> {
    Seq::new(pool.len(), |j: int| backends[pool[j] as int].weight as u64)
}

/// The effective weights of a pool of backends.
pub open spec fn pool_effective_weights(
    backends: Seq<Backend>,
    metrics: MetricsCollector,
    pool: Seq<usize>,
) -> Seq<u64> {
    Seq::new(
        pool.len(),
        |j: int|
            effective_weight(
                metrics.metrics(key_of(backends[pool[j] as int])),
                backends[pool[j] as int].weight,
            ) as u64,
    )
}

/// Whether the backend at an index is enabled.
pub open spec fn is_enabled(backends: Seq<Backend>) -> spec_fn(usize) -> bool {
    |i: usize| backends[i as int].enabled
}

/// Whether the store holds the backend at an index healthy.
pub open spec fn is_healthy(backends: Seq<Backend>, metrics: MetricsCollector) -> spec_fn(usize) -> bool {
    |i: usize| metrics.metrics(key_of(backends[i as int])).healthy
}

/// Whether the backend at an index has a positive effective weight.
pub open spec fn has_weight(backends: Seq<Backend>, metrics: MetricsCollector) -> spec_fn(usize) -> bool {
    |i: usize|
        effective_weight(metrics.metrics(key_of(backends[i as int])), backends[i as int].weight) > 0
}

/// The indices of the enabled backends, in list order.
pub open spec fn enabled_pool(backends: Seq<Backend>) -> Seq<usize> {
    kept(indices(backends.len()), is_enabled(backends))
}

/// The members of a pool that the store holds healthy.
pub open spec fn healthy_pool(backends: Seq<Backend>, metrics: MetricsCollector, pool: Seq<usize>) -> Seq<
    usize,
> {
    kept(pool, is_healthy(backends, metrics))
}

/// The members of a pool whose effective weight is positive.
pub open spec fn weighted_pool(backends: Seq<Backend>, metrics: MetricsCollector, pool: Seq<usize>) -> Seq<
    usize,
> {
    kept(pool, has_weight(backends, metrics))
}

/// The healthy members of a pool if there are any, else the whole pool.
pub open spec fn preferred_pool(backends: Seq<Backend>, metrics: MetricsCollector, pool: Seq<usize>) -> Seq<
    usize,
> {
    if healthy_pool(backends, metrics, pool).len() > 0 {
        healthy_pool(backends, metrics, pool)
    } else {
        pool
    }
}

/// What `select` may return for a mapping, a store and a round-robin cursor.
pub open spec fn selection(
    mapping: ModelMapping,
    metrics: MetricsCollector,
    cursor: usize,
    r: Result<Backend, SelectionError>,
) -> bool {
    let backends = mapping.backends@;
    let pool = enabled_pool(backends);
    if pool.len() == 0 {
        r matches Err(SelectionError::NoEnabledBackends(name)) && name@ == mapping.name@
    } else {
        match mapping.strategy {
            LoadBalanceStrategy::WeightedRandom => weighted_pick(
                backends,
                mapping.name@,
                pool,
                pool_weights(backends, pool),
                r,
            ),
            LoadBalanceStrategy::RoundRobin => r matches Ok(chosen) && chosen@ == backends[pool[cursor as int
                % pool.len() as int] as int]@,
            LoadBalanceStrategy::LeastLatency => r matches Ok(chosen) && chosen@ == backends[pool[first_least(
                Seq::new(pool.len(), |j: int| ranked_latency(metrics, backends[pool[j] as int])),
            )] as int]@,
            LoadBalanceStrategy::Failover => {
                let preferred = preferred_pool(backends, metrics, pool);
                r matches Ok(chosen) && chosen@ == backends[preferred[first_least(
                    Seq::new(preferred.len(), |j: int| backends[preferred[j] as int].priority as int),
                )] as int]@
            },
            LoadBalanceStrategy::Random => r matches Ok(chosen) && exists|j: int|
                0 <= j < pool.len() && chosen@ == backends[#[trigger] pool[j] as int]@,
            LoadBalanceStrategy::WeightedFailover => {
                let preferred = preferred_pool(backends, metrics, pool);
                weighted_pick(backends, mapping.name@, preferred, pool_weights(backends, preferred), r)
            },
            LoadBalanceStrategy::SmartWeightedFailover => {
                let positive = weighted_pool(backends, metrics, pool);
                if positive.len() == 0 {
                    r matches Err(SelectionError::NoPositiveWeight(name)) && name@ == mapping.name@
                } else {
                    weighted_pick(
                        backends,
                        mapping.name@,
                        positive,
                        pool_effective_weights(backends, metrics, positive),
                        r,
                    )
                }
            },
        }
    }
}

/// Whether `i` is the place of the first enabled backend of least priority.
pub open spec fn least_enabled(backends: Seq<Backend>, i: int) -> bool {
    &&& 0 <= i < backends.len()
    &&& backends[i].enabled
    &&& forall|k: int|
        0 <= k < backends.len() && (#[trigger] backends[k]).enabled ==> backends[i].priority
            <= backends[k].priority
    &&& forall|k: int|
        0 <= k < i && (#[trigger] backends[k]).enabled ==> backends[i].priority < backends[k].priority
}

/// Whether a selection can be made at all: a backend is enabled and, for
/// the weighted strategies, there is a positive weight to draw from.
pub open spec fn can_select(mapping: ModelMapping, metrics: MetricsCollector) -> bool {
    let backends = mapping.backends@;
    let pool = enabled_pool(backends);
    &&& pool.len() > 0
    &&& match mapping.strategy {
        LoadBalanceStrategy::WeightedRandom => exists|j: int|
            0 <= j < pool.len() && backends[#[trigger] pool[j] as int].weight > 0,
        LoadBalanceStrategy::WeightedFailover => {
            let preferred = preferred_pool(backends, metrics, pool);
            exists|j: int| 0 <= j < preferred.len() && backends[#[trigger] preferred[j] as int].weight > 0
        },
        LoadBalanceStrategy::SmartWeightedFailover => weighted_pool(backends, metrics, pool).len() > 0,
        _ => true,
    }
}

/// A selection succeeds exactly when one can be made.
pub proof fn lemma_selection_succeeds(
    mapping: ModelMapping,
    metrics: MetricsCollector,
    cursor: usize,
    r: Result<Backend, SelectionError>,
)
    requires
        selection(mapping, metrics, cursor, r),
    ensures
        r is Ok <==> can_select(mapping, metrics),
{
    let backends = mapping.backends@;
    let pool = enabled_pool(backends);
    if pool.len() > 0 {
        match mapping.strategy {
            LoadBalanceStrategy::WeightedRandom => {
                let weights = pool_weights(backends, pool);
                if r is Ok {
                    let j = choose|j: int| 0 <= j < weights.len() && weights[j] != 0;
                    assert(backends[pool[j] as int].weight > 0);
                }
                if can_select(mapping, metrics) {
                    let j = choose|j: int| 0 <= j < pool.len() && backends[#[trigger] pool[j] as int].weight > 0;
                    assert(weights[j] > 0);
                }
            },
            LoadBalanceStrategy::WeightedFailover => {
                let preferred = preferred_pool(backends, metrics, pool);
                let weights = pool_weights(backends, preferred);
                if r is Ok {
                    let j = choose|j: int| 0 <= j < weights.len() && weights[j] != 0;
                    assert(backends[preferred[j] as int].weight > 0);
                }
                if can_select(mapping, metrics) {
                    let j = choose|j: int|
                        0 <= j < preferred.len() && backends[#[trigger] preferred[j] as int].weight > 0;
                    assert(weights[j] > 0);
                }
            },
            LoadBalanceStrategy::SmartWeightedFailover => {
                let positive = weighted_pool(backends, metrics, pool);
                if positive.len() > 0 {
                    lemma_kept(pool, has_weight(backends, metrics));
                    assert(has_weight(backends, metrics)(positive[0]));
                    assert(pool_effective_weights(backends, metrics, positive)[0] > 0);
                }
            },
            _ => {},
        }
    }
}

/// The enabled pool holds exactly the indices of the enabled backends, ascending.
pub proof fn lemma_enabled_pool(backends: Seq<Backend>)
    requires
        backends.len() <= usize::MAX,
    ensures
        forall|j: int|
            0 <= j < enabled_pool(backends).len() ==> (#[trigger] enabled_pool(backends)[j])
                < backends.len() && backends[enabled_pool(backends)[j] as int].enabled,
        forall|i: int|
            0 <= i < backends.len() && (#[trigger] backends[i]).enabled ==> exists|j: int|
                0 <= j < enabled_pool(backends).len() && #[trigger] enabled_pool(backends)[j] == i,
        forall|a: int, b: int|
            0 <= a < b < enabled_pool(backends).len() ==> enabled_pool(backends)[a] < enabled_pool(
                backends,
            )[b],
{
    let source = indices(backends.len());
    let keep = is_enabled(backends);
    let pool = enabled_pool(backends);
    lemma_kept(source, keep);
    lemma_kept_ascending(source, keep);
    assert forall|j: int| 0 <= j < pool.len() implies (#[trigger] pool[j]) < backends.len()
        && backends[pool[j] as int].enabled by {
        assert(keep(pool[j]));
        assert(source.contains(pool[j]));
    }
    assert forall|i: int| 0 <= i < backends.len() && (#[trigger] backends[i]).enabled implies exists|
        j: int,
    | 0 <= j < pool.len() && #[trigger] pool[j] == i by {
        assert(keep(source[i]));
        assert(pool.contains(source[i]));
        let j = choose|j: int| 0 <= j < pool.len() && pool[j] == source[i];
        assert(pool[j] == i);
    }
}

/// When the store holds every backend unhealthy, failover returns an enabled
/// backend of least priority, the first such in the list.
pub proof fn lemma_failover_all_unhealthy(
    mapping: ModelMapping,
    metrics: MetricsCollector,
    cursor: usize,
    r: Result<Backend, SelectionError>,
)
    requires
        selection(mapping, metrics, cursor, r),
        mapping.strategy == LoadBalanceStrategy::Failover,
        mapping.backends@.len() <= usize::MAX,
        enabled_pool(mapping.backends@).len() > 0,
        forall|i: int|
            0 <= i < mapping.backends@.len() ==> !metrics.metrics(
                key_of(#[trigger] mapping.backends@[i]),
            ).healthy,
    ensures
        r matches Ok(chosen) && exists|i: int|
            least_enabled(mapping.backends@, i) && chosen@ == (#[trigger] mapping.backends@[i])@,
{
    let backends = mapping.backends@;
    let pool = enabled_pool(backends);
    lemma_enabled_pool(backends);
    let healthy = healthy_pool(backends, metrics, pool);
    if healthy.len() > 0 {
        lemma_kept(pool, is_healthy(backends, metrics));
        let h = healthy[0];
        assert(is_healthy(backends, metrics)(h));
        assert(pool.contains(h));
        let at = choose|at: int| 0 <= at < pool.len() && pool[at] == h;
        assert(pool[at] < backends.len());
        assert(!metrics.metrics(key_of(backends[h as int])).healthy);
        assert(false);
    }
    let values = Seq::new(pool.len(), |j: int| backends[pool[j] as int].priority as int);
    lemma_first_least(values);
    let best = first_least(values);
    let i = pool[best] as int;
    assert forall|k: int| 0 <= k < backends.len() && (#[trigger] backends[k]).enabled implies backends[i].priority
        <= backends[k].priority && (k < i ==> backends[i].priority < backends[k].priority) by {
        let j = choose|j: int| 0 <= j < pool.len() && #[trigger] pool[j] == k;
        assert(values[best] <= values[j]);
        if k < i {
            if j > best {
                assert(pool[best] < pool[j]);
            }
            assert(j < best);
            assert(values[best] < values[j]);
        }
    }
    assert(least_enabled(backends, i));
}

/// With every backend held unhealthy, a selection is still made under every
/// strategy, as long as a backend is enabled and, for the weighted
/// strategies, an enabled backend has a positive weight (for the smart
/// strategy: a positive effective weight).
pub proof fn lemma_degraded_mode(
    mapping: ModelMapping,
    metrics: MetricsCollector,
    cursor: usize,
    r: Result<Backend, SelectionError>,
)
    requires
        selection(mapping, metrics, cursor, r),
        mapping.backends@.len() <= usize::MAX,
        forall|i: int|
            0 <= i < mapping.backends@.len() ==> !metrics.metrics(
                key_of(#[trigger] mapping.backends@[i]),
            ).healthy,
        exists|i: int|
            0 <= i < mapping.backends@.len() && (#[trigger] mapping.backends@[i]).enabled && match mapping.strategy {
                LoadBalanceStrategy::WeightedRandom | LoadBalanceStrategy::WeightedFailover =>
                    mapping.backends@[i].weight > 0,
                LoadBalanceStrategy::SmartWeightedFailover => effective_weight(
                    metrics.metrics(key_of(mapping.backends@[i])),
                    mapping.backends@[i].weight,
                ) > 0,
                _ => true,
            },
    ensures
        r is Ok,
{
    let backends = mapping.backends@;
    let pool = enabled_pool(backends);
    lemma_enabled_pool(backends);
    let i = choose|i: int|
        0 <= i < backends.len() && (#[trigger] backends[i]).enabled && match mapping.strategy {
            LoadBalanceStrategy::WeightedRandom | LoadBalanceStrategy::WeightedFailover => backends[i].weight
                > 0,
            LoadBalanceStrategy::SmartWeightedFailover => effective_weight(
                metrics.metrics(key_of(backends[i])),
                backends[i].weight,
            ) > 0,
            _ => true,
        };
    let j = choose|j: int| 0 <= j < pool.len() && #[trigger] pool[j] == i;
    let healthy = healthy_pool(backends, metrics, pool);
    if healthy.len() > 0 {
        lemma_kept(pool, is_healthy(backends, metrics));
        let h = healthy[0];
        assert(is_healthy(backends, metrics)(h));
        assert(pool.contains(h));
        let at = choose|at: int| 0 <= at < pool.len() && pool[at] == h;
        assert(pool[at] < backends.len());
        assert(!metrics.metrics(key_of(backends[h as int])).healthy);
        assert(false);
    }
    if mapping.strategy == LoadBalanceStrategy::SmartWeightedFailover {
        lemma_kept(pool, has_weight(backends, metrics));
        assert(has_weight(backends, metrics)(pool[j]));
        assert(weighted_pool(backends, metrics, pool).contains(pool[j]));
    }
    assert(backends[pool[j] as int] == backends[i]);
    lemma_selection_succeeds(mapping, metrics, cursor, r);
}

/// Every member of a sub-pool made by `kept` is an enabled backend, if every member of the pool is.
proof fn lemma_sub_pool(backends: Seq<Backend>, pool: Seq<usize>, keep: spec_fn(usize) -> bool)
    requires
        forall|j: int| 0 <= j < pool.len() ==> (#[trigger] pool[j]) < backends.len() && backends[pool[j] as int].enabled,
    ensures
        forall|j: int|
            0 <= j < kept(pool, keep).len() ==> (#[trigger] kept(pool, keep)[j]) < backends.len()
                && backends[kept(pool, keep)[j] as int].enabled,
{
    lemma_kept(pool, keep);
    let sub = kept(pool, keep);
    assert forall|j: int| 0 <= j < sub.len() implies (#[trigger] sub[j]) < backends.len() && backends[sub[j] as int].enabled by {
        assert(pool.contains(sub[j]));
        let at = choose|at: int| 0 <= at < pool.len() && pool[at] == sub[j];
        assert(pool[at] < backends.len());
    }
}

/// Whether the backend at `i` is enabled and is, but for its weight, the one chosen.
pub open spec fn chosen_at(backends: Seq<Backend>, chosen: Backend, i: int) -> bool {
    &&& 0 <= i < backends.len()
    &&& backends[i].enabled
    &&& chosen@ == with_weight(backends[i]@, chosen.weight)
}

/// A backend selected is an enabled backend of the mapping; only its
/// weight may differ from the configured one.
pub proof fn lemma_selected_is_enabled(
    mapping: ModelMapping,
    metrics: MetricsCollector,
    cursor: usize,
    chosen: Backend,
)
    requires
        selection(mapping, metrics, cursor, Ok(chosen)),
        mapping.backends@.len() <= usize::MAX,
    ensures
        exists|i: int| #[trigger] chosen_at(mapping.backends@, chosen, i),
{
    let backends = mapping.backends@;
    let pool = enabled_pool(backends);
    lemma_enabled_pool(backends);
    lemma_sub_pool(backends, pool, is_healthy(backends, metrics));
    lemma_sub_pool(backends, pool, has_weight(backends, metrics));
    let preferred = preferred_pool(backends, metrics, pool);
    match mapping.strategy {
        LoadBalanceStrategy::WeightedRandom => {
            let weights = pool_weights(backends, pool);
            let j = choose|j: int|
                0 <= j < pool.len() && #[trigger] weights[j] > 0 && chosen@ == with_weight(
                    backends[pool[j] as int]@,
                    weights[j] as u32,
                );
            assert(chosen_at(backends, chosen, pool[j] as int));
        },
        LoadBalanceStrategy::RoundRobin => {
            let j = cursor as int % pool.len() as int;
            assert(0 <= j < pool.len());
            assert(chosen_at(backends, chosen, pool[j] as int));
        },
        LoadBalanceStrategy::LeastLatency => {
            let values = Seq::new(pool.len(), |j: int| ranked_latency(metrics, backends[pool[j] as int]));
            lemma_first_least(values);
            assert(chosen_at(backends, chosen, pool[first_least(values)] as int));
        },
        LoadBalanceStrategy::Failover => {
            let values = Seq::new(preferred.len(), |j: int| backends[preferred[j] as int].priority as int);
            lemma_first_least(values);
            assert(chosen_at(backends, chosen, preferred[first_least(values)] as int));
        },
        LoadBalanceStrategy::Random => {
            let j = choose|j: int| 0 <= j < pool.len() && chosen@ == backends[#[trigger] pool[j] as int]@;
            assert(chosen_at(backends, chosen, pool[j] as int));
        },
        LoadBalanceStrategy::WeightedFailover => {
            let weights = pool_weights(backends, preferred);
            let j = choose|j: int|
                0 <= j < preferred.len() && #[trigger] weights[j] > 0 && chosen@ == with_weight(
                    backends[preferred[j] as int]@,
                    weights[j] as u32,
                );
            assert(chosen_at(backends, chosen, preferred[j] as int));
        },
        LoadBalanceStrategy::SmartWeightedFailover => {
            let positive = weighted_pool(backends, metrics, pool);
            let weights = pool_effective_weights(backends, metrics, positive);
            let j = choose|j: int|
                0 <= j < positive.len() && #[trigger] weights[j] > 0 && chosen@ == with_weight(
                    backends[positive[j] as int]@,
                    weights[j] as u32,
                );
            assert(chosen_at(backends, chosen, positive[j] as int));
        },
    }
}

/// `selection` for a backend returned.
pub open spec fn selected(mapping: ModelMapping, metrics: MetricsCollector, cursor: usize, chosen: Backend) -> bool {
    selection(mapping, metrics, cursor, Ok(chosen))
}

/// `selection` for an error returned.
pub open spec fn refused(mapping: ModelMapping, metrics: MetricsCollector, cursor: usize, error: SelectionError) -> bool {
    selection(mapping, metrics, cursor, Err(error))
}

/// Turns the outcome of a weighted draw over a pool into the selection:
/// the backend at the drawn position, carrying the weight it was drawn
/// with, or `ZeroWeight` where no draw could be made.
pub fn weighted_outcome(
    model: &str,
    backends: &Vec<Backend>,
    pool: &Vec<usize>,
    weights: &Vec<u64>,
    draw: Result<usize, WeightedFault>,
) -> (r: Result<Backend, SelectionError>)
    requires
        pool@.len() == weights@.len(),
        forall|j: int| 0 <= j < pool@.len() ==> pool@[j] < backends@.len() && weights@[j] <= u32::MAX,
        draw matches Ok(j) ==> j < pool@.len(),
    ensures
        match draw {
            Ok(j) => r matches Ok(chosen) && chosen@ == with_weight(
                backends@[pool@[j as int] as int]@,
                weights@[j as int] as u32,
            ),
            Err(_) => r matches Err(SelectionError::ZeroWeight(name)) && name@ == model@,
        },
{
    match draw {
        Ok(j) => {
            let mut chosen = backends[pool[j]].clone();
            chosen.weight = weights[j] as u32;
            Ok(chosen)
        },
        Err(_) => Err(SelectionError::ZeroWeight(String::from_str(model))),
    }
}


/// Selects one backend of a model mapping per request.
pub struct BackendSelector {
    mapping: ModelMapping,
    round_robin_counter: usize,
}

impl BackendSelector {
    /// The mapping that the selector serves.
    pub closed spec fn mapping(&self) -> ModelMapping {
        self.mapping
    }

    /// The round-robin cursor: the number of round-robin selections made, modulo `usize`.
    pub closed spec fn cursor(&self) -> usize {
        self.round_robin_counter
    }

    /// The backends can be counted in 32 bits, so that their weights add up in 64.
    pub open spec fn wf(&self) -> bool {
        self.mapping().backends@.len() <= u32::MAX
    }

    /// A selector for a mapping, with its cursor at zero.
    pub fn new(mapping: ModelMapping) -> (r: BackendSelector)
        requires
            mapping.backends@.len() <= u32::MAX,
        ensures
            r.wf(),
            r.mapping() == mapping,
            r.cursor() == 0,
    {
        BackendSelector { mapping, round_robin_counter: 0 }
    }

    /// The mapping that the selector serves.
    pub fn get_mapping(&self) -> (r: &ModelMapping)
        ensures
            *r == self.mapping(),
    {
        &self.mapping
    }

    /// The logical model name.
    pub fn get_model_name(&self) -> (r: &str)
        ensures
            r@ == self.mapping().name@,
    {
        self.mapping.name.as_str()
    }

    fn enabled_indices(&self) -> (pool: Vec<usize>)
        ensures
            pool@ == enabled_pool(self.mapping().backends@),
            forall|j: int| 0 <= j < pool@.len() ==> pool@[j] < self.mapping().backends@.len(),
    {
        let ghost backends = self.mapping.backends@;
        let ghost source = indices(backends.len());
        let mut pool: Vec<usize> = Vec::new();
        let mut i: usize = 0;
        while i < self.mapping.backends.len()
            invariant
                backends == self.mapping.backends@,
                source == indices(backends.len()),
                i <= backends.len(),
                pool@ == kept(source.take(i as int), is_enabled(backends)),
                forall|j: int| 0 <= j < pool@.len() ==> pool@[j] < i,
            decreases backends.len() - i,
        {
            proof {
                lemma_kept_step(source, is_enabled(backends), i as int);
            }
            if self.mapping.backends[i].enabled {
                pool.push(i);
            }
            i += 1;
        }
        assert(source.take(i as int) =~= source);
        pool
    }

    fn healthy_of(&self, metrics: &MetricsCollector, pool: &Vec<usize>) -> (healthy: Vec<usize>)
        requires
            metrics.wf(),
            forall|j: int| 0 <= j < pool@.len() ==> pool@[j] < self.mapping().backends@.len(),
        ensures
            healthy@ == healthy_pool(self.mapping().backends@, *metrics, pool@),
            forall|j: int| 0 <= j < healthy@.len() ==> healthy@[j] < self.mapping().backends@.len(),
            healthy@.len() <= pool@.len(),
    {
        let ghost backends = self.mapping.backends@;
        let mut healthy: Vec<usize> = Vec::new();
        let mut j: usize = 0;
        while j < pool.len()
            invariant
                metrics.wf(),
                backends == self.mapping.backends@,
                j <= pool@.len(),
                forall|k: int| 0 <= k < pool@.len() ==> pool@[k] < backends.len(),
                healthy@ == kept(pool@.take(j as int), is_healthy(backends, *metrics)),
                forall|k: int| 0 <= k < healthy@.len() ==> healthy@[k] < backends.len(),
                healthy@.len() <= j,
            decreases pool@.len() - j,
        {
            proof {
                lemma_kept_step(pool@, is_healthy(backends, *metrics), j as int);
            }
            let backend = &self.mapping.backends[pool[j]];
            if metrics.is_healthy(backend.provider.as_str(), backend.model.as_str()) {
                healthy.push(pool[j]);
            }
            j += 1;
        }
        assert(pool@.take(j as int) =~= pool@);
        healthy
    }

    fn weights_of(&self, pool: &Vec<usize>) -> (weights: Vec<u64>)
        requires
            forall|j: int| 0 <= j < pool@.len() ==> pool@[j] < self.mapping().backends@.len(),
        ensures
            weights@ == pool_weights(self.mapping().backends@, pool@),
    {
        let ghost backends = self.mapping.backends@;
        let mut weights: Vec<u64> = Vec::new();
        let mut j: usize = 0;
        while j < pool.len()
            invariant
                backends == self.mapping.backends@,
                j <= pool@.len(),
                forall|k: int| 0 <= k < pool@.len() ==> pool@[k] < backends.len(),
                weights@ == pool_weights(backends, pool@).take(j as int),
            decreases pool@.len() - j,
        {
            weights.push(self.mapping.backends[pool[j]].weight as u64);
            assert(weights@ =~= pool_weights(backends, pool@).take(j + 1));
            j += 1;
        }
        assert(pool_weights(backends, pool@).take(j as int) =~= pool_weights(backends, pool@));
        weights
    }

    fn select_weighted_random(&self, pool: &Vec<usize>, weights: &Vec<u64>) -> (r: Result<
        Backend,
        SelectionError,
    >)
        requires
            self.wf(),
            pool@.len() == weights@.len(),
            pool@.len() <= self.mapping().backends@.len(),
            forall|j: int|
                0 <= j < pool@.len() ==> pool@[j] < self.mapping().backends@.len() && weights@[j]
                    <= u32::MAX,
        ensures
            weighted_pick(self.mapping().backends@, self.mapping().name@, pool@, weights@, r),
    {
        proof {
            lemma_total(weights@, u32::MAX as int);
            assert(weights@.len() * (u32::MAX as int) <= u64::MAX) by (nonlinear_arith)
                requires
                    weights@.len() <= u32::MAX,
            ;
        }
        let draw = sample_weighted(weights);
        weighted_outcome(self.mapping.name.as_str(), &self.mapping.backends, pool, weights, draw)
    }

    fn select_round_robin(&mut self, pool: &Vec<usize>) -> (r: Result<Backend, SelectionError>)
        requires
            pool@.len() > 0,
            forall|j: int| 0 <= j < pool@.len() ==> pool@[j] < old(self).mapping().backends@.len(),
        ensures
            final(self).mapping() == old(self).mapping(),
            final(self).cursor() == next_cursor(old(self).cursor()),
            r matches Ok(chosen) && chosen@ == old(self).mapping().backends@[pool@[old(self).cursor() as int
                % pool@.len() as int] as int]@,
    {
        let index = self.round_robin_counter % pool.len();
        self.round_robin_counter = if self.round_robin_counter == usize::MAX {
            0
        } else {
            self.round_robin_counter + 1
        };
        Ok(self.mapping.backends[pool[index]].clone())
    }

    fn latency_of(&self, metrics: &MetricsCollector, index: usize) -> (latency: u64)
        requires
            metrics.wf(),
            index < self.mapping().backends@.len(),
        ensures
            latency == ranked_latency(*metrics, self.mapping().backends@[index as int]),
    {
        let backend = &self.mapping.backends[index];
        match metrics.get_latency(backend.provider.as_str(), backend.model.as_str()) {
            Some(latency) => latency,
            None => UNKNOWN_LATENCY_MS,
        }
    }

    fn select_least_latency(&self, metrics: &MetricsCollector, pool: &Vec<usize>) -> (r: Result<
        Backend,
        SelectionError,
    >)
        requires
            metrics.wf(),
            pool@.len() > 0,
            forall|j: int| 0 <= j < pool@.len() ==> pool@[j] < self.mapping().backends@.len(),
        ensures
            r matches Ok(chosen) && chosen@ == self.mapping().backends@[pool@[first_least(
                Seq::new(
                    pool@.len(),
                    |j: int| ranked_latency(*metrics, self.mapping().backends@[pool@[j] as int]),
                ),
            )] as int]@,
    {
        let ghost backends = self.mapping.backends@;
        let ghost values = Seq::new(
            pool@.len(),
            |j: int| ranked_latency(*metrics, backends[pool@[j] as int]),
        );
        let mut best: usize = 0;
        let mut best_latency = self.latency_of(metrics, pool[0]);
        let mut j: usize = 1;
        assert(values.take(1).len() == 1);
        while j < pool.len()
            invariant
                metrics.wf(),
                backends == self.mapping.backends@,
                values == Seq::new(
                    pool@.len(),
                    |j: int| ranked_latency(*metrics, backends[pool@[j] as int]),
                ),
                forall|k: int| 0 <= k < pool@.len() ==> pool@[k] < backends.len(),
                1 <= j <= pool@.len(),
                best < j,
                best as int == first_least(values.take(j as int)),
                best_latency as int == values[best as int],
            decreases pool@.len() - j,
        {
            let latency = self.latency_of(metrics, pool[j]);
            proof {
                assert(values.take(j + 1).drop_last() =~= values.take(j as int));
                assert(values.take(j + 1).last() == values[j as int]);
                assert(values.take(j + 1)[best as int] == values[best as int]);
            }
            if latency < best_latency {
                best = j;
                best_latency = latency;
            }
            j += 1;
        }
        assert(values.take(j as int) =~= values);
        Ok(self.mapping.backends[pool[best]].clone())
    }

    fn select_failover(&self, metrics: &MetricsCollector, pool: &Vec<usize>) -> (r: Result<
        Backend,
        SelectionError,
    >)
        requires
            metrics.wf(),
            pool@.len() > 0,
            forall|j: int| 0 <= j < pool@.len() ==> pool@[j] < self.mapping().backends@.len(),
        ensures
            r matches Ok(chosen) && chosen@ == self.mapping().backends@[preferred_pool(
                self.mapping().backends@,
                *metrics,
                pool@,
            )[first_least(
                Seq::new(
                    preferred_pool(self.mapping().backends@, *metrics, pool@).len(),
                    |j: int|
                        self.mapping().backends@[preferred_pool(
                            self.mapping().backends@,
                            *metrics,
                            pool@,
                        )[j] as int].priority as int,
                ),
            )] as int]@,
    {
        let healthy = self.healthy_of(metrics, pool);
        let preferred = if healthy.len() > 0 {
            &healthy
        } else {
            pool
        };
        let ghost backends = self.mapping.backends@;
        let ghost values = Seq::new(
            preferred@.len(),
            |j: int| backends[preferred@[j] as int].priority as int,
        );
        let mut best: usize = 0;
        let mut j: usize = 1;
        assert(values.take(1).len() == 1);
        while j < preferred.len()
            invariant
                backends == self.mapping.backends@,
                values == Seq::new(
                    preferred@.len(),
                    |j: int| backends[preferred@[j] as int].priority as int,
                ),
                forall|k: int| 0 <= k < preferred@.len() ==> preferred@[k] < backends.len(),
                1 <= j <= preferred@.len(),
                best < j,
                best as int == first_least(values.take(j as int)),
            decreases preferred@.len() - j,
        {
            proof {
                assert(values.take(j + 1).drop_last() =~= values.take(j as int));
                assert(values.take(j + 1).last() == values[j as int]);
                assert(values.take(j + 1)[best as int] == values[best as int]);
            }
            if self.mapping.backends[preferred[j]].priority < self.mapping.backends[preferred[best]].priority {
                best = j;
            }
            j += 1;
        }
        assert(values.take(j as int) =~= values);
        Ok(self.mapping.backends[preferred[best]].clone())
    }

    fn select_random(&self, pool: &Vec<usize>) -> (r: Result<Backend, SelectionError>)
        requires
            pool@.len() > 0,
            forall|j: int| 0 <= j < pool@.len() ==> pool@[j] < self.mapping().backends@.len(),
        ensures
            r matches Ok(chosen) && exists|j: int|
                0 <= j < pool@.len() && chosen@ == self.mapping().backends@[#[trigger] pool@[j] as int]@,
    {
        let index = random_index(pool.len());
        Ok(self.mapping.backends[pool[index]].clone())
    }

    fn select_weighted_failover(&self, metrics: &MetricsCollector, pool: &Vec<usize>) -> (r: Result<
        Backend,
        SelectionError,
    >)
        requires
            self.wf(),
            metrics.wf(),
            pool@.len() <= self.mapping().backends@.len(),
            forall|j: int| 0 <= j < pool@.len() ==> pool@[j] < self.mapping().backends@.len(),
        ensures
            weighted_pick(
                self.mapping().backends@,
                self.mapping().name@,
                preferred_pool(self.mapping().backends@, *metrics, pool@),
                pool_weights(
                    self.mapping().backends@,
                    preferred_pool(self.mapping().backends@, *metrics, pool@),
                ),
                r,
            ),
    {
        let healthy = self.healthy_of(metrics, pool);
        if healthy.len() > 0 {
            let weights = self.weights_of(&healthy);
            self.select_weighted_random(&healthy, &weights)
        } else {
            let weights = self.weights_of(pool);
            self.select_weighted_random(pool, &weights)
        }
    }

    fn select_smart_weighted_failover(&self, metrics: &MetricsCollector, pool: &Vec<usize>) -> (r: Result<
        Backend,
        SelectionError,
    >)
        requires
            self.wf(),
            metrics.wf(),
            pool@.len() <= self.mapping().backends@.len(),
            forall|j: int| 0 <= j < pool@.len() ==> pool@[j] < self.mapping().backends@.len(),
        ensures
            ({
                let positive = weighted_pool(self.mapping().backends@, *metrics, pool@);
                if positive.len() == 0 {
                    r matches Err(SelectionError::NoPositiveWeight(name)) && name@
                        == self.mapping().name@
                } else {
                    weighted_pick(
                        self.mapping().backends@,
                        self.mapping().name@,
                        positive,
                        pool_effective_weights(self.mapping().backends@, *metrics, positive),
                        r,
                    )
                }
            }),
    {
        let ghost backends = self.mapping.backends@;
        let mut positive: Vec<usize> = Vec::new();
        let mut weights: Vec<u64> = Vec::new();
        let mut j: usize = 0;
        while j < pool.len()
            invariant
                metrics.wf(),
                backends == self.mapping.backends@,
                j <= pool@.len(),
                forall|k: int| 0 <= k < pool@.len() ==> pool@[k] < backends.len(),
                positive@ == kept(pool@.take(j as int), has_weight(backends, *metrics)),
                positive@.len() <= j,
                weights@.len() == positive@.len(),
                forall|k: int|
                    0 <= k < positive@.len() ==> (#[trigger] positive@[k]) < backends.len() && weights@[k]
                        <= u32::MAX && weights@[k] == effective_weight(
                        metrics.metrics(key_of(backends[positive@[k] as int])),
                        backends[positive@[k] as int].weight,
                    ),
            decreases pool@.len() - j,
        {
            proof {
                lemma_kept_step(pool@, has_weight(backends, *metrics), j as int);
            }
            let backend = &self.mapping.backends[pool[j]];
            let key = compose_backend_key(backend.provider.as_str(), backend.model.as_str());
            let weight = metrics.get_effective_weight(key.as_str(), backend.weight);
            let ghost positive_before = positive@;
            let ghost weights_before = weights@;
            if weight > 0 {
                positive.push(pool[j]);
                weights.push(weight as u64);
                assert forall|k: int| 0 <= k < positive@.len() implies (#[trigger] positive@[k])
                    < backends.len() && weights@[k] <= u32::MAX && weights@[k] == effective_weight(
                    metrics.metrics(key_of(backends[positive@[k] as int])),
                    backends[positive@[k] as int].weight,
                ) by {
                    if k < positive_before.len() {
                        assert(positive@[k] == positive_before[k]);
                        assert(weights@[k] == weights_before[k]);
                    }
                }
            }
            j += 1;
        }
        assert(pool@.take(j as int) =~= pool@);
        assert(weights@ =~= pool_effective_weights(backends, *metrics, positive@));
        if positive.len() == 0 {
            return Err(SelectionError::NoPositiveWeight(self.mapping.name.clone()));
        }
        self.select_weighted_random(&positive, &weights)
    }

    /// Whether the mapping has an enabled backend.
    pub fn has_enabled_backend(&self) -> (r: bool)
        ensures
            r == (enabled_pool(self.mapping().backends@).len() > 0),
    {
        self.enabled_indices().len() > 0
    }

    /// How many backends the mapping has, how many of them are enabled, and
    /// how many of the enabled ones the store holds healthy.
    pub fn health_counts(&self, metrics: &MetricsCollector) -> (counts: (usize, usize, usize))
        requires
            metrics.wf(),
        ensures
            counts.0 == self.mapping().backends@.len(),
            counts.1 == enabled_pool(self.mapping().backends@).len(),
            counts.2 == healthy_pool(
                self.mapping().backends@,
                *metrics,
                enabled_pool(self.mapping().backends@),
            ).len(),
    {
        let pool = self.enabled_indices();
        let healthy = self.healthy_of(metrics, &pool);
        (self.mapping.backends.len(), pool.len(), healthy.len())
    }

    /// Selects a backend for one request, following the mapping's strategy.
    ///
    /// Fails exactly when no backend is enabled, when a weighted strategy
    /// has only zero weights to draw from, or when the smart strategy finds
    /// no positive effective weight; the health of the backends alone never
    /// makes it fail. Only a round-robin selection moves the cursor.
    pub fn select(&mut self, metrics: &MetricsCollector) -> (r: Result<Backend, SelectionError>)
        requires
            old(self).wf(),
            metrics.wf(),
        ensures
            final(self).wf(),
            final(self).mapping() == old(self).mapping(),
            selection(old(self).mapping(), *metrics, old(self).cursor(), r),
            r is Ok <==> can_select(old(self).mapping(), *metrics),
            final(self).cursor() == if old(self).mapping().strategy == LoadBalanceStrategy::RoundRobin
                && enabled_pool(old(self).mapping().backends@).len() > 0 {
                next_cursor(old(self).cursor())
            } else {
                old(self).cursor()
            },
    {
        let pool = self.enabled_indices();
        proof {
            lemma_kept(indices(self.mapping.backends@.len()), is_enabled(self.mapping.backends@));
        }
        if pool.len() == 0 {
            return Err(SelectionError::NoEnabledBackends(self.mapping.name.clone()));
        }
        let ghost before = *self;
        let r = match self.mapping.strategy {
            LoadBalanceStrategy::WeightedRandom => {
                let weights = self.weights_of(&pool);
                self.select_weighted_random(&pool, &weights)
            },
            LoadBalanceStrategy::RoundRobin => self.select_round_robin(&pool),
            LoadBalanceStrategy::LeastLatency => self.select_least_latency(metrics, &pool),
            LoadBalanceStrategy::Failover => self.select_failover(metrics, &pool),
            LoadBalanceStrategy::Random => self.select_random(&pool),
            LoadBalanceStrategy::WeightedFailover => self.select_weighted_failover(metrics, &pool),
            LoadBalanceStrategy::SmartWeightedFailover => self.select_smart_weighted_failover(
                metrics,
                &pool,
            ),
        };
        proof {
            lemma_selection_succeeds(before.mapping(), *metrics, before.cursor(), r);
        }
        r
    }
}

} // verus!
