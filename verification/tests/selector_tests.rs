use loadbalance::config::{Backend, BillingMode, LoadBalanceStrategy, ModelMapping};
use loadbalance::metrics::MetricsCollector;
use loadbalance::sampling::WeightedFault;
use loadbalance::selector::{weighted_outcome, BackendSelector, SelectionError};
use std::collections::HashMap;

fn backend(provider: &str, model: &str, weight: u32, priority: u32) -> Backend {
    Backend {
        provider: provider.to_string(),
        model: model.to_string(),
        weight,
        priority,
        enabled: true,
        tags: vec![],
        billing_mode: BillingMode::PerToken,
    }
}

fn create_test_backends() -> Vec<Backend> {
    vec![
        backend("provider1", "model1", 600, 1),
        backend("provider2", "model2", 300, 2),
        backend("provider3", "model3", 100, 3),
    ]
}

fn mapping_with(strategy: LoadBalanceStrategy, backends: Vec<Backend>) -> ModelMapping {
    ModelMapping { name: "test-model".to_string(), backends, strategy, enabled: true }
}

fn create_test_mapping() -> ModelMapping {
    mapping_with(LoadBalanceStrategy::WeightedFailover, create_test_backends())
}

fn key(b: &Backend) -> String {
    format!("{}:{}", b.provider, b.model)
}

fn tally(selector: &mut BackendSelector, metrics: &MetricsCollector, draws: usize) -> HashMap<String, usize> {
    let mut selections = HashMap::new();
    for _ in 0..draws {
        let chosen = selector.select(metrics).unwrap();
        *selections.entry(key(&chosen)).or_insert(0) += 1;
    }
    selections
}

#[test]
fn test_weighted_failover_all_healthy() {
    let mut metrics = MetricsCollector::new();
    let mut selector = BackendSelector::new(create_test_mapping());

    metrics.record_success("provider1:model1");
    metrics.record_success("provider2:model2");
    metrics.record_success("provider3:model3");

    let selections = tally(&mut selector, &metrics, 1000);

    assert!(selections.contains_key("provider1:model1"));
    assert!(selections.contains_key("provider2:model2"));
    assert!(selections.contains_key("provider3:model3"));

    let provider1_count = selections.get("provider1:model1").unwrap_or(&0);
    let provider2_count = selections.get("provider2:model2").unwrap_or(&0);
    let provider3_count = selections.get("provider3:model3").unwrap_or(&0);

    assert!(provider1_count > provider2_count);
    assert!(provider2_count > provider3_count);
}

#[test]
fn test_weighted_failover_partial_failure() {
    let mut metrics = MetricsCollector::new();
    let mut selector = BackendSelector::new(create_test_mapping());

    metrics.record_failure("provider1:model1", 0);
    metrics.record_success("provider2:model2");
    metrics.record_success("provider3:model3");

    let selections = tally(&mut selector, &metrics, 100);

    assert!(!selections.contains_key("provider1:model1"));
    assert!(selections.contains_key("provider2:model2"));
    assert!(selections.contains_key("provider3:model3"));
}

#[test]
fn test_weighted_failover_all_failed() {
    let mut metrics = MetricsCollector::new();
    let mut selector = BackendSelector::new(mapping_with(LoadBalanceStrategy::Failover, create_test_backends()));

    metrics.record_failure("provider1:model1", 0);
    metrics.record_failure("provider2:model2", 0);
    metrics.record_failure("provider3:model3", 0);

    let backend = selector.select(&metrics).unwrap();
    assert_eq!(backend.provider, "provider1");
    assert_eq!(backend.model, "model1");
    assert_eq!(backend.priority, 1);
}

#[test]
fn weighted_failover_all_failed_still_selects() {
    let mut metrics = MetricsCollector::new();
    let mut selector = BackendSelector::new(create_test_mapping());
    metrics.record_failure("provider1:model1", 0);
    metrics.record_failure("provider2:model2", 0);
    metrics.record_failure("provider3:model3", 0);
    let selections = tally(&mut selector, &metrics, 300);
    assert_eq!(selections.values().sum::<usize>(), 300);
    assert!(selections.contains_key("provider1:model1"));
}

#[test]
fn partial_failure_ratio_follows_weights() {
    let mut metrics = MetricsCollector::new();
    let mut selector = BackendSelector::new(create_test_mapping());
    metrics.record_failure("provider1:model1", 0);
    metrics.record_success("provider2:model2");
    metrics.record_success("provider3:model3");
    let selections = tally(&mut selector, &metrics, 10_000);
    assert_eq!(selections.get("provider1:model1"), None);
    let b = *selections.get("provider2:model2").unwrap() as f64;
    let c = *selections.get("provider3:model3").unwrap() as f64;
    let share = b / (b + c);
    assert!((share - 0.75).abs() < 0.05);
}

#[test]
fn weighted_random_converges_to_weights() {
    let metrics = MetricsCollector::new();
    let mut selector =
        BackendSelector::new(mapping_with(LoadBalanceStrategy::WeightedRandom, create_test_backends()));
    let draws = 20_000;
    let selections = tally(&mut selector, &metrics, draws);
    let expected = [("provider1:model1", 0.6), ("provider2:model2", 0.3), ("provider3:model3", 0.1)];
    for (name, share) in expected {
        let seen = *selections.get(name).unwrap_or(&0) as f64 / draws as f64;
        assert!((seen - share).abs() < 0.05);
    }
}

#[test]
fn weighted_random_never_picks_zero_weight() {
    let metrics = MetricsCollector::new();
    let backends = vec![backend("a", "m", 0, 1), backend("b", "m", 5, 2), backend("c", "m", 0, 3)];
    let mut selector = BackendSelector::new(mapping_with(LoadBalanceStrategy::WeightedRandom, backends));
    for _ in 0..200 {
        let chosen = selector.select(&metrics).unwrap();
        assert_eq!(chosen.provider, "b");
        assert_eq!(chosen.weight, 5);
    }
}

#[test]
fn weighted_random_with_zero_total_fails() {
    let metrics = MetricsCollector::new();
    let backends = vec![backend("a", "m", 0, 1), backend("b", "m", 0, 2)];
    let mut selector = BackendSelector::new(mapping_with(LoadBalanceStrategy::WeightedRandom, backends));
    match selector.select(&metrics) {
        Err(SelectionError::ZeroWeight(model)) => assert_eq!(model, "test-model"),
        other => panic!("unexpected: {:?}", other),
    }
}

#[test]
fn no_enabled_backends_fails() {
    let metrics = MetricsCollector::new();
    let mut backends = create_test_backends();
    for b in backends.iter_mut() {
        b.enabled = false;
    }
    let strategies = [
        LoadBalanceStrategy::WeightedRandom,
        LoadBalanceStrategy::RoundRobin,
        LoadBalanceStrategy::LeastLatency,
        LoadBalanceStrategy::Failover,
        LoadBalanceStrategy::Random,
        LoadBalanceStrategy::WeightedFailover,
        LoadBalanceStrategy::SmartWeightedFailover,
    ];
    for strategy in strategies {
        let mut selector = BackendSelector::new(mapping_with(strategy, backends.clone()));
        match selector.select(&metrics) {
            Err(SelectionError::NoEnabledBackends(model)) => assert_eq!(model, "test-model"),
            other => panic!("unexpected: {:?}", other),
        }
    }
    let mut empty = BackendSelector::new(mapping_with(LoadBalanceStrategy::Random, vec![]));
    assert!(matches!(empty.select(&metrics), Err(SelectionError::NoEnabledBackends(_))));
}

#[test]
fn round_robin_visits_enabled_in_turn() {
    let metrics = MetricsCollector::new();
    let mut backends = create_test_backends();
    backends.push(backend("provider4", "model4", 1, 4));
    backends[1].enabled = false;
    let mut selector = BackendSelector::new(mapping_with(LoadBalanceStrategy::RoundRobin, backends));
    let order: Vec<String> = (0..7).map(|_| selector.select(&metrics).unwrap().provider).collect();
    assert_eq!(
        order,
        vec!["provider1", "provider3", "provider4", "provider1", "provider3", "provider4", "provider1"]
    );
}

#[test]
fn round_robin_is_fair() {
    let metrics = MetricsCollector::new();
    let mut selector =
        BackendSelector::new(mapping_with(LoadBalanceStrategy::RoundRobin, create_test_backends()));
    let draws = 100;
    let selections = tally(&mut selector, &metrics, draws);
    let mut counts: Vec<usize> = selections.values().copied().collect();
    counts.sort();
    assert_eq!(counts, vec![33, 33, 34]);
}

#[test]
fn round_robin_cursor_is_per_selector() {
    let metrics = MetricsCollector::new();
    let mut one = BackendSelector::new(mapping_with(LoadBalanceStrategy::RoundRobin, create_test_backends()));
    let mut two = BackendSelector::new(mapping_with(LoadBalanceStrategy::RoundRobin, create_test_backends()));
    assert_eq!(one.select(&metrics).unwrap().provider, "provider1");
    assert_eq!(one.select(&metrics).unwrap().provider, "provider2");
    assert_eq!(two.select(&metrics).unwrap().provider, "provider1");
}

#[test]
fn least_latency_prefers_smallest_and_first() {
    let mut metrics = MetricsCollector::new();
    let mut selector =
        BackendSelector::new(mapping_with(LoadBalanceStrategy::LeastLatency, create_test_backends()));
    assert_eq!(selector.select(&metrics).unwrap().provider, "provider1");
    metrics.record_latency("provider2:model2", 998_999);
    assert_eq!(selector.select(&metrics).unwrap().provider, "provider2");
    metrics.record_latency("provider3:model3", 40);
    metrics.record_latency("provider2:model2", 40);
    assert_eq!(selector.select(&metrics).unwrap().provider, "provider2");
    metrics.record_latency("provider1:model1", 999_000);
    metrics.record_latency("provider2:model2", 1_000_000);
    metrics.record_latency("provider3:model3", 1_000_000);
    assert_eq!(selector.select(&metrics).unwrap().provider, "provider1");
}

#[test]
fn failover_prefers_healthy_by_priority() {
    let mut metrics = MetricsCollector::new();
    let backends = vec![
        backend("low", "m", 1, 9),
        backend("first", "m", 1, 2),
        backend("second", "m", 1, 2),
        backend("best", "m", 1, 1),
    ];
    let mut selector = BackendSelector::new(mapping_with(LoadBalanceStrategy::Failover, backends));
    assert_eq!(selector.select(&metrics).unwrap().provider, "best");
    metrics.record_failure("best:m", 0);
    assert_eq!(selector.select(&metrics).unwrap().provider, "first");
    metrics.record_failure("first:m", 0);
    assert_eq!(selector.select(&metrics).unwrap().provider, "second");
    metrics.record_failure("second:m", 0);
    assert_eq!(selector.select(&metrics).unwrap().provider, "low");
    metrics.record_failure("low:m", 0);
    assert_eq!(selector.select(&metrics).unwrap().provider, "best");
}

#[test]
fn failover_skips_disabled() {
    let mut metrics = MetricsCollector::new();
    let mut backends = create_test_backends();
    backends[0].enabled = false;
    let mut selector = BackendSelector::new(mapping_with(LoadBalanceStrategy::Failover, backends));
    metrics.record_failure("provider2:model2", 0);
    metrics.record_failure("provider3:model3", 0);
    assert_eq!(selector.select(&metrics).unwrap().provider, "provider2");
}

#[test]
fn random_picks_only_enabled() {
    let metrics = MetricsCollector::new();
    let mut backends = create_test_backends();
    backends[0].enabled = false;
    let mut selector = BackendSelector::new(mapping_with(LoadBalanceStrategy::Random, backends));
    let selections = tally(&mut selector, &metrics, 400);
    assert!(!selections.contains_key("provider1:model1"));
    assert!(selections.contains_key("provider2:model2"));
    assert!(selections.contains_key("provider3:model3"));
}

#[test]
fn smart_failover_uses_effective_weights() {
    let mut metrics = MetricsCollector::new();
    let backends = vec![backend("a", "m", 1000, 1), backend("b", "m", 5, 2)];
    let mut selector = BackendSelector::new(mapping_with(LoadBalanceStrategy::SmartWeightedFailover, backends));
    metrics.record_failure("b:m", 0);
    for _ in 0..200 {
        let chosen = selector.select(&metrics).unwrap();
        assert_eq!(chosen.provider, "a");
        assert_eq!(chosen.weight, 1000);
    }
    metrics.record_failure("a:m", 0);
    let chosen = selector.select(&metrics).unwrap();
    assert_eq!(chosen.provider, "a");
    assert_eq!(chosen.weight, 100);
}

#[test]
fn smart_failover_without_positive_weight_fails() {
    let mut metrics = MetricsCollector::new();
    let backends = vec![backend("a", "m", 9, 1), backend("b", "m", 0, 2)];
    let mut selector = BackendSelector::new(mapping_with(LoadBalanceStrategy::SmartWeightedFailover, backends));
    metrics.record_failure("a:m", 0);
    match selector.select(&metrics) {
        Err(SelectionError::NoPositiveWeight(model)) => assert_eq!(model, "test-model"),
        other => panic!("unexpected: {:?}", other),
    }
}

#[test]
fn all_unhealthy_still_selects_under_every_strategy() {
    let mut metrics = MetricsCollector::new();
    metrics.record_failure("provider1:model1", 0);
    metrics.record_failure("provider2:model2", 0);
    metrics.record_failure("provider3:model3", 0);
    let strategies = [
        LoadBalanceStrategy::WeightedRandom,
        LoadBalanceStrategy::RoundRobin,
        LoadBalanceStrategy::LeastLatency,
        LoadBalanceStrategy::Failover,
        LoadBalanceStrategy::Random,
        LoadBalanceStrategy::WeightedFailover,
        LoadBalanceStrategy::SmartWeightedFailover,
    ];
    for strategy in strategies {
        let mut selector = BackendSelector::new(mapping_with(strategy, create_test_backends()));
        assert!(selector.select(&metrics).is_ok());
    }
}

#[test]
fn weighted_outcome_maps_each_draw() {
    let backends = create_test_backends();
    let pool = vec![2usize, 0usize];
    let weights = vec![100u64, 42u64];
    let picked = weighted_outcome("m", &backends, &pool, &weights, Ok(1)).unwrap();
    assert_eq!(picked.provider, "provider1");
    assert_eq!(picked.weight, 42);
    assert_eq!(picked.priority, 1);
    let other = weighted_outcome("m", &backends, &pool, &weights, Ok(0)).unwrap();
    assert_eq!(other.provider, "provider3");
    assert_eq!(other.weight, 100);
    let faults = [
        WeightedFault::NoItem,
        WeightedFault::InvalidWeight,
        WeightedFault::AllWeightsZero,
        WeightedFault::TooMany,
    ];
    for fault in faults {
        match weighted_outcome("m", &backends, &pool, &weights, Err(fault)) {
            Err(SelectionError::ZeroWeight(model)) => assert_eq!(model, "m"),
            other => panic!("unexpected: {:?}", other),
        }
    }
}

#[test]
fn selector_getters() {
    let metrics = MetricsCollector::new();
    let mut backends = create_test_backends();
    backends[2].enabled = false;
    let mut failing = MetricsCollector::new();
    failing.record_failure("provider1:model1", 0);
    let selector = BackendSelector::new(mapping_with(LoadBalanceStrategy::Failover, backends));
    assert_eq!(selector.get_model_name(), "test-model");
    assert_eq!(selector.get_mapping().backends.len(), 3);
    assert_eq!(selector.get_mapping().strategy, LoadBalanceStrategy::Failover);
    assert!(selector.has_enabled_backend());
    assert_eq!(selector.health_counts(&metrics), (3, 2, 2));
    assert_eq!(selector.health_counts(&failing), (3, 2, 1));
}

#[test]
fn backend_clone_keeps_every_field() {
    let mut original = backend("p", "m", 7, 3);
    original.tags = vec!["fast".to_string(), "eu".to_string()];
    original.billing_mode = BillingMode::PerRequest;
    let copy = original.clone();
    assert_eq!(copy.provider, "p");
    assert_eq!(copy.model, "m");
    assert_eq!(copy.weight, 7);
    assert_eq!(copy.priority, 3);
    assert!(copy.enabled);
    assert_eq!(copy.tags, vec!["fast".to_string(), "eu".to_string()]);
    assert_eq!(copy.billing_mode, BillingMode::PerRequest);
}

#[test]
fn selection_errors_in_words() {
    assert_eq!(SelectionError::NoEnabledBackends("m".to_string()).message(), "No enabled backends for model m");
    assert_eq!(SelectionError::ZeroWeight("m".to_string()).message(), "All weights are zero for model m");
    assert_eq!(
        SelectionError::NoPositiveWeight("m".to_string()).message(),
        "No backends with positive weight available for model m"
    );
}
