use loadbalance::metrics::{compose_backend_key, MetricsCollector, RecoveryStage};

const KEY: &str = "x:m";

fn stage_of(metrics: &MetricsCollector, key: &str) -> Option<RecoveryStage> {
    metrics.get_recovery_state(key).map(|s| s.recovery_stage)
}

#[test]
fn backend_key_joins_with_colon() {
    assert_eq!(compose_backend_key("provider1", "model1"), "provider1:model1");
    assert_eq!(compose_backend_key("", ""), ":");
}

#[test]
fn unknown_key_is_healthy() {
    let metrics = MetricsCollector::new();
    assert!(metrics.is_healthy("x", "m"));
    assert!(!metrics.is_in_unhealthy_list(KEY));
    assert_eq!(metrics.get_latency("x", "m"), None);
    assert_eq!(metrics.get_failure_count("x", "m"), 0);
    assert_eq!(metrics.get_effective_weight(KEY, 1000), 1000);
    assert!(metrics.get_unhealthy_backends().is_empty());
    assert!(!metrics.needs_recovery_check(KEY, 0, 10));
    let by_default = MetricsCollector::default();
    assert!(by_default.is_healthy("x", "m"));
}

#[test]
fn failure_enters_unhealthy_set() {
    let mut metrics = MetricsCollector::new();
    metrics.record_failure(KEY, 100);
    assert!(!metrics.is_healthy("x", "m"));
    assert!(metrics.is_in_unhealthy_list(KEY));
    assert_eq!(metrics.get_failure_count("x", "m"), 1);
    metrics.record_failure(KEY, 250);
    assert_eq!(metrics.get_failure_count("x", "m"), 2);
    let list = metrics.get_unhealthy_backends();
    assert_eq!(list.len(), 1);
    assert_eq!(list[0].backend_key, KEY);
    assert_eq!(list[0].first_failure_time, 100);
    assert_eq!(list[0].last_failure_time, 250);
    assert_eq!(list[0].failure_count, 2);
    assert_eq!(list[0].last_recovery_attempt, None);
    assert_eq!(list[0].recovery_attempts, 0);
}

#[test]
fn success_leaves_unhealthy_set() {
    let mut metrics = MetricsCollector::new();
    metrics.record_failure(KEY, 100);
    metrics.initialize_per_request_recovery(KEY, 1000, 100);
    metrics.record_success(KEY);
    assert!(metrics.is_healthy("x", "m"));
    assert!(!metrics.is_in_unhealthy_list(KEY));
    assert_eq!(metrics.get_failure_count("x", "m"), 0);
    assert!(metrics.get_recovery_state(KEY).is_none());
    assert_eq!(metrics.get_effective_weight(KEY, 1000), 1000);
}

#[test]
fn health_matches_unhealthy_set_membership() {
    let mut metrics = MetricsCollector::new();
    let keys = ["a:1", "b:2", "c:3"];
    metrics.record_failure("a:1", 1);
    metrics.record_success("b:2");
    metrics.record_failure("c:3", 2);
    metrics.record_success("c:3");
    metrics.record_latency("b:2", 7);
    for key in keys {
        let (provider, model) = key.split_once(':').unwrap();
        assert_eq!(!metrics.is_healthy(provider, model), metrics.is_in_unhealthy_list(key));
    }
    assert!(!metrics.is_healthy("a", "1"));
    assert!(metrics.is_healthy("b", "2"));
    assert!(metrics.is_healthy("c", "3"));
}

#[test]
fn latency_is_last_recorded() {
    let mut metrics = MetricsCollector::new();
    metrics.record_latency(KEY, 120);
    metrics.record_latency(KEY, 80);
    metrics.record_latency("y:m", 5);
    assert_eq!(metrics.get_latency("x", "m"), Some(80));
    assert_eq!(metrics.get_latency("y", "m"), Some(5));
    assert!(metrics.is_healthy("x", "m"));
}

#[test]
fn recovery_check_follows_interval() {
    let mut metrics = MetricsCollector::new();
    assert!(!metrics.needs_recovery_check(KEY, 60_000, 0));
    metrics.record_failure(KEY, 1_000);
    assert!(metrics.needs_recovery_check(KEY, 60_000, 1_000));
    metrics.record_recovery_attempt(KEY, 2_000);
    assert!(!metrics.needs_recovery_check(KEY, 60_000, 2_000));
    assert!(!metrics.needs_recovery_check(KEY, 60_000, 61_999));
    assert!(metrics.needs_recovery_check(KEY, 60_000, 62_000));
    assert!(!metrics.needs_recovery_check(KEY, 60_000, 1_000));
    let list = metrics.get_unhealthy_backends();
    assert_eq!(list[0].last_recovery_attempt, Some(2_000));
    assert_eq!(list[0].recovery_attempts, 1);
    assert_eq!(list[0].failure_count, 1);
}

#[test]
fn recovery_attempt_on_healthy_key_keeps_it_healthy() {
    let mut metrics = MetricsCollector::new();
    metrics.record_recovery_attempt(KEY, 5);
    assert!(metrics.is_healthy("x", "m"));
    assert!(!metrics.is_in_unhealthy_list(KEY));
    assert!(!metrics.needs_recovery_check(KEY, 0, 5));
}

#[test]
fn health_check_stamp_changes_nothing_else() {
    let mut metrics = MetricsCollector::new();
    metrics.record_failure(KEY, 1);
    metrics.update_health_check(KEY, 9);
    assert!(!metrics.is_healthy("x", "m"));
    assert_eq!(metrics.get_failure_count("x", "m"), 1);
}

#[test]
fn per_request_recovery_ladder() {
    let mut metrics = MetricsCollector::new();
    metrics.record_failure(KEY, 10);
    assert_eq!(metrics.get_effective_weight(KEY, 1000), 100);
    metrics.initialize_per_request_recovery(KEY, 1000, 10);
    assert_eq!(stage_of(&metrics, KEY), Some(RecoveryStage::Unhealthy));
    assert_eq!(metrics.get_effective_weight(KEY, 1000), 100);

    metrics.record_passive_success(KEY, 1000, 11);
    assert_eq!(stage_of(&metrics, KEY), Some(RecoveryStage::RecoveryStage1));
    assert_eq!(metrics.get_effective_weight(KEY, 1000), 300);

    metrics.record_passive_success(KEY, 1000, 12);
    assert_eq!(stage_of(&metrics, KEY), Some(RecoveryStage::RecoveryStage1));
    assert_eq!(metrics.get_effective_weight(KEY, 1000), 300);
    assert!(metrics.is_in_unhealthy_list(KEY));

    metrics.record_passive_success(KEY, 1000, 13);
    assert_eq!(stage_of(&metrics, KEY), Some(RecoveryStage::RecoveryStage2));
    assert_eq!(metrics.get_effective_weight(KEY, 1000), 500);

    metrics.record_passive_success(KEY, 1000, 14);
    let state = metrics.get_recovery_state(KEY).unwrap();
    assert_eq!(state.recovery_stage, RecoveryStage::RecoveryStage2);
    assert_eq!(state.success_count, 4);
    assert_eq!(state.original_weight, 1000);
    assert_eq!(state.current_weight, 500);
    assert_eq!(state.last_success_time, 14);
    assert_eq!(state.backend_key, KEY);
    assert!(!metrics.is_healthy("x", "m"));

    metrics.record_passive_success(KEY, 1000, 15);
    assert_eq!(metrics.get_effective_weight(KEY, 1000), 1000);
    assert!(!metrics.is_in_unhealthy_list(KEY));
    assert!(metrics.is_healthy("x", "m"));
    assert!(metrics.get_recovery_state(KEY).is_none());
}

#[test]
fn ladder_weight_never_falls() {
    let mut metrics = MetricsCollector::new();
    metrics.record_failure(KEY, 0);
    metrics.initialize_per_request_recovery(KEY, 7, 0);
    let mut last = metrics.get_effective_weight(KEY, 7);
    assert_eq!(last, 0);
    let expected = [2, 2, 3, 3, 7];
    for (i, want) in expected.iter().enumerate() {
        metrics.record_passive_success(KEY, 7, i as u64 + 1);
        let now = metrics.get_effective_weight(KEY, 7);
        assert!(now >= last);
        assert_eq!(now, *want);
        last = now;
    }
}

#[test]
fn first_passive_success_without_ladder_starts_at_stage_one() {
    let mut metrics = MetricsCollector::new();
    metrics.record_failure(KEY, 0);
    metrics.record_passive_success(KEY, 1000, 1);
    let state = metrics.get_recovery_state(KEY).unwrap();
    assert_eq!(state.recovery_stage, RecoveryStage::RecoveryStage1);
    assert_eq!(state.success_count, 1);
    assert_eq!(state.current_weight, 300);
    assert!(metrics.is_in_unhealthy_list(KEY));
}

#[test]
fn failure_mid_ladder_resets_recovery() {
    let mut metrics = MetricsCollector::new();
    metrics.record_failure(KEY, 0);
    metrics.initialize_per_request_recovery(KEY, 1000, 0);
    metrics.record_passive_success(KEY, 1000, 1);
    assert_eq!(stage_of(&metrics, KEY), Some(RecoveryStage::RecoveryStage1));
    metrics.record_failure(KEY, 2);
    assert!(metrics.get_recovery_state(KEY).is_none());
    assert!(metrics.is_in_unhealthy_list(KEY));
    assert_eq!(metrics.get_effective_weight(KEY, 1000), 100);
}

#[test]
fn tenth_of_the_largest_weight() {
    let mut metrics = MetricsCollector::new();
    metrics.record_failure(KEY, 0);
    metrics.record_failure(KEY, 1);
    metrics.record_failure(KEY, 2);
    assert_eq!(metrics.get_failure_count("x", "m"), 3);
    assert_eq!(metrics.get_effective_weight(KEY, u32::MAX), u32::MAX / 10);
}

#[test]
fn other_keys_are_untouched() {
    let mut metrics = MetricsCollector::new();
    metrics.record_failure("a:1", 1);
    metrics.record_latency("b:2", 30);
    metrics.record_failure("c:3", 2);
    metrics.record_success("a:1");
    assert!(metrics.is_healthy("a", "1"));
    assert!(metrics.is_healthy("b", "2"));
    assert!(!metrics.is_healthy("c", "3"));
    assert_eq!(metrics.get_latency("b", "2"), Some(30));
    let list = metrics.get_unhealthy_backends();
    assert_eq!(list.len(), 1);
    assert_eq!(list[0].backend_key, "c:3");
}
