use loadbalance::config::{
    Backend, BillingMode, Config, ConfigFault, GlobalSettings, LoadBalanceStrategy, ModelEntry, ModelMapping,
    Provider, ProviderEntry,
};
use loadbalance::metrics::RecoveryStage;
use loadbalance::health_checker::{HealthChecker, HealthSummary};
use loadbalance::manager::{LoadBalanceManager, SelectFailure};
use loadbalance::metrics::MetricsCollector;
use loadbalance::service::{
    judge_attempt, AttemptVerdict, LoadBalanceError, LoadBalanceService, RequestResult, SelectedBackend,
    ServiceHealth,
};
use loadbalance::selector::SelectionError;
use std::time::Duration;

fn provider(name: &str, api_key: &str) -> Provider {
    Provider {
        name: name.to_string(),
        base_url: "https://api.test.com".to_string(),
        api_key: api_key.to_string(),
        models: vec!["test-model".to_string()],
        headers: vec![],
        enabled: true,
        timeout_seconds: 30,
        max_retries: 3,
    }
}

fn backend(provider: &str, model: &str, weight: u32, priority: u32, billing_mode: BillingMode) -> Backend {
    Backend {
        provider: provider.to_string(),
        model: model.to_string(),
        weight,
        priority,
        enabled: true,
        tags: vec![],
        billing_mode,
    }
}

fn mapping(name: &str, strategy: LoadBalanceStrategy, backends: Vec<Backend>) -> ModelEntry {
    ModelEntry {
        key: name.to_string(),
        mapping: ModelMapping { name: name.to_string(), backends, strategy, enabled: true },
    }
}

fn providers(names: &[&str]) -> Vec<ProviderEntry> {
    names.iter().map(|n| ProviderEntry { key: n.to_string(), provider: provider(n, "secret") }).collect()
}

fn create_test_config() -> Config {
    Config {
        providers: vec![ProviderEntry {
            key: "test-provider".to_string(),
            provider: provider("Test Provider", "test-api-key"),
        }],
        models: vec![mapping(
            "test-model",
            LoadBalanceStrategy::WeightedRandom,
            vec![backend("test-provider", "test-model", 1000, 1, BillingMode::PerToken)],
        )],
        settings: GlobalSettings::default(),
    }
}

fn two_backend_config(strategy: LoadBalanceStrategy, max_internal_retries: u32) -> Config {
    Config {
        providers: providers(&["y", "h"]),
        models: vec![mapping(
            "m",
            strategy,
            vec![
                backend("y", "up", 1000, 1, BillingMode::PerToken),
                backend("h", "up", 1000, 2, BillingMode::PerToken),
            ],
        )],
        settings: GlobalSettings { max_internal_retries, health_check_interval_s: 30, recovery_check_interval_s: 60 },
    }
}

fn service(config: Config) -> LoadBalanceService {
    match LoadBalanceService::new(config) {
        Ok(s) => s,
        Err(e) => panic!("rejected: {:?}", e),
    }
}

fn fault_of(config: Config) -> ConfigFault {
    match LoadBalanceService::new(config) {
        Err(LoadBalanceError::ConfigInvalid(e)) => e.fault,
        Err(e) => panic!("unexpected: {:?}", e),
        Ok(_) => panic!("accepted"),
    }
}

#[test]
fn test_service_creation_and_start() {
    let mut service = service(create_test_config());
    assert!(!service.is_running());
    assert!(service.start());
    assert!(service.is_running());
    assert!(!service.start());
    assert!(service.is_running());
    service.stop();
    assert!(!service.is_running());
}

#[test]
fn test_backend_selection() {
    let mut service = service(create_test_config());
    service.start();
    let selected = service.select_backend("test-model").unwrap();
    assert_eq!(selected.backend.provider, "test-provider");
    assert_eq!(selected.backend.model, "test-model");
    assert_eq!(selected.provider.name, "Test Provider");
    assert_eq!(selected.provider.api_key, "test-api-key");
    service.stop();
}

#[test]
fn default_settings() {
    let settings = GlobalSettings::default();
    assert_eq!(settings.max_internal_retries, 2);
    assert_eq!(settings.health_check_interval_s, 30);
    assert_eq!(settings.recovery_check_interval_s, 60);
}

#[test]
fn judge_attempt_table() {
    assert_eq!(judge_attempt(Some(true), 0, 2), AttemptVerdict::Accept);
    assert_eq!(judge_attempt(Some(true), 2, 2), AttemptVerdict::Accept);
    assert_eq!(judge_attempt(Some(false), 0, 2), AttemptVerdict::Retry);
    assert_eq!(judge_attempt(Some(false), 1, 2), AttemptVerdict::Retry);
    assert_eq!(judge_attempt(Some(false), 2, 2), AttemptVerdict::Accept);
    assert_eq!(judge_attempt(None, 1, 2), AttemptVerdict::Retry);
    assert_eq!(judge_attempt(None, 2, 2), AttemptVerdict::Fail);
    assert_eq!(judge_attempt(None, 0, 0), AttemptVerdict::Fail);
    assert_eq!(judge_attempt(Some(false), 0, 0), AttemptVerdict::Accept);
}

#[test]
fn retry_skips_unhealthy_selection() {
    let mut service = service(two_backend_config(LoadBalanceStrategy::RoundRobin, 2));
    service.record_request_result("y", "up", RequestResult::Failure { error: "down".to_string() }, 1);
    let selected = service.select_backend("m").unwrap();
    assert_eq!(selected.backend.provider, "h");
    assert_eq!(selected.provider.name, "h");
}

#[test]
fn exhausted_retries_return_unhealthy_backend() {
    let mut service = service(two_backend_config(LoadBalanceStrategy::RoundRobin, 2));
    service.record_request_result("y", "up", RequestResult::Failure { error: "down".to_string() }, 1);
    service.record_request_result("h", "up", RequestResult::Failure { error: "down".to_string() }, 1);
    let selected = service.select_backend("m").unwrap();
    assert_eq!(selected.backend.provider, "y");
    let next = service.select_backend("m").unwrap();
    assert_eq!(next.backend.provider, "h");
}

#[test]
fn no_retries_returns_first_selection() {
    let mut service = service(two_backend_config(LoadBalanceStrategy::RoundRobin, 0));
    service.record_request_result("y", "up", RequestResult::Failure { error: "down".to_string() }, 1);
    let selected = service.select_backend("m").unwrap();
    assert_eq!(selected.backend.provider, "y");
}

#[test]
fn unknown_model_fails_after_retries() {
    let mut service = service(create_test_config());
    match service.select_backend("nope") {
        Err(LoadBalanceError::BackendSelection(e)) => {
            assert_eq!(e.model_name, "nope");
            assert_eq!((e.total_backends, e.enabled_backends, e.healthy_backends), (0, 0, 0));
            match e.cause {
                SelectFailure::UnknownModel(name) => assert_eq!(name, "nope"),
                other => panic!("unexpected: {:?}", other),
            }
        },
        other => panic!("unexpected: {:?}", other),
    }
    assert!(matches!(service.select_once("nope"), Err(SelectFailure::UnknownModel(_))));
}

#[test]
fn disabled_model_is_unknown() {
    let mut config = create_test_config();
    config.models[0].mapping.enabled = false;
    let mut service = service(config);
    assert!(matches!(service.select_once("test-model"), Err(SelectFailure::UnknownModel(_))));
    assert!(service.get_available_models().is_empty());
}

#[test]
fn zero_weights_surface_as_selection_error() {
    let mut config = two_backend_config(LoadBalanceStrategy::WeightedRandom, 1);
    config.models[0].mapping.backends[0].weight = 0;
    config.models[0].mapping.backends[1].weight = 0;
    let mut service = service(config);
    service.record_request_result("h", "up", RequestResult::Failure { error: "x".to_string() }, 1);
    match service.select_backend("m") {
        Err(LoadBalanceError::BackendSelection(e)) => {
            assert_eq!(e.model_name, "m");
            assert_eq!((e.total_backends, e.enabled_backends, e.healthy_backends), (2, 2, 1));
            assert!(matches!(e.cause, SelectFailure::Selection(SelectionError::ZeroWeight(_))));
        },
        other => panic!("unexpected: {:?}", other),
    }
}

#[test]
fn backend_dropped_by_reload_is_no_longer_selected() {
    let mut service = service(two_backend_config(LoadBalanceStrategy::Failover, 0));
    let mut next = two_backend_config(LoadBalanceStrategy::Failover, 0);
    next.models[0].mapping.backends.remove(0);
    assert!(service.reload_config(next).is_ok());
    assert_eq!(service.select_backend("m").unwrap().backend.provider, "h");
}

#[test]
fn config_rules_are_checked_in_order() {
    assert!(create_test_config().validate().is_ok());

    let mut config = create_test_config();
    config.models[0].key = "other".to_string();
    config.providers.clear();
    assert_eq!(fault_of(config), ConfigFault::NameMismatch);

    let mut config = create_test_config();
    config.providers.clear();
    config.models[0].mapping.backends[0].enabled = false;
    assert_eq!(fault_of(config), ConfigFault::UnknownProvider);

    let mut config = create_test_config();
    config.models[0].mapping.backends[0].enabled = false;
    config.providers[0].provider.api_key = String::new();
    assert_eq!(fault_of(config), ConfigFault::NoEnabledBackend);

    let mut config = create_test_config();
    config.providers[0].provider.api_key = String::new();
    assert_eq!(fault_of(config), ConfigFault::MissingApiKey);
    let mut config = create_test_config();
    config.providers[0].provider.api_key = String::new();
    assert_eq!(config.validate().unwrap_err().item, "test-model");

    let mut config = create_test_config();
    config.providers[0].provider.api_key = String::new();
    config.models[0].mapping.enabled = false;
    assert!(config.validate().is_ok());
    assert!(config.get_provider("test-provider").is_some());
    assert!(config.get_provider("missing").is_none());
    assert_eq!(config.find_provider("test-provider"), Some(0));
}

#[test]
fn duplicate_backend_keys_are_rejected() {
    let mut config = two_backend_config(LoadBalanceStrategy::Failover, 0);
    config.models[0].mapping.backends[1].provider = "y".to_string();
    assert_eq!(fault_of(config), ConfigFault::DuplicateBackend);

    let mut config = two_backend_config(LoadBalanceStrategy::Failover, 0);
    config.models.push(mapping("n", LoadBalanceStrategy::Random, vec![backend("h", "up", 1, 1, BillingMode::PerToken)]));
    let error = config.validate().unwrap_err();
    assert_eq!(error.fault, ConfigFault::DuplicateBackend);
    assert_eq!(error.item, "n");

    let mut config = two_backend_config(LoadBalanceStrategy::Failover, 0);
    config.models.push(mapping("n", LoadBalanceStrategy::Random, vec![backend("h", "other", 1, 1, BillingMode::PerToken)]));
    assert!(config.validate().is_ok());
}

#[test]
fn manager_style_recording() {
    let mut service = service(create_test_config());
    service.record_failure("test-provider", "test-model", 8);
    assert!(!service.get_metrics().is_healthy("test-provider", "test-model"));
    service.record_success("test-provider", "test-model", 15);
    assert!(service.get_metrics().is_healthy("test-provider", "test-model"));
    assert_eq!(service.get_metrics().get_latency("test-provider", "test-model"), Some(15));
    assert_eq!(service.model_count(), 1);
    assert_eq!(service.get_mapping(0).name, "test-model");
    assert_eq!(service.get_provider("test-provider").unwrap().name, "Test Provider");
    assert!(service.get_provider("nobody").is_none());
}

#[test]
fn round_robin_cursor_counts_attempts() {
    let mut config = two_backend_config(LoadBalanceStrategy::RoundRobin, 2);
    config.providers.push(ProviderEntry { key: "z".to_string(), provider: provider("z", "secret") });
    config.models[0].mapping.backends.push(backend("z", "up", 1000, 3, BillingMode::PerToken));
    let mut service = service(config);
    service.record_failure("y", "up", 1);
    service.record_failure("h", "up", 1);
    service.record_failure("z", "up", 1);
    assert_eq!(service.select_backend("m").unwrap().backend.provider, "z");
    assert_eq!(service.select_backend("m").unwrap().backend.provider, "z");
    service.record_success("y", "up", 1);
    assert_eq!(service.select_backend("m").unwrap().backend.provider, "y");
    assert_eq!(service.select_backend("m").unwrap().backend.provider, "y");
}

#[test]
fn rejected_reload_changes_nothing() {
    let mut service = service(create_test_config());
    let mut bad = create_test_config();
    bad.models[0].key = "renamed".to_string();
    match service.reload_config(bad) {
        Err(LoadBalanceError::ConfigInvalid(e)) => assert_eq!(e.fault, ConfigFault::NameMismatch),
        other => panic!("unexpected: {:?}", other),
    }
    assert_eq!(service.get_available_models(), vec!["test-model".to_string()]);
    assert!(service.select_backend("test-model").is_ok());
}

#[test]
fn reload_preserves_metrics() {
    let mut service = service(two_backend_config(LoadBalanceStrategy::Failover, 0));
    service.record_request_result("y", "up", RequestResult::Failure { error: "down".to_string() }, 5);
    assert!(service.reload_config(two_backend_config(LoadBalanceStrategy::Failover, 0)).is_ok());
    assert!(service.get_metrics().is_in_unhealthy_list("y:up"));
    assert!(!service.get_metrics().is_healthy("y", "up"));
    assert_eq!(service.select_backend("m").unwrap().backend.provider, "h");

    let mut without_y = two_backend_config(LoadBalanceStrategy::Failover, 0);
    without_y.models[0].mapping.backends.remove(0);
    assert!(service.reload_config(without_y).is_ok());
    service.record_request_result("h", "up", RequestResult::Failure { error: "down".to_string() }, 6);
    for _ in 0..5 {
        assert_eq!(service.select_backend("m").unwrap().backend.provider, "h");
    }
    assert!(service.get_metrics().is_in_unhealthy_list("y:up"));
}

#[test]
fn per_token_results() {
    let mut service = service(create_test_config());
    service.record_request_result("test-provider", "test-model", RequestResult::Failure { error: "e".to_string() }, 3);
    assert!(!service.get_metrics().is_healthy("test-provider", "test-model"));
    assert!(service.get_metrics().get_recovery_state("test-provider:test-model").is_none());
    service.record_request_result("test-provider", "test-model", RequestResult::Success { latency: 42 }, 4);
    assert!(service.get_metrics().is_healthy("test-provider", "test-model"));
    assert_eq!(service.get_metrics().get_latency("test-provider", "test-model"), Some(42));
    assert_eq!(service.get_metrics().get_failure_count("test-provider", "test-model"), 0);
}

#[test]
fn per_request_results_climb_the_ladder() {
    let mut config = create_test_config();
    config.models[0].mapping.backends[0].billing_mode = BillingMode::PerRequest;
    let mut service = service(config);
    let key = "test-provider:test-model";
    assert_eq!(service.get_backend_original_weight("test-provider", "test-model"), Some(1000));
    assert_eq!(service.get_backend_original_weight("test-provider", "other"), None);

    service.record_request_result("test-provider", "test-model", RequestResult::Success { latency: 9 }, 1);
    assert_eq!(service.get_metrics().get_latency("test-provider", "test-model"), Some(9));
    assert!(service.get_metrics().get_recovery_state(key).is_none());

    service.record_request_result("test-provider", "test-model", RequestResult::Failure { error: "e".to_string() }, 2);
    let state = service.get_metrics().get_recovery_state(key).unwrap();
    assert_eq!(state.recovery_stage, RecoveryStage::Unhealthy);
    assert_eq!(state.current_weight, 100);
    assert_eq!(service.get_metrics().get_effective_weight(key, 1000), 100);

    let expected = [300, 300, 500, 500];
    for (i, weight) in expected.iter().enumerate() {
        service.record_request_result("test-provider", "test-model", RequestResult::Success { latency: 1 }, 3 + i as u64);
        assert_eq!(service.get_metrics().get_effective_weight(key, 1000), *weight);
        assert!(service.get_metrics().is_in_unhealthy_list(key));
    }
    assert_eq!(service.get_metrics().get_latency("test-provider", "test-model"), Some(9));
    service.record_request_result("test-provider", "test-model", RequestResult::Success { latency: 1 }, 9);
    assert_eq!(service.get_metrics().get_effective_weight(key, 1000), 1000);
    assert!(service.get_metrics().is_healthy("test-provider", "test-model"));
    assert!(!service.get_metrics().is_in_unhealthy_list(key));
    for i in 0..3u64 {
        service.record_request_result("test-provider", "test-model", RequestResult::Success { latency: 4 }, 10 + i);
        assert_eq!(service.get_metrics().get_effective_weight(key, 1000), 1000);
        assert!(service.get_metrics().is_healthy("test-provider", "test-model"));
        assert!(service.get_metrics().get_recovery_state(key).is_none());
    }
    assert_eq!(service.get_metrics().get_latency("test-provider", "test-model"), Some(4));
}

#[test]
fn unconfigured_backend_is_treated_as_per_token() {
    let mut service = service(create_test_config());
    service.record_request_result("ghost", "m", RequestResult::Failure { error: "e".to_string() }, 1);
    assert!(service.get_metrics().is_in_unhealthy_list("ghost:m"));
    assert!(service.get_metrics().get_recovery_state("ghost:m").is_none());
    service.record_request_result("ghost", "m", RequestResult::Success { latency: 3 }, 2);
    assert!(service.get_metrics().is_healthy("ghost", "m"));
}

#[test]
fn probe_decisions() {
    let mut config = two_backend_config(LoadBalanceStrategy::Failover, 0);
    config.models[0].mapping.backends[1].billing_mode = BillingMode::PerRequest;
    let per_token = config.models[0].mapping.backends[0].clone();
    let per_request = config.models[0].mapping.backends[1].clone();
    let mut service = service(config);
    assert!(!service.should_probe_recovery(&per_token, 0));

    service.record_liveness_probe("y", "up", false, 10);
    service.record_liveness_probe("h", "up", false, 10);
    assert!(!service.get_metrics().is_healthy("y", "up"));
    assert!(service.should_probe_recovery(&per_token, 10));
    assert!(!service.should_probe_recovery(&per_request, 10));

    service.record_recovery_probe("y", "up", false, 20);
    assert!(!service.should_probe_recovery(&per_token, 60_019));
    assert!(service.should_probe_recovery(&per_token, 60_020));
    assert_eq!(service.get_metrics().get_failure_count("y", "up"), 1);

    service.record_recovery_probe("y", "up", true, 60_020);
    assert!(service.get_metrics().is_healthy("y", "up"));
    assert!(!service.should_probe_recovery(&per_token, 200_000));

    service.record_liveness_probe("h", "up", true, 70_000);
    assert!(service.get_metrics().is_healthy("h", "up"));
}

#[test]
fn available_models_need_an_enabled_backend() {
    let mut config = two_backend_config(LoadBalanceStrategy::Failover, 0);
    config.models.push(mapping("off", LoadBalanceStrategy::Random, vec![backend("y", "z", 1, 1, BillingMode::PerToken)]));
    config.models[1].mapping.enabled = false;
    config.models.push(mapping("last", LoadBalanceStrategy::Random, vec![backend("h", "z", 1, 1, BillingMode::PerToken)]));
    let service = service(config);
    assert_eq!(service.get_available_models(), vec!["m".to_string(), "last".to_string()]);
    assert_eq!(service.get_settings().max_internal_retries, 0);
}

#[test]
fn service_health_reports_unhealthy_set() {
    let mut service = service(two_backend_config(LoadBalanceStrategy::Failover, 0));
    let health = service.get_service_health();
    assert!(!health.is_running);
    assert!(!health.is_healthy());
    service.start();
    assert!(service.get_service_health().is_healthy());
    service.record_request_result("y", "up", RequestResult::Failure { error: "e".to_string() }, 7);
    let health = service.get_service_health();
    assert!(health.is_running);
    assert!(!health.is_healthy());
    assert!(!health.health_summary.is_system_healthy());
    assert_eq!(health.health_summary.unhealthy_backends.len(), 1);
    assert_eq!(health.health_summary.unhealthy_backends[0].backend_key, "y:up");
    assert_eq!(health.model_stats.len(), 1);
    assert_eq!(health.model_stats[0].model, "m");
    assert_eq!(health.model_stats[0].total_backends, 2);
    assert_eq!(health.model_stats[0].enabled_backends, 2);
    assert_eq!(health.model_stats[0].healthy_backends, 1);
    assert_eq!((health.total_requests, health.successful_requests), (0, 0));
    let idle = ServiceHealth {
        is_running: false,
        health_summary: HealthSummary { unhealthy_backends: vec![] },
        model_stats: vec![],
        total_requests: 0,
        successful_requests: 0,
    };
    assert!(!idle.is_healthy());
}

fn selected(base_url: &str, api_key: &str) -> SelectedBackend {
    let mut p = provider("Test Provider", api_key);
    p.base_url = base_url.to_string();
    p.headers = vec![("x-team".to_string(), "core".to_string())];
    SelectedBackend {
        backend: backend("test-provider", "test-model", 1, 1, BillingMode::PerToken),
        provider: p,
        selection_time: Duration::from_millis(0),
    }
}

#[test]
fn api_url_joins_with_one_slash() {
    assert_eq!(selected("https://api.test.com", "k").get_api_url("v1/chat"), "https://api.test.com/v1/chat");
    assert_eq!(selected("https://api.test.com///", "k").get_api_url("//v1/chat/"), "https://api.test.com/v1/chat/");
    assert_eq!(selected("", "k").get_api_url(""), "/");
    assert_eq!(selected("/", "k").get_api_url("/"), "/");
}

#[test]
fn api_key_headers_and_timeout() {
    let with_key = selected("https://api.test.com", "test-api-key");
    assert_eq!(with_key.get_api_key().unwrap(), "test-api-key");
    assert_eq!(with_key.get_headers(), vec![("x-team".to_string(), "core".to_string())]);
    assert_eq!(with_key.get_timeout(), 30);
    let without = selected("https://api.test.com", "");
    assert_eq!(without.get_api_key().unwrap_err().provider, "Test Provider");
}

#[test]
fn manager_selects_and_records() {
    let mut metrics = MetricsCollector::new();
    let mut manager = LoadBalanceManager::new(two_backend_config(LoadBalanceStrategy::Failover, 1)).unwrap();
    assert_eq!(manager.select_backend(&metrics, "m").unwrap().provider, "y");
    manager.record_failure(&mut metrics, "y", "up", 3);
    assert!(!metrics.is_healthy("y", "up"));
    assert_eq!(manager.select_backend(&metrics, "m").unwrap().provider, "h");
    assert_eq!(manager.count_backends(&metrics, "m"), (2, 2, 1));
    assert_eq!(manager.count_backends(&metrics, "other"), (0, 0, 0));
    manager.record_success(&mut metrics, "y", "up", 12);
    assert!(metrics.is_healthy("y", "up"));
    assert_eq!(metrics.get_latency("y", "up"), Some(12));
    assert_eq!(manager.select_backend(&metrics, "m").unwrap().provider, "y");
    assert!(matches!(manager.select_backend(&metrics, "other"), Err(SelectFailure::UnknownModel(_))));
    assert_eq!(manager.find_backend("h", "up"), Some((BillingMode::PerToken, 1000)));
    assert_eq!(manager.find_backend("h", "down"), None);
    assert_eq!(manager.get_backend_original_weight("y", "up"), Some(1000));
    assert_eq!(manager.get_available_models(), vec!["m".to_string()]);
    assert_eq!(manager.get_settings().max_internal_retries, 1);
    assert_eq!(manager.model_count(), 1);
    assert_eq!(manager.get_mapping(0).backends.len(), 2);
    assert!(manager.get_provider("h").is_some());
    let stats = manager.get_health_stats(&metrics);
    assert_eq!(stats.len(), 1);
    assert_eq!((stats[0].total_backends, stats[0].enabled_backends, stats[0].healthy_backends), (2, 2, 2));
}

#[test]
fn manager_reload_replaces_mappings() {
    let metrics = MetricsCollector::new();
    let mut manager = LoadBalanceManager::new(two_backend_config(LoadBalanceStrategy::RoundRobin, 1)).unwrap();
    assert_eq!(manager.select_backend(&metrics, "m").unwrap().provider, "y");
    assert!(manager.reload_config(two_backend_config(LoadBalanceStrategy::RoundRobin, 5)).is_ok());
    assert_eq!(manager.get_settings().max_internal_retries, 5);
    assert_eq!(manager.select_backend(&metrics, "m").unwrap().provider, "y");
    let mut bad = create_test_config();
    bad.providers.clear();
    assert_eq!(manager.reload_config(bad).unwrap_err().fault, ConfigFault::UnknownProvider);
    assert_eq!(manager.select_backend(&metrics, "m").unwrap().provider, "h");
    assert_eq!(LoadBalanceManager::new(create_test_config()).map(|_| ()).map_err(|e| e.fault), Ok(()));
}

#[test]
fn health_checker_decides_probes() {
    let mut metrics = MetricsCollector::new();
    let checker = HealthChecker::new(&GlobalSettings::default());
    assert_eq!(checker.recovery_interval, 60_000);
    let huge = GlobalSettings { max_internal_retries: 0, health_check_interval_s: 1, recovery_check_interval_s: u64::MAX };
    assert_eq!(HealthChecker::new(&huge).recovery_interval, u64::MAX);
    let per_token = backend("y", "up", 1, 1, BillingMode::PerToken);
    let per_request = backend("h", "up", 1, 1, BillingMode::PerRequest);
    assert!(!checker.should_probe_recovery(&metrics, &per_token, 5));
    checker.record_liveness_probe(&mut metrics, "y", "up", false, 5);
    checker.record_liveness_probe(&mut metrics, "h", "up", false, 5);
    assert!(checker.should_probe_recovery(&metrics, &per_token, 5));
    assert!(!checker.should_probe_recovery(&metrics, &per_request, 5));
    checker.record_recovery_probe(&mut metrics, "y", "up", false, 6);
    assert!(!checker.should_probe_recovery(&metrics, &per_token, 60_005));
    assert!(checker.should_probe_recovery(&metrics, &per_token, 60_006));
    let summary = checker.get_health_summary(&metrics);
    assert!(!summary.is_system_healthy());
    assert_eq!(summary.unhealthy_backends.len(), 2);
    checker.record_recovery_probe(&mut metrics, "y", "up", true, 60_006);
    checker.record_liveness_probe(&mut metrics, "h", "up", true, 60_007);
    assert!(checker.get_health_summary(&metrics).is_system_healthy());
    assert!(metrics.is_healthy("y", "up") && metrics.is_healthy("h", "up"));
}
