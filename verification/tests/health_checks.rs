use easyharun::config::{Config, ConfigFileHealthCheck};
use easyharun::container_id::ContainerId;
use easyharun::health_check::{classify_probe_outcome, HealthCheckHttpConfig, HealthCheckMsgRecv,
    HealthCheckType, ProbeOutcome};
use easyharun::health_check_manager::{HealthCheckError, HealthCheckManager};
use easyharun::kv::KV;
use easyharun::world::{World, WorldContainer};

fn check_config(name: &str, url: &str) -> ConfigFileHealthCheck {
    ConfigFileHealthCheck {
        name: name.to_string(),
        check: "http".to_string(),
        url: url.to_string(),
        timeout_ms: 1000,
    }
}

fn config_with_checks(checks: Vec<ConfigFileHealthCheck>) -> Config {
    Config { proxy: vec![], container: vec![], health_check: checks }
}

fn world_container(id: &str, checks: Vec<&str>) -> WorldContainer {
    WorldContainer {
        container_id: Some(ContainerId::new(id.to_string())),
        container_port_dynamic_host: Some(32768),
        health_checks: checks.into_iter().map(|c| c.to_string()).collect(),
        ..Default::default()
    }
}

#[test]
fn template_substitutes_the_dynamic_host_port() {
    let wc = world_container("x", vec![]);
    let url = HealthCheckManager::template_parse_world_container(
        "http://127.0.0.1:{{container.port_dynamic_host}}/health",
        &wc,
    )
    .unwrap();
    assert_eq!("http://127.0.0.1:32768/health", url);
}

#[test]
fn template_normalises_spaced_moustaches() {
    let wc = world_container("x", vec![]);
    let url = HealthCheckManager::template_parse_world_container(
        "http://h:{{ container.port_dynamic_host }}/",
        &wc,
    )
    .unwrap();
    assert_eq!("http://h:32768/", url);
}

#[test]
fn template_needs_an_observed_port() {
    let mut wc = world_container("x", vec![]);
    wc.container_port_dynamic_host = None;
    let err = HealthCheckManager::template_parse_world_container("http://h/", &wc).unwrap_err();
    assert_eq!(HealthCheckError::NoDynamicHostPort, err);
}

#[test]
fn build_health_check_resolves_the_configured_check() {
    let manager = HealthCheckManager::new();
    let config = config_with_checks(vec![check_config(
        "web",
        "http://127.0.0.1:{{container.port_dynamic_host}}/",
    )]);
    let wc = world_container("abc", vec!["web"]);
    let check = manager.build_health_check(&wc, "web", &config).unwrap();
    let HealthCheckType::HealthCheckTypeHttp(http) = check;
    assert_eq!("abc", http.container_id.as_str());
    assert_eq!("http://127.0.0.1:32768/", http.url);
    assert_eq!(1000, http.timeout_ms);
}

#[test]
fn build_health_check_reports_each_failure() {
    let manager = HealthCheckManager::new();
    let config = config_with_checks(vec![check_config("web", "http://h/")]);

    let wc = world_container("abc", vec![]);
    assert_eq!(
        HealthCheckError::CheckNotInConfig,
        manager.build_health_check(&wc, "nope", &config).unwrap_err()
    );

    let mut no_id = world_container("abc", vec![]);
    no_id.container_id = None;
    assert_eq!(
        HealthCheckError::NoContainerId,
        manager.build_health_check(&no_id, "web", &config).unwrap_err()
    );

    let mut tcp = config_with_checks(vec![check_config("web", "http://h/")]);
    tcp.health_check[0].check = "tcp".to_string();
    assert_eq!(
        HealthCheckError::UnknownCheckType,
        manager.build_health_check(&wc, "web", &tcp).unwrap_err()
    );

    let mut no_port = world_container("abc", vec![]);
    no_port.container_port_dynamic_host = None;
    assert_eq!(
        HealthCheckError::NoDynamicHostPort,
        manager.build_health_check(&no_port, "web", &config).unwrap_err()
    );
}

#[test]
fn reconciliation_tracks_and_kills_checks() {
    let mut manager = HealthCheckManager::new();
    let config = config_with_checks(vec![
        check_config("a", "http://127.0.0.1:{{container.port_dynamic_host}}/a"),
        check_config("b", "http://127.0.0.1:{{container.port_dynamic_host}}/b"),
    ]);
    let world = World::new(vec![world_container("x", vec!["a", "b"])]);

    // First pass: both declared checks are built and spawned under X.
    let plan = manager.run_inner_maintain_checks(&world, &config);
    assert_eq!(2, plan.spawns.len());
    assert_eq!(0, plan.kills.len());
    assert_eq!(0, plan.warnings.len());
    assert_eq!("x", plan.spawns[0].container_id.as_str());
    assert_eq!("a", plan.spawns[0].check_name);
    assert_eq!("b", plan.spawns[1].check_name);

    // Reconciling the same world again changes nothing.
    let plan2 = manager.run_inner_maintain_checks(&world, &config);
    assert_eq!(0, plan2.spawns.len());
    assert_eq!(0, plan2.kills.len());

    // X gone from the world: both checks are killed and nothing stays
    // tracked.
    let empty = World::new(vec![]);
    let plan3 = manager.run_inner_maintain_checks(&empty, &config);
    assert_eq!(0, plan3.spawns.len());
    assert_eq!(2, plan3.kills.len());
    assert_eq!("x", plan3.kills[0].container_id.as_str());
    assert_eq!("a", plan3.kills[0].check_name);
    assert_eq!("b", plan3.kills[1].check_name);

    // A fourth pass finds nothing to do.
    let plan4 = manager.run_inner_maintain_checks(&empty, &config);
    assert_eq!(0, plan4.spawns.len());
    assert_eq!(0, plan4.kills.len());
}

#[test]
fn reconciliation_warns_on_unresolvable_check_names() {
    let mut manager = HealthCheckManager::new();
    let config = config_with_checks(vec![check_config(
        "a",
        "http://127.0.0.1:{{container.port_dynamic_host}}/a",
    )]);
    let world = World::new(vec![world_container("x", vec!["a", "missing"])]);

    let plan = manager.run_inner_maintain_checks(&world, &config);
    assert_eq!(1, plan.spawns.len());
    assert_eq!(vec![HealthCheckError::CheckNotInConfig], plan.warnings);
}

#[test]
fn classify_reports_two_hundreds_as_healthy() {
    let config = HealthCheckHttpConfig {
        container_id: ContainerId::new("abc".to_string()),
        url: "http://h/".to_string(),
        timeout_ms: 100,
    };
    match classify_probe_outcome(&config, ProbeOutcome::Status(204)) {
        HealthCheckMsgRecv::CheckOk(m) => {
            assert_eq!("abc", m.container_id.as_str());
            assert_eq!("http://h/", m.target);
        },
        _ => panic!("a 2xx status is healthy"),
    }
}

#[test]
fn classify_reports_failures_with_reasons() {
    let config = HealthCheckHttpConfig {
        container_id: ContainerId::new("abc".to_string()),
        url: "http://h/".to_string(),
        timeout_ms: 100,
    };
    match classify_probe_outcome(&config, ProbeOutcome::Status(500)) {
        HealthCheckMsgRecv::CheckFailed(m) => {
            assert_eq!("Unsuccessful response: 500", m.reason)
        },
        _ => panic!("a 5xx status is unhealthy"),
    }
    match classify_probe_outcome(&config, ProbeOutcome::TimedOut) {
        HealthCheckMsgRecv::CheckFailed(m) => assert_eq!("Timeout", m.reason),
        _ => panic!("a timeout is unhealthy"),
    }
    match classify_probe_outcome(&config, ProbeOutcome::ConnectionError("refused".to_string())) {
        HealthCheckMsgRecv::CheckFailed(m) => assert_eq!("Error: refused", m.reason),
        _ => panic!("a connection error is unhealthy"),
    }
}

#[test]
fn check_reports_reach_the_shared_store_debounced() {
    let manager = HealthCheckManager::new();
    let mut kv = KV::new();
    let config = HealthCheckHttpConfig {
        container_id: ContainerId::new("abc".to_string()),
        url: "http://h/".to_string(),
        timeout_ms: 100,
    };

    let ok = classify_probe_outcome(&config, ProbeOutcome::Status(200));
    manager.run_inner_got_msg(&mut kv, ok);
    assert!(kv.is_target_healthy("http://h/"));
    assert_eq!(1, kv.health_write_count());

    let ok_again = classify_probe_outcome(&config, ProbeOutcome::Status(200));
    manager.run_inner_got_msg(&mut kv, ok_again);
    assert_eq!(1, kv.health_write_count());

    let failed = classify_probe_outcome(&config, ProbeOutcome::Status(503));
    manager.run_inner_got_msg(&mut kv, failed);
    assert!(!kv.is_target_healthy("http://h/"));
    assert_eq!(2, kv.health_write_count());
}
