use easyharun::config::{Config, ConfigFileProxy};
use easyharun::container_id::ContainerId;
use easyharun::kv::KV;
use easyharun::proxy_brain::{ProxyBrain, ProxyBrainAction};
use easyharun::proxy_manager::{create_proxy_world_current, create_proxy_world_expected,
    proxy_exists, ManagedProxy, ProxyWarning};
use easyharun::proxy_world::{ProxyWorld, ProxyWorldEntry, ProxyWorlds};
use easyharun::tcp_proxy::TcpProxy;
use easyharun::world::{World, WorldContainer};

fn entry(listen: &str, addrs: Vec<&str>) -> ProxyWorldEntry {
    ProxyWorldEntry {
        listen_addr: listen.to_string(),
        server_addrs: addrs.into_iter().map(|a| a.to_string()).collect(),
    }
}

fn add(listen: &str, addr: &str) -> ProxyBrainAction {
    ProxyBrainAction::Add(easyharun::proxy_brain::ProxyBrainActionAdd {
        listen_addr: listen.to_string(),
        server_addr: addr.to_string(),
    })
}

#[test]
fn proxy_diff_adds_and_removes_per_backend() {
    let worlds = ProxyWorlds {
        expected: ProxyWorld { proxies: vec![entry("0.0.0.0:80", vec!["A", "B"])] },
        current: ProxyWorld { proxies: vec![entry("0.0.0.0:80", vec!["B", "C"])] },
    };

    let actions = ProxyBrain::think(&worlds);
    assert_eq!(2, actions.len());
    match &actions[0] {
        ProxyBrainAction::Add(a) => {
            assert_eq!("0.0.0.0:80", a.listen_addr);
            assert_eq!("A", a.server_addr);
        },
        _ => panic!("the first action adds the missing backend"),
    }
    match &actions[1] {
        ProxyBrainAction::RemoveAsk(a) => {
            assert_eq!("0.0.0.0:80", a.listen_addr);
            assert_eq!("C", a.server_addr);
        },
        _ => panic!("the second action removes the stale backend"),
    }
}

#[test]
fn proxy_diff_is_empty_for_equal_snapshots() {
    let worlds = ProxyWorlds {
        expected: ProxyWorld { proxies: vec![entry("0.0.0.0:80", vec!["A"])] },
        current: ProxyWorld { proxies: vec![entry("0.0.0.0:80", vec!["A"])] },
    };
    assert_eq!(0, worlds.build_diff().len());
}

#[test]
fn proxy_diff_adds_every_backend_of_a_new_listen_address() {
    let worlds = ProxyWorlds {
        expected: ProxyWorld { proxies: vec![entry("0.0.0.0:80", vec!["A", "B"])] },
        current: ProxyWorld { proxies: vec![] },
    };
    let actions = worlds.build_diff();
    assert_eq!(2, actions.len());
    assert!(actions.iter().all(|a| matches!(a, ProxyBrainAction::Add(_))));
}

#[test]
fn tcp_proxy_adjusts_its_backend_list() {
    let mut proxy = TcpProxy::new("0.0.0.0:80".to_string());
    assert_eq!("0.0.0.0:80", proxy.get_listen_addr());

    proxy.handle_action(&add("0.0.0.0:80", "A"));
    proxy.handle_action(&add("0.0.0.0:80", "B"));
    proxy.handle_action(&add("0.0.0.0:80", "A"));
    assert_eq!(vec!["A".to_string(), "B".to_string()], *proxy.get_server_addrs());

    proxy.handle_action(&ProxyBrainAction::RemoveAsk(
        easyharun::proxy_brain::ProxyBrainActionRemove {
            listen_addr: "0.0.0.0:80".to_string(),
            server_addr: "A".to_string(),
        },
    ));
    assert_eq!(vec!["B".to_string()], *proxy.get_server_addrs());
}

#[test]
fn tcp_proxy_selects_the_only_healthy_backend() {
    let mut proxy = TcpProxy::new("0.0.0.0:80".to_string());
    proxy.handle_action(&add("0.0.0.0:80", "A"));
    proxy.handle_action(&add("0.0.0.0:80", "B"));
    proxy.handle_action(&add("0.0.0.0:80", "C"));

    let mut kv = KV::new();
    let id = ContainerId::new("b".to_string());
    kv.mark_container_target_healthy(&id, "B", true);

    for _ in 0..10 {
        assert_eq!("B", proxy.next_backend(&kv).unwrap());
    }
}

#[test]
fn tcp_proxy_falls_back_to_round_robin_when_all_are_unhealthy() {
    let mut proxy = TcpProxy::new("0.0.0.0:80".to_string());
    proxy.handle_action(&add("0.0.0.0:80", "A"));
    proxy.handle_action(&add("0.0.0.0:80", "B"));
    proxy.handle_action(&add("0.0.0.0:80", "C"));

    let kv = KV::new();
    // No connection is rejected; the plain rotation comes back.
    assert_eq!("B", proxy.next_backend(&kv).unwrap());
    assert_eq!("C", proxy.next_backend(&kv).unwrap());
    assert_eq!("A", proxy.next_backend(&kv).unwrap());
    assert_eq!("B", proxy.next_backend(&kv).unwrap());
}

#[test]
fn tcp_proxy_rejects_only_an_empty_backend_list() {
    let mut proxy = TcpProxy::new("0.0.0.0:80".to_string());
    let kv = KV::new();
    assert!(proxy.next_backend(&kv).is_err());
}

#[test]
fn managed_proxy_mirrors_forwarded_actions() {
    let mut managed = ManagedProxy::new("0.0.0.0:80".to_string());
    managed.note_action(&add("0.0.0.0:80", "A"));
    managed.note_action(&add("0.0.0.0:80", "A"));
    managed.note_action(&add("0.0.0.0:80", "B"));
    assert_eq!(vec!["A".to_string(), "B".to_string()], *managed.get_server_addrs());

    managed.note_action(&ProxyBrainAction::RemoveAsk(
        easyharun::proxy_brain::ProxyBrainActionRemove {
            listen_addr: "0.0.0.0:80".to_string(),
            server_addr: "A".to_string(),
        },
    ));
    assert_eq!(vec!["B".to_string()], *managed.get_server_addrs());
}

#[test]
fn proxy_exists_finds_running_instances() {
    let proxies = vec![ManagedProxy::new("0.0.0.0:80".to_string())];
    assert!(proxy_exists(&proxies, "0.0.0.0:80"));
    assert!(!proxy_exists(&proxies, "0.0.0.0:81"));
}

#[test]
fn current_snapshot_reads_off_the_bookkeeping() {
    let mut managed = ManagedProxy::new("0.0.0.0:80".to_string());
    managed.note_action(&add("0.0.0.0:80", "A"));
    let world = create_proxy_world_current(&vec![managed]);
    assert_eq!(1, world.proxies.len());
    assert_eq!("0.0.0.0:80", world.proxies[0].listen_addr);
    assert_eq!(vec!["A".to_string()], world.proxies[0].server_addrs);
}

#[test]
fn expected_snapshot_resolves_proxy_names_and_ports() {
    let config = Config {
        proxy: vec![
            ConfigFileProxy { name: "web".to_string(), listen: "0.0.0.0:80".to_string() },
            ConfigFileProxy { name: "grpc".to_string(), listen: "0.0.0.0:81".to_string() },
        ],
        container: vec![],
        health_check: vec![],
    };
    let mut c1 = WorldContainer {
        container_id: Some(ContainerId::new("a".to_string())),
        container_port_dynamic_host: Some(32768),
        ..Default::default()
    };
    c1.proxies = vec!["web".to_string()];
    let mut c2 = WorldContainer {
        container_id: Some(ContainerId::new("b".to_string())),
        container_port_dynamic_host: Some(32769),
        ..Default::default()
    };
    c2.proxies = vec!["web".to_string(), "grpc".to_string()];
    let world = World::new(vec![c1, c2]);

    let (snapshot, warnings) = create_proxy_world_expected(&world, &config);
    assert_eq!(0, warnings.len());
    assert_eq!(2, snapshot.proxies.len());
    assert_eq!("0.0.0.0:80", snapshot.proxies[0].listen_addr);
    assert_eq!(
        vec!["127.0.0.1:32768".to_string(), "127.0.0.1:32769".to_string()],
        snapshot.proxies[0].server_addrs
    );
    assert_eq!("0.0.0.0:81", snapshot.proxies[1].listen_addr);
    assert_eq!(vec!["127.0.0.1:32769".to_string()], snapshot.proxies[1].server_addrs);
}

#[test]
fn expected_snapshot_collapses_duplicate_backends() {
    let config = Config {
        proxy: vec![ConfigFileProxy { name: "web".to_string(), listen: "0.0.0.0:80".to_string() }],
        container: vec![],
        health_check: vec![],
    };
    let mut c = WorldContainer {
        container_port_dynamic_host: Some(32768),
        ..Default::default()
    };
    c.proxies = vec!["web".to_string(), "web".to_string()];
    let world = World::new(vec![c]);

    let (snapshot, warnings) = create_proxy_world_expected(&world, &config);
    assert_eq!(0, warnings.len());
    assert_eq!(1, snapshot.proxies.len());
    assert_eq!(vec!["127.0.0.1:32768".to_string()], snapshot.proxies[0].server_addrs);
}

#[test]
fn expected_snapshot_warns_and_skips_what_it_cannot_resolve() {
    let config = Config { proxy: vec![], container: vec![], health_check: vec![] };
    let mut with_unknown_proxy = WorldContainer {
        container_port_dynamic_host: Some(32768),
        ..Default::default()
    };
    with_unknown_proxy.proxies = vec!["nope".to_string()];
    let without_port = WorldContainer { ..Default::default() };
    let world = World::new(vec![with_unknown_proxy, without_port]);

    let (snapshot, warnings) = create_proxy_world_expected(&world, &config);
    assert_eq!(0, snapshot.proxies.len());
    assert_eq!(
        vec![ProxyWarning::ProxyNotInConfig, ProxyWarning::NoDynamicHostPort],
        warnings
    );
}
