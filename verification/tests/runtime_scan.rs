use easyharun::container_id::ContainerId;
use easyharun::docker_action::container_start_labels;
use easyharun::world::WorldContainer;
use easyharun::docker_world::{build_world_container, build_world_from_docker,
    docker_container_info, extract_dynamic_port_form_container, DockerWorldError,
    RuntimeContainer};
use easyharun::kv::KV;

fn label(k: &str, v: &str) -> (String, String) {
    (k.to_string(), v.to_string())
}

fn owned_container(id: &str) -> RuntimeContainer {
    RuntimeContainer {
        id: Some(id.to_string()),
        state: Some("running".to_string()),
        labels: vec![
            label("easyharun", "1.0.0"),
            label("easyharun_name", "app"),
            label("easyharun_image", "foo:latest"),
            label("easyharun_replica_id", "0"),
            label("easyharun_container_port", "80"),
            label("easyharun_health_checks", "check"),
            label("easyharun_proxies", "web"),
        ],
        public_ports: Some(vec![Some(32768)]),
    }
}

#[test]
fn a_well_labelled_container_becomes_a_world_entry() {
    let c = owned_container("abc");
    let wc = build_world_container(&c).unwrap().unwrap();
    assert_eq!("abc", wc.container_id.as_ref().unwrap().as_str());
    assert_eq!("app", wc.name);
    assert_eq!("foo:latest", wc.image);
    assert_eq!(0, wc.replica_id);
    assert_eq!(80, wc.container_port);
    assert_eq!(Some(32768), wc.container_port_dynamic_host);
    assert_eq!(vec!["check".to_string()], wc.health_checks);
    assert_eq!(vec!["web".to_string()], wc.proxies);
}

#[test]
fn each_missing_or_malformed_label_is_its_own_error() {
    let mut no_id = owned_container("abc");
    no_id.id = None;
    assert_eq!(DockerWorldError::NoId, build_world_container(&no_id).unwrap_err());

    let mut no_name = owned_container("abc");
    no_name.labels.retain(|(k, _)| k != "easyharun_name");
    assert_eq!(DockerWorldError::NoNameLabel, build_world_container(&no_name).unwrap_err());

    let mut bad_replica = owned_container("abc");
    bad_replica.labels[3] = label("easyharun_replica_id", "two");
    assert_eq!(DockerWorldError::InvalidReplicaId, build_world_container(&bad_replica).unwrap_err());

    let mut bad_port = owned_container("abc");
    bad_port.labels[4] = label("easyharun_container_port", "80x");
    assert_eq!(
        DockerWorldError::InvalidContainerPort,
        build_world_container(&bad_port).unwrap_err()
    );

    let mut no_ports = owned_container("abc");
    no_ports.public_ports = None;
    assert_eq!(DockerWorldError::NoPorts, build_world_container(&no_ports).unwrap_err());

    let mut empty_ports = owned_container("abc");
    empty_ports.public_ports = Some(vec![]);
    assert_eq!(DockerWorldError::NoFirstPort, build_world_container(&empty_ports).unwrap_err());

    let mut unpublished = owned_container("abc");
    unpublished.public_ports = Some(vec![None]);
    assert_eq!(
        DockerWorldError::PublicPortNotGiven,
        extract_dynamic_port_form_container(&unpublished).unwrap_err()
    );
}

#[test]
fn only_owned_live_identified_containers_are_visible() {
    let kv = KV::new();

    let owned = owned_container("abc");
    assert_eq!("abc", docker_container_info(&owned, &kv).unwrap().container_id.as_str());

    let mut foreign = owned_container("abc");
    foreign.labels[0] = label("easyharun", "2.0.0");
    assert!(docker_container_info(&foreign, &kv).is_none());

    let mut unlabelled = owned_container("abc");
    unlabelled.labels.clear();
    assert!(docker_container_info(&unlabelled, &kv).is_none());

    let mut exited = owned_container("abc");
    exited.state = Some("exited".to_string());
    assert!(docker_container_info(&exited, &kv).is_none());

    let mut stateless = owned_container("abc");
    stateless.state = None;
    assert!(docker_container_info(&stateless, &kv).is_none());

    let mut nameless = owned_container("abc");
    nameless.id = None;
    assert!(docker_container_info(&nameless, &kv).is_none());
}

#[test]
fn a_marked_container_never_reappears_in_the_current_world() {
    let mut kv = KV::new();
    kv.mark_container_to_be_deleted(&ContainerId::new("gone".to_string()));

    // The raw runtime listing still holds the marked container.
    let listing = vec![owned_container("gone"), owned_container("alive")];
    let (world, errors) = build_world_from_docker(&listing, &kv);

    assert_eq!(0, errors.len());
    let containers = world.get_containers();
    assert_eq!(1, containers.len());
    assert_eq!("alive", containers[0].container_id.as_ref().unwrap().as_str());
}

#[test]
fn malformed_owned_containers_are_reported_and_skipped() {
    let kv = KV::new();
    let mut malformed = owned_container("abc");
    malformed.labels.retain(|(k, _)| k != "easyharun_image");
    let listing = vec![malformed, owned_container("def")];

    let (world, errors) = build_world_from_docker(&listing, &kv);
    assert_eq!(vec![DockerWorldError::NoImageLabel], errors);
    assert_eq!(1, world.get_containers().len());
}

#[test]
fn what_a_start_writes_a_scan_reads_back() {
    let declared = WorldContainer {
        name: "app".to_string(),
        image: "foo:latest".to_string(),
        replica_id: 3,
        container_port: 8080,
        health_checks: vec!["a".to_string(), "b".to_string()],
        proxies: vec!["web".to_string()],
        ..Default::default()
    };
    let listed = RuntimeContainer {
        id: Some("abc".to_string()),
        state: Some("running".to_string()),
        labels: container_start_labels(&declared),
        public_ports: Some(vec![Some(40000)]),
    };

    let kv = KV::new();
    assert!(docker_container_info(&listed, &kv).is_some());

    let scanned = build_world_container(&listed).unwrap().unwrap();
    assert_eq!("abc", scanned.container_id.as_ref().unwrap().as_str());
    assert_eq!(declared.name, scanned.name);
    assert_eq!(declared.image, scanned.image);
    assert_eq!(declared.replica_id, scanned.replica_id);
    assert_eq!(declared.container_port, scanned.container_port);
    assert_eq!(Some(40000), scanned.container_port_dynamic_host);
    assert_eq!(declared.health_checks, scanned.health_checks);
    assert_eq!(declared.proxies, scanned.proxies);
}
