use easyharun::config::{Config, ConfigFile, ConfigFileContainer, ConfigFileHealthCheck,
    ConfigFileProxy};
use easyharun::config_provider::{config_get, config_set, ConfigProvider};
use easyharun::config_world::build_world_from_config;
use easyharun::debug_write::DebugWrite;
use easyharun::docker_action::container_start_labels;
use easyharun::portmapping::{PortMappingParser};
use easyharun::text::{join_strings, parse_u32, replace_substr, split_on_char, trim_str,
    u32_to_dec};
use easyharun::world::WorldContainer;

#[test]
fn parse_u32_reads_decimal_numbers() {
    assert_eq!(Some(0), parse_u32("0"));
    assert_eq!(Some(80), parse_u32("80"));
    assert_eq!(Some(4294967295), parse_u32("4294967295"));
    assert_eq!(None, parse_u32("4294967296"));
    assert_eq!(None, parse_u32(""));
    assert_eq!(None, parse_u32("12a"));
    assert_eq!(None, parse_u32("-1"));
}

#[test]
fn u32_to_dec_writes_decimal_numbers() {
    assert_eq!("0", u32_to_dec(0));
    assert_eq!("7", u32_to_dec(7));
    assert_eq!("32768", u32_to_dec(32768));
    assert_eq!("4294967295", u32_to_dec(4294967295));
}

#[test]
fn split_keeps_empty_fields() {
    assert_eq!(vec!["a", "b"], split_on_char("a,b", ','));
    assert_eq!(vec![""], split_on_char("", ','));
    assert_eq!(vec!["a", "", "b", ""], split_on_char("a,,b,", ','));
}

#[test]
fn join_is_the_reverse_of_a_clean_split() {
    let parts = vec!["a".to_string(), "b".to_string(), "c".to_string()];
    assert_eq!("a,b,c", join_strings(&parts, ","));
    assert_eq!("", join_strings(&vec![], ","));
    assert_eq!("a", join_strings(&vec!["a".to_string()], ","));
}

#[test]
fn trim_strips_surrounding_whitespace() {
    assert_eq!("a b", trim_str("  a b\t\n"));
    assert_eq!("", trim_str("   "));
    assert_eq!("x", trim_str("x"));
}

#[test]
fn replace_rewrites_every_occurrence() {
    assert_eq!("b-b-", replace_substr("a-a-", "a", "b"));
    assert_eq!("unchanged", replace_substr("unchanged", "zz", "y"));
    assert_eq!("same", replace_substr("same", "", "y"));
}

#[test]
fn port_mappings_parse_single_ports_and_pairs() {
    let single = PortMappingParser::parse("8080").unwrap();
    assert_eq!(1, single.len());
    assert_eq!("0.0.0.0:8080", single[0].listen_addr);
    assert_eq!("0.0.0.0:8080", single[0].server_addr);

    let pair = PortMappingParser::parse("8080:80").unwrap();
    assert_eq!("0.0.0.0:80", pair[0].listen_addr);
    assert_eq!("0.0.0.0:8080", pair[0].server_addr);

    let list = PortMappingParser::parse(" 8080 : 80 , 9090 ").unwrap();
    assert_eq!(2, list.len());
    assert_eq!("0.0.0.0:80", list[0].listen_addr);
    assert_eq!("0.0.0.0:9090", list[1].server_addr);

    assert!(PortMappingParser::parse("1:2:3").is_err());
}

#[test]
fn config_files_expand_to_one_entry_per_replica() {
    let file = ConfigFile {
        proxy: vec![ConfigFileProxy { name: "web".to_string(), listen: "0.0.0.0:80".to_string() }],
        container: vec![ConfigFileContainer {
            name: "app".to_string(),
            image: "foo:latest".to_string(),
            replicas: 3,
            container_port: 80,
            health_checks: vec!["check".to_string()],
            proxies: vec!["web".to_string()],
        }],
        health_check: vec![ConfigFileHealthCheck {
            name: "check".to_string(),
            check: "http".to_string(),
            url: "http://h/".to_string(),
            timeout_ms: 500,
        }],
    };

    let config = Config::from_config_file(file);
    assert_eq!(3, config.container.len());
    for (i, c) in config.container.iter().enumerate() {
        assert_eq!(i as u32, c.replica_id);
        assert_eq!("app", c.name);
        assert_eq!("foo:latest", c.image);
        assert_eq!(80, c.container_port);
        assert_eq!(vec!["check".to_string()], c.health_checks);
    }
    assert_eq!(1, config.proxy.len());
    assert_eq!(1, config.health_check.len());
}

#[test]
fn the_expected_world_mirrors_the_configuration() {
    let file = ConfigFile {
        proxy: vec![],
        container: vec![ConfigFileContainer {
            name: "app".to_string(),
            image: "foo:latest".to_string(),
            replicas: 2,
            container_port: 80,
            health_checks: vec![],
            proxies: vec![],
        }],
        health_check: vec![],
    };
    let config = Config::from_config_file(file);
    let world = build_world_from_config(&config);
    let containers = world.get_containers();
    assert_eq!(2, containers.len());
    assert!(containers[0].container_id.is_none());
    assert!(containers[0].container_port_dynamic_host.is_none());
    assert_eq!("foo:latest", containers[0].image);
    assert_eq!(0, containers[0].replica_id);
    assert_eq!(1, containers[1].replica_id);
}

#[test]
fn the_config_store_hands_back_what_was_set() {
    let mut provider = ConfigProvider::new();
    let config = Config {
        proxy: vec![ConfigFileProxy { name: "web".to_string(), listen: "0.0.0.0:80".to_string() }],
        container: vec![],
        health_check: vec![],
    };
    config_set(&mut provider, config);
    let copy = config_get(&provider);
    assert_eq!(1, copy.proxy.len());
    assert_eq!("web", copy.proxy[0].name);
}

#[test]
fn start_labels_encode_every_declared_attribute() {
    let container = WorldContainer {
        name: "app".to_string(),
        image: "foo:latest".to_string(),
        replica_id: 2,
        container_port: 80,
        health_checks: vec!["a".to_string(), "b".to_string()],
        proxies: vec!["web".to_string()],
        ..Default::default()
    };
    let labels = container_start_labels(&container);
    let as_pairs: Vec<(&str, &str)> =
        labels.iter().map(|(k, v)| (k.as_str(), v.as_str())).collect();
    assert_eq!(
        vec![
            ("easyharun", "1.0.0"),
            ("easyharun_name", "app"),
            ("easyharun_image", "foo:latest"),
            ("easyharun_replica_id", "2"),
            ("easyharun_container_port", "80"),
            ("easyharun_health_checks", "a,b"),
            ("easyharun_proxies", "web"),
        ],
        as_pairs
    );
}

#[test]
fn the_debug_buffer_keeps_what_was_written() {
    let mut buffer = DebugWrite::new();
    assert_eq!(5, buffer.write_bytes(b"hello"));
    assert_eq!(1, buffer.write_bytes(b" "));
    buffer.write_bytes(b"world");
    assert_eq!(b"hello world".to_vec(), buffer.get_data());
}
