use easyharun::brain::Brain;
use easyharun::brain_action::{BrainAction, BrainError, ContainerStart, ContainerStop};
use easyharun::container_id::ContainerId;
use easyharun::world::{World, WorldContainer, Worlds};

fn container(image: &str, port: u32) -> WorldContainer {
    WorldContainer { container_port: port, image: image.to_string(), ..Default::default() }
}

#[test]
fn build_world_diff_all_are_same() {
    let worlds = Worlds {
        expected: World::new(vec![WorldContainer {
            container_port: 80,
            image: "foo:latest".to_string(),
            ..Default::default()
        }]),
        current: World::new(vec![WorldContainer {
            container_port: 80,
            image: "foo:latest".to_string(),
            ..Default::default()
        }]),
    };

    let diff = worlds.build_diff_world();

    assert_eq!(0, diff.containers_exists_but_should_not_exists().len());
    assert_eq!(0, diff.containers_does_not_exists_but_should_exists().len());
}

#[test]
fn build_world_diff_all_are_same_multiple() {
    let worlds = Worlds {
        expected: World::new(vec![
            WorldContainer {
                container_port: 80,
                image: "foo:latest".to_string(),
                ..Default::default()
            },
            WorldContainer {
                container_port: 80,
                image: "foo:latest".to_string(),
                ..Default::default()
            },
        ]),
        current: World::new(vec![
            WorldContainer {
                container_port: 80,
                image: "foo:latest".to_string(),
                ..Default::default()
            },
            WorldContainer {
                container_port: 80,
                image: "foo:latest".to_string(),
                ..Default::default()
            },
        ]),
    };

    let diff = worlds.build_diff_world();

    assert_eq!(0, diff.containers_exists_but_should_not_exists().len());
    assert_eq!(0, diff.containers_does_not_exists_but_should_exists().len());
}

#[test]
fn build_world_diff_one_container_is_missing() {
    let worlds = Worlds {
        expected: World::new(vec![
            WorldContainer {
                container_port: 80,
                image: "foo:latest".to_string(),
                ..Default::default()
            },
            WorldContainer {
                container_port: 80,
                image: "foo:latest".to_string(),
                ..Default::default()
            },
        ]),
        current: World::new(vec![WorldContainer {
            container_port: 80,
            image: "foo:latest".to_string(),
            ..Default::default()
        }]),
    };

    let diff = worlds.build_diff_world();

    assert_eq!(0, diff.containers_exists_but_should_not_exists().len());
    assert_eq!(1, diff.containers_does_not_exists_but_should_exists().len());
}

#[test]
fn build_world_diff_one_container_too_much() {
    let worlds = Worlds {
        expected: World::new(vec![WorldContainer {
            container_port: 80,
            image: "foo:latest".to_string(),
            ..Default::default()
        }]),
        current: World::new(vec![
            WorldContainer {
                container_port: 80,
                image: "foo:latest".to_string(),
                ..Default::default()
            },
            WorldContainer {
                container_port: 80,
                image: "foo:latest".to_string(),
                ..Default::default()
            },
        ]),
    };

    let diff = worlds.build_diff_world();

    assert_eq!(1, diff.containers_exists_but_should_not_exists().len());
    assert_eq!(0, diff.containers_does_not_exists_but_should_exists().len());
}

#[test]
fn build_world_diff_distinct_keys_do_not_match() {
    let worlds = Worlds {
        expected: World::new(vec![container("foo:latest", 80)]),
        current: World::new(vec![container("bar:latest", 80)]),
    };

    let diff = worlds.build_diff_world();

    assert_eq!(1, diff.containers_exists_but_should_not_exists().len());
    assert_eq!(1, diff.containers_does_not_exists_but_should_exists().len());
    assert_eq!("bar:latest", diff.containers_exists_but_should_not_exists()[0].image);
    assert_eq!("foo:latest", diff.containers_does_not_exists_but_should_exists()[0].image);
}

#[test]
fn get_identifier_formats_the_domain_key() {
    let mut c = container("foo:latest", 80);
    c.name = "web".to_string();
    c.replica_id = 2;
    assert_eq!("web|foo:latest|2|80", c.get_identifier());
}

#[test]
fn brain_starts_the_first_missing_container() {
    let worlds = Worlds {
        expected: World::new(vec![container("foo:latest", 80)]),
        current: World::new(vec![]),
    };

    let action = Brain::think_about_next_action(&worlds).unwrap();
    match action {
        BrainAction::ContainersStart(v) => {
            assert_eq!(1, v.len());
            assert_eq!("foo:latest", v[0].container_world.image);
        },
        _ => panic!("expected a start action"),
    }
}

#[test]
fn brain_stops_an_extra_container_when_nothing_is_missing() {
    let mut extra = container("foo:latest", 80);
    extra.container_id = Some(ContainerId::new("abc123".to_string()));
    let worlds = Worlds {
        expected: World::new(vec![]),
        current: World::new(vec![extra]),
    };

    let action = Brain::think_about_next_action(&worlds).unwrap();
    match action {
        BrainAction::ContainersStop(v) => {
            assert_eq!(1, v.len());
            assert_eq!("abc123", v[0].id.as_str());
            assert_eq!("foo:latest", v[0].image);
        },
        _ => panic!("expected a stop action"),
    }
}

#[test]
fn brain_prefers_starting_over_stopping() {
    let mut extra = container("bar:latest", 80);
    extra.container_id = Some(ContainerId::new("abc123".to_string()));
    let worlds = Worlds {
        expected: World::new(vec![container("foo:latest", 80)]),
        current: World::new(vec![extra]),
    };

    let action = Brain::think_about_next_action(&worlds).unwrap();
    assert!(matches!(action, BrainAction::ContainersStart(_)));
}

#[test]
fn brain_is_idle_when_worlds_match() {
    let worlds = Worlds {
        expected: World::new(vec![container("foo:latest", 80)]),
        current: World::new(vec![container("foo:latest", 80)]),
    };

    let action = Brain::think_about_next_action(&worlds).unwrap();
    assert!(matches!(action, BrainAction::NoOp));
}

#[test]
fn brain_reports_an_extra_container_without_id() {
    let worlds = Worlds {
        expected: World::new(vec![]),
        current: World::new(vec![container("foo:latest", 80)]),
    };

    let err = Brain::think_about_next_action(&worlds).unwrap_err();
    assert_eq!(BrainError::StopWithoutContainerId, err);
}

#[test]
fn container_stop_requires_an_id() {
    let c = container("foo:latest", 80);
    assert!(ContainerStop::new_from_world_container(&c).is_err());

    let mut with_id = container("foo:latest", 80);
    with_id.container_id = Some(ContainerId::new("abc".to_string()));
    let stop = ContainerStop::new_from_world_container(&with_id).unwrap();
    assert_eq!("abc", stop.id.as_str());

    let start = ContainerStart::new_from_world_container(&with_id);
    assert_eq!("foo:latest", start.container_world.image);
}
