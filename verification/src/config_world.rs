//! Building the expected world from the configuration: one world entry
//! per configured container replica.
use vstd::prelude::*;
use crate::config::{Config, ConfigContainerView};
use crate::seqs::lemma_map_values_push;
use crate::text::clone_string_vec;
use crate::world::{World, WorldContainer, WorldContainerView, world_view};

verus! {

/// The world entry a configured replica declares: no runtime id and no
/// observed port yet, only the declared attributes.
pub open spec fn spec_world_entry_from_config(c: ConfigContainerView) -> WorldContainerView {
    WorldContainerView {
        container_id: None,
        name: c.name,
        image: c.image,
        replica_id: c.replica_id,
        container_port: c.container_port,
        container_port_dynamic_host: None,
        health_checks: c.health_checks,
        proxies: c.proxies,
    }
}

/// The expected world: one entry per configured replica, in
/// configuration order.
pub fn build_world_from_config(config: &Config) -> (r: World)
    ensures
        r@ == config@.container.map_values(|c: ConfigContainerView| spec_world_entry_from_config(c)),
{
    let ghost target = config@.container.map_values(
        |c: ConfigContainerView| spec_world_entry_from_config(c),
    );
    let mut containers: Vec<WorldContainer> = Vec::new();
    let mut i: usize = 0;
    while i < config.container.len()
        invariant
            0 <= i <= config.container@.len(),
            target == config@.container.map_values(
                |c: ConfigContainerView| spec_world_entry_from_config(c),
            ),
            world_view(containers@) =~= target.take(i as int),
        decreases config.container@.len() - i,
    {
        let c = &config.container[i];
        let entry = WorldContainer {
            container_id: None,
            container_port_dynamic_host: None,
            name: c.name.clone(),
            image: c.image.clone(),
            replica_id: c.replica_id,
            container_port: c.container_port,
            health_checks: clone_string_vec(&c.health_checks),
            proxies: clone_string_vec(&c.proxies),
        };
        proof {
            assert(config@.container[i as int] == c@);
            assert(entry@ == target[i as int]);
            lemma_map_values_push(containers@, entry, |x: WorldContainer| x@);
        }
        containers.push(entry);
        i = i + 1;
    }
    proof {
        assert(world_view(containers@) =~= target);
    }
    World::new(containers)
}

} // verus!
