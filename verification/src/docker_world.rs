//! Building the current world from a scan of the container runtime.
//!
//! The runtime's listing is handed in as plain values: per container its
//! runtime id, state, labels, and published ports.  Ownership is decided
//! by a fixed label; every declared attribute is reconstructed from labels,
//! so no private database is needed.  A container that is marked to be
//! deleted in the shared store is excluded from the world even when the
//! runtime still lists it.  A malformed owned container is skipped for the
//! tick and reported, never fatal.
use vstd::prelude::*;
use crate::alist::{alist_lookup, lemma_alist_lookup_at, lemma_alist_lookup_none};
use crate::container_id::ContainerId;
use crate::kv::KV;
use crate::seqs::{lemma_skip_drop_first, lemma_map_values_push};
use crate::text::{is_digit_seq, parse_u32, spec_digits_val, spec_split, split_on_char, str_eq};
use crate::world::{World, WorldContainer, WorldContainerView, world_view};

verus! {

/// What the runtime reports about one container, as plain values.
#[derive(Debug)]
pub struct RuntimeContainer {
    /// The runtime-assigned container id.
    pub id: Option<String>,
    /// The runtime's lifecycle state word, such as `running` or `exited`.
    pub state: Option<String>,
    /// The container's labels.
    pub labels: Vec<(String, String)>,
    /// The host port, if any, published for each exposed port, in the
    /// runtime's order; absent when the runtime reported no port list.
    pub public_ports: Option<Vec<Option<u32>>>,
}

/// An owned, live container found in the runtime listing.
pub struct DockerRunningContainerInfo {
    pub container_id: ContainerId,
}

/// Why an owned container could not be turned into a world entry.
#[derive(Debug, Clone, PartialEq, Eq)]
pub enum DockerWorldError {
    /// The runtime reported no id.
    NoId,
    /// The name label is missing.
    NoNameLabel,
    /// The image label is missing.
    NoImageLabel,
    /// The replica-id label is missing.
    NoReplicaIdLabel,
    /// The replica-id label does not read as a number.
    InvalidReplicaId,
    /// The container-port label is missing.
    NoContainerPortLabel,
    /// The container-port label does not read as a number.
    InvalidContainerPort,
    /// The health-checks label is missing.
    NoHealthChecksLabel,
    /// The proxies label is missing.
    NoProxiesLabel,
    /// The runtime reported no port list.
    NoPorts,
    /// The runtime's port list is empty.
    NoFirstPort,
    /// The first exposed port has no published host port.
    PublicPortNotGiven,
}

/// The value of a label, if the container carries it.
pub open spec fn spec_label(c: RuntimeContainer, key: Seq<char>) -> Option<String> {
    alist_lookup(c.labels@, key)
}

/// Does the fixed ownership label mark this container as managed here?
pub open spec fn spec_owned(c: RuntimeContainer) -> bool {
    match spec_label(c, "easyharun"@) {
        Some(v) => v@ == "1.0.0"@,
        None => false,
    }
}

/// The runtime states under which a container takes part in
/// reconciliation.
pub open spec fn state_accepted(st: Seq<char>) -> bool {
    st == "running"@ || st == "restarting"@ || st == "paused"@ || st == "created"@
}

/// Does this container belong to the current world: owned, in an accepted
/// state, identified, and not marked to be deleted?
pub open spec fn spec_visible(c: RuntimeContainer, kv: KV) -> bool {
    &&& spec_owned(c)
    &&& c.state is Some
    &&& state_accepted(c.state.unwrap()@)
    &&& c.id is Some
    &&& !kv.spec_deleted(c.id.unwrap()@)
}

/// The published host port of the first exposed port, or why there is
/// none.
pub open spec fn spec_dynamic_port(c: RuntimeContainer) -> Result<int, DockerWorldError> {
    match c.public_ports {
        None => Err(DockerWorldError::NoPorts),
        Some(ports) => {
            if ports@.len() == 0 {
                Err(DockerWorldError::NoFirstPort)
            } else {
                match ports@[0] {
                    None => Err(DockerWorldError::PublicPortNotGiven),
                    Some(p) => Ok(p as int),
                }
            }
        },
    }
}

/// Does this label value read as a `u32`?
pub open spec fn label_parses_u32(v: String) -> bool {
    is_digit_seq(v@) && spec_digits_val(v@) <= u32::MAX
}

/// The world entry an owned container's labels and ports describe, or why
/// they describe none.
pub open spec fn spec_build_container(c: RuntimeContainer) -> Result<
    WorldContainerView,
    DockerWorldError,
> {
    if c.id is None {
        Err(DockerWorldError::NoId)
    } else if spec_label(c, "easyharun_name"@) is None {
        Err(DockerWorldError::NoNameLabel)
    } else if spec_label(c, "easyharun_image"@) is None {
        Err(DockerWorldError::NoImageLabel)
    } else if spec_label(c, "easyharun_replica_id"@) is None {
        Err(DockerWorldError::NoReplicaIdLabel)
    } else if !label_parses_u32(spec_label(c, "easyharun_replica_id"@).unwrap()) {
        Err(DockerWorldError::InvalidReplicaId)
    } else if spec_label(c, "easyharun_container_port"@) is None {
        Err(DockerWorldError::NoContainerPortLabel)
    } else if !label_parses_u32(spec_label(c, "easyharun_container_port"@).unwrap()) {
        Err(DockerWorldError::InvalidContainerPort)
    } else if spec_label(c, "easyharun_health_checks"@) is None {
        Err(DockerWorldError::NoHealthChecksLabel)
    } else if spec_label(c, "easyharun_proxies"@) is None {
        Err(DockerWorldError::NoProxiesLabel)
    } else {
        match spec_dynamic_port(c) {
            Err(e) => Err(e),
            Ok(p) => Ok(
                WorldContainerView {
                    container_id: Some(c.id.unwrap()@),
                    name: spec_label(c, "easyharun_name"@).unwrap()@,
                    image: spec_label(c, "easyharun_image"@).unwrap()@,
                    replica_id: spec_digits_val(spec_label(c, "easyharun_replica_id"@).unwrap()@),
                    container_port: spec_digits_val(
                        spec_label(c, "easyharun_container_port"@).unwrap()@,
                    ),
                    container_port_dynamic_host: Some(p),
                    health_checks: spec_split(
                        spec_label(c, "easyharun_health_checks"@).unwrap()@,
                        ',',
                    ),
                    proxies: spec_split(spec_label(c, "easyharun_proxies"@).unwrap()@, ','),
                },
            ),
        }
    }
}

/// The world a runtime listing describes: one entry per visible container
/// whose labels are well formed, in listing order.
pub open spec fn spec_scan_world(cs: Seq<RuntimeContainer>, kv: KV) -> Seq<WorldContainerView>
    decreases cs.len(),
{
    if cs.len() == 0 {
        Seq::empty()
    } else {
        let rest = spec_scan_world(cs.drop_first(), kv);
        if spec_visible(cs[0], kv) {
            match spec_build_container(cs[0]) {
                Ok(wv) => seq![wv] + rest,
                Err(_) => rest,
            }
        } else {
            rest
        }
    }
}

/// The reports of the visible containers that were skipped for malformed
/// labels or ports, in listing order.
pub open spec fn spec_scan_errors(cs: Seq<RuntimeContainer>, kv: KV) -> Seq<DockerWorldError>
    decreases cs.len(),
{
    if cs.len() == 0 {
        Seq::empty()
    } else {
        let rest = spec_scan_errors(cs.drop_first(), kv);
        if spec_visible(cs[0], kv) {
            match spec_build_container(cs[0]) {
                Ok(_) => rest,
                Err(e) => seq![e] + rest,
            }
        } else {
            rest
        }
    }
}

/// A container marked to be deleted never appears in a built world: every
/// entry carries an id, and that id is not marked.
pub proof fn lemma_scan_excludes_deleted(cs: Seq<RuntimeContainer>, kv: KV)
    ensures
        forall|j: int|
            0 <= j < spec_scan_world(cs, kv).len() ==> (#[trigger] spec_scan_world(cs, kv)[j]).container_id is Some
                && !kv.spec_deleted(spec_scan_world(cs, kv)[j].container_id.unwrap()),
    decreases cs.len(),
{
    if cs.len() > 0 {
        lemma_scan_excludes_deleted(cs.drop_first(), kv);
        let rest = spec_scan_world(cs.drop_first(), kv);
        if spec_visible(cs[0], kv) && spec_build_container(cs[0]) is Ok {
            let wv = spec_build_container(cs[0]).unwrap();
            assert(wv.container_id == Some(cs[0].id.unwrap()@));
            assert forall|j: int| 0 <= j < spec_scan_world(cs, kv).len() implies (
            #[trigger] spec_scan_world(cs, kv)[j]).container_id is Some && !kv.spec_deleted(
                spec_scan_world(cs, kv)[j].container_id.unwrap(),
            ) by {
                if j == 0 {
                    assert(spec_scan_world(cs, kv)[0] == wv);
                } else {
                    assert(spec_scan_world(cs, kv)[j] == rest[j - 1]);
                }
            }
        }
    }
}

/// The value of a label, cloned out of the label list.
fn label_get(labels: &Vec<(String, String)>, key: &str) -> (r: Option<String>)
    ensures
        match r {
            Some(v) => alist_lookup(labels@, key@) is Some && v@ == alist_lookup(
                labels@,
                key@,
            ).unwrap()@,
            None => alist_lookup(labels@, key@) is None,
        },
{
    let mut j: usize = 0;
    while j < labels.len()
        invariant
            0 <= j <= labels@.len(),
            forall|jj: int| 0 <= jj < j ==> labels@[jj].0@ != key@,
        decreases labels@.len() - j,
    {
        if str_eq(labels[j].0.as_str(), key) {
            proof {
                lemma_alist_lookup_at(labels@, key@, j as int);
            }
            return Some(labels[j].1.clone());
        }
        j = j + 1;
    }
    proof {
        lemma_alist_lookup_none(labels@, key@);
    }
    None
}

/// Is this state word one under which a container takes part?
fn accepted_state(st: &str) -> (r: bool)
    ensures
        r == state_accepted(st@),
{
    str_eq(st, "running") || str_eq(st, "restarting") || str_eq(st, "paused") || str_eq(
        st,
        "created",
    )
}

/// Decide whether a listed container belongs to the current world, and
/// under which id.  Containers not owned here, in a finished or unknown
/// state, without an id, or already marked to be deleted are not part of
/// it.
pub fn docker_container_info(container: &RuntimeContainer, kv: &KV) -> (r: Option<
    DockerRunningContainerInfo,
>)
    ensures
        match r {
            Some(info) => spec_visible(*container, *kv) && info.container_id@
                == container.id.unwrap()@,
            None => !spec_visible(*container, *kv),
        },
{
    match label_get(&container.labels, "easyharun") {
        Some(v) => {
            if !str_eq(v.as_str(), "1.0.0") {
                return None;
            }
        },
        None => { return None },
    }
    match &container.state {
        Some(st) => {
            if !accepted_state(st.as_str()) {
                return None;
            }
        },
        None => { return None },
    }
    let container_id = match &container.id {
        Some(id) => ContainerId::new(id.clone()),
        None => { return None },
    };
    if kv.is_container_marked_to_be_deleted(&container_id) {
        return None;
    }
    Some(DockerRunningContainerInfo { container_id })
}

/// The published host port of the first exposed port.
pub fn extract_dynamic_port_form_container(container: &RuntimeContainer) -> (r: Result<
    u32,
    DockerWorldError,
>)
    ensures
        match r {
            Ok(p) => spec_dynamic_port(*container) == Ok::<int, DockerWorldError>(p as int),
            Err(e) => spec_dynamic_port(*container) == Err::<int, DockerWorldError>(e),
        },
{
    match &container.public_ports {
        None => Err(DockerWorldError::NoPorts),
        Some(ports) => {
            if ports.len() == 0 {
                Err(DockerWorldError::NoFirstPort)
            } else {
                match ports[0] {
                    None => Err(DockerWorldError::PublicPortNotGiven),
                    Some(p) => Ok(p),
                }
            }
        },
    }
}

/// Build one world entry from a listed container's labels and ports, or
/// report why its metadata is malformed.
pub fn build_world_container(container: &RuntimeContainer) -> (r: Result<
    Option<WorldContainer>,
    DockerWorldError,
>)
    ensures
        match r {
            Ok(opt) => opt is Some && spec_build_container(*container) == Ok::<
                WorldContainerView,
                DockerWorldError,
            >(opt.unwrap()@),
            Err(e) => spec_build_container(*container) == Err::<WorldContainerView, DockerWorldError>(e),
        },
{
    let container_id = match &container.id {
        Some(id) => ContainerId::new(id.clone()),
        None => { return Err(DockerWorldError::NoId) },
    };
    let name = match label_get(&container.labels, "easyharun_name") {
        Some(s) => s,
        None => { return Err(DockerWorldError::NoNameLabel) },
    };
    let image = match label_get(&container.labels, "easyharun_image") {
        Some(s) => s,
        None => { return Err(DockerWorldError::NoImageLabel) },
    };
    let replica_id = match label_get(&container.labels, "easyharun_replica_id") {
        Some(s) => match parse_u32(s.as_str()) {
            Some(v) => v,
            None => { return Err(DockerWorldError::InvalidReplicaId) },
        },
        None => { return Err(DockerWorldError::NoReplicaIdLabel) },
    };
    let container_port = match label_get(&container.labels, "easyharun_container_port") {
        Some(s) => match parse_u32(s.as_str()) {
            Some(v) => v,
            None => { return Err(DockerWorldError::InvalidContainerPort) },
        },
        None => { return Err(DockerWorldError::NoContainerPortLabel) },
    };
    let health_checks = match label_get(&container.labels, "easyharun_health_checks") {
        Some(s) => split_on_char(s.as_str(), ','),
        None => { return Err(DockerWorldError::NoHealthChecksLabel) },
    };
    let proxies = match label_get(&container.labels, "easyharun_proxies") {
        Some(s) => split_on_char(s.as_str(), ','),
        None => { return Err(DockerWorldError::NoProxiesLabel) },
    };
    let container_port_dynamic_host = match extract_dynamic_port_form_container(container) {
        Ok(p) => p,
        Err(e) => { return Err(e) },
    };
    Ok(
        Some(
            WorldContainer {
                container_id: Some(container_id),
                name,
                image,
                replica_id,
                container_port,
                container_port_dynamic_host: Some(container_port_dynamic_host),
                health_checks,
                proxies,
            },
        ),
    )
}

/// Build the current world from a runtime listing: one entry per visible,
/// well-formed container.  The reports of the visible containers whose
/// metadata was malformed come back beside the world; they are skipped for
/// this tick, not fatal.
pub fn build_world_from_docker(containers: &Vec<RuntimeContainer>, kv: &KV) -> (r: (
    World,
    Vec<DockerWorldError>,
))
    ensures
        r.0@ == spec_scan_world(containers@, *kv),
        r.1@ == spec_scan_errors(containers@, *kv),
{
    let mut world_containers: Vec<WorldContainer> = Vec::new();
    let mut errors: Vec<DockerWorldError> = Vec::new();
    let mut i: usize = 0;
    proof {
        assert(containers@.skip(0) =~= containers@);
    }
    while i < containers.len()
        invariant
            0 <= i <= containers@.len(),
            spec_scan_world(containers@, *kv) =~= world_view(world_containers@) + spec_scan_world(
                containers@.skip(i as int),
                *kv,
            ),
            spec_scan_errors(containers@, *kv) =~= errors@ + spec_scan_errors(
                containers@.skip(i as int),
                *kv,
            ),
        decreases containers@.len() - i,
    {
        let container = &containers[i];
        proof {
            lemma_skip_drop_first(containers@, i as int);
            assert(containers@.skip(i as int)[0] == *container);
        }
        match docker_container_info(container, kv) {
            None => {},
            Some(_) => {
                match build_world_container(container) {
                    Err(e) => {
                        proof {
                            assert((errors@.push(e)) + spec_scan_errors(
                                containers@.skip(i as int + 1),
                                *kv,
                            ) =~= errors@ + (seq![e] + spec_scan_errors(
                                containers@.skip(i as int + 1),
                                *kv,
                            )));
                        }
                        errors.push(e);
                    },
                    Ok(Some(c)) => {
                        proof {
                            lemma_map_values_push(world_containers@, c, |x: WorldContainer| x@);
                            assert((world_view(world_containers@).push(c@)) + spec_scan_world(
                                containers@.skip(i as int + 1),
                                *kv,
                            ) =~= world_view(world_containers@) + (seq![c@] + spec_scan_world(
                                containers@.skip(i as int + 1),
                                *kv,
                            )));
                        }
                        world_containers.push(c);
                    },
                    Ok(None) => {},
                }
            },
        }
        i = i + 1;
    }
    proof {
        assert(containers@.skip(i as int).len() == 0);
        assert(world_view(world_containers@) + spec_scan_world(containers@.skip(i as int), *kv)
            =~= world_view(world_containers@));
        assert(errors@ + spec_scan_errors(containers@.skip(i as int), *kv) =~= errors@);
    }
    (World::new(world_containers), errors)
}

} // verus!
