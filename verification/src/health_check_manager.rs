//! The health-check lifecycle manager: one check task per (container,
//! declared check) pair.
//!
//! On each tick the manager diffs the set of containers whose checks are
//! running against the containers of the live world: containers that
//! appeared get one task per declared check spawned, containers that
//! disappeared get all their tasks killed.  The manager decides; spawning
//! and killing the actual tasks, and the timers, happen outside, driven by
//! the plan this module returns.  A check name that the configuration does
//! not resolve is a warning and that check is skipped, not retried faster
//! and never fatal.
use vstd::prelude::*;
use crate::alist::{vlist_lookup, lemma_vlist_lookup_none, lemma_vlist_lookup_at};
use crate::config::{Config, ConfigView, ConfigFileHealthCheckView};
use crate::container_id::ContainerId;
use crate::health_check::{HealthCheckHttpConfig, HealthCheckHttpConfigView, HealthCheckMsgRecv,
    HealthCheckType, HealthCheckTypeView};
use crate::kv::KV;
use crate::seqs::{lemma_skip_drop_first, lemma_map_values_push};
use crate::text::{replace_substr, spec_dec, spec_replace, str_eq, u32_to_dec};
use crate::world::{World, WorldContainer, WorldContainerView};

verus! {

/// Why a declared check could not be built.
#[derive(Debug, Clone, PartialEq, Eq)]
pub enum HealthCheckError {
    /// The declared check name is not in the configuration.
    CheckNotInConfig,
    /// The configured check kind is not one this manager knows.
    UnknownCheckType,
    /// The container carries no runtime id to report on.
    NoContainerId,
    /// The container has no observed dynamic host port to substitute into
    /// the probe URL.
    NoDynamicHostPort,
}

/// The model of one tracked container: its id and its named checks.
pub struct TrackedChecksView {
    pub container_id: Seq<char>,
    pub checks: Seq<(Seq<char>, HealthCheckTypeView)>,
}

/// The model of a tracked-checks list as an association list.
pub open spec fn tracked_pairs(s: Seq<TrackedChecksView>) -> Seq<
    (Seq<char>, Seq<(Seq<char>, HealthCheckTypeView)>),
> {
    s.map_values(|e: TrackedChecksView| (e.container_id, e.checks))
}

/// The checks tracked for a container id, if it is tracked.
pub open spec fn tracked_lookup(s: Seq<TrackedChecksView>, id: Seq<char>) -> Option<
    Seq<(Seq<char>, HealthCheckTypeView)>,
> {
    vlist_lookup(tracked_pairs(s), id)
}

/// The first configured health check of this name, if any.
pub open spec fn spec_find_check(
    hc: Seq<ConfigFileHealthCheckView>,
    name: Seq<char>,
) -> Option<ConfigFileHealthCheckView>
    decreases hc.len(),
{
    if hc.len() == 0 {
        None
    } else if hc[0].name == name {
        Some(hc[0])
    } else {
        spec_find_check(hc.drop_first(), name)
    }
}

/// The probe URL a template reads as for a given dynamic host port: the
/// spacing inside moustaches is normalised, then the dynamic-host-port
/// placeholder is substituted.
pub open spec fn spec_template(t: Seq<char>, port: int) -> Seq<char> {
    spec_replace(
        spec_replace(spec_replace(t, "{{ "@, "{{"@), " }}"@, "}}"@),
        "{{container.port_dynamic_host}}"@,
        spec_dec(port),
    )
}

/// The check a declared name resolves to for a container, or why it
/// resolves to none: the name must be configured, the container must carry
/// a runtime id, the configured kind must be known, and an HTTP check
/// needs the observed dynamic host port for its URL.
pub open spec fn spec_build_check(
    wc: WorldContainerView,
    name: Seq<char>,
    config: ConfigView,
) -> Result<HealthCheckTypeView, HealthCheckError> {
    match spec_find_check(config.health_check, name) {
        None => Err(HealthCheckError::CheckNotInConfig),
        Some(chk) => {
            if wc.container_id is None {
                Err(HealthCheckError::NoContainerId)
            } else if chk.check == "http"@ {
                match wc.container_port_dynamic_host {
                    None => Err(HealthCheckError::NoDynamicHostPort),
                    Some(port) => Ok(
                        HealthCheckTypeView::Http(
                            HealthCheckHttpConfigView {
                                container_id: wc.container_id.unwrap(),
                                url: spec_template(chk.url, port),
                                timeout_ms: chk.timeout_ms,
                            },
                        ),
                    ),
                }
            } else {
                Err(HealthCheckError::UnknownCheckType)
            }
        },
    }
}

/// The checks a container's declared names build to, and the warnings for
/// the names that build to none.
pub open spec fn spec_checks_list(
    names: Seq<Seq<char>>,
    wc: WorldContainerView,
    config: ConfigView,
) -> (Seq<(Seq<char>, HealthCheckTypeView)>, Seq<HealthCheckError>)
    decreases names.len(),
{
    if names.len() == 0 {
        (Seq::empty(), Seq::empty())
    } else {
        let rest = spec_checks_list(names.drop_first(), wc, config);
        match spec_build_check(wc, names[0], config) {
            Ok(cv) => (seq![(names[0], cv)] + rest.0, rest.1),
            Err(e) => (rest.0, seq![e] + rest.1),
        }
    }
}

/// The checks a container declares, built against the configuration.
pub open spec fn spec_checks_for(wc: WorldContainerView, config: ConfigView) -> (
    Seq<(Seq<char>, HealthCheckTypeView)>,
    Seq<HealthCheckError>,
) {
    spec_checks_list(wc.health_checks, wc, config)
}

/// Does some container of the world carry this runtime id?
pub open spec fn id_in_world(w: Seq<WorldContainerView>, id: Seq<char>) -> bool {
    exists|i: int| 0 <= i < w.len() && w[i].container_id == Some(id)
}

/// The removal pass: tracked containers that are no longer in the world
/// are dropped, and each of their checks receives a kill.  Returns the
/// tracked entries that stay and the (container id, check name) kills, in
/// tracked order.
pub open spec fn spec_remove_pass(s: Seq<TrackedChecksView>, w: Seq<WorldContainerView>) -> (
    Seq<TrackedChecksView>,
    Seq<(Seq<char>, Seq<char>)>,
)
    decreases s.len(),
{
    if s.len() == 0 {
        (Seq::empty(), Seq::empty())
    } else {
        let rest = spec_remove_pass(s.drop_first(), w);
        if id_in_world(w, s[0].container_id) {
            (seq![s[0]] + rest.0, rest.1)
        } else {
            (
                rest.0,
                s[0].checks.map_values(|c: (Seq<char>, HealthCheckTypeView)| (s[0].container_id, c.0))
                    + rest.1,
            )
        }
    }
}

/// The insertion pass: world containers whose id is not yet tracked get
/// their declared checks built and tracked, each built check a spawn and
/// each unresolvable name a warning, in world order.  A container without
/// an id, or an id already tracked, is left alone.
pub open spec fn spec_insert_pass(
    w: Seq<WorldContainerView>,
    s: Seq<TrackedChecksView>,
    config: ConfigView,
) -> (Seq<TrackedChecksView>, Seq<(Seq<char>, Seq<char>, HealthCheckTypeView)>, Seq<
    HealthCheckError,
>)
    decreases w.len(),
{
    if w.len() == 0 {
        (s, Seq::empty(), Seq::empty())
    } else {
        let c = w[0];
        if c.container_id is Some && tracked_lookup(s, c.container_id.unwrap()) is None {
            let id = c.container_id.unwrap();
            let built = spec_checks_for(c, config);
            let rest = spec_insert_pass(
                w.drop_first(),
                s.push(TrackedChecksView { container_id: id, checks: built.0 }),
                config,
            );
            (
                rest.0,
                built.0.map_values(|ck: (Seq<char>, HealthCheckTypeView)| (id, ck.0, ck.1))
                    + rest.1,
                built.1 + rest.2,
            )
        } else {
            spec_insert_pass(w.drop_first(), s, config)
        }
    }
}

/// An instruction to start one check task.
pub struct HealthCheckSpawn {
    pub container_id: ContainerId,
    pub check_name: String,
    pub check: HealthCheckType,
}

/// An instruction to kill one check task.
pub struct HealthCheckKill {
    pub container_id: ContainerId,
    pub check_name: String,
}

/// What one reconciliation pass asks the outside to do.
pub struct HealthCheckPlan {
    pub spawns: Vec<HealthCheckSpawn>,
    pub kills: Vec<HealthCheckKill>,
    pub warnings: Vec<HealthCheckError>,
}

/// The model of a spawn list.
pub open spec fn spawns_view(v: Seq<HealthCheckSpawn>) -> Seq<
    (Seq<char>, Seq<char>, HealthCheckTypeView),
> {
    v.map_values(|s: HealthCheckSpawn| (s.container_id@, s.check_name@, s.check@))
}

/// The model of a kill list.
pub open spec fn kills_view(v: Seq<HealthCheckKill>) -> Seq<(Seq<char>, Seq<char>)> {
    v.map_values(|k: HealthCheckKill| (k.container_id@, k.check_name@))
}

/// The model of a named-check list.
pub open spec fn checks_view(v: Seq<(String, HealthCheckType)>) -> Seq<
    (Seq<char>, HealthCheckTypeView),
> {
    v.map_values(|p: (String, HealthCheckType)| (p.0@, p.1@))
}

/// The keeper of the per-container check tasks.
pub struct HealthCheckManager {
    health_checks: Vec<(ContainerId, Vec<(String, HealthCheckType)>)>,
}

/// The model of the manager's bookkeeping.
pub open spec fn entries_view(v: Seq<(ContainerId, Vec<(String, HealthCheckType)>)>) -> Seq<
    TrackedChecksView,
> {
    v.map_values(
        |e: (ContainerId, Vec<(String, HealthCheckType)>)|
            TrackedChecksView { container_id: e.0@, checks: checks_view(e.1@) },
    )
}

impl HealthCheckManager {
    /// The containers whose checks are tracked as running, with their
    /// checks.
    pub closed spec fn spec_tracked(&self) -> Seq<TrackedChecksView> {
        entries_view(self.health_checks@)
    }

    pub fn new() -> (r: Self)
        ensures
            r.spec_tracked().len() == 0,
    {
        Self { health_checks: Vec::new() }
    }

    /// Record one check task's report in the shared store: a failure marks
    /// the target unhealthy, a success marks it healthy, both debounced.
    pub fn run_inner_got_msg(&self, kv: &mut KV, msg: HealthCheckMsgRecv)
        ensures
            match msg {
                HealthCheckMsgRecv::CheckFailed(m) => kv_marked(*old(kv), *final(kv), m.container_id@, m.target@, false),
                HealthCheckMsgRecv::CheckOk(m) => kv_marked(*old(kv), *final(kv), m.container_id@, m.target@, true),
            },
    {
        match msg {
            HealthCheckMsgRecv::CheckFailed(m) => {
                kv.mark_container_target_healthy(&m.container_id, m.target.as_str(), false);
            },
            HealthCheckMsgRecv::CheckOk(m) => {
                kv.mark_container_target_healthy(&m.container_id, m.target.as_str(), true);
            },
        }
    }

    /// The probe URL for a container: the configured template with the
    /// container's dynamic host port substituted.  A container that has no
    /// dynamic host port yet cannot be probed.
    pub fn template_parse_world_container(template: &str, world_container: &WorldContainer) -> (r:
        Result<String, HealthCheckError>)
        ensures
            match r {
                Ok(s) => world_container@.container_port_dynamic_host is Some && s@
                    == spec_template(
                    template@,
                    world_container@.container_port_dynamic_host.unwrap(),
                ),
                Err(e) => world_container@.container_port_dynamic_host is None && e
                    == HealthCheckError::NoDynamicHostPort,
            },
    {
        let port = match world_container.container_port_dynamic_host {
            Some(p) => p,
            None => { return Err(HealthCheckError::NoDynamicHostPort) },
        };
        let normalised = replace_substr(
            replace_substr(template, "{{ ", "{{").as_str(),
            " }}",
            "}}",
        );
        let port_str = u32_to_dec(port);
        Ok(
            replace_substr(
                normalised.as_str(),
                "{{container.port_dynamic_host}}",
                port_str.as_str(),
            ),
        )
    }

    /// Resolve one declared check name against the configuration and build
    /// the check for this container.
    pub fn build_health_check(
        &self,
        world_container: &WorldContainer,
        health_check_name: &str,
        config: &Config,
    ) -> (r: Result<HealthCheckType, HealthCheckError>)
        ensures
            match r {
                Ok(c) => spec_build_check(world_container@, health_check_name@, config@) == Ok::<
                    HealthCheckTypeView,
                    HealthCheckError,
                >(c@),
                Err(e) => spec_build_check(world_container@, health_check_name@, config@) == Err::<
                    HealthCheckTypeView,
                    HealthCheckError,
                >(e),
            },
    {
        let config_health_check = match find_health_check(&config.health_check, health_check_name) {
            Some(j) => &config.health_check[j],
            None => { return Err(HealthCheckError::CheckNotInConfig) },
        };
        let container_id = match &world_container.container_id {
            Some(id) => id,
            None => { return Err(HealthCheckError::NoContainerId) },
        };
        if str_eq(config_health_check.check.as_str(), "http") {
            let url = match Self::template_parse_world_container(
                config_health_check.url.as_str(),
                world_container,
            ) {
                Ok(u) => u,
                Err(e) => { return Err(e) },
            };
            Ok(
                HealthCheckType::HealthCheckTypeHttp(
                    HealthCheckHttpConfig {
                        container_id: container_id.clone(),
                        url,
                        timeout_ms: config_health_check.timeout_ms,
                    },
                ),
            )
        } else {
            Err(HealthCheckError::UnknownCheckType)
        }
    }

    /// Build all checks a container declares; unresolvable names become
    /// warnings, and the container keeps the checks that did build.
    pub fn build_health_checks_for_container(
        &self,
        world_container: &WorldContainer,
        config: &Config,
    ) -> (r: (Vec<(String, HealthCheckType)>, Vec<HealthCheckError>))
        ensures
            checks_view(r.0@) == spec_checks_for(world_container@, config@).0,
            r.1@ == spec_checks_for(world_container@, config@).1,
    {
        let names = &world_container.health_checks;
        let ghost gnames = world_container@.health_checks;
        let mut buf: Vec<(String, HealthCheckType)> = Vec::new();
        let mut warns: Vec<HealthCheckError> = Vec::new();
        let mut i: usize = 0;
        proof {
            assert(gnames.skip(0) =~= gnames);
        }
        while i < names.len()
            invariant
                0 <= i <= names@.len(),
                gnames == world_container@.health_checks,
                gnames == names@.map_values(|s: String| s@),
                spec_checks_list(gnames, world_container@, config@).0 =~= checks_view(buf@)
                    + spec_checks_list(gnames.skip(i as int), world_container@, config@).0,
                spec_checks_list(gnames, world_container@, config@).1 =~= warns@
                    + spec_checks_list(gnames.skip(i as int), world_container@, config@).1,
            decreases names@.len() - i,
        {
            let name = &names[i];
            proof {
                lemma_skip_drop_first(gnames, i as int);
                assert(gnames[i as int] == name@);
            }
            match self.build_health_check(world_container, name.as_str(), config) {
                Ok(check) => {
                    let entry = (name.clone(), check);
                    proof {
                        lemma_map_values_push(
                            buf@,
                            entry,
                            |p: (String, HealthCheckType)| (p.0@, p.1@),
                        );
                        let rest = spec_checks_list(
                            gnames.skip(i as int + 1),
                            world_container@,
                            config@,
                        );
                        assert((checks_view(buf@).push((name@, entry.1@))) + rest.0 =~= checks_view(
                            buf@,
                        ) + (seq![(gnames[i as int], entry.1@)] + rest.0));
                    }
                    buf.push(entry);
                },
                Err(e) => {
                    proof {
                        let rest = spec_checks_list(
                            gnames.skip(i as int + 1),
                            world_container@,
                            config@,
                        );
                        assert((warns@.push(e)) + rest.1 =~= warns@ + (seq![e] + rest.1));
                    }
                    warns.push(e);
                },
            }
            i = i + 1;
        }
        proof {
            assert(gnames.skip(i as int).len() == 0);
            assert(checks_view(buf@) + spec_checks_list(
                gnames.skip(i as int),
                world_container@,
                config@,
            ).0 =~= checks_view(buf@));
            assert(warns@ + spec_checks_list(gnames.skip(i as int), world_container@, config@).1
                =~= warns@);
        }
        (buf, warns)
    }
}

/// Does some container of this list carry the runtime id?
fn world_has_id(containers: &Vec<WorldContainer>, id: &ContainerId) -> (r: bool)
    ensures
        r == id_in_world(crate::world::world_view(containers@), id@),
{
    let ghost w = crate::world::world_view(containers@);
    let mut i: usize = 0;
    while i < containers.len()
        invariant
            0 <= i <= containers@.len(),
            w == crate::world::world_view(containers@),
            forall|j: int| 0 <= j < i ==> w[j].container_id != Some(id@),
        decreases containers@.len() - i,
    {
        match &containers[i].container_id {
            Some(cid) => {
                if str_eq(cid.as_str(), id.as_str()) {
                    proof {
                        assert(w[i as int].container_id == Some(id@));
                    }
                    return true;
                }
                proof {
                    assert(w[i as int].container_id != Some(id@));
                }
            },
            None => {
                proof {
                    assert(w[i as int].container_id is None);
                }
            },
        }
        i = i + 1;
    }
    false
}

/// A copy of a named-check list, modelled by the same sequence.
fn clone_checks(v: &Vec<(String, HealthCheckType)>) -> (r: Vec<(String, HealthCheckType)>)
    ensures
        checks_view(r@) == checks_view(v@),
{
    let mut r: Vec<(String, HealthCheckType)> = Vec::new();
    let mut i: usize = 0;
    while i < v.len()
        invariant
            0 <= i <= v@.len(),
            checks_view(r@) =~= checks_view(v@).take(i as int),
        decreases v@.len() - i,
    {
        let entry = (v[i].0.clone(), v[i].1.clone());
        proof {
            lemma_map_values_push(r@, entry, |p: (String, HealthCheckType)| (p.0@, p.1@));
        }
        r.push(entry);
        i = i + 1;
    }
    proof {
        assert(checks_view(r@) =~= checks_view(v@));
    }
    r
}

/// The first tracked entry of this container id, if any.
fn find_tracked(v: &Vec<(ContainerId, Vec<(String, HealthCheckType)>)>, id: &ContainerId) -> (r:
    Option<usize>)
    ensures
        match r {
            Some(j) => 0 <= j < v@.len() && v@[j as int].0@ == id@ && (forall|jj: int|
                0 <= jj < j ==> v@[jj].0@ != id@),
            None => forall|jj: int| 0 <= jj < v@.len() ==> v@[jj].0@ != id@,
        },
{
    let mut j: usize = 0;
    while j < v.len()
        invariant
            0 <= j <= v@.len(),
            forall|jj: int| 0 <= jj < j ==> v@[jj].0@ != id@,
        decreases v@.len() - j,
    {
        if str_eq(v[j].0.as_str(), id.as_str()) {
            return Some(j);
        }
        j = j + 1;
    }
    None
}

impl HealthCheckManager {
    /// One reconciliation pass: containers that disappeared from the world
    /// have their entries checks dropped, each with a kill; containers
    /// that appeared have their declared checks built and tracked, each
    /// built check with a spawn and each unresolvable name with a warning.
    /// Containers already tracked keep their checks untouched.
    pub fn run_inner_maintain_checks(&mut self, world: &World, config: &Config) -> (r:
        HealthCheckPlan)
        ensures
            ({
                let removed = spec_remove_pass(old(self).spec_tracked(), world@);
                let inserted = spec_insert_pass(world@, removed.0, config@);
                &&& final(self).spec_tracked() == inserted.0
                &&& spawns_view(r.spawns@) == inserted.1
                &&& kills_view(r.kills@) == removed.1
                &&& r.warnings@ == inserted.2
            }),
    {
        let containers = world.get_containers();
        let ghost old_tracked = self.spec_tracked();
        let ghost removed = spec_remove_pass(old_tracked, world@);

        // Removal pass: keep the tracked containers that are still in the
        // world; kill every check of the ones that are not.
        let mut kept: Vec<(ContainerId, Vec<(String, HealthCheckType)>)> = Vec::new();
        let mut kills: Vec<HealthCheckKill> = Vec::new();
        let mut i: usize = 0;
        proof {
            assert(old_tracked.skip(0) =~= old_tracked);
        }
        while i < self.health_checks.len()
            invariant
                0 <= i <= self.health_checks@.len(),
                old_tracked == entries_view(self.health_checks@),
                world@ == crate::world::world_view(containers@),
                removed == spec_remove_pass(old_tracked, world@),
                removed.0 =~= entries_view(kept@) + spec_remove_pass(
                    old_tracked.skip(i as int),
                    world@,
                ).0,
                removed.1 =~= kills_view(kills@) + spec_remove_pass(
                    old_tracked.skip(i as int),
                    world@,
                ).1,
            decreases self.health_checks@.len() - i,
        {
            proof {
                lemma_skip_drop_first(old_tracked, i as int);
            }
            let ghost e_view = old_tracked[i as int];
            let in_world = world_has_id(containers, &self.health_checks[i].0);
            proof {
                assert(e_view.container_id == self.health_checks@[i as int].0@);
            }
            if in_world {
                let entry = (
                    self.health_checks[i].0.clone(),
                    clone_checks(&self.health_checks[i].1),
                );
                proof {
                    lemma_map_values_push(
                        kept@,
                        entry,
                        |e: (ContainerId, Vec<(String, HealthCheckType)>)|
                            TrackedChecksView { container_id: e.0@, checks: checks_view(e.1@) },
                    );
                    let rest = spec_remove_pass(old_tracked.skip(i as int + 1), world@);
                    assert((entries_view(kept@).push(e_view)) + rest.0 =~= entries_view(kept@) + (
                    seq![e_view] + rest.0));
                }
                kept.push(entry);
            } else {
                // Every check of this vanished container gets a kill.
                let ghost kill_base = kills_view(kills@);
                let ghost target = e_view.checks.map_values(
                    |c: (Seq<char>, HealthCheckTypeView)| (e_view.container_id, c.0),
                );
                let checks_len = self.health_checks[i].1.len();
                let mut k: usize = 0;
                proof {
                    assert(kills_view(kills@) =~= kill_base + target.take(0));
                }
                while k < checks_len
                    invariant
                        0 <= k <= checks_len,
                        0 <= i < self.health_checks@.len(),
                        checks_len == self.health_checks@[i as int].1@.len(),
                        old_tracked == entries_view(self.health_checks@),
                        e_view == old_tracked[i as int],
                        target == e_view.checks.map_values(
                            |c: (Seq<char>, HealthCheckTypeView)| (e_view.container_id, c.0),
                        ),
                        kills_view(kills@) =~= kill_base + target.take(k as int),
                    decreases checks_len - k,
                {
                    let kill = HealthCheckKill {
                        container_id: self.health_checks[i].0.clone(),
                        check_name: self.health_checks[i].1[k].0.clone(),
                    };
                    proof {
                        lemma_map_values_push(
                            kills@,
                            kill,
                            |x: HealthCheckKill| (x.container_id@, x.check_name@),
                        );
                        assert(target[k as int] == (e_view.container_id, e_view.checks[k as int].0));
                        assert(e_view.checks[k as int].0
                            == self.health_checks@[i as int].1@[k as int].0@);
                    }
                    kills.push(kill);
                    k = k + 1;
                }
                proof {
                    assert(target.take(k as int) =~= target);
                    let rest = spec_remove_pass(old_tracked.skip(i as int + 1), world@);
                    assert((kill_base + target) + rest.1 =~= kill_base + (target + rest.1));
                }
            }
            i = i + 1;
        }
        proof {
            assert(old_tracked.skip(i as int).len() == 0);
            assert(entries_view(kept@) + spec_remove_pass(old_tracked.skip(i as int), world@).0
                =~= entries_view(kept@));
            assert(kills_view(kills@) + spec_remove_pass(old_tracked.skip(i as int), world@).1
                =~= kills_view(kills@));
        }

        // Insertion pass: build and track the checks of the containers
        // that are in the world but not yet tracked.
        let ghost inserted = spec_insert_pass(world@, removed.0, config@);
        let mut entries = kept;
        let mut spawns: Vec<HealthCheckSpawn> = Vec::new();
        let mut warnings: Vec<HealthCheckError> = Vec::new();
        let mut i2: usize = 0;
        proof {
            assert(world@.skip(0) =~= world@);
        }
        while i2 < containers.len()
            invariant
                0 <= i2 <= containers@.len(),
                world@ == crate::world::world_view(containers@),
                inserted == spec_insert_pass(world@, removed.0, config@),
                inserted.0 == spec_insert_pass(
                    world@.skip(i2 as int),
                    entries_view(entries@),
                    config@,
                ).0,
                inserted.1 =~= spawns_view(spawns@) + spec_insert_pass(
                    world@.skip(i2 as int),
                    entries_view(entries@),
                    config@,
                ).1,
                inserted.2 =~= warnings@ + spec_insert_pass(
                    world@.skip(i2 as int),
                    entries_view(entries@),
                    config@,
                ).2,
            decreases containers@.len() - i2,
        {
            let c = &containers[i2];
            proof {
                lemma_skip_drop_first(world@, i2 as int);
                assert(world@[i2 as int] == c@);
            }
            match &c.container_id {
                Some(id) => {
                    match find_tracked(&entries, id) {
                        Some(j) => {
                            proof {
                                assert(tracked_pairs(entries_view(entries@))[j as int].0 == id@);
                                assert(forall|jj: int|
                                    0 <= jj < j ==> tracked_pairs(entries_view(entries@))[jj].0
                                        != id@);
                                lemma_vlist_lookup_at(
                                    tracked_pairs(entries_view(entries@)),
                                    id@,
                                    j as int,
                                );
                            }
                        },
                        None => {
                            proof {
                                assert(forall|jj: int|
                                    0 <= jj < tracked_pairs(entries_view(entries@)).len()
                                        ==> tracked_pairs(entries_view(entries@))[jj].0 != id@);
                                lemma_vlist_lookup_none(tracked_pairs(entries_view(entries@)), id@);
                            }
                            let ghost tracked_before = entries_view(entries@);
                            let ghost built = spec_checks_for(c@, config@);
                            let (checks, mut warns2) = self.build_health_checks_for_container(
                                c,
                                config,
                            );
                            // Spawn each built check.
                            let ghost spawn_base = spawns_view(spawns@);
                            let ghost starget = built.0.map_values(
                                |ck: (Seq<char>, HealthCheckTypeView)| (id@, ck.0, ck.1),
                            );
                            let mut k: usize = 0;
                            proof {
                                assert(spawns_view(spawns@) =~= spawn_base + starget.take(0));
                            }
                            while k < checks.len()
                                invariant
                                    0 <= k <= checks@.len(),
                                    checks_view(checks@) == built.0,
                                    starget == built.0.map_values(
                                        |ck: (Seq<char>, HealthCheckTypeView)| (id@, ck.0, ck.1),
                                    ),
                                    spawns_view(spawns@) =~= spawn_base + starget.take(k as int),
                                    id@ == c@.container_id.unwrap(),
                                decreases checks@.len() - k,
                            {
                                let spawn = HealthCheckSpawn {
                                    container_id: id.clone(),
                                    check_name: checks[k].0.clone(),
                                    check: checks[k].1.clone(),
                                };
                                proof {
                                    lemma_map_values_push(
                                        spawns@,
                                        spawn,
                                        |s: HealthCheckSpawn|
                                            (s.container_id@, s.check_name@, s.check@),
                                    );
                                    assert(built.0[k as int] == checks_view(checks@)[k as int]);
                                    assert(starget[k as int] == (
                                        id@,
                                        checks@[k as int].0@,
                                        checks@[k as int].1@,
                                    ));
                                }
                                spawns.push(spawn);
                                k = k + 1;
                            }
                            proof {
                                assert(starget.take(k as int) =~= starget);
                            }
                            warnings.append(&mut warns2);
                            let entry = (id.clone(), checks);
                            proof {
                                lemma_map_values_push(
                                    entries@,
                                    entry,
                                    |e: (ContainerId, Vec<(String, HealthCheckType)>)|
                                        TrackedChecksView {
                                            container_id: e.0@,
                                            checks: checks_view(e.1@),
                                        },
                                );
                                let new_entry_view = TrackedChecksView {
                                    container_id: id@,
                                    checks: built.0,
                                };
                                assert(entries_view(entries@.push(entry)) =~= tracked_before.push(
                                    new_entry_view,
                                ));
                                let rest = spec_insert_pass(
                                    world@.skip(i2 as int + 1),
                                    tracked_before.push(new_entry_view),
                                    config@,
                                );
                                assert((spawn_base + starget) + rest.1 =~= spawn_base + (starget
                                    + rest.1));
                                assert(inserted.2 =~= (warnings@) + rest.2) by {
                                    assert(spec_insert_pass(
                                        world@.skip(i2 as int),
                                        tracked_before,
                                        config@,
                                    ).2 == built.1 + rest.2);
                                }
                            }
                            entries.push(entry);
                        },
                    }
                },
                None => {
                    proof {
                        assert(c@.container_id is None);
                    }
                },
            }
            i2 = i2 + 1;
        }
        proof {
            assert(world@.skip(i2 as int).len() == 0);
            assert(spawns_view(spawns@) + spec_insert_pass(
                world@.skip(i2 as int),
                entries_view(entries@),
                config@,
            ).1 =~= spawns_view(spawns@));
            assert(warnings@ + spec_insert_pass(
                world@.skip(i2 as int),
                entries_view(entries@),
                config@,
            ).2 =~= warnings@);
        }
        self.health_checks = entries;
        HealthCheckPlan { spawns, kills, warnings }
    }
}

/// The health-check reconciliation lifecycle: a world holding a container
/// that declares two resolvable checks, reconciled from nothing, ends with
/// exactly those two checks tracked under the container and both spawned;
/// reconciling again with the container gone from the world ends with
/// nothing tracked and a kill for each of the two checks.
pub proof fn lemma_health_check_lifecycle(
    x: WorldContainerView,
    config: ConfigView,
    a: Seq<char>,
    b: Seq<char>,
)
    requires
        x.container_id is Some,
        x.health_checks == seq![a, b],
        spec_build_check(x, a, config) is Ok,
        spec_build_check(x, b, config) is Ok,
    ensures
        ({
            let id = x.container_id.unwrap();
            let ins = spec_insert_pass(seq![x], Seq::empty(), config);
            let rem = spec_remove_pass(ins.0, Seq::empty());
            &&& tracked_lookup(ins.0, id) is Some
            &&& tracked_lookup(ins.0, id).unwrap().len() == 2
            &&& ins.1.len() == 2
            &&& ins.2.len() == 0
            &&& rem.0.len() == 0
            &&& rem.1 == seq![(id, a), (id, b)]
        }),
{
    let id = x.container_id.unwrap();
    let w = seq![x];
    let empty_tracked = Seq::<TrackedChecksView>::empty();

    // Nothing is tracked to begin with.
    assert(tracked_pairs(empty_tracked).len() == 0);
    assert(tracked_lookup(empty_tracked, id) is None);

    // The two declared names build to two checks and no warning.
    let names = x.health_checks;
    assert(names[0] == a && names[1] == b);
    assert(names.drop_first() =~= seq![b]);
    assert(seq![b].drop_first() =~= Seq::<Seq<char>>::empty());
    let ca = spec_build_check(x, a, config).unwrap();
    let cb = spec_build_check(x, b, config).unwrap();
    let built_b = spec_checks_list(seq![b], x, config);
    assert(built_b.0 == seq![(b, cb)] + spec_checks_list(Seq::empty(), x, config).0);
    let built = spec_checks_for(x, config);
    assert(built.0 =~= seq![(a, ca), (b, cb)]);
    assert(built.1 =~= Seq::<HealthCheckError>::empty());

    // One insertion pass tracks the container with exactly those checks.
    let entry = TrackedChecksView { container_id: id, checks: built.0 };
    let s1 = empty_tracked.push(entry);
    assert(w.drop_first() =~= Seq::<WorldContainerView>::empty());
    let rest = spec_insert_pass(w.drop_first(), s1, config);
    assert(rest.0 == s1 && rest.1.len() == 0 && rest.2.len() == 0);
    let ins = spec_insert_pass(w, empty_tracked, config);
    assert(ins.0 == s1);
    assert(tracked_pairs(s1).len() == 1);
    assert(tracked_pairs(s1)[0] == (id, built.0));
    assert(tracked_lookup(s1, id) == Some(built.0));
    let mapped = built.0.map_values(|ck: (Seq<char>, HealthCheckTypeView)| (id, ck.0, ck.1));
    assert(ins.1 =~= mapped);
    assert(ins.1.len() == 2);
    assert(ins.2 =~= built.1 + rest.2);
    assert(ins.2.len() == 0);

    // Removing the container kills both checks and tracks nothing.
    let none_world = Seq::<WorldContainerView>::empty();
    assert(!id_in_world(none_world, id));
    assert(s1[0] == entry);
    assert(s1.drop_first() =~= Seq::<TrackedChecksView>::empty());
    assert(s1.drop_first() == Seq::<TrackedChecksView>::empty());
    assert(spec_remove_pass(Seq::<TrackedChecksView>::empty(), none_world).0.len() == 0);
    assert(spec_remove_pass(Seq::<TrackedChecksView>::empty(), none_world).1.len() == 0);
    let rrest = spec_remove_pass(s1.drop_first(), none_world);
    assert(rrest.0.len() == 0 && rrest.1.len() == 0);
    let rem = spec_remove_pass(s1, none_world);
    let kill_map = entry.checks.map_values(
        |c: (Seq<char>, HealthCheckTypeView)| (entry.container_id, c.0),
    );
    assert(rem.0 =~= Seq::<TrackedChecksView>::empty());
    assert(rem.1 =~= kill_map);
    assert(kill_map =~= seq![(id, a), (id, b)]);
}

/// The debounced write `mark_container_target_healthy` performs, stated as
/// a relation between the store before and after.
pub open spec fn kv_marked(
    old_kv: KV,
    new_kv: KV,
    container_id: Seq<char>,
    target: Seq<char>,
    healthy: bool,
) -> bool {
    if old_kv.spec_health_matches(target, healthy) {
        new_kv == old_kv
    } else {
        &&& (forall|t: Seq<char>|
            t != target ==> #[trigger] new_kv.spec_health_state(t) == old_kv.spec_health_state(t))
        &&& new_kv.spec_health_state(target) is Some
        &&& new_kv.spec_health_state(target).unwrap().healthy == healthy
        &&& new_kv.spec_health_state(target).unwrap().container is Some
        &&& new_kv.spec_health_state(target).unwrap().container.unwrap()@ == container_id
        &&& (forall|id: Seq<char>|
            #[trigger] new_kv.spec_container_state(id) == old_kv.spec_container_state(id))
    }
}

/// The first position of a configured health check of this name, if any.
fn find_health_check(hc: &Vec<crate::config::ConfigFileHealthCheck>, name: &str) -> (r: Option<
    usize,
>)
    ensures
        match r {
            Some(j) => 0 <= j < hc@.len() && spec_find_check(
                hc@.map_values(|h: crate::config::ConfigFileHealthCheck| h@),
                name@,
            ) == Some(hc@[j as int]@),
            None => spec_find_check(
                hc@.map_values(|h: crate::config::ConfigFileHealthCheck| h@),
                name@,
            ) is None,
        },
{
    let ghost ghc = hc@.map_values(|h: crate::config::ConfigFileHealthCheck| h@);
    let mut j: usize = 0;
    while j < hc.len()
        invariant
            0 <= j <= hc@.len(),
            ghc == hc@.map_values(|h: crate::config::ConfigFileHealthCheck| h@),
            forall|jj: int| 0 <= jj < j ==> ghc[jj].name != name@,
        decreases hc@.len() - j,
    {
        if str_eq(hc[j].name.as_str(), name) {
            proof {
                lemma_find_check_at(ghc, name@, j as int);
            }
            return Some(j);
        }
        j = j + 1;
    }
    proof {
        lemma_find_check_none(ghc, name@);
    }
    None
}

/// When `j` is the first configured check of this name, `spec_find_check`
/// returns it.
proof fn lemma_find_check_at(hc: Seq<ConfigFileHealthCheckView>, name: Seq<char>, j: int)
    requires
        0 <= j < hc.len(),
        hc[j].name == name,
        forall|jj: int| 0 <= jj < j ==> hc[jj].name != name,
    ensures
        spec_find_check(hc, name) == Some(hc[j]),
    decreases j,
{
    if j > 0 {
        assert(forall|jj: int| 0 <= jj < j - 1 ==> hc.drop_first()[jj].name != name);
        lemma_find_check_at(hc.drop_first(), name, j - 1);
    }
}

/// When no configured check carries this name, `spec_find_check` misses.
proof fn lemma_find_check_none(hc: Seq<ConfigFileHealthCheckView>, name: Seq<char>)
    requires
        forall|j: int| 0 <= j < hc.len() ==> hc[j].name != name,
    ensures
        spec_find_check(hc, name) is None,
    decreases hc.len(),
{
    if hc.len() > 0 {
        assert(forall|j: int| 0 <= j < hc.drop_first().len() ==> hc.drop_first()[j].name != name);
        lemma_find_check_none(hc.drop_first(), name);
    }
}

} // verus!
