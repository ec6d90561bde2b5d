//! The shared health/deletion state: two independent maps, one from
//! container id to deletion marker and one from target key to health state.
//!
//! Entries are never deleted, only superseded.  A health write is skipped
//! when the stored value already equals the one being written, to bound
//! write-lock contention under many concurrent health-check tasks; the
//! write counter makes that debouncing observable.  The process shares one
//! `KV` value behind a reader-writer lock; the logic here is the value's.
use vstd::prelude::*;
use crate::alist::{alist_lookup, lemma_alist_lookup_none, lemma_alist_lookup_at,
    lemma_alist_lookup_update, lemma_alist_lookup_push};
use crate::container_id::ContainerId;
use crate::text::str_eq;

verus! {

/// Per-container deletion state.
#[derive(Eq, PartialEq, Debug)]
pub struct ContainerState {
    pub should_be_deleted: bool,
}

impl ContainerState {
    pub fn new_default() -> (r: Self)
        ensures
            !r.should_be_deleted,
    {
        Self { should_be_deleted: false }
    }
}

/// Per-target health state, keyed by the synthetic target key of the check
/// that produced it.
#[derive(Eq, PartialEq, Debug)]
pub struct HealthState {
    pub container: Option<ContainerId>,
    pub target: String,
    pub healthy: bool,
}

/// The first position in `v` whose key reads `key`, if any.
fn find_key<V>(v: &Vec<(String, V)>, key: &str) -> (r: Option<usize>)
    ensures
        match r {
            Some(j) => 0 <= j < v@.len() && v@[j as int].0@ == key@ && (forall|jj: int|
                0 <= jj < j ==> v@[jj].0@ != key@),
            None => forall|jj: int| 0 <= jj < v@.len() ==> v@[jj].0@ != key@,
        },
{
    let mut j: usize = 0;
    while j < v.len()
        invariant
            0 <= j <= v@.len(),
            forall|jj: int| 0 <= jj < j ==> v@[jj].0@ != key@,
        decreases v@.len() - j,
    {
        if str_eq(v[j].0.as_str(), key) {
            return Some(j);
        }
        j = j + 1;
    }
    None
}

/// The shared health/deletion store.
#[derive(Debug)]
pub struct KV {
    container: Vec<(String, ContainerState)>,
    health: Vec<(String, HealthState)>,
    health_writes: u64,
}

impl KV {
    /// The deletion entry stored for a container id.
    pub closed spec fn spec_container_state(self, id: Seq<char>) -> Option<ContainerState> {
        alist_lookup(self.container@, id)
    }

    /// Is this container id marked to be deleted?  Unknown ids are not.
    pub open spec fn spec_deleted(self, id: Seq<char>) -> bool {
        match self.spec_container_state(id) {
            Some(cs) => cs.should_be_deleted,
            None => false,
        }
    }

    /// The health entry stored for a target key.
    pub closed spec fn spec_health_state(self, target: Seq<char>) -> Option<HealthState> {
        alist_lookup(self.health@, target)
    }

    /// Is this target healthy?  Unknown targets are treated as unhealthy,
    /// never as healthy.
    pub open spec fn spec_target_healthy(self, target: Seq<char>) -> bool {
        match self.spec_health_state(target) {
            Some(h) => h.healthy,
            None => false,
        }
    }

    /// Does the stored health value for `target` already equal `healthy`?
    pub open spec fn spec_health_matches(self, target: Seq<char>, healthy: bool) -> bool {
        match self.spec_health_state(target) {
            Some(h) => h.healthy == healthy,
            None => false,
        }
    }

    /// How many health writes have reached the store.
    pub closed spec fn spec_health_writes(self) -> u64 {
        self.health_writes
    }

    pub fn new() -> (r: KV)
        ensures
            forall|id: Seq<char>| #[trigger] r.spec_container_state(id) is None,
            forall|t: Seq<char>| #[trigger] r.spec_health_state(t) is None,
            r.spec_health_writes() == 0,
    {
        let r = Self { container: Vec::new(), health: Vec::new(), health_writes: 0 };
        proof {
            assert forall|id: Seq<char>| #[trigger] r.spec_container_state(id) is None by {
                lemma_alist_lookup_none(r.container@, id);
            }
            assert forall|t: Seq<char>| #[trigger] r.spec_health_state(t) is None by {
                lemma_alist_lookup_none(r.health@, t);
            }
        }
        r
    }

    /// The number of health writes so far, for observing the debouncing.
    pub fn health_write_count(&self) -> (r: u64)
        ensures
            r == self.spec_health_writes(),
    {
        self.health_writes
    }

    /// Mark a container to be deleted.  Idempotent: once marked, a
    /// container stays marked; no other entry changes.
    pub fn mark_container_to_be_deleted(&mut self, container_id: &ContainerId)
        ensures
            forall|id: Seq<char>|
                #[trigger] final(self).spec_deleted(id) == (if id == container_id@ {
                    true
                } else {
                    old(self).spec_deleted(id)
                }),
            forall|t: Seq<char>|
                #[trigger] final(self).spec_health_state(t) == old(self).spec_health_state(t),
            final(self).spec_health_writes() == old(self).spec_health_writes(),
    {
        let entry = (container_id.as_str().to_owned(), ContainerState { should_be_deleted: true });
        match find_key(&self.container, container_id.as_str()) {
            Some(j) => {
                proof {
                    lemma_alist_lookup_update(self.container@, j as int, entry);
                }
                self.container.set(j, entry);
            },
            None => {
                proof {
                    lemma_alist_lookup_none(self.container@, container_id@);
                    lemma_alist_lookup_push(self.container@, entry);
                }
                self.container.push(entry);
            },
        }
    }

    /// Record a health-check outcome for a target, debounced: when the
    /// stored value already equals `healthy` the store is left untouched
    /// and no write is counted, so repeating the same report is free.
    pub fn mark_container_target_healthy(
        &mut self,
        container_id: &ContainerId,
        target: &str,
        healthy: bool,
    )
        ensures
            old(self).spec_health_matches(target@, healthy) ==> *final(self) == *old(self),
            !old(self).spec_health_matches(target@, healthy) ==> {
                &&& forall|t: Seq<char>|
                    t != target@ ==> #[trigger] final(self).spec_health_state(t) == old(
                        self,
                    ).spec_health_state(t)
                &&& final(self).spec_health_state(target@) is Some
                &&& final(self).spec_health_state(target@).unwrap().healthy == healthy
                &&& final(self).spec_health_state(target@).unwrap().target@ == target@
                &&& final(self).spec_health_state(target@).unwrap().container is Some
                &&& final(self).spec_health_state(target@).unwrap().container.unwrap()@
                    == container_id@
                &&& final(self).spec_health_writes() as int == (if old(self).spec_health_writes()
                    < u64::MAX {
                    old(self).spec_health_writes() + 1
                } else {
                    old(self).spec_health_writes() as int
                })
                &&& forall|id: Seq<char>|
                    #[trigger] final(self).spec_container_state(id) == old(
                        self,
                    ).spec_container_state(id)
            },
    {
        let entry = (
            target.to_owned(),
            HealthState { container: Some(container_id.clone()), target: target.to_owned(), healthy },
        );
        match find_key(&self.health, target) {
            Some(j) => {
                proof {
                    lemma_alist_lookup_at(self.health@, target@, j as int);
                }
                if self.health[j].1.healthy == healthy {
                    return ;
                }
                proof {
                    lemma_alist_lookup_update(self.health@, j as int, entry);
                }
                self.health.set(j, entry);
            },
            None => {
                proof {
                    lemma_alist_lookup_none(self.health@, target@);
                    lemma_alist_lookup_push(self.health@, entry);
                }
                self.health.push(entry);
            },
        }
        if self.health_writes < u64::MAX {
            self.health_writes = self.health_writes + 1;
        }
    }

    /// Is this target healthy?  Unknown targets read as unhealthy.
    pub fn is_target_healthy(&self, container_target: &str) -> (r: bool)
        ensures
            r == self.spec_target_healthy(container_target@),
    {
        match find_key(&self.health, container_target) {
            Some(j) => {
                proof {
                    lemma_alist_lookup_at(self.health@, container_target@, j as int);
                }
                self.health[j].1.healthy
            },
            None => {
                proof {
                    lemma_alist_lookup_none(self.health@, container_target@);
                }
                false
            },
        }
    }

    /// Is this container id marked to be deleted?
    pub fn is_container_marked_to_be_deleted(&self, container_id: &ContainerId) -> (r: bool)
        ensures
            r == self.spec_deleted(container_id@),
    {
        match find_key(&self.container, container_id.as_str()) {
            Some(j) => {
                proof {
                    lemma_alist_lookup_at(self.container@, container_id@, j as int);
                }
                self.container[j].1.should_be_deleted
            },
            None => {
                proof {
                    lemma_alist_lookup_none(self.container@, container_id@);
                }
                false
            },
        }
    }
}

} // verus!
