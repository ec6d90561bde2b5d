//! The actions the container Brain can decide on.
use vstd::prelude::*;
use crate::container_id::ContainerId;
use crate::world::{WorldContainer, WorldContainerView};

verus! {

/// Why the Brain could not form an action.
#[derive(Debug, Clone, PartialEq, Eq)]
pub enum BrainError {
    /// A running container was found "extra" but carries no runtime id, so
    /// no stop action can name it.  This is a programming invariant
    /// violation, reported rather than silently dropped.
    StopWithoutContainerId,
}

/// The single action the Brain decides on for one tick.
#[derive(Debug, Clone)]
pub enum BrainAction {
    ContainersStart(Vec<ContainerStart>),
    ContainersStop(Vec<ContainerStop>),
    NoOp,
}

/// An instruction to stop one running container, named by its runtime id.
#[derive(Debug, Clone)]
pub struct ContainerStop {
    pub id: ContainerId,
    pub image: String,
}

impl ContainerStop {
    /// A stop action for `world_container`, which must carry a runtime id.
    pub fn new_from_world_container(world_container: &WorldContainer) -> (r: Result<
        Self,
        BrainError,
    >)
        ensures
            match r {
                Ok(stop) => world_container@.container_id is Some && Some(stop.id@)
                    == world_container@.container_id && stop.image@ == world_container@.image,
                Err(e) => world_container@.container_id is None && e
                    == BrainError::StopWithoutContainerId,
            },
    {
        Ok(
            Self {
                id: match &world_container.container_id {
                    Some(id) => id.clone(),
                    None => { return Err(BrainError::StopWithoutContainerId) },
                },
                image: world_container.image.clone(),
            },
        )
    }
}

/// An instruction to start one not-yet-created container, carrying the
/// declared instance to create.
#[derive(Debug, Clone)]
pub struct ContainerStart {
    pub container_world: WorldContainer,
}

impl ContainerStart {
    pub fn new_from_world_container(world_container: &WorldContainer) -> (r: Self)
        ensures
            r.container_world@ == world_container@,
    {
        Self { container_world: world_container.clone() }
    }
}

/// What a `BrainAction` means, stated over the models of its payloads.
pub open spec fn is_start_of(a: BrainAction, c: WorldContainerView) -> bool {
    match a {
        BrainAction::ContainersStart(v) => v@.len() == 1 && v@[0].container_world@ == c,
        _ => false,
    }
}

/// The action stops exactly the container with id `id` and image `image`.
pub open spec fn is_stop_of(a: BrainAction, id: Seq<char>, image: Seq<char>) -> bool {
    match a {
        BrainAction::ContainersStop(v) => v@.len() == 1 && v@[0].id@ == id && v@[0].image@
            == image,
        _ => false,
    }
}

} // verus!
