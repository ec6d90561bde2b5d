//! The decision policy that turns a world diff into a single next action.
//!
//! The policy acts on at most one container per tick, and starting takes
//! priority over stopping.  This throttles the blast radius of any single
//! reconciliation pass; convergence speed is bounded by tick interval times
//! population size.
use vstd::prelude::*;
use crate::brain_action::{BrainAction, BrainError, ContainerStart, ContainerStop, is_start_of,
    is_stop_of};
use crate::world::{WorldDiff, Worlds, spec_diff};

verus! {

pub struct Brain {}

impl Brain {
    /// The one action for this tick: start the first missing container if
    /// any, else stop the first extra container if any, else do nothing.
    /// The only error is an extra container that carries no runtime id.
    pub fn think_about_next_action(worlds: &Worlds) -> (r: Result<BrainAction, BrainError>)
        ensures
            ({
                let extra = spec_diff(worlds.current@, worlds.expected@).0;
                let missing = spec_diff(worlds.current@, worlds.expected@).1;
                match r {
                    Ok(a) => {
                        if missing.len() > 0 {
                            is_start_of(a, missing[0])
                        } else if extra.len() > 0 {
                            extra[0].container_id is Some && is_stop_of(
                                a,
                                extra[0].container_id.unwrap(),
                                extra[0].image,
                            )
                        } else {
                            a is NoOp
                        }
                    },
                    Err(e) => missing.len() == 0 && extra.len() > 0 && extra[0].container_id
                        is None && e == BrainError::StopWithoutContainerId,
                }
            }),
    {
        let world_diff = worlds.build_diff_world();

        match Self::think_about_starting_new_containers(&world_diff)? {
            Some(s) => { return Ok(s) },
            None => {},
        }

        match Self::think_about_stopping_existing_containers(&world_diff)? {
            Some(s) => { return Ok(s) },
            None => {},
        }

        Ok(BrainAction::NoOp)
    }

    /// A start action for the first missing container, or nothing when no
    /// container is missing.  Never fails.
    pub fn think_about_starting_new_containers(world_diff: &WorldDiff) -> (r: Result<
        Option<BrainAction>,
        BrainError,
    >)
        ensures
            match r {
                Ok(opt) => match opt {
                    Some(a) => world_diff.spec_missing().len() > 0 && is_start_of(
                        a,
                        world_diff.spec_missing()[0],
                    ),
                    None => world_diff.spec_missing().len() == 0,
                },
                Err(_) => false,
            },
    {
        let missing = world_diff.containers_does_not_exists_but_should_exists();
        if missing.len() == 0 {
            Ok(None)
        } else {
            let first = &missing[0];
            Ok(
                Some(
                    BrainAction::ContainersStart(
                        vec![ContainerStart::new_from_world_container(first)],
                    ),
                ),
            )
        }
    }

    /// A stop action for the first extra container, or nothing when no
    /// container is extra.  Fails when the first extra container carries no
    /// runtime id.
    pub fn think_about_stopping_existing_containers(world_diff: &WorldDiff) -> (r: Result<
        Option<BrainAction>,
        BrainError,
    >)
        ensures
            match r {
                Ok(opt) => match opt {
                    Some(a) => world_diff.spec_extra().len() > 0
                        && world_diff.spec_extra()[0].container_id is Some && is_stop_of(
                        a,
                        world_diff.spec_extra()[0].container_id.unwrap(),
                        world_diff.spec_extra()[0].image,
                    ),
                    None => world_diff.spec_extra().len() == 0,
                },
                Err(e) => world_diff.spec_extra().len() > 0
                    && world_diff.spec_extra()[0].container_id is None && e
                    == BrainError::StopWithoutContainerId,
            },
    {
        let extra = world_diff.containers_exists_but_should_not_exists();
        if extra.len() == 0 {
            Ok(None)
        } else {
            let first = &extra[0];
            let stop = ContainerStop::new_from_world_container(first)?;
            Ok(Some(BrainAction::ContainersStop(vec![stop])))
        }
    }
}

} // verus!
