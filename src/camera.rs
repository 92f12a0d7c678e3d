//! Camera-follow steps and the single-entity queries they rest on.
//!
//! Positions are opaque to this module: the steps only select and copy
//! them, so they are generic over the position type.

use vstd::prelude::*;

verus! {

/// Why a query that expects exactly one entity failed.
#[derive(Clone, Copy, Debug, PartialEq, Eq, Structural)]
pub enum QueryError {
    NoEntities,
    MultipleEntities,
}

/// The outcome of asking for exactly one entity among `count` matches.
pub open spec fn single_outcome(count: nat) -> Result<usize, QueryError> {
    if count == 0 {
        Err(QueryError::NoEntities)
    } else if count == 1 {
        Ok(0usize)
    } else {
        Err(QueryError::MultipleEntities)
    }
}

/// Index of the one entity in `items`, or why there is not exactly one.
pub fn single_index<T>(items: &Vec<T>) -> (r: Result<usize, QueryError>)
    ensures
        r == single_outcome(items@.len()),
{
    if items.len() == 0 {
        Err(QueryError::NoEntities)
    } else if items.len() == 1 {
        Ok(0)
    } else {
        Err(QueryError::MultipleEntities)
    }
}

/// The result of the target-update step: the camera's query is checked
/// first, then the player's.
pub open spec fn target_outcome(players: nat, cameras: nat) -> Result<(), QueryError> {
    match single_outcome(cameras) {
        Err(e) => Err(e),
        Ok(_) => match single_outcome(players) {
            Err(e) => Err(e),
            Ok(_) => Ok(()),
        },
    }
}

/// Copies the single player's position into the single camera's target.
///
/// Fails, leaving every target as it was, unless there is exactly one
/// player and exactly one camera.
pub fn update_camera_target<T: Copy>(players: &Vec<T>, camera_targets: &mut Vec<T>) -> (r: Result<(), QueryError>)
    ensures
        r == target_outcome(players@.len(), old(camera_targets)@.len()),
        r is Ok ==> final(camera_targets)@ == seq![players@[0]],
        r is Err ==> final(camera_targets)@ == old(camera_targets)@,
{
    let c = match single_index(camera_targets) {
        Ok(c) => c,
        Err(e) => return Err(e),
    };
    let p = match single_index(players) {
        Ok(p) => p,
        Err(e) => return Err(e),
    };
    let position: T = players[p];
    camera_targets.set(c, position);
    proof {
        assert(final(camera_targets)@ =~= seq![players@[0]]);
    }
    Ok(())
}

/// The result of the transform-update step: only the camera is queried.
pub open spec fn transform_outcome(cameras: nat) -> Result<(), QueryError> {
    match single_outcome(cameras) {
        Err(e) => Err(e),
        Ok(_) => Ok(()),
    }
}

/// Moves the single camera: each entry of `cameras` is a camera's
/// `(position, target)`, and the camera's new position is
/// `follow(position, target)`; its target is kept.
///
/// Fails, leaving every camera as it was, unless there is exactly one
/// camera.
pub fn update_camera_transform<T: Copy, F: Fn(T, T) -> T>(cameras: &mut Vec<(T, T)>, follow: F) -> (r: Result<(), QueryError>)
    requires
        forall|position: T, target: T| follow.requires((position, target)),
    ensures
        r == transform_outcome(old(cameras)@.len()),
        r is Ok ==> final(cameras)@.len() == 1 && final(cameras)@[0].1 == old(cameras)@[0].1
            && follow.ensures((old(cameras)@[0].0, old(cameras)@[0].1), final(cameras)@[0].0),
        r is Err ==> final(cameras)@ == old(cameras)@,
{
    let c = match single_index(cameras) {
        Ok(c) => c,
        Err(e) => return Err(e),
    };
    let (position, target) = cameras[c];
    let moved = follow(position, target);
    cameras.set(c, (moved, target));
    Ok(())
}

/// Net movement along one axis: `1` toward `positive`, `-1` toward
/// `negative`, `0` when neither or both are held.
pub open spec fn axis(positive: bool, negative: bool) -> int {
    (if positive { 1int } else { 0int }) - (if negative { 1int } else { 0int })
}

/// Unnormalised movement direction from the held keys: right minus left,
/// up minus down.
pub fn movement_direction(right: bool, left: bool, up: bool, down: bool) -> (r: (i8, i8))
    ensures
        r.0 == axis(right, left),
        r.1 == axis(up, down),
{
    let x: i8 = (if right { 1i8 } else { 0i8 }) - (if left { 1i8 } else { 0i8 });
    let y: i8 = (if up { 1i8 } else { 0i8 }) - (if down { 1i8 } else { 0i8 });
    (x, y)
}

} // verus!
