//! One frame: project the cloud onto a fresh buffer, then turn the cloud in place.
use vstd::prelude::*;
use crate::angle::Rotation;
use crate::cube::Cube;
use crate::error::ConfigError;
use crate::point::{cloud_in_range, Point, COORD_LIMIT};
use crate::rotation::{rot, rotate};
use crate::screen::{
    fresh_grid, grid, has_frame, init_display_points, prepare_display, render_points, DisplayPoint,
};

verus! {

/// Says whether every point of the cloud can be rotated.
pub fn in_range(points: &Vec<Point>) -> (b: bool)
    ensures
        b == cloud_in_range(points@),
{
    let mut i: usize = 0;
    while i < points.len()
        invariant
            0 <= i <= points@.len(),
            forall|k: int| 0 <= k < i ==> (#[trigger] points@[k]).within(COORD_LIMIT as int),
        decreases points@.len() - i,
    {
        let p = &points[i];
        if p.x < -COORD_LIMIT || p.x > COORD_LIMIT || p.y < -COORD_LIMIT || p.y > COORD_LIMIT
            || p.z < -COORD_LIMIT || p.z > COORD_LIMIT {
            return false;
        }
        i += 1;
    }
    true
}

/// Advances the animation by one frame.
///
/// The cloud is projected, as it stands, onto a fresh buffer sized for the cube and the
/// offset; then every point is rotated in place. The buffer is returned for painting. Where
/// the buffer would be empty, nothing is drawn and the cloud is left as it was.
pub fn advance_frame(
    points: &mut Vec<Point>,
    cube: &Cube,
    offset: &Point,
    rotation: &Rotation,
) -> (r: Result<Vec<Vec<DisplayPoint>>, ConfigError>)
    requires
        cube.well_formed(),
        rotation.well_formed(),
        cloud_in_range(old(points)@),
    ensures
        final(points)@.len() == old(points)@.len(),
        has_frame(*cube, *offset) ==> r is Ok && grid(r->Ok_0) == render_points(
            fresh_grid(*cube, *offset),
            old(points)@,
            *offset,
        ),
        has_frame(*cube, *offset) ==> forall|i: int|
            0 <= i < old(points)@.len() ==> (#[trigger] final(points)@[i])@ == rot(
                old(points)@[i]@,
                *rotation,
            ),
        !has_frame(*cube, *offset) ==> r is Err && r->Err_0 == ConfigError::EmptyBuffer,
        !has_frame(*cube, *offset) ==> final(points)@ == old(points)@,
{
    let mut dps = match init_display_points(cube, offset) {
        Ok(dps) => dps,
        Err(e) => {
            return Err(e);
        },
    };
    let ghost before = points@;
    let ghost blank = grid(dps);
    let mut i: usize = 0;
    while i < points.len()
        invariant
            rotation.well_formed(),
            cloud_in_range(before),
            points@.len() == before.len(),
            0 <= i <= points@.len(),
            grid(dps) == render_points(blank, before.take(i as int), *offset),
            forall|k: int| 0 <= k < i ==> (#[trigger] points@[k])@ == rot(before[k]@, *rotation),
            forall|k: int| i <= k < before.len() ==> points@[k] == before[k],
        decreases points@.len() - i,
    {
        let p: Point = points[i];
        prepare_display(&mut dps, &p, offset);
        proof {
            assert(before.take(i + 1).drop_last() =~= before.take(i as int));
            assert(before.take(i + 1).last() == before[i as int]);
            assert(before[i as int].within(COORD_LIMIT as int));
        }
        points[i] = rotate(&p, rotation);
        i += 1;
    }
    proof {
        assert(before.take(before.len() as int) =~= before);
    }
    Ok(dps)
}

} // verus!
