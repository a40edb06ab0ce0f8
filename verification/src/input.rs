//! The keys that steer the cube, and the rotation they ask for.
use vstd::prelude::*;
use crate::angle::{Angle, Rotation};
use crate::fixed::ONE;

verus! {

/// Which of the six direction keys are held at the start of a frame.
#[derive(Clone, Copy, Debug, PartialEq, Eq, Structural)]
pub struct Keys {
    pub w: bool,
    pub s: bool,
    pub a: bool,
    pub d: bool,
    pub q: bool,
    pub e: bool,
}

/// The rotation that the held keys ask for, each axis turning by `step`, by its opposite, or
/// not at all: `W` turns about X by `step` and `S` by its opposite, `D` turns about Y by
/// `step` and `A` by its opposite, `E` turns about Z by `step` and `Q` by its opposite. Where
/// both keys of an axis are held, `W`, `A` and `Q` win.
pub open spec fn rotation_of(keys: Keys, step: Angle) -> Rotation {
    let none = Angle { cos: ONE, sin: 0 };
    Rotation {
        x: if keys.w {
            step
        } else if keys.s {
            step.reversed()
        } else {
            none
        },
        y: if keys.a {
            step.reversed()
        } else if keys.d {
            step
        } else {
            none
        },
        z: if keys.q {
            step.reversed()
        } else if keys.e {
            step
        } else {
            none
        },
    }
}

/// Maps the keys held at the start of a frame to the rotation of that frame.
pub fn rotation_from_keys(keys: &Keys, step: &Angle) -> (r: Rotation)
    requires
        step.well_formed(),
    ensures
        r == rotation_of(*keys, *step),
        r.well_formed(),
{
    let back = step.opposite();
    let none = Angle::zero();
    Rotation {
        x: if keys.w {
            *step
        } else if keys.s {
            back
        } else {
            none
        },
        y: if keys.a {
            back
        } else if keys.d {
            *step
        } else {
            none
        },
        z: if keys.q {
            back
        } else if keys.e {
            *step
        } else {
            none
        },
    }
}

} // verus!
