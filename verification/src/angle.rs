//! Angles held as a fixed-point cosine and sine.
use vstd::prelude::*;
use crate::error::ConfigError;
use crate::fixed::{MINUS_ONE, ONE};

verus! {

/// An angle of rotation, given by its cosine and sine in the fixed-point scale.
#[derive(Clone, Copy, Debug, PartialEq, Eq, Structural)]
pub struct Angle {
    pub cos: i64,
    pub sin: i64,
}

/// One angle for each of the three axes.
#[derive(Clone, Copy, Debug, PartialEq, Eq, Structural)]
pub struct Rotation {
    pub x: Angle,
    pub y: Angle,
    pub z: Angle,
}

/// How far `cos² + sin²` may lie from `ONE²`: what rounding each of the two to
/// the nearest fixed-point value can cost.
pub open spec fn unit_slack() -> int {
    2 * ONE
}

/// No turn at all: cosine one, sine zero.
pub open spec fn no_turn() -> Angle {
    Angle { cos: ONE, sin: 0 }
}

/// A quarter turn in the positive sense: cosine zero, sine one.
pub open spec fn quarter_turn() -> Angle {
    Angle { cos: 0, sin: ONE }
}

/// A quarter turn in the negative sense: cosine zero, sine minus one.
pub open spec fn quarter_turn_back() -> Angle {
    Angle { cos: 0, sin: MINUS_ONE }
}

/// A half turn: cosine minus one, sine zero.
pub open spec fn half_turn() -> Angle {
    Angle { cos: MINUS_ONE, sin: 0 }
}

/// The pair `(cos, sin)` lies on the unit circle, up to rounding: `cos² + sin²` is within
/// [`unit_slack`] of `ONE²`.
pub open spec fn on_unit_circle(cos: int, sin: int) -> bool {
    ONE * ONE - unit_slack() <= cos * cos + sin * sin <= ONE * ONE + unit_slack()
}

impl Angle {

    /// The pair lies on the unit circle, up to rounding.
    pub open spec fn well_formed(&self) -> bool {
        on_unit_circle(self.cos as int, self.sin as int)
    }

    /// The angle of the opposite turn: same cosine, negated sine.
    pub open spec fn reversed(&self) -> Angle {
        Angle { cos: self.cos, sin: (-self.sin) as i64 }
    }

    /// Neither part of a well-formed angle exceeds one in absolute value.
    pub proof fn lemma_parts_bounded(&self)
        requires
            self.well_formed(),
        ensures
            -ONE <= self.cos <= ONE,
            -ONE <= self.sin <= ONE,
    {
        let c = self.cos as int;
        let s = self.sin as int;
        assert(c * c >= 0 && s * s >= 0) by (nonlinear_arith);
        assert(c > ONE ==> c * c >= (ONE + 1) * (ONE + 1)) by (nonlinear_arith);
        assert(c < -ONE ==> c * c >= (ONE + 1) * (ONE + 1)) by (nonlinear_arith);
        assert(s > ONE ==> s * s >= (ONE + 1) * (ONE + 1)) by (nonlinear_arith);
        assert(s < -ONE ==> s * s >= (ONE + 1) * (ONE + 1)) by (nonlinear_arith);
    }

    /// The opposite of a well-formed angle is well-formed.
    pub proof fn lemma_reversed_well_formed(&self)
        requires
            self.well_formed(),
        ensures
            self.reversed().well_formed(),
            self.reversed().cos == self.cos,
            self.reversed().sin == -self.sin,
    {
        self.lemma_parts_bounded();
        let s = self.sin as int;
        assert((-s) * (-s) == s * s) by (nonlinear_arith);
    }

    /// Accepts a cosine and sine that lie on the unit circle up to rounding.
    pub fn new(cos: i64, sin: i64) -> (r: Result<Angle, ConfigError>)
        ensures
            on_unit_circle(cos as int, sin as int) ==> r is Ok && r->Ok_0.cos == cos && r->Ok_0.sin
                == sin && r->Ok_0.well_formed(),
            !on_unit_circle(cos as int, sin as int) ==> r is Err && r->Err_0
                == ConfigError::NotARotation,
    {
        let candidate = Angle { cos, sin };
        if cos < -ONE || cos > ONE || sin < -ONE || sin > ONE {
            proof {
                if candidate.well_formed() {
                    candidate.lemma_parts_bounded();
                }
            }
            return Err(ConfigError::NotARotation);
        }
        let one: i128 = ONE as i128;
        let c: i128 = cos as i128;
        let s: i128 = sin as i128;
        assert(-ONE * ONE <= c * c <= ONE * ONE && -ONE * ONE <= s * s <= ONE * ONE)
            by (nonlinear_arith)
            requires
                -ONE <= c <= ONE,
                -ONE <= s <= ONE,
        ;
        let norm: i128 = c * c + s * s;
        if norm < one * one - 2 * one || norm > one * one + 2 * one {
            Err(ConfigError::NotARotation)
        } else {
            Ok(candidate)
        }
    }

    /// No turn at all.
    pub fn zero() -> (r: Angle)
        ensures
            r == no_turn(),
            r.well_formed(),
    {
        Angle { cos: ONE, sin: 0 }
    }

    /// A quarter turn in the positive sense.
    pub fn quarter() -> (r: Angle)
        ensures
            r == quarter_turn(),
            r.well_formed(),
    {
        Angle { cos: 0, sin: ONE }
    }

    /// A half turn.
    pub fn half() -> (r: Angle)
        ensures
            r == half_turn(),
            r.well_formed(),
    {
        Angle { cos: -ONE, sin: 0 }
    }

    /// The opposite turn.
    pub fn opposite(&self) -> (r: Angle)
        requires
            self.well_formed(),
        ensures
            r == self.reversed(),
            r.cos == self.cos,
            r.sin == -self.sin,
            r.well_formed(),
    {
        proof {
            self.lemma_parts_bounded();
            self.lemma_reversed_well_formed();
        }
        Angle { cos: self.cos, sin: -self.sin }
    }
}

impl Rotation {
    /// All three angles are well-formed.
    pub open spec fn well_formed(&self) -> bool {
        self.x.well_formed() && self.y.well_formed() && self.z.well_formed()
    }
}

} // verus!
