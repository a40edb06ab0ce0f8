//! The rotation engine: turns about the three axes, and their composition.
//!
//! A turn about one axis mixes the two other coordinates:
//! `first' = first·cos − second·sin` and `second' = first·sin + second·cos`,
//! each product sum rounded back to the fixed-point scale.
use vstd::prelude::*;
use crate::angle::{Angle, Rotation};
use crate::fixed::{lemma_scaled_error, lemma_scaled_exact, scale_down, scaled, HALF, ONE};
use crate::point::{Point, Sample, AXIS_LIMIT, COORD_LIMIT};

verus! {

/// The first of the two coordinates that a turn by `a` mixes, after the turn.
pub open spec fn turn_first(u: int, v: int, a: Angle) -> int {
    scaled(u * a.cos - v * a.sin)
}

/// The second of the two coordinates that a turn by `a` mixes, after the turn.
pub open spec fn turn_second(u: int, v: int, a: Angle) -> int {
    scaled(u * a.sin + v * a.cos)
}

/// The turn about the X axis: `y' = z·sin + y·cos`, `z' = z·cos − y·sin`.
pub open spec fn rot_x(p: Sample, a: Angle) -> Sample {
    Sample { x: p.x, y: turn_second(p.z, p.y, a), z: turn_first(p.z, p.y, a), d: p.d }
}

/// The turn about the Y axis: `x' = x·cos − z·sin`, `z' = x·sin + z·cos`.
pub open spec fn rot_y(p: Sample, a: Angle) -> Sample {
    Sample { x: turn_first(p.x, p.z, a), y: p.y, z: turn_second(p.x, p.z, a), d: p.d }
}

/// The turn about the Z axis: `x' = x·cos − y·sin`, `y' = x·sin + y·cos`.
pub open spec fn rot_z(p: Sample, a: Angle) -> Sample {
    Sample { x: turn_first(p.x, p.y, a), y: turn_second(p.x, p.y, a), z: p.z, d: p.d }
}

/// The full rotation: about Z first, then about Y, then about X.
pub open spec fn rot(p: Sample, r: Rotation) -> Sample {
    rot_x(rot_y(rot_z(p, r.z), r.y), r.x)
}

/// The rotation that undoes [`rot`]: the opposite turns, about X first, then Y, then Z.
pub open spec fn rot_back(p: Sample, r: Rotation) -> Sample {
    rot_z(rot_y(rot_x(p, r.x.reversed()), r.y.reversed()), r.z.reversed())
}

/// `after` is `before` up to two units in the last place and a `2 / ONE` part of `before`.
pub open spec fn close(before: int, after: int) -> bool {
    let slack = 2 * vstd::math::abs(before) + 2 * ONE;
    -slack <= ONE * (after - before) <= slack
}

/// `q` is `p` with each coordinate moved by at most `t / ONE`, and the same symbol.
pub open spec fn near(p: Sample, q: Sample, t: int) -> bool {
    &&& -t <= ONE * (q.x - p.x) <= t
    &&& -t <= ONE * (q.y - p.y) <= t
    &&& -t <= ONE * (q.z - p.z) <= t
    &&& q.d == p.d
}

/// A product lies within the product of the bounds of its factors.
pub proof fn lemma_product_bound(x: int, y: int, bx: int, by: int)
    by (nonlinear_arith)
    requires
        -bx <= x <= bx,
        -by <= y <= by,
    ensures
        -(bx * by) <= x * y <= bx * by,
{
}

/// A turn moves no coordinate further out than twice the larger of the two it mixes.
pub proof fn lemma_turn_growth(u: int, v: int, a: Angle, bound: int)
    requires
        a.well_formed(),
        -bound <= u <= bound,
        -bound <= v <= bound,
    ensures
        -2 * bound <= turn_first(u, v, a) <= 2 * bound,
        -2 * bound <= turn_second(u, v, a) <= 2 * bound,
{
    a.lemma_parts_bounded();
    let c = a.cos as int;
    let s = a.sin as int;
    let one = ONE as int;
    lemma_product_bound(u, c, bound, one);
    lemma_product_bound(v, s, bound, one);
    lemma_product_bound(u, s, bound, one);
    lemma_product_bound(v, c, bound, one);
}

/// A turn whose cosine and sine are whole numbers `k` and `m` is exact.
///
/// This covers no turn (`k = 1, m = 0`), the quarter turns (`k = 0, m = ±1`)
/// and the half turn (`k = −1, m = 0`).
pub proof fn lemma_turn_whole(u: int, v: int, a: Angle, k: int, m: int)
    requires
        a.cos == k * ONE,
        a.sin == m * ONE,
    ensures
        turn_first(u, v, a) == u * k - v * m,
        turn_second(u, v, a) == u * m + v * k,
{
    let c = a.cos as int;
    let s = a.sin as int;
    let one = ONE as int;
    assert(u * c - v * s == (u * k - v * m) * one) by (nonlinear_arith)
        requires
            c == k * one,
            s == m * one,
    ;
    assert(u * s + v * c == (u * m + v * k) * one) by (nonlinear_arith)
        requires
            c == k * one,
            s == m * one,
    ;
    lemma_scaled_exact(u * k - v * m);
    lemma_scaled_exact(u * m + v * k);
}

/// The algebra behind [`lemma_turn_back`]: with `d1` and `d2` the rounding
/// errors of the forward turn, the backward product sums are the original
/// pair scaled by `c² + s²`, plus the errors turned back.
proof fn lemma_round_trip(u: int, v: int, c: int, s: int, u1: int, v1: int, d1: int, d2: int)
    requires
        u1 * ONE == u * c - v * s + d1,
        v1 * ONE == u * s + v * c + d2,
    ensures
        ONE * (u1 * c + v1 * s) == u * (c * c + s * s) + d1 * c + d2 * s,
        ONE * (-(u1 * s) + v1 * c) == v * (c * c + s * s) - d1 * s + d2 * c,
{
    let one = ONE as int;
    let n1 = u * c - v * s;
    let n2 = u * s + v * c;
    let x1 = u1 * one;
    let y1 = v1 * one;
    assert(one * (u1 * c) == x1 * c) by (nonlinear_arith)
        requires
            x1 == u1 * one,
    ;
    assert(one * (u1 * s) == x1 * s) by (nonlinear_arith)
        requires
            x1 == u1 * one,
    ;
    assert(one * (v1 * c) == y1 * c) by (nonlinear_arith)
        requires
            y1 == v1 * one,
    ;
    assert(one * (v1 * s) == y1 * s) by (nonlinear_arith)
        requires
            y1 == v1 * one,
    ;
    assert(x1 * c == n1 * c + d1 * c) by (nonlinear_arith)
        requires
            x1 == n1 + d1,
    ;
    assert(x1 * s == n1 * s + d1 * s) by (nonlinear_arith)
        requires
            x1 == n1 + d1,
    ;
    assert(y1 * c == n2 * c + d2 * c) by (nonlinear_arith)
        requires
            y1 == n2 + d2,
    ;
    assert(y1 * s == n2 * s + d2 * s) by (nonlinear_arith)
        requires
            y1 == n2 + d2,
    ;
    let ucc = u * (c * c);
    let uss = u * (s * s);
    let vcc = v * (c * c);
    let vss = v * (s * s);
    let ucs = u * (c * s);
    let vcs = v * (c * s);
    assert(n1 * c == ucc - vcs) by (nonlinear_arith)
        requires
            n1 == u * c - v * s,
            ucc == u * (c * c),
            vcs == v * (c * s),
    ;
    assert(n1 * s == ucs - vss) by (nonlinear_arith)
        requires
            n1 == u * c - v * s,
            ucs == u * (c * s),
            vss == v * (s * s),
    ;
    assert(n2 * c == ucs + vcc) by (nonlinear_arith)
        requires
            n2 == u * s + v * c,
            ucs == u * (c * s),
            vcc == v * (c * c),
    ;
    assert(n2 * s == uss + vcs) by (nonlinear_arith)
        requires
            n2 == u * s + v * c,
            uss == u * (s * s),
            vcs == v * (c * s),
    ;
    assert(u * (c * c + s * s) == ucc + uss) by (nonlinear_arith)
        requires
            ucc == u * (c * c),
            uss == u * (s * s),
    ;
    assert(v * (c * c + s * s) == vcc + vss) by (nonlinear_arith)
        requires
            vcc == v * (c * c),
            vss == v * (s * s),
    ;
    assert(one * (u1 * c + v1 * s) == one * (u1 * c) + one * (v1 * s)) by (nonlinear_arith);
    assert(one * (-(u1 * s) + v1 * c) == -(one * (u1 * s)) + one * (v1 * c)) by (nonlinear_arith);
}

/// Turning a pair by an angle and then by the opposite angle returns it, up to rounding.
///
/// Three roundings cost at most half a unit each, and the fixed-point cosine
/// and sine may miss the unit circle by [`unit_slack`](crate::angle::unit_slack),
/// which scales the pair by a `2 / ONE` part at most.
pub proof fn lemma_turn_back(u: int, v: int, a: Angle)
    requires
        a.well_formed(),
    ensures
        close(u, turn_first(turn_first(u, v, a), turn_second(u, v, a), a.reversed())),
        close(v, turn_second(turn_first(u, v, a), turn_second(u, v, a), a.reversed())),
{
    a.lemma_parts_bounded();
    a.lemma_reversed_well_formed();
    let c = a.cos as int;
    let s = a.sin as int;
    let one = ONE as int;
    let half = HALF as int;
    let n1 = u * c - v * s;
    let n2 = u * s + v * c;
    let u1 = scaled(n1);
    let v1 = scaled(n2);
    let d1 = u1 * one - n1;
    let d2 = v1 * one - n2;
    lemma_scaled_error(n1);
    lemma_scaled_error(n2);
    let n3 = u1 * c - v1 * (-s);
    let n4 = u1 * (-s) + v1 * c;
    let u2 = scaled(n3);
    let v2 = scaled(n4);
    let d3 = u2 * one - n3;
    let d4 = v2 * one - n4;
    lemma_scaled_error(n3);
    lemma_scaled_error(n4);
    assert(u2 == turn_first(u1, v1, a.reversed()));
    assert(v2 == turn_second(u1, v1, a.reversed()));
    let e = c * c + s * s - one * one;
    lemma_round_trip(u, v, c, s, u1, v1, d1, d2);
    assert(v1 * (-s) == -(v1 * s)) by (nonlinear_arith);
    assert(u1 * (-s) == -(u1 * s)) by (nonlinear_arith);
    assert(u * (c * c + s * s) == u * (one * one) + u * e) by (nonlinear_arith)
        requires
            e == c * c + s * s - one * one,
    ;
    assert(v * (c * c + s * s) == v * (one * one) + v * e) by (nonlinear_arith)
        requires
            e == c * c + s * s - one * one,
    ;
    assert(one * n3 == u * (one * one) + u * e + d1 * c + d2 * s);
    assert(one * n4 == v * (one * one) + v * e - d1 * s + d2 * c);
    let au = vstd::math::abs(u) as int;
    let av = vstd::math::abs(v) as int;
    lemma_product_bound(u, e, au, 2 * one);
    lemma_product_bound(v, e, av, 2 * one);
    lemma_product_bound(d1, c, half, one);
    lemma_product_bound(d2, s, half, one);
    lemma_product_bound(d1, s, half, one);
    lemma_product_bound(d2, c, half, one);
    let gu = u2 - u;
    let gv = v2 - v;
    assert(one * (one * gu) == u * e + d1 * c + d2 * s + one * d3) by (nonlinear_arith)
        requires
            one * n3 == u * (one * one) + u * e + d1 * c + d2 * s,
            d3 == u2 * one - n3,
            gu == u2 - u,
    ;
    assert(one * (one * gv) == v * e - d1 * s + d2 * c + one * d4) by (nonlinear_arith)
        requires
            one * n4 == v * (one * one) + v * e - d1 * s + d2 * c,
            d4 == v2 * one - n4,
            gv == v2 - v,
    ;
    assert(half * one == 576460752303423488);
    assert(au * (2 * one) == 2147483648 * au) by (nonlinear_arith)
        requires
            one == 1073741824,
    ;
    assert(av * (2 * one) == 2147483648 * av) by (nonlinear_arith)
        requires
            one == 1073741824,
    ;
}

/// Two pairs that lie near each other stay near each other when both are turned.
pub proof fn lemma_turn_near(u: int, v: int, u0: int, v0: int, a: Angle, t: int)
    requires
        a.well_formed(),
        -t <= ONE * (u - u0) <= t,
        -t <= ONE * (v - v0) <= t,
    ensures
        -(2 * t + ONE) <= ONE * (turn_first(u, v, a) - turn_first(u0, v0, a)) <= 2 * t + ONE,
        -(2 * t + ONE) <= ONE * (turn_second(u, v, a) - turn_second(u0, v0, a)) <= 2 * t + ONE,
{
    a.lemma_parts_bounded();
    let c = a.cos as int;
    let s = a.sin as int;
    let one = ONE as int;
    let du = u - u0;
    let dv = v - v0;
    let au = vstd::math::abs(du) as int;
    let av = vstd::math::abs(dv) as int;
    lemma_product_bound(du, c, au, one);
    lemma_product_bound(du, s, au, one);
    lemma_product_bound(dv, c, av, one);
    lemma_product_bound(dv, s, av, one);
    assert(au * one == one * au) by (nonlinear_arith);
    assert(av * one == one * av) by (nonlinear_arith);
    assert(du * c == u * c - u0 * c && du * s == u * s - u0 * s) by (nonlinear_arith)
        requires
            du == u - u0,
    ;
    assert(dv * c == v * c - v0 * c && dv * s == v * s - v0 * s) by (nonlinear_arith)
        requires
            dv == v - v0,
    ;
    lemma_scaled_error(u * c - v * s);
    lemma_scaled_error(u0 * c - v0 * s);
    lemma_scaled_error(u * s + v * c);
    lemma_scaled_error(u0 * s + v0 * c);
}

/// Turning about the X axis and back returns the point, up to rounding.
pub proof fn lemma_rotate_x_reverses(p: Sample, a: Angle)
    requires
        a.well_formed(),
    ensures
        rot_x(rot_x(p, a), a.reversed()).x == p.x,
        close(p.y, rot_x(rot_x(p, a), a.reversed()).y),
        close(p.z, rot_x(rot_x(p, a), a.reversed()).z),
        rot_x(rot_x(p, a), a.reversed()).d == p.d,
{
    lemma_turn_back(p.z, p.y, a);
}

/// Turning about the Y axis and back returns the point, up to rounding.
pub proof fn lemma_rotate_y_reverses(p: Sample, a: Angle)
    requires
        a.well_formed(),
    ensures
        close(p.x, rot_y(rot_y(p, a), a.reversed()).x),
        rot_y(rot_y(p, a), a.reversed()).y == p.y,
        close(p.z, rot_y(rot_y(p, a), a.reversed()).z),
        rot_y(rot_y(p, a), a.reversed()).d == p.d,
{
    lemma_turn_back(p.x, p.z, a);
}

/// Turning about the Z axis and back returns the point, up to rounding.
pub proof fn lemma_rotate_z_reverses(p: Sample, a: Angle)
    requires
        a.well_formed(),
    ensures
        close(p.x, rot_z(rot_z(p, a), a.reversed()).x),
        close(p.y, rot_z(rot_z(p, a), a.reversed()).y),
        rot_z(rot_z(p, a), a.reversed()).z == p.z,
        rot_z(rot_z(p, a), a.reversed()).d == p.d,
{
    lemma_turn_back(p.x, p.y, a);
}

/// Two points that lie near each other stay near each other under the same turn.
pub proof fn lemma_rot_near(p: Sample, q: Sample, a: Angle, t: int)
    requires
        a.well_formed(),
        near(p, q, t),
    ensures
        near(rot_x(p, a), rot_x(q, a), 2 * t + ONE),
        near(rot_y(p, a), rot_y(q, a), 2 * t + ONE),
        near(rot_z(p, a), rot_z(q, a), 2 * t + ONE),
{
    lemma_turn_near(q.z, q.y, p.z, p.y, a, t);
    lemma_turn_near(q.x, q.z, p.x, p.z, a, t);
    lemma_turn_near(q.x, q.y, p.x, p.y, a, t);
}

/// A single-axis round trip of a point within `bound` stays near the point.
proof fn lemma_round_trip_near(p: Sample, a: Angle, bound: int)
    requires
        a.well_formed(),
        p.within(bound),
    ensures
        near(p, rot_x(rot_x(p, a), a.reversed()), 2 * bound + 2 * ONE),
        near(p, rot_y(rot_y(p, a), a.reversed()), 2 * bound + 2 * ONE),
        near(p, rot_z(rot_z(p, a), a.reversed()), 2 * bound + 2 * ONE),
{
    lemma_rotate_x_reverses(p, a);
    lemma_rotate_y_reverses(p, a);
    lemma_rotate_z_reverses(p, a);
}

/// Rotating by three angles and then by the opposite angles in reverse order
/// returns the original point, up to rounding: no coordinate moves by more than
/// seventeen units in the last place plus a `42 / ONE` part of the largest
/// coordinate.
pub proof fn lemma_rotate_reverses(p: Sample, r: Rotation, bound: int)
    requires
        r.well_formed(),
        p.within(bound),
    ensures
        near(p, rot_back(rot(p, r), r), 42 * bound + 17 * ONE),
{
    let after_z = rot_z(p, r.z);
    let after_y = rot_y(after_z, r.y);
    let after_x = rot_x(after_y, r.x);
    lemma_rot_growth(p, r.z, bound);
    lemma_rot_growth(after_z, r.y, 2 * bound);
    r.x.lemma_reversed_well_formed();
    r.y.lemma_reversed_well_formed();
    r.z.lemma_reversed_well_formed();
    let back_x = rot_x(after_x, r.x.reversed());
    lemma_round_trip_near(after_y, r.x, 4 * bound);
    assert(near(after_y, back_x, 8 * bound + 2 * ONE));
    let back_y = rot_y(back_x, r.y.reversed());
    let near_z = rot_y(after_y, r.y.reversed());
    lemma_rot_near(after_y, back_x, r.y.reversed(), 8 * bound + 2 * ONE);
    assert(near(near_z, back_y, 16 * bound + 5 * ONE));
    lemma_round_trip_near(after_z, r.y, 2 * bound);
    assert(near(after_z, near_z, 4 * bound + 2 * ONE));
    assert(near(after_z, back_y, 20 * bound + 7 * ONE));
    let back_z = rot_z(back_y, r.z.reversed());
    let near_p = rot_z(after_z, r.z.reversed());
    lemma_rot_near(after_z, back_y, r.z.reversed(), 20 * bound + 7 * ONE);
    assert(near(near_p, back_z, 40 * bound + 15 * ONE));
    lemma_round_trip_near(p, r.z, bound);
    assert(near(p, near_p, 2 * bound + 2 * ONE));
    assert(back_z == rot_back(rot(p, r), r));
}

/// Turns the pair `(u, v)` by `a`.
fn turn(u: i64, v: i64, a: &Angle) -> (r: (i64, i64))
    requires
        a.well_formed(),
        -AXIS_LIMIT <= u <= AXIS_LIMIT,
        -AXIS_LIMIT <= v <= AXIS_LIMIT,
    ensures
        r.0 == turn_first(u as int, v as int, *a),
        r.1 == turn_second(u as int, v as int, *a),
{
    let c: i128 = a.cos as i128;
    let s: i128 = a.sin as i128;
    let uw: i128 = u as i128;
    let vw: i128 = v as i128;
    proof {
        a.lemma_parts_bounded();
        lemma_product_bound(uw as int, c as int, AXIS_LIMIT as int, ONE as int);
        lemma_product_bound(vw as int, s as int, AXIS_LIMIT as int, ONE as int);
        lemma_product_bound(uw as int, s as int, AXIS_LIMIT as int, ONE as int);
        lemma_product_bound(vw as int, c as int, AXIS_LIMIT as int, ONE as int);
        lemma_turn_growth(u as int, v as int, *a, AXIS_LIMIT as int);
    }
    let first: i128 = scale_down(uw * c - vw * s);
    let second: i128 = scale_down(uw * s + vw * c);
    (first as i64, second as i64)
}

/// Turns a point about the X axis.
pub fn rotate_x(point: &Point, rad: &Angle) -> (r: Point)
    requires
        rad.well_formed(),
        point.within(AXIS_LIMIT as int),
    ensures
        r@ == rot_x(point@, *rad),
        r.d == point.d,
{
    let (z, y) = turn(point.z, point.y, rad);
    Point { x: point.x, y, z, d: point.d }
}

/// Turns a point about the Y axis.
pub fn rotate_y(point: &Point, rad: &Angle) -> (r: Point)
    requires
        rad.well_formed(),
        point.within(AXIS_LIMIT as int),
    ensures
        r@ == rot_y(point@, *rad),
        r.d == point.d,
{
    let (x, z) = turn(point.x, point.z, rad);
    Point { x, y: point.y, z, d: point.d }
}

/// Turns a point about the Z axis.
pub fn rotate_z(point: &Point, rad: &Angle) -> (r: Point)
    requires
        rad.well_formed(),
        point.within(AXIS_LIMIT as int),
    ensures
        r@ == rot_z(point@, *rad),
        r.d == point.d,
{
    let (x, y) = turn(point.x, point.y, rad);
    Point { x, y, z: point.z, d: point.d }
}

/// Each single-axis turn at most doubles the bound on the coordinates.
pub proof fn lemma_rot_growth(p: Sample, a: Angle, bound: int)
    requires
        a.well_formed(),
        p.within(bound),
    ensures
        rot_x(p, a).within(2 * bound),
        rot_y(p, a).within(2 * bound),
        rot_z(p, a).within(2 * bound),
{
    lemma_turn_growth(p.z, p.y, a, bound);
    lemma_turn_growth(p.x, p.z, a, bound);
    lemma_turn_growth(p.x, p.y, a, bound);
}

/// Rotates a point about all three axes: about Z first, then Y, then X.
pub fn rotate(point: &Point, r: &Rotation) -> (q: Point)
    requires
        r.well_formed(),
        point.within(COORD_LIMIT as int),
    ensures
        q@ == rot_x(rot_y(rot_z(point@, r.z), r.y), r.x),
        q@ == rot(point@, *r),
        q.d == point.d,
{
    proof {
        lemma_rot_growth(point@, r.z, COORD_LIMIT as int);
        lemma_rot_growth(rot_z(point@, r.z), r.y, 2 * COORD_LIMIT);
    }
    rotate_x(&rotate_y(&rotate_z(point, &r.z), &r.y), &r.x)
}

} // verus!
