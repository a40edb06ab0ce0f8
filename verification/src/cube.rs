//! The geometry generator and the face assembler: the point cloud of a cube.
use vstd::prelude::*;
use vstd::arithmetic::div_mod::lemma_fundamental_div_mod_converse;
use crate::angle::{half_turn, no_turn, quarter_turn, quarter_turn_back, Angle};
use crate::error::ConfigError;
use crate::point::{cloud_in_range, samples, Point, Sample};
use crate::rotation::{lemma_turn_whole, rot_x, rot_y, rot_z, rotate_x, rotate_y, rotate_z};

verus! {

/// The largest edge length that a cube may have.
pub const MAX_SIZE: i64 = 0x0800_0000_0000_0000;

/// The six faces of the cube.
#[derive(Clone, Copy, Debug, PartialEq, Eq, Structural)]
pub enum Side {
    Front,
    Back,
    Top,
    Bottom,
    Left,
    Right,
}

/// The solid: a cube of edge length `size`, sampled `density` times along each edge of a face.
#[derive(Clone, Copy, Debug, PartialEq, Eq, Structural)]
pub struct Cube {
    pub size: i64,
    pub density: u32,
}

impl Cube {
    /// The edge length is positive and at most [`MAX_SIZE`], and a face has at least two
    /// samples per edge.
    pub open spec fn well_formed(&self) -> bool {
        0 < self.size <= MAX_SIZE && self.density >= 2
    }

    /// The number of samples on one face.
    pub open spec fn face_len(&self) -> nat {
        (self.density * self.density) as nat
    }

    /// Accepts an edge length and a density, or says which of the two is degenerate.
    pub fn new(size: i64, density: u32) -> (r: Result<Cube, ConfigError>)
        ensures
            size <= 0 ==> r is Err && r->Err_0 == ConfigError::NonPositiveSize,
            size > MAX_SIZE ==> r is Err && r->Err_0 == ConfigError::SizeTooLarge,
            0 < size <= MAX_SIZE && density < 2 ==> r is Err && r->Err_0
                == ConfigError::DensityTooSmall,
            0 < size <= MAX_SIZE && density >= 2 ==> r is Ok && r->Ok_0.size == size
                && r->Ok_0.density == density && r->Ok_0.well_formed(),
    {
        if size <= 0 {
            Err(ConfigError::NonPositiveSize)
        } else if size > MAX_SIZE {
            Err(ConfigError::SizeTooLarge)
        } else if density < 2 {
            Err(ConfigError::DensityTooSmall)
        } else {
            Ok(Cube { size, density })
        }
    }
}

/// How far the `i`-th sample lies from the first along an edge: `i · size / density`, rounded
/// down.
pub open spec fn step(cube: Cube, i: int) -> int {
    (i * cube.size) / (cube.density as int)
}

/// The `k`-th sample of the flat grid that starts at `base`: row `k / density` along X,
/// column `k % density` along Y, at the depth and with the symbol of `base`.
pub open spec fn grid_sample(cube: Cube, base: Sample, k: int) -> Sample {
    Sample {
        x: base.x + step(cube, k / (cube.density as int)),
        y: base.y + step(cube, k % (cube.density as int)),
        z: base.z,
        d: base.d,
    }
}

/// The flat grid of `density × density` samples that starts at `base`.
pub open spec fn side_grid(cube: Cube, base: Sample) -> Seq<Sample> {
    Seq::new(cube.face_len(), |k: int| grid_sample(cube, base, k))
}

/// The corner from which every face is generated, tagged with `c`.
pub open spec fn corner(cube: Cube, c: char) -> Sample {
    Sample { x: -(cube.size / 2), y: -(cube.size / 2), z: -(cube.size / 2), d: c }
}

/// Where a sample of the front face lies once it is moved to `side`.
pub open spec fn place(side: Side, p: Sample) -> Sample {
    match side {
        Side::Front => p,
        Side::Back => Sample { x: -p.x, y: p.y, z: -p.z, d: p.d },
        Side::Left => Sample { x: p.z, y: p.y, z: -p.x, d: p.d },
        Side::Right => Sample { x: -p.z, y: p.y, z: p.x, d: p.d },
        Side::Top => Sample { x: p.x, y: p.z, z: -p.y, d: p.d },
        Side::Bottom => Sample { x: p.x, y: -p.z, z: p.y, d: p.d },
    }
}

/// The samples of one face, tagged with `c`.
pub open spec fn side_points(cube: Cube, side: Side, c: char) -> Seq<Sample> {
    Seq::new(cube.face_len(), |k: int| place(side, grid_sample(cube, corner(cube, c), k)))
}

/// The faces in the order in which the cloud holds them.
pub open spec fn side_at(i: int) -> Side {
    if i == 0 {
        Side::Front
    } else if i == 1 {
        Side::Back
    } else if i == 2 {
        Side::Left
    } else if i == 3 {
        Side::Right
    } else if i == 4 {
        Side::Top
    } else {
        Side::Bottom
    }
}

/// The symbol of each face, in the same order.
pub open spec fn symbol_at(i: int) -> char {
    if i == 0 {
        '#'
    } else if i == 1 {
        '$'
    } else if i == 2 {
        '@'
    } else if i == 3 {
        '"'
    } else if i == 4 {
        ';'
    } else {
        '.'
    }
}

/// The samples of the first `n` faces, one face after the other.
pub open spec fn cloud_prefix(cube: Cube, n: nat) -> Seq<Sample>
    decreases n,
{
    if n == 0 {
        Seq::empty()
    } else {
        cloud_prefix(cube, (n - 1) as nat) + side_points(
            cube,
            side_at(n - 1),
            symbol_at(n - 1),
        )
    }
}

/// The whole cloud: all six faces.
pub open spec fn cube_points(cube: Cube) -> Seq<Sample> {
    cloud_prefix(cube, 6)
}

/// How many samples of `s` carry the symbol `c`.
pub open spec fn count_symbol(s: Seq<Sample>, c: char) -> nat
    decreases s.len(),
{
    if s.len() == 0 {
        0
    } else {
        count_symbol(s.drop_last(), c) + if s.last().d == c {
            1nat
        } else {
            0nat
        }
    }
}

/// A step along an edge stays on the edge.
pub proof fn lemma_step_bounds(cube: Cube, i: int)
    requires
        cube.well_formed(),
        0 <= i < cube.density,
    ensures
        0 <= step(cube, i) < cube.size,
        0 <= i * cube.size <= (cube.density - 1) * cube.size,
{
    let n = cube.density as int;
    let s = cube.size as int;
    assert(0 <= i * s <= (n - 1) * s) by (nonlinear_arith)
        requires
            0 <= i < n,
            0 < s,
    ;
    assert((i * s) / n < s) by (nonlinear_arith)
        requires
            0 <= i * s <= (n - 1) * s,
            0 < n,
            0 < s,
    ;
    assert(0 <= (i * s) / n) by (nonlinear_arith)
        requires
            0 <= i * s,
            0 < n,
    ;
}

/// Every sample of a face lies within half the edge length of the origin, rounded up, on
/// whichever side the face is placed, and carries the symbol of the face.
pub proof fn lemma_side_points_bounded(cube: Cube, side: Side, c: char, k: int)
    requires
        cube.well_formed(),
        0 <= k < cube.face_len(),
    ensures
        side_points(cube, side, c)[k].within(cube.size - cube.size / 2),
        grid_sample(cube, corner(cube, c), k).within(cube.size - cube.size / 2),
        side_points(cube, side, c)[k].d == c,
{
    let n = cube.density as int;
    lemma_index_split(cube, k);
    lemma_step_bounds(cube, k / n);
    lemma_step_bounds(cube, k % n);
}

/// A sample index splits into a row and a column, both below the density.
pub proof fn lemma_index_split(cube: Cube, k: int)
    requires
        cube.well_formed(),
        0 <= k < cube.face_len(),
    ensures
        0 <= k / (cube.density as int) < cube.density,
        0 <= k % (cube.density as int) < cube.density,
{
    let n = cube.density as int;
    assert(0 <= k / n < n) by (nonlinear_arith)
        requires
            0 <= k < n * n,
            0 < n,
    ;
}

/// Counting over two sequences, one after the other, adds up.
pub proof fn lemma_count_concat(a: Seq<Sample>, b: Seq<Sample>, c: char)
    ensures
        count_symbol(a + b, c) == count_symbol(a, c) + count_symbol(b, c),
    decreases b.len(),
{
    if b.len() == 0 {
        assert(a + b =~= a);
    } else {
        assert((a + b).drop_last() =~= a + b.drop_last());
        lemma_count_concat(a, b.drop_last(), c);
    }
}

/// Where every sample carries the symbol `t`, the count of `t` is the length and the count
/// of any other symbol is zero.
pub proof fn lemma_count_uniform(s: Seq<Sample>, t: char, c: char)
    requires
        forall|i: int| 0 <= i < s.len() ==> (#[trigger] s[i]).d == t,
    ensures
        c == t ==> count_symbol(s, c) == s.len(),
        c != t ==> count_symbol(s, c) == 0,
    decreases s.len(),
{
    if s.len() > 0 {
        lemma_count_uniform(s.drop_last(), t, c);
    }
}

/// The symbol is one of the six that the faces carry.
pub open spec fn is_face_symbol(c: char) -> bool {
    c == '#' || c == '$' || c == '@' || c == '"' || c == ';' || c == '.'
}

/// The census of the cloud: it holds six faces' worth of samples, the six faces carry six
/// different symbols, each of the six symbols occurs on exactly one face's worth of samples,
/// and no other symbol occurs at all.
pub proof fn lemma_cloud_census(cube: Cube)
    requires
        cube.well_formed(),
    ensures
        cube_points(cube).len() == 6 * cube.face_len(),
        forall|i: int, j: int| 0 <= i < j < 6 ==> symbol_at(i) != symbol_at(j),
        forall|i: int| 0 <= i < 6 ==> is_face_symbol(#[trigger] symbol_at(i)),
        forall|c: char|
            is_face_symbol(c) ==> #[trigger] count_symbol(cube_points(cube), c) == cube.face_len(),
        forall|c: char| !is_face_symbol(c) ==> #[trigger] count_symbol(cube_points(cube), c) == 0,
{
    reveal_with_fuel(cloud_prefix, 7);
    assert forall|c: char|
        (is_face_symbol(c) ==> #[trigger] count_symbol(cube_points(cube), c) == cube.face_len())
            && (!is_face_symbol(c) ==> count_symbol(cube_points(cube), c) == 0) by {
        let face0 = side_points(cube, side_at(0), symbol_at(0));
        let face1 = side_points(cube, side_at(1), symbol_at(1));
        let face2 = side_points(cube, side_at(2), symbol_at(2));
        let face3 = side_points(cube, side_at(3), symbol_at(3));
        let face4 = side_points(cube, side_at(4), symbol_at(4));
        let face5 = side_points(cube, side_at(5), symbol_at(5));
        let upto0 = cloud_prefix(cube, 0);
        let upto1 = cloud_prefix(cube, 1);
        let upto2 = cloud_prefix(cube, 2);
        let upto3 = cloud_prefix(cube, 3);
        let upto4 = cloud_prefix(cube, 4);
        let upto5 = cloud_prefix(cube, 5);
        lemma_count_concat(upto0, face0, c);
        lemma_count_concat(upto1, face1, c);
        lemma_count_concat(upto2, face2, c);
        lemma_count_concat(upto3, face3, c);
        lemma_count_concat(upto4, face4, c);
        lemma_count_concat(upto5, face5, c);
        lemma_count_uniform(face0, symbol_at(0), c);
        lemma_count_uniform(face1, symbol_at(1), c);
        lemma_count_uniform(face2, symbol_at(2), c);
        lemma_count_uniform(face3, symbol_at(3), c);
        lemma_count_uniform(face4, symbol_at(4), c);
        lemma_count_uniform(face5, symbol_at(5), c);
        assert(count_symbol(upto0, c) == 0);
    }
}

/// The offset of the `i`-th sample along an edge.
fn edge_step(cube: &Cube, i: u32) -> (r: i64)
    requires
        cube.well_formed(),
        i < cube.density,
    ensures
        r == step(*cube, i as int),
        0 <= r < cube.size,
{
    proof {
        lemma_step_bounds(*cube, i as int);
        assert((cube.density - 1) * cube.size <= 0x1_0000_0000 * MAX_SIZE) by (nonlinear_arith)
            requires
                0 < cube.size <= MAX_SIZE,
                2 <= cube.density <= 0xffff_ffff,
        ;
    }
    let wide: i128 = (i as i128) * (cube.size as i128);
    (wide / (cube.density as i128)) as i64
}

/// Generates the flat grid of one face: `density × density` samples that start at `point`,
/// spaced `size / density` apart along X and Y, all at the depth and with the symbol of
/// `point`.
pub fn create_side(cube: &Cube, point: &Point) -> (v: Vec<Point>)
    requires
        cube.well_formed(),
        point.x + cube.size <= i64::MAX,
        point.y + cube.size <= i64::MAX,
    ensures
        v@.len() == cube.density * cube.density,
        forall|k: int| 0 <= k < v@.len() ==> (#[trigger] v@[k])@ == grid_sample(*cube, point@, k),
        samples(v@) == side_grid(*cube, point@),
{
    let dens: u32 = cube.density;
    let mut v: Vec<Point> = Vec::new();
    let mut i: u32 = 0;
    while i < dens
        invariant
            cube.well_formed(),
            dens == cube.density,
            point.x + cube.size <= i64::MAX,
            point.y + cube.size <= i64::MAX,
            0 <= i <= dens,
            v@.len() == i * dens,
            forall|k: int|
                0 <= k < v@.len() ==> (#[trigger] v@[k])@ == grid_sample(*cube, point@, k),
        decreases dens - i,
    {
        let x: i64 = point.x + edge_step(cube, i);
        let mut j: u32 = 0;
        while j < dens
            invariant
                cube.well_formed(),
                dens == cube.density,
                point.y + cube.size <= i64::MAX,
                0 <= i < dens,
                0 <= j <= dens,
                x == point.x + step(*cube, i as int),
                v@.len() == i * dens + j,
                forall|k: int|
                    0 <= k < v@.len() ==> (#[trigger] v@[k])@ == grid_sample(*cube, point@, k),
            decreases dens - j,
        {
            let y: i64 = point.y + edge_step(cube, j);
            proof {
                lemma_fundamental_div_mod_converse(
                    i * dens + j,
                    dens as int,
                    i as int,
                    j as int,
                );
            }
            v.push(Point { x, y, z: point.z, d: point.d });
            j += 1;
        }
        proof {
            assert(i * dens + dens == (i + 1) * dens) by (nonlinear_arith);
        }
        i += 1;
    }
    proof {
        assert(samples(v@) =~= side_grid(*cube, point@));
    }
    v
}

/// Moves a sample of the front face to its place on `side` by the turn of that side:
/// half a turn about Y for the back, a quarter turn about Y for left and right, a quarter
/// turn about X for top and bottom.
fn place_on(side: &Side, p: &Point) -> (q: Point)
    requires
        p.within(MAX_SIZE as int),
    ensures
        q@ == place(*side, p@),
{
    let quarter = Angle::quarter();
    let back = quarter.opposite();
    proof {
        assert(back == quarter_turn_back());
        lemma_place_is_turn(p@);
    }
    match side {
        Side::Top => rotate_x(p, &quarter),
        Side::Bottom => rotate_x(p, &back),
        Side::Right => rotate_y(p, &quarter),
        Side::Left => rotate_y(p, &back),
        Side::Back => rotate_y(p, &Angle::half()),
        Side::Front => rotate_z(p, &Angle::zero()),
    }
}

/// The place of a sample on each side is the turn that the side stands for: none for the
/// front, half a turn about Y for the back, a quarter turn about Y for right and the opposite
/// for left, a quarter turn about X for top and the opposite for bottom.
pub proof fn lemma_place_is_turn(p: Sample)
    ensures
        place(Side::Front, p) == rot_z(p, no_turn()),
        place(Side::Back, p) == rot_y(p, half_turn()),
        place(Side::Left, p) == rot_y(p, quarter_turn_back()),
        place(Side::Right, p) == rot_y(p, quarter_turn()),
        place(Side::Top, p) == rot_x(p, quarter_turn()),
        place(Side::Bottom, p) == rot_x(p, quarter_turn_back()),
{
    lemma_turn_whole(p.z, p.y, quarter_turn(), 0, 1);
    lemma_turn_whole(p.z, p.y, quarter_turn_back(), 0, -1);
    lemma_turn_whole(p.x, p.z, quarter_turn(), 0, 1);
    lemma_turn_whole(p.x, p.z, quarter_turn_back(), 0, -1);
    lemma_turn_whole(p.x, p.z, half_turn(), -1, 0);
    lemma_turn_whole(p.x, p.y, no_turn(), 1, 0);
}

/// Appends to `v` the face `d` of the cube, tagged with `c`.
pub fn append_side(v: &mut Vec<Point>, cube: &Cube, d: &Side, c: char)
    requires
        cube.well_formed(),
    ensures
        final(v)@.len() == old(v)@.len() + cube.density * cube.density,
        final(v)@.subrange(0, old(v)@.len() as int) == old(v)@,
        samples(final(v)@) == samples(old(v)@) + side_points(*cube, *d, c),
        cloud_in_range(old(v)@) ==> cloud_in_range(final(v)@),
{
    let half: i64 = cube.size / 2;
    let base = Point { x: -half, y: -half, z: -half, d: c };
    let grid = create_side(cube, &base);
    let mut side: Vec<Point> = Vec::new();
    let mut k: usize = 0;
    while k < grid.len()
        invariant
            cube.well_formed(),
            base@ == corner(*cube, c),
            grid@.len() == cube.face_len(),
            forall|i: int|
                0 <= i < grid@.len() ==> (#[trigger] grid@[i])@ == grid_sample(*cube, base@, i),
            0 <= k <= grid@.len(),
            side@.len() == k,
            forall|i: int|
                0 <= i < k ==> (#[trigger] side@[i])@ == side_points(*cube, *d, c)[i],
            forall|i: int| 0 <= i < k ==> (#[trigger] side@[i]).within(MAX_SIZE as int),
        decreases grid@.len() - k,
    {
        proof {
            lemma_side_points_bounded(*cube, *d, c, k as int);
        }
        let q = place_on(d, &grid[k]);
        side.push(q);
        k += 1;
    }
    proof {
        assert(samples(side@) =~= side_points(*cube, *d, c));
        assert(samples(v@ + side@) =~= samples(v@) + samples(side@));
        assert((v@ + side@).subrange(0, v@.len() as int) =~= v@);
        assert(cloud_in_range(v@) ==> cloud_in_range(v@ + side@));
    }
    v.append(&mut side);
}

/// Fills `v` with the whole cloud: the six faces in the order front, back, left, right, top,
/// bottom, each with its own symbol.
pub fn create_all_sides(v: &mut Vec<Point>, cube: &Cube)
    requires
        cube.well_formed(),
    ensures
        final(v)@.len() == old(v)@.len() + 6 * (cube.density * cube.density),
        final(v)@.subrange(0, old(v)@.len() as int) == old(v)@,
        samples(final(v)@) == samples(old(v)@) + cube_points(*cube),
        cloud_in_range(old(v)@) ==> cloud_in_range(final(v)@),
        forall|c: char|
            is_face_symbol(c) ==> #[trigger] count_symbol(samples(final(v)@), c) == count_symbol(
                samples(old(v)@),
                c,
            ) + cube.density * cube.density,
        forall|c: char|
            !is_face_symbol(c) ==> #[trigger] count_symbol(samples(final(v)@), c) == count_symbol(
                samples(old(v)@),
                c,
            ),
{
    let side_chars: [char; 6] = ['#', '$', '@', '"', ';', '.'];
    let sides: [Side; 6] = [
        Side::Front,
        Side::Back,
        Side::Left,
        Side::Right,
        Side::Top,
        Side::Bottom,
    ];
    let ghost before = v@;
    let mut i: usize = 0;
    proof {
        assert(samples(v@) =~= samples(before) + cloud_prefix(*cube, 0));
        assert(v@.subrange(0, before.len() as int) =~= before);
    }
    while i < 6
        invariant
            cube.well_formed(),
            0 <= i <= 6,
            forall|n: int| 0 <= n < 6 ==> sides[n] == side_at(n) && side_chars[n] == symbol_at(n),
            v@.len() == before.len() + i * (cube.density * cube.density),
            v@.subrange(0, before.len() as int) == before,
            samples(v@) == samples(before) + cloud_prefix(*cube, i as nat),
            cloud_in_range(before) ==> cloud_in_range(v@),
        decreases 6 - i,
    {
        let ghost mid = v@;
        append_side(v, cube, &sides[i], side_chars[i]);
        proof {
            let add = side_points(*cube, side_at(i as int), symbol_at(i as int));
            assert(cloud_prefix(*cube, (i + 1) as nat) == cloud_prefix(*cube, i as nat) + add);
            assert(samples(before) + (cloud_prefix(*cube, i as nat) + add) =~= (samples(before)
                + cloud_prefix(*cube, i as nat)) + add);
            assert(v@.subrange(0, before.len() as int) =~= mid.subrange(
                0,
                before.len() as int,
            )) by {
                assert(v@.subrange(0, mid.len() as int) == mid);
            }
            assert((i + 1) * (cube.density * cube.density) == i * (cube.density * cube.density)
                + cube.density * cube.density) by (nonlinear_arith);
        }
        i += 1;
    }
    proof {
        lemma_cloud_census(*cube);
        assert forall|c: char|
            #[trigger] count_symbol(samples(v@), c) == count_symbol(samples(before), c)
                + count_symbol(cube_points(*cube), c) by {
            lemma_count_concat(samples(before), cube_points(*cube), c);
        }
    }
}

} // verus!
