//! The frame buffer and the depth-buffered projector.
//!
//! The buffer is a grid of cells, rows first. The projector drops the depth
//! axis: a point lands in the cell under its offset X and Y, rounded down, and
//! takes the cell over when it lies nearer to the viewer than what the cell
//! holds.
use vstd::prelude::*;
use crate::cube::Cube;
use crate::error::ConfigError;
use crate::fixed::{floor_one, floored, ONE};
use crate::point::Point;

verus! {

/// The depth of a cell that no point has reached: a thousand units behind the origin.
pub const SENTINEL_DEPTH: i64 = -1_073_741_824_000;

/// The symbol of a cell that no point has reached.
pub const BLANK: char = ' ';

/// One cell of the frame buffer: the depth of the nearest point seen, and its symbol.
#[derive(Clone, Copy, Debug, PartialEq, Eq, Structural)]
pub struct DisplayPoint {
    pub z: i64,
    pub d: char,
}

/// The cells of a frame buffer as a sequence of rows.
pub open spec fn grid(dps: Vec<Vec<DisplayPoint>>) -> Seq<Seq<DisplayPoint>> {
    Seq::new(dps@.len(), |y: int| dps@[y]@)
}

/// The cell that no point has reached.
pub open spec fn blank_cell() -> DisplayPoint {
    DisplayPoint { z: SENTINEL_DEPTH, d: BLANK }
}

/// A grid of `height` rows of `width` blank cells.
pub open spec fn blank_grid(width: nat, height: nat) -> Seq<Seq<DisplayPoint>> {
    Seq::new(height, |y: int| Seq::new(width, |x: int| blank_cell()))
}

/// The number of cells along one axis: twice the edge length plus the offset, rounded down
/// to whole units.
pub open spec fn extent(size: int, offset: int) -> int {
    floored(2 * size + offset)
}

/// The number of columns of the frame buffer for a cube and a viewport offset.
pub open spec fn width_of(cube: Cube, offset: Point) -> int {
    extent(cube.size as int, offset.x as int)
}

/// The number of rows of the frame buffer for a cube and a viewport offset.
pub open spec fn height_of(cube: Cube, offset: Point) -> int {
    extent(cube.size as int, offset.y as int)
}

/// The frame buffer for a cube and a viewport offset has at least one row and one column.
pub open spec fn has_frame(cube: Cube, offset: Point) -> bool {
    width_of(cube, offset) > 0 && height_of(cube, offset) > 0
}

/// The fresh frame buffer for a cube and a viewport offset: every cell blank.
pub open spec fn fresh_grid(cube: Cube, offset: Point) -> Seq<Seq<DisplayPoint>> {
    blank_grid(width_of(cube, offset) as nat, height_of(cube, offset) as nat)
}

/// The column in which a point lands.
pub open spec fn cell_x(p: Point, offset: Point) -> int {
    floored(p.x + offset.x)
}

/// The row in which a point lands.
pub open spec fn cell_y(p: Point, offset: Point) -> int {
    floored(p.y + offset.y)
}

/// The grid has a cell at column `x` of row `y`.
pub open spec fn has_cell(g: Seq<Seq<DisplayPoint>>, x: int, y: int) -> bool {
    0 <= y < g.len() && 0 <= x < g[y].len()
}

/// The point lands on a cell of the grid.
pub open spec fn in_view(g: Seq<Seq<DisplayPoint>>, p: Point, offset: Point) -> bool {
    has_cell(g, cell_x(p, offset), cell_y(p, offset))
}

/// The grid after one point is projected onto it: a point in view that lies strictly nearer
/// than its cell's depth takes the cell over; any other point changes nothing.
pub open spec fn plot(g: Seq<Seq<DisplayPoint>>, p: Point, offset: Point) -> Seq<
    Seq<DisplayPoint>,
> {
    let x = cell_x(p, offset);
    let y = cell_y(p, offset);
    if in_view(g, p, offset) && p.z > g[y][x].z {
        g.update(y, g[y].update(x, DisplayPoint { z: p.z, d: p.d }))
    } else {
        g
    }
}

/// The grid after a sequence of points is projected onto it, one after the other.
pub open spec fn render_points(g: Seq<Seq<DisplayPoint>>, points: Seq<Point>, offset: Point) -> Seq<
    Seq<DisplayPoint>,
>
    decreases points.len(),
{
    if points.len() == 0 {
        g
    } else {
        plot(render_points(g, points.drop_last(), offset), points.last(), offset)
    }
}

/// The two grids have the same number of rows, and each row the same number of cells.
pub open spec fn same_shape(a: Seq<Seq<DisplayPoint>>, b: Seq<Seq<DisplayPoint>>) -> bool {
    &&& a.len() == b.len()
    &&& forall|y: int| 0 <= y < a.len() ==> (#[trigger] a[y]).len() == b[y].len()
}

/// The point lands in column `x` of row `y`.
pub open spec fn lands(p: Point, offset: Point, x: int, y: int) -> bool {
    cell_x(p, offset) == x && cell_y(p, offset) == y
}

/// What a cell holds when `p` has taken it over.
pub open spec fn cell_of(p: Point) -> DisplayPoint {
    DisplayPoint { z: p.z, d: p.d }
}

/// Points that land in the same cell at the same depth carry the same symbol.
pub open spec fn ties_agree(points: Seq<Point>, offset: Point) -> bool {
    forall|i: int, j: int|
        0 <= i < points.len() && 0 <= j < points.len() && cell_x(points[i], offset) == cell_x(
            points[j],
            offset,
        ) && cell_y(points[i], offset) == cell_y(points[j], offset) && points[i].z == points[j].z
            ==> points[i].d == points[j].d
}

/// Projecting one point keeps the shape of the grid, and changes at most the cell in which
/// the point lands.
pub proof fn lemma_plot_cell(g: Seq<Seq<DisplayPoint>>, p: Point, offset: Point, x: int, y: int)
    requires
        has_cell(g, x, y),
    ensures
        same_shape(g, plot(g, p, offset)),
        has_cell(plot(g, p, offset), x, y),
        lands(p, offset, x, y) && p.z > g[y][x].z ==> plot(g, p, offset)[y][x] == cell_of(p),
        !(lands(p, offset, x, y) && p.z > g[y][x].z) ==> plot(g, p, offset)[y][x] == g[y][x],
{
}

/// What a cell holds after a pass: the greatest depth among what it held before and the
/// points that landed in it, with the symbol of a point of that depth.
pub proof fn lemma_render_cell(
    g: Seq<Seq<DisplayPoint>>,
    points: Seq<Point>,
    offset: Point,
    x: int,
    y: int,
)
    requires
        has_cell(g, x, y),
    ensures
        same_shape(g, render_points(g, points, offset)),
        has_cell(render_points(g, points, offset), x, y),
        render_points(g, points, offset)[y][x].z >= g[y][x].z,
        forall|i: int|
            0 <= i < points.len() && lands(#[trigger] points[i], offset, x, y) ==> render_points(
                g,
                points,
                offset,
            )[y][x].z >= points[i].z,
        render_points(g, points, offset)[y][x] == g[y][x] || exists|i: int|
            0 <= i < points.len() && lands(#[trigger] points[i], offset, x, y) && points[i].z
                > g[y][x].z && render_points(g, points, offset)[y][x] == cell_of(points[i]),
    decreases points.len(),
{
    if points.len() > 0 {
        let front = points.drop_last();
        let last = points.last();
        let mid = render_points(g, front, offset);
        let end = render_points(g, points, offset);
        lemma_render_cell(g, front, offset, x, y);
        lemma_plot_cell(mid, last, offset, x, y);
        assert(same_shape(g, end)) by {
            assert forall|r: int| 0 <= r < g.len() implies (#[trigger] g[r]).len()
                == end[r].len() by {
                assert(g[r].len() == mid[r].len());
                assert(mid[r].len() == end[r].len());
            }
        }
        assert forall|i: int|
            0 <= i < points.len() && lands(#[trigger] points[i], offset, x, y) implies end[y][x].z
            >= points[i].z by {
            if i < front.len() {
                assert(front[i] == points[i]);
            }
        }
        if end[y][x] != g[y][x] {
            if lands(last, offset, x, y) && last.z > mid[y][x].z {
                let i = points.len() - 1;
                assert(lands(points[i], offset, x, y) && points[i].z > g[y][x].z && end[y][x]
                    == cell_of(points[i]));
            } else {
                let i = choose|i: int|
                    0 <= i < front.len() && lands(#[trigger] front[i], offset, x, y) && front[i].z
                        > g[y][x].z && mid[y][x] == cell_of(front[i]);
                assert(front[i] == points[i]);
                assert(lands(points[i], offset, x, y) && points[i].z > g[y][x].z && end[y][x]
                    == cell_of(points[i]));
            }
        }
    }
}

/// The nearest point wins its cell, wherever in the sequence it stands: a point in view that
/// lies nearer than what its cell held, and nearer than every other point that lands in that
/// cell, is what the cell holds after the pass.
pub proof fn lemma_nearest_wins(
    g: Seq<Seq<DisplayPoint>>,
    points: Seq<Point>,
    offset: Point,
    k: int,
)
    requires
        0 <= k < points.len(),
        in_view(g, points[k], offset),
        points[k].z > g[cell_y(points[k], offset)][cell_x(points[k], offset)].z,
        forall|j: int|
            0 <= j < points.len() && j != k && cell_x(#[trigger] points[j], offset) == cell_x(
                points[k],
                offset,
            ) && cell_y(points[j], offset) == cell_y(points[k], offset) ==> points[j].z
                < points[k].z,
    ensures
        render_points(g, points, offset)[cell_y(points[k], offset)][cell_x(points[k], offset)]
            == cell_of(points[k]),
{
    let x = cell_x(points[k], offset);
    let y = cell_y(points[k], offset);
    lemma_render_cell(g, points, offset, x, y);
    let end = render_points(g, points, offset);
    assert(lands(points[k], offset, x, y));
    assert(end[y][x].z >= points[k].z);
    let i = choose|i: int|
        0 <= i < points.len() && lands(#[trigger] points[i], offset, x, y) && points[i].z
            > g[y][x].z && end[y][x] == cell_of(points[i]);
    if i != k {
        assert(points[i].z < points[k].z);
    }
}

/// Two passes over the same points give the same depths, whatever the order and however
/// often a point occurs; where ties agree on the symbol, they give the same grid.
pub proof fn lemma_same_points_same_image(
    g: Seq<Seq<DisplayPoint>>,
    a: Seq<Point>,
    b: Seq<Point>,
    offset: Point,
)
    requires
        forall|p: Point| a.contains(p) <==> b.contains(p),
    ensures
        same_shape(render_points(g, a, offset), render_points(g, b, offset)),
        forall|x: int, y: int|
            has_cell(g, x, y) ==> (#[trigger] render_points(g, a, offset)[y][x]).z
                == render_points(g, b, offset)[y][x].z,
        ties_agree(a, offset) ==> render_points(g, a, offset) == render_points(g, b, offset),
{
    let ra = render_points(g, a, offset);
    let rb = render_points(g, b, offset);
    assert forall|x: int, y: int| has_cell(g, x, y) implies (#[trigger] ra[y][x]).z == rb[y][x].z
        && (ties_agree(a, offset) ==> ra[y][x] == rb[y][x]) by {
        lemma_render_cell(g, a, offset, x, y);
        lemma_render_cell(g, b, offset, x, y);
        if ra[y][x] != g[y][x] {
            let i = choose|i: int|
                0 <= i < a.len() && lands(#[trigger] a[i], offset, x, y) && a[i].z > g[y][x].z
                    && ra[y][x] == cell_of(a[i]);
            assert(a.contains(a[i]));
            assert(b.contains(a[i]));
            let j = choose|j: int| 0 <= j < b.len() && b[j] == a[i];
            assert(lands(b[j], offset, x, y));
            assert(rb[y][x].z >= ra[y][x].z);
        }
        if rb[y][x] != g[y][x] {
            let j = choose|j: int|
                0 <= j < b.len() && lands(#[trigger] b[j], offset, x, y) && b[j].z > g[y][x].z
                    && rb[y][x] == cell_of(b[j]);
            assert(b.contains(b[j]));
            assert(a.contains(b[j]));
            let i = choose|i: int| 0 <= i < a.len() && a[i] == b[j];
            assert(lands(a[i], offset, x, y));
            assert(ra[y][x].z >= rb[y][x].z);
            if ties_agree(a, offset) && ra[y][x] != g[y][x] {
                let m = choose|m: int|
                    0 <= m < a.len() && lands(#[trigger] a[m], offset, x, y) && a[m].z
                        > g[y][x].z && ra[y][x] == cell_of(a[m]);
                assert(a[m].z == a[i].z);
                assert(a[m].d == a[i].d);
            }
        }
    }
    lemma_render_shape(g, a, offset);
    lemma_render_shape(g, b, offset);
    assert forall|y: int| 0 <= y < ra.len() implies (#[trigger] ra[y]).len() == rb[y].len() by {
        assert(g[y].len() == ra[y].len());
        assert(g[y].len() == rb[y].len());
    }
    if ties_agree(a, offset) {
        assert forall|y: int| 0 <= y < ra.len() implies #[trigger] ra[y] =~= rb[y] by {
            assert(ra[y].len() == g[y].len());
            assert(rb[y].len() == g[y].len());
            assert forall|x: int| 0 <= x < ra[y].len() implies ra[y][x] == rb[y][x] by {
                assert(has_cell(g, x, y));
            }
        }
        assert(ra =~= rb);
    }
}

/// A pass keeps the shape of the grid.
pub proof fn lemma_render_shape(g: Seq<Seq<DisplayPoint>>, points: Seq<Point>, offset: Point)
    ensures
        same_shape(g, render_points(g, points, offset)),
    decreases points.len(),
{
    if points.len() > 0 {
        let mid = render_points(g, points.drop_last(), offset);
        let end = render_points(g, points, offset);
        lemma_render_shape(g, points.drop_last(), offset);
        assert forall|r: int| 0 <= r < g.len() implies (#[trigger] g[r]).len() == end[r].len() by {
            assert(g[r].len() == mid[r].len());
            assert(mid[r].len() == end[r].len());
        }
    }
}

/// The image does not depend on the order in which the points are processed: a pass over a
/// rearrangement of the points gives the same depths, and the same grid where ties agree on
/// the symbol.
pub proof fn lemma_order_independent(
    g: Seq<Seq<DisplayPoint>>,
    a: Seq<Point>,
    b: Seq<Point>,
    offset: Point,
)
    requires
        a.to_multiset() == b.to_multiset(),
    ensures
        forall|x: int, y: int|
            has_cell(g, x, y) ==> (#[trigger] render_points(g, a, offset)[y][x]).z
                == render_points(g, b, offset)[y][x].z,
        ties_agree(a, offset) ==> render_points(g, a, offset) == render_points(g, b, offset),
{
    assert forall|p: Point| a.contains(p) <==> b.contains(p) by {
        vstd::seq_lib::to_multiset_contains(a, p);
        vstd::seq_lib::to_multiset_contains(b, p);
    }
    lemma_same_points_same_image(g, a, b, offset);
}

/// Points out of view leave no trace: a pass in which no point lands on a cell of the grid
/// returns the grid as it was.
pub proof fn lemma_out_of_view(g: Seq<Seq<DisplayPoint>>, points: Seq<Point>, offset: Point)
    requires
        forall|i: int| 0 <= i < points.len() ==> !in_view(g, #[trigger] points[i], offset),
    ensures
        render_points(g, points, offset) == g,
    decreases points.len(),
{
    if points.len() > 0 {
        let front = points.drop_last();
        assert forall|i: int| 0 <= i < front.len() implies !in_view(
            g,
            #[trigger] front[i],
            offset,
        ) by {
            assert(front[i] == points[i]);
        }
        lemma_out_of_view(g, front, offset);
        assert(!in_view(g, points[points.len() - 1], offset));
    }
}

/// A fresh buffer on which nothing lands stays blank: every cell keeps the sentinel depth
/// and the blank symbol.
pub proof fn lemma_fresh_stays_blank(width: nat, height: nat, points: Seq<Point>, offset: Point)
    requires
        forall|i: int|
            0 <= i < points.len() ==> !in_view(
                blank_grid(width, height),
                #[trigger] points[i],
                offset,
            ),
    ensures
        render_points(blank_grid(width, height), points, offset) == blank_grid(width, height),
        forall|x: int, y: int|
            0 <= y < height && 0 <= x < width ==> (#[trigger] render_points(
                blank_grid(width, height),
                points,
                offset,
            )[y][x]) == blank_cell(),
{
    lemma_out_of_view(blank_grid(width, height), points, offset);
}

/// One row of `width` blank cells.
fn blank_row(width: u64) -> (row: Vec<DisplayPoint>)
    ensures
        row@ == Seq::new(width as nat, |x: int| blank_cell()),
{
    let mut row: Vec<DisplayPoint> = Vec::new();
    let mut x: u64 = 0;
    while x < width
        invariant
            0 <= x <= width,
            row@.len() == x,
            forall|i: int| 0 <= i < x ==> row@[i] == blank_cell(),
        decreases width - x,
    {
        row.push(DisplayPoint { z: SENTINEL_DEPTH, d: BLANK });
        x += 1;
    }
    proof {
        assert(row@ =~= Seq::new(width as nat, |x: int| blank_cell()));
    }
    row
}

/// Allocates a fresh frame buffer for a cube and a viewport offset: [`height_of`] rows of
/// [`width_of`] cells, every cell blank. A buffer without rows or without columns is refused.
pub fn init_display_points(cube: &Cube, offset: &Point) -> (r: Result<
    Vec<Vec<DisplayPoint>>,
    ConfigError,
>)
    requires
        cube.well_formed(),
    ensures
        has_frame(*cube, *offset) ==> r is Ok && grid(r->Ok_0) == fresh_grid(*cube, *offset),
        !has_frame(*cube, *offset) ==> r is Err && r->Err_0 == ConfigError::EmptyBuffer,
        r is Ok ==> r->Ok_0@.len() == height_of(*cube, *offset),
{
    let wide: i128 = floor_one(2 * (cube.size as i128) + (offset.x as i128));
    let high: i128 = floor_one(2 * (cube.size as i128) + (offset.y as i128));
    if wide <= 0 || high <= 0 {
        return Err(ConfigError::EmptyBuffer);
    }
    let width: u64 = wide as u64;
    let height: u64 = high as u64;
    let mut dps: Vec<Vec<DisplayPoint>> = Vec::new();
    let mut y: u64 = 0;
    while y < height
        invariant
            0 <= y <= height,
            dps@.len() == y,
            forall|i: int|
                0 <= i < y ==> (#[trigger] dps@[i])@ == Seq::new(
                    width as nat,
                    |x: int| blank_cell(),
                ),
        decreases height - y,
    {
        let row = blank_row(width);
        dps.push(row);
        y += 1;
    }
    proof {
        assert(grid(dps) =~= blank_grid(width as nat, height as nat));
    }
    Ok(dps)
}

/// Finds the cell on which a point lands: the column and the row under its offset X and Y,
/// rounded down. A point that lands outside the buffer has no cell.
pub fn locate(dps: &Vec<Vec<DisplayPoint>>, point: &Point, offset: &Point) -> (r: Option<
    (usize, usize),
>)
    ensures
        r is Some <==> in_view(grid(*dps), *point, *offset),
        r is Some ==> r->Some_0.0 == cell_x(*point, *offset) && r->Some_0.1 == cell_y(
            *point,
            *offset,
        ),
{
    let sx: i128 = (point.x as i128) + (offset.x as i128);
    let sy: i128 = (point.y as i128) + (offset.y as i128);
    if sx < 0 || sy < 0 {
        return None;
    }
    let gx: i128 = sx / (ONE as i128);
    let gy: i128 = sy / (ONE as i128);
    if gy >= dps.len() as i128 {
        return None;
    }
    let y: usize = gy as usize;
    if gx >= dps[y].len() as i128 {
        return None;
    }
    Some((gx as usize, y))
}

/// Projects one point onto the frame buffer.
///
/// A point that lands outside the buffer is dropped. A point in view takes its cell over
/// when its depth is strictly greater than the depth that the cell holds.
pub fn prepare_display(dps: &mut Vec<Vec<DisplayPoint>>, point: &Point, offset: &Point)
    ensures
        grid(*final(dps)) == plot(grid(*old(dps)), *point, *offset),
        !in_view(grid(*old(dps)), *point, *offset) ==> grid(*final(dps)) == grid(*old(dps)),
        same_shape(grid(*old(dps)), grid(*final(dps))),
{
    match locate(dps, point, offset) {
        None => {},
        Some((x, y)) => {
            if point.z > dps[y][x].z {
                let ghost before = grid(*dps);
                dps[y][x] = DisplayPoint { z: point.z, d: point.d };
                proof {
                    assert(grid(*dps) =~= before.update(
                        y as int,
                        before[y as int].update(x as int, DisplayPoint { z: point.z, d: point.d }),
                    ));
                }
            }
        },
    }
}

} // verus!
