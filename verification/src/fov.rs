//! Field of view by shadowcasting.
//!
//! The view is a square of `2 * radius + 1` tiles centred on the viewer. It is
//! scanned quadrant by quadrant, row after row, by scanners that cover a range
//! of slopes; an opaque tile splits a scanner's range for the next row. Slopes
//! are exact rationals.

use vstd::prelude::*;
use crate::types::{Offset, Position, Tile, Tiles, spec_position_add, spec_position_diff, small_position};

verus! {

/// The four quadrants of the view, each seen as if it lay south of the viewer.
#[derive(Debug, Clone, Copy, PartialEq, Eq, Structural)]
pub enum Quadrant {
    East,
    West,
    North,
    South,
}

impl Quadrant {
    pub open spec fn spec_transform(&self, o: Offset) -> (int, int) {
        match self {
            Quadrant::North => (o.x as int, -o.y),
            Quadrant::East => (o.y as int, o.x as int),
            Quadrant::West => (-o.y, -o.x),
            Quadrant::South => (o.x as int, o.y as int),
        }
    }

    /// Maps an offset of the quadrant's frame (`y` is the depth) to the world frame.
    pub fn transform(&self, offset: &Offset) -> (r: Offset)
        requires
            offset.x > isize::MIN,
            offset.y > isize::MIN,
        ensures
            (r.x as int, r.y as int) == self.spec_transform(*offset),
    {
        match self {
            Quadrant::North => Offset { x: offset.x, y: -offset.y },
            Quadrant::East => Offset { x: offset.y, y: offset.x },
            Quadrant::West => Offset { x: -offset.y, y: -offset.x },
            Quadrant::South => *offset,
        }
    }
}

/// A rational slope `num / den`, with `den > 0`.
#[derive(Debug, Clone, Copy)]
struct Slope {
    num: i128,
    den: i128,
}

#[derive(Debug, Clone, Copy)]
struct Scanner {
    depth: usize,
    min_slope: Slope,
    max_slope: Slope,
}

/// Bound on the depths that a view of radius `radius` scans, keeping every
/// product of the scan inside `i128`.
pub open spec fn radius_ok(radius: usize) -> bool {
    (2 * radius + 1) * (2 * radius + 1) <= usize::MAX
}

/// A slope of a scanner at `depth`: its denominator is positive and at most
/// `2 * depth`, and its value lies between `-depth` and `depth`.
spec fn slope_ok(s: Slope, depth: int) -> bool {
    &&& 0 < s.den <= 2 * depth
    &&& -(depth * s.den) <= s.num <= depth * s.den
}

/// The scanner that starts each quadrant: the first row, slopes -1 to 1.
spec fn is_first_scanner(s: Scanner) -> bool {
    &&& s.depth == 1
    &&& s.min_slope.num == -1 && s.min_slope.den == 1
    &&& s.max_slope.num == 1 && s.max_slope.den == 1
}

spec fn scanner_ok(s: Scanner, radius: usize) -> bool {
    &&& 1 <= s.depth <= radius
    &&& radius_ok(radius)
    &&& slope_ok(s.min_slope, s.depth as int)
    &&& slope_ok(s.max_slope, s.depth as int)
}

/// The floor of `a / b`.
fn floor_div(a: i128, b: i128) -> (q: i128)
    requires
        b > 0,
        a > i128::MIN,
    ensures
        q * b <= a < q * b + b,
{
    if a >= 0 {
        let q = ((a as u128) / (b as u128)) as i128;
        assert(q * b <= a < q * b + b) by (nonlinear_arith)
            requires
                q == a / b,
                a >= 0,
                b > 0,
        ;
        q
    } else {
        let m: i128 = -a - 1;
        let t = ((m as u128) / (b as u128)) as i128;
        assert(t * b <= m < t * b + b) by (nonlinear_arith)
            requires
                t == m / b,
                m >= 0,
                b > 0,
        ;
        assert((-t - 1) * b == -(t * b) - b) by (nonlinear_arith);
        -t - 1
    }
}

proof fn lemma_mul_bounds(a: int, b: int, c: int, d: int)
    requires
        0 <= a <= c,
        0 <= b <= d,
    ensures
        a * b <= c * d,
        0 <= a * b,
{
    assert(a * b <= c * d) by (nonlinear_arith)
        requires
            0 <= a <= c,
            0 <= b <= d,
    ;
    assert(0 <= a * b) by (nonlinear_arith)
        requires
            0 <= a,
            0 <= b,
    ;
}

/// The radius bound keeps depths, squared, well inside `isize`, and cubed, inside `i128`.
proof fn lemma_radius_bound(radius: usize, depth: int)
    requires
        radius_ok(radius),
        1 <= depth <= radius,
    ensures
        depth * depth + 1 < isize::MAX,
        4 * depth * depth * depth + 4 * depth * depth + 4 < i128::MAX,
        2 * depth * depth == 2 * (depth * depth),
        4 * depth * depth * depth == 4 * (depth * depth * depth),
        2 * depth * depth * depth <= 4 * depth * depth * depth,
        depth <= depth * depth,
        depth * depth <= radius * radius,
        radius * radius + radius + 1 <= usize::MAX,
        2 * radius + 1 <= usize::MAX,
        depth < isize::MAX,
{
    let r = radius as int;
    lemma_mul_bounds(depth, depth, r, r);
    assert(usize::MAX == 0xffff_ffff || usize::MAX == 0xffff_ffff_ffff_ffff);
    assert(isize::MAX == 0x7fff_ffff || isize::MAX == 0x7fff_ffff_ffff_ffff);
    assert(usize::MAX == 0xffff_ffff ==> isize::MAX == 0x7fff_ffff);
    assert((2 * r + 1) * (2 * r + 1) == 4 * (r * r) + 4 * r + 1) by (nonlinear_arith);
    assert(4 * (r * r) < usize::MAX);
    assert(depth * depth < 0x4000_0000_0000_0000);
    if depth >= 0x8000_0000 {
        lemma_mul_bounds(0x8000_0000, 0x8000_0000, depth, depth);
        assert(false);
    }
    assert(depth * depth * depth < 0x8000_0000 * 0x4000_0000_0000_0000) by (nonlinear_arith)
        requires
            0 < depth < 0x8000_0000,
            depth * depth < 0x4000_0000_0000_0000,
    ;
    assert(4 * depth * depth * depth == 4 * (depth * depth * depth)) by (nonlinear_arith);
    assert(4 * depth * depth == 4 * (depth * depth)) by (nonlinear_arith);
    assert(2 * depth * depth == 2 * (depth * depth)) by (nonlinear_arith);
    assert(2 * depth * depth * depth == 2 * (depth * depth * depth)) by (nonlinear_arith);
    assert(depth <= depth * depth) by (nonlinear_arith)
        requires
            depth >= 1,
    ;
    assert(r <= r * r) by (nonlinear_arith)
        requires
            r >= 1,
    ;
}

impl Scanner {
    fn new() -> (s: Scanner)
        ensures
            s.depth == 1,
            s.min_slope.num == -1 && s.min_slope.den == 1,
            s.max_slope.num == 1 && s.max_slope.den == 1,
    {
        Scanner { depth: 1, min_slope: Slope { num: -1, den: 1 }, max_slope: Slope { num: 1, den: 1 } }
    }

    /// The first column of the row: `min_slope * depth`, rounded half up.
    fn min_col(&self, Ghost(radius): Ghost<usize>) -> (c: i128)
        requires
            scanner_ok(*self, radius),
        ensures
            -(self.depth * self.depth) <= c,
            2 * self.min_slope.den * c <= 2 * self.min_slope.num * self.depth + self.min_slope.den,
            2 * self.min_slope.num * self.depth + self.min_slope.den < 2 * self.min_slope.den * (c + 1),
    {
        let d = self.depth as i128;
        let s = self.min_slope;
        proof {
            lemma_radius_bound(radius, d as int);
            lemma_mul_bounds(d as int, s.den as int, d as int, 2 * d);
            assert(d * (2 * d) == 2 * d * d) by (nonlinear_arith);
            assert(-(d * s.den) <= s.num <= d * s.den);
            assert(-(2 * d * d) <= s.num <= 2 * d * d);
            assert(-(4 * d * d * d) <= 2 * s.num * d <= 4 * d * d * d) by (nonlinear_arith)
                requires
                    -(2 * d * d) <= s.num <= 2 * d * d,
                    d >= 1,
            ;
        }
        proof {
            assert(i128::MIN < 2 * s.num * d + s.den < i128::MAX) by (nonlinear_arith)
                requires
                    -(2 * d * d) <= s.num <= 2 * d * d,
                    0 < s.den <= 2 * d,
                    d >= 1,
                    4 * d * d * d + 4 * d * d + 4 < i128::MAX,
            ;
        }
        let a = 2 * s.num * d + s.den;
        let b = 2 * s.den;
        let c = floor_div(a, b);
        proof {
            // c > (2 num d + den) / (2 den) - 1 >= -d * d - 1/2
            assert(2 * s.den * c == c * b) by (nonlinear_arith)
                requires
                    b == 2 * s.den,
            ;
            assert(2 * s.den * (c + 1) == c * b + b) by (nonlinear_arith)
                requires
                    b == 2 * s.den,
            ;
            assert(s.num * d >= -(d * s.den) * d) by (nonlinear_arith)
                requires
                    s.num >= -(d * s.den),
                    d >= 1,
            ;
            assert(-(d * d) <= c) by (nonlinear_arith)
                requires
                    a < c * b + b,
                    a == 2 * s.num * d + s.den,
                    b == 2 * s.den,
                    s.den > 0,
                    s.num * d >= -(d * s.den) * d,
            ;
        }
        c
    }

    /// The last column of the row: `max_slope * depth`, rounded half down.
    fn max_col(&self, Ghost(radius): Ghost<usize>) -> (c: i128)
        requires
            scanner_ok(*self, radius),
        ensures
            c <= self.depth * self.depth,
            2 * self.max_slope.den * (c - 1) < 2 * self.max_slope.num * self.depth - self.max_slope.den,
            2 * self.max_slope.num * self.depth - self.max_slope.den <= 2 * self.max_slope.den * c,
    {
        let d = self.depth as i128;
        let s = self.max_slope;
        proof {
            lemma_radius_bound(radius, d as int);
            lemma_mul_bounds(d as int, s.den as int, d as int, 2 * d);
            assert(d * (2 * d) == 2 * d * d) by (nonlinear_arith);
            assert(-(2 * d * d) <= s.num <= 2 * d * d);
            assert(-(4 * d * d * d) <= 2 * s.num * d <= 4 * d * d * d) by (nonlinear_arith)
                requires
                    -(2 * d * d) <= s.num <= 2 * d * d,
                    d >= 1,
            ;
        }
        proof {
            assert(i128::MIN < s.den - 2 * s.num * d < i128::MAX) by (nonlinear_arith)
                requires
                    -(2 * d * d) <= s.num <= 2 * d * d,
                    0 < s.den <= 2 * d,
                    d >= 1,
                    4 * d * d * d + 4 * d * d + 4 < i128::MAX,
            ;
        }
        let a = s.den - 2 * s.num * d;
        let b = 2 * s.den;
        let f = floor_div(a, b);
        proof {
            assert(f > i128::MIN) by (nonlinear_arith)
                requires
                    f * b <= a,
                    a < f * b + b,
                    1 <= b <= 4 * d,
                    d >= 1,
                    i128::MIN < a,
                    4 * d * d * d + 4 * d * d + 4 < i128::MAX,
            ;
        }
        let c = -f;
        proof {
            assert(2 * s.den * c == -(f * b)) by (nonlinear_arith)
                requires
                    b == 2 * s.den,
                    c == -f,
            ;
            assert(2 * s.den * (c - 1) == -(f * b) - b) by (nonlinear_arith)
                requires
                    b == 2 * s.den,
                    c == -f,
            ;
            assert(s.num * d <= (d * s.den) * d) by (nonlinear_arith)
                requires
                    s.num <= d * s.den,
                    d >= 1,
            ;
            assert(c <= d * d) by (nonlinear_arith)
                requires
                    f * b <= a,
                    a < f * b + b,
                    a == s.den - 2 * s.num * d,
                    b == 2 * s.den,
                    s.den > 0,
                    c == -f,
                    s.num * d <= (d * s.den) * d,
            ;
        }
        c
    }

    /// Whether the centre of the tile at column `x` lies within the scanner's slopes.
    fn see_center(&self, x: i128, Ghost(radius): Ghost<usize>) -> (r: bool)
        requires
            scanner_ok(*self, radius),
            -(self.depth * self.depth) <= x <= self.depth * self.depth,
        ensures
            r == (x * self.min_slope.den >= self.min_slope.num * self.depth
                && x * self.max_slope.den <= self.max_slope.num * self.depth),
    {
        let d = self.depth as i128;
        proof {
            lemma_radius_bound(radius, d as int);
            lemma_mul_bounds(d as int, self.min_slope.den as int, d as int, 2 * d);
            lemma_mul_bounds(d as int, self.max_slope.den as int, d as int, 2 * d);
            assert(-(2 * d * d * d) <= x * self.min_slope.den <= 2 * d * d * d) by (nonlinear_arith)
                requires
                    -(d * d) <= x <= d * d,
                    0 < self.min_slope.den <= 2 * d,
                    d >= 1,
            ;
            assert(-(2 * d * d * d) <= x * self.max_slope.den <= 2 * d * d * d) by (nonlinear_arith)
                requires
                    -(d * d) <= x <= d * d,
                    0 < self.max_slope.den <= 2 * d,
                    d >= 1,
            ;
            assert(-(2 * d * d * d) <= self.min_slope.num * d <= 2 * d * d * d) by (nonlinear_arith)
                requires
                    -(d * self.min_slope.den) <= self.min_slope.num <= d * self.min_slope.den,
                    0 < self.min_slope.den <= 2 * d,
                    d >= 1,
            ;
            assert(-(2 * d * d * d) <= self.max_slope.num * d <= 2 * d * d * d) by (nonlinear_arith)
                requires
                    -(d * self.max_slope.den) <= self.max_slope.num <= d * self.max_slope.den,
                    0 < self.max_slope.den <= 2 * d,
                    d >= 1,
            ;
        }
        let low = x * self.min_slope.den >= self.min_slope.num * d;
        let high = x * self.max_slope.den <= self.max_slope.num * d;
        low && high
    }
}

/// The slope through the left edge of the tile at column `x` and row `depth`.
fn edge_slope(x: i128, depth: usize, Ghost(radius): Ghost<usize>) -> (s: Slope)
    requires
        1 <= depth < radius,
        radius_ok(radius),
        -(depth * depth) <= x <= depth * depth,
    ensures
        s.num == 2 * x - 1,
        s.den == 2 * depth,
        slope_ok(s, depth + 1),
{
    proof {
        lemma_radius_bound(radius, depth as int);
        assert(-((depth + 1) * (2 * depth)) <= 2 * x - 1 <= (depth + 1) * (2 * depth)) by (nonlinear_arith)
            requires
                -(depth * depth) <= x <= depth * depth,
                depth >= 1,
        ;
    }
    Slope { num: 2 * x - 1, den: 2 * depth as i128 }
}

/// The position of the view that shows the world position `viewer + offset`.
pub open spec fn view_cell(radius: usize, wo: (int, int)) -> Position {
    spec_position_add(Position { x: radius, y: radius }, Offset { x: wo.0 as isize, y: wo.1 as isize })
}

/// The world position shown at the cell `p` of a view of radius `radius` around `viewer`.
pub open spec fn world_of_view(viewer: Position, radius: usize, p: Position) -> Position {
    spec_position_add(viewer, Offset { x: (p.x - radius) as isize, y: (p.y - radius) as isize })
}

/// Every cell of the view is either unknown or shows the map's tile.
pub open spec fn view_sound(view: Tiles, viewer: Position, radius: usize, tiles: Tiles) -> bool {
    forall|p: Position| #[trigger] view.spec_get(p) == Tile::Unknown || view.spec_get(p) == tiles.spec_get(world_of_view(viewer, radius, p))
}

/// The view is a square of side `2 * radius + 1`.
pub open spec fn view_shape(view: Tiles, radius: usize) -> bool {
    &&& view.spec_width() == 2 * radius + 1
    &&& view.spec_height() == 2 * radius + 1
}

/// A cell of the view, by its offset from the centre.
pub open spec fn in_view(radius: usize, p: Position) -> bool {
    p.x < 2 * radius + 1 && p.y < 2 * radius + 1
}

/// The cell `p` of the view shows the map's tile.
pub open spec fn shows_truth(view: Tiles, viewer: Position, radius: usize, tiles: Tiles, p: Position) -> bool {
    view.spec_get(p) == tiles.spec_get(world_of_view(viewer, radius, p))
}

/// Every cell that showed the map's tile still does.
pub open spec fn truth_kept(before: Tiles, after: Tiles, viewer: Position, radius: usize, tiles: Tiles) -> bool {
    forall|p: Position| shows_truth(before, viewer, radius, tiles, p) ==> #[trigger] shows_truth(after, viewer, radius, tiles, p)
}

/// The cell of the view at `(dx, dy)` from its centre.
pub open spec fn neighbour_cell(radius: usize, dx: int, dy: int) -> Position {
    Position { x: (radius + dx) as usize, y: (radius + dy) as usize }
}

/// `after` is `before` with the map's tile written into each cell of `shown`.
#[verifier::opaque]
pub open spec fn painted(before: Tiles, after: Tiles, viewer: Position, radius: usize, tiles: Tiles, shown: Set<Position>) -> bool {
    forall|p: Position| #[trigger] after.spec_get(p) == if shown.contains(p) {
        tiles.spec_get(world_of_view(viewer, radius, p))
    } else {
        before.spec_get(p)
    }
}

/// The cell `c`, when it lies in the view.
pub open spec fn shown_at(radius: usize, c: Position) -> Set<Position> {
    if in_view(radius, c) {
        set![c]
    } else {
        Set::empty()
    }
}

/// Painting `s1` then `s2` paints both.
proof fn lemma_painted_trans(a: Tiles, b: Tiles, c: Tiles, viewer: Position, radius: usize, tiles: Tiles, s1: Set<Position>, s2: Set<Position>)
    requires
        painted(a, b, viewer, radius, tiles, s1),
        painted(b, c, viewer, radius, tiles, s2),
    ensures
        painted(a, c, viewer, radius, tiles, s1 + s2),
{
    reveal(painted);
    assert forall|p: Position| #[trigger] c.spec_get(p) == if (s1 + s2).contains(p) {
        tiles.spec_get(world_of_view(viewer, radius, p))
    } else {
        a.spec_get(p)
    } by {
        assert(c.spec_get(p) == if s2.contains(p) { tiles.spec_get(world_of_view(viewer, radius, p)) } else { b.spec_get(p) });
        assert(b.spec_get(p) == if s1.contains(p) { tiles.spec_get(world_of_view(viewer, radius, p)) } else { a.spec_get(p) });
    }
}

/// Writes into the view the map's tile at `viewer + world_offset`, when that
/// lies in the view.
fn show_world_tile(
    result: &mut Tiles,
    viewer: Position,
    radius: usize,
    tiles: &Tiles,
    world_offset: Offset,
) -> (tile: Tile)
    requires
        view_sound(*old(result), viewer, radius, *tiles),
        view_shape(*old(result), radius),
        radius_ok(radius),
        -(radius * radius) - 1 <= world_offset.x <= radius * radius + 1,
        -(radius * radius) - 1 <= world_offset.y <= radius * radius + 1,
    ensures
        view_sound(*final(result), viewer, radius, *tiles),
        view_shape(*final(result), radius),
        tile == tiles.spec_get(spec_position_add(viewer, world_offset)),
        forall|p: Position| #[trigger] final(result).spec_get(p) == old(result).spec_get(p)
            || (p == view_cell(radius, (world_offset.x as int, world_offset.y as int)) && final(result).spec_get(p) == tile),
        in_view(radius, view_cell(radius, (world_offset.x as int, world_offset.y as int)))
            ==> shows_truth(*final(result), viewer, radius, *tiles, view_cell(radius, (world_offset.x as int, world_offset.y as int))),
        truth_kept(*old(result), *final(result), viewer, radius, *tiles),
        painted(*old(result), *final(result), viewer, radius, *tiles,
            shown_at(radius, view_cell(radius, (world_offset.x as int, world_offset.y as int)))),
{
    let position = viewer.offset_by(world_offset);
    let tile = tiles.get(position);
    let center_view = Position { x: radius, y: radius };
    let result_pos = center_view.offset_by(world_offset);
    let ghost before = *result;
    result.set(result_pos, tile);
    proof {
        assert(radius * radius + radius + 1 <= usize::MAX) by (nonlinear_arith)
            requires
                (2 * radius + 1) * (2 * radius + 1) <= usize::MAX,
        ;
        assert forall|p: Position| #[trigger] result.spec_get(p) == Tile::Unknown || result.spec_get(p) == tiles.spec_get(world_of_view(viewer, radius, p)) by {
            if p == result_pos && before.spec_in(result_pos) {
                assert(result_pos.x < 2 * radius + 1);
                assert(result_pos.x == radius + world_offset.x);
                assert(result_pos.y == radius + world_offset.y);
                assert(world_of_view(viewer, radius, p) == position);
            } else {
                assert(before.spec_get(p) == Tile::Unknown || before.spec_get(p) == tiles.spec_get(world_of_view(viewer, radius, p)));
            }
        }
        if before.spec_in(result_pos) {
            assert(result_pos.x == radius + world_offset.x);
            assert(result_pos.y == radius + world_offset.y);
            assert(world_of_view(viewer, radius, result_pos) == position);
        }
        if in_view(radius, result_pos) {
            assert(before.spec_in(result_pos));
        }
        assert forall|p: Position| shows_truth(before, viewer, radius, *tiles, p) implies #[trigger] shows_truth(*result, viewer, radius, *tiles, p) by {
            if p == result_pos && before.spec_in(result_pos) {
            } else {
                assert(result.spec_get(p) == before.spec_get(p));
            }
        }
        reveal(painted);
        let shown = shown_at(radius, view_cell(radius, (world_offset.x as int, world_offset.y as int)));
        assert(view_cell(radius, (world_offset.x as int, world_offset.y as int)) == result_pos);
        assert(before.spec_in(result_pos) == in_view(radius, result_pos));
        assert forall|p: Position| #[trigger] result.spec_get(p) == if shown.contains(p) {
            tiles.spec_get(world_of_view(viewer, radius, p))
        } else {
            before.spec_get(p)
        } by {
            if p == result_pos && before.spec_in(result_pos) {
                assert(world_of_view(viewer, radius, p) == position);
            }
        }
    }
    tile
}

/// A scanner whose slopes span at least from -1 to 1: it covers its whole row
/// of the quadrant.
spec fn wide(s: Scanner) -> bool {
    &&& s.min_slope.num <= -s.min_slope.den
    &&& s.max_slope.num >= s.max_slope.den
}

/// The world offset of the tile at column `x` and depth `y` of quadrant `q`.
pub open spec fn quad_offset(q: Quadrant, x: int, y: int) -> Offset {
    let t = q.spec_transform(Offset { x: x as isize, y: y as isize });
    Offset { x: t.0 as isize, y: t.1 as isize }
}

/// The tile at column `x` and depth `y` of quadrant `q`.
pub open spec fn quad_tile(q: Quadrant, viewer: Position, tiles: Tiles, x: int, y: int) -> Tile {
    tiles.spec_get(spec_position_add(viewer, quad_offset(q, x, y)))
}

/// Nothing opaque in the quadrant's triangle before its last row.
pub open spec fn quadrant_open(q: Quadrant, viewer: Position, radius: usize, tiles: Tiles) -> bool {
    forall|x: int, y: int| 1 <= y < radius && -y <= x <= y ==> !(#[trigger] quad_tile(q, viewer, tiles, x, y)).spec_opaque()
}

/// The view shows the map's tile at every cell of the quadrant's triangle
/// from depth `from` to the radius.
pub open spec fn triangle_shown(view: Tiles, q: Quadrant, viewer: Position, radius: usize, tiles: Tiles, from: int) -> bool {
    forall|x: int, y: int| from <= y <= radius && -y <= x <= y ==> #[trigger] shows_truth(
        view,
        viewer,
        radius,
        tiles,
        view_cell(radius, q.spec_transform(Offset { x: x as isize, y: y as isize })),
    )
}

/// The first column a scanner at depth `d` reads: `mn / md * d`, rounded half up.
pub open spec fn first_col(d: int, mn: int, md: int) -> int {
    (2 * mn * d + md) / (2 * md)
}

/// The last column a scanner at depth `d` reads: `xn / xd * d`, rounded half down.
pub open spec fn last_col(d: int, xn: int, xd: int) -> int {
    -((xd - 2 * xn * d) / (2 * xd))
}

/// The centre of column `col` at depth `d` lies between the slopes `mn / md`
/// and `xn / xd`.
pub open spec fn sees_center(col: int, d: int, mn: int, md: int, xn: int, xd: int) -> bool {
    col * md >= mn * d && col * xd <= xn * d
}

/// The cell of the view that shows column `col` at depth `d` of quadrant `q`.
pub open spec fn quad_cell(q: Quadrant, radius: usize, col: int, d: int) -> Position {
    view_cell(radius, q.spec_transform(Offset { x: col as isize, y: d as isize }))
}

/// The cell at column `col` of the row at depth `d`, when it shows: when its
/// tile is opaque or its centre lies between the slopes.
pub open spec fn row_here(q: Quadrant, viewer: Position, radius: usize, tiles: Tiles, d: int, mn: int, md: int, xn: int, xd: int, col: int) -> Set<Position> {
    if quad_tile(q, viewer, tiles, col, d).spec_opaque() || sees_center(col, d, mn, md, xn, xd) {
        shown_at(radius, quad_cell(q, radius, col, d))
    } else {
        Set::empty()
    }
}

/// The cells that the scan of the row at depth `d`, between the slopes
/// `mn / md` and `xn / xd`, shows from column `col` on: a tile shows when it
/// is opaque or its centre is in sight; each run of see-through tiles opens,
/// from the left edge of its first tile (`open` holds that column), a scan of
/// the next row that ends at the left edge of the opaque tile closing the run,
/// or at `xn / xd` after the last column.
pub open spec fn row_cells(
    q: Quadrant,
    viewer: Position,
    radius: usize,
    tiles: Tiles,
    d: int,
    mn: int,
    md: int,
    xn: int,
    xd: int,
    col: int,
    open: Option<int>,
) -> Set<Position>
    decreases radius - d, 0int, last_col(d, xn, xd) + 1 - col,
{
    if col > last_col(d, xn, xd) {
        match open {
            Some(sc) => if 1 <= d < radius {
                scan_cells(q, viewer, radius, tiles, d + 1, 2 * sc - 1, 2 * d, xn, xd)
            } else {
                Set::empty()
            },
            None => Set::empty(),
        }
    } else {
        let opaque = quad_tile(q, viewer, tiles, col, d).spec_opaque();
        let here = row_here(q, viewer, radius, tiles, d, mn, md, xn, xd, col);
        if opaque {
            let below = match open {
                Some(sc) => if 1 <= d < radius {
                    scan_cells(q, viewer, radius, tiles, d + 1, 2 * sc - 1, 2 * d, 2 * col - 1, 2 * d)
                } else {
                    Set::empty()
                },
                None => Set::empty(),
            };
            here + below + row_cells(q, viewer, radius, tiles, d, mn, md, xn, xd, col + 1, None)
        } else {
            let next = if open is None && d < radius { Some(col) } else { open };
            here + row_cells(q, viewer, radius, tiles, d, mn, md, xn, xd, col + 1, next)
        }
    }
}

/// The cells that the scan of quadrant `q` from depth `d`, between the slopes
/// `mn / md` and `xn / xd`, shows.
pub open spec fn scan_cells(
    q: Quadrant,
    viewer: Position,
    radius: usize,
    tiles: Tiles,
    d: int,
    mn: int,
    md: int,
    xn: int,
    xd: int,
) -> Set<Position>
    decreases radius - d, 1int, 0int,
{
    if 1 <= d <= radius && md > 0 && xd > 0 {
        row_cells(q, viewer, radius, tiles, d, mn, md, xn, xd, first_col(d, mn, md), None)
    } else {
        Set::empty()
    }
}

/// The cells of the view that the field of view shows: those that the scans
/// of the four quadrants show, each scan starting on the first row between
/// the slopes -1 and 1.
pub open spec fn fov_cells(viewer: Position, radius: usize, tiles: Tiles) -> Set<Position> {
    scan_cells(Quadrant::East, viewer, radius, tiles, 1, -1, 1, 1, 1)
        + scan_cells(Quadrant::West, viewer, radius, tiles, 1, -1, 1, 1, 1)
        + scan_cells(Quadrant::North, viewer, radius, tiles, 1, -1, 1, 1, 1)
        + scan_cells(Quadrant::South, viewer, radius, tiles, 1, -1, 1, 1, 1)
}

/// One step of a row: the cells from column `col` on are those of the column,
/// those of the scan it closes, and those from the next column on.
proof fn lemma_row_step(
    q: Quadrant,
    viewer: Position,
    radius: usize,
    tiles: Tiles,
    d: int,
    mn: int,
    md: int,
    xn: int,
    xd: int,
    col: int,
    open: Option<int>,
    below: Set<Position>,
    next: Option<int>,
)
    requires
        col <= last_col(d, xn, xd),
        quad_tile(q, viewer, tiles, col, d).spec_opaque() ==> next is None && below == match open {
            Some(sc) => if 1 <= d < radius {
                scan_cells(q, viewer, radius, tiles, d + 1, 2 * sc - 1, 2 * d, 2 * col - 1, 2 * d)
            } else {
                Set::<Position>::empty()
            },
            None => Set::<Position>::empty(),
        },
        !quad_tile(q, viewer, tiles, col, d).spec_opaque() ==> below == Set::<Position>::empty()
            && next == if open is None && d < radius { Some(col) } else { open },
    ensures
        row_cells(q, viewer, radius, tiles, d, mn, md, xn, xd, col, open)
            == row_here(q, viewer, radius, tiles, d, mn, md, xn, xd, col) + below
            + row_cells(q, viewer, radius, tiles, d, mn, md, xn, xd, col + 1, next),
{
    if !quad_tile(q, viewer, tiles, col, d).spec_opaque() {
        assert(row_here(q, viewer, radius, tiles, d, mn, md, xn, xd, col) + below
            =~= row_here(q, viewer, radius, tiles, d, mn, md, xn, xd, col));
    }
}

/// What is gathered, with what is left to gather, stays the whole.
proof fn lemma_acc_step(acc: Set<Position>, here: Set<Position>, below: Set<Position>, rest: Set<Position>, total: Set<Position>)
    requires
        acc + (here + below + rest) == total,
    ensures
        (acc + here + below) + rest == total,
{
    assert((acc + here + below) + rest =~= acc + (here + below + rest));
}

/// `c` is the floor of `a / b`.
proof fn lemma_floor_is_div(a: int, b: int, c: int)
    requires
        b > 0,
        c * b <= a < c * b + b,
    ensures
        c == a / b,
{
    vstd::arithmetic::div_mod::lemma_fundamental_div_mod_converse(a, b, c, a - c * b);
}

/// Scans the quadrant `q` from `scanner`'s row outward.
#[verifier::rlimit(100)]
#[verifier::spinoff_prover]
fn scan(
    q: Quadrant,
    scanner: Scanner,
    viewer: Position,
    radius: usize,
    tiles: &Tiles,
    result: &mut Tiles,
)
    requires
        scanner_ok(scanner, radius),
        view_sound(*old(result), viewer, radius, *tiles),
        view_shape(*old(result), radius),
    ensures
        view_sound(*final(result), viewer, radius, *tiles),
        view_shape(*final(result), radius),
        truth_kept(*old(result), *final(result), viewer, radius, *tiles),
        is_first_scanner(scanner) ==> forall|x: int| -1 <= x <= 1 ==> #[trigger] shows_truth(
            *final(result),
            viewer,
            radius,
            *tiles,
            view_cell(radius, q.spec_transform(Offset { x: x as isize, y: 1 })),
        ),
        wide(scanner) && quadrant_open(q, viewer, radius, *tiles)
            ==> triangle_shown(*final(result), q, viewer, radius, *tiles, scanner.depth as int),
        painted(*old(result), *final(result), viewer, radius, *tiles, scan_cells(q, viewer, radius, *tiles,
            scanner.depth as int, scanner.min_slope.num as int, scanner.min_slope.den as int,
            scanner.max_slope.num as int, scanner.max_slope.den as int)),
    decreases radius - scanner.depth,
{
    let ghost start = *result;
    let d = scanner.depth;
    let min_col = scanner.min_col(Ghost(radius));
    let max_col = scanner.max_col(Ghost(radius));
    proof {
        lemma_radius_bound(radius, d as int);
    }
    let ghost mn = scanner.min_slope.num as int;
    let ghost md = scanner.min_slope.den as int;
    let ghost xn = scanner.max_slope.num as int;
    let ghost xd = scanner.max_slope.den as int;
    let ghost total = scan_cells(q, viewer, radius, *tiles, d as int, mn, md, xn, xd);
    proof {
        assert(2 * md * min_col == min_col * (2 * md)) by (nonlinear_arith);
        assert(2 * md * (min_col + 1) == min_col * (2 * md) + 2 * md) by (nonlinear_arith);
        lemma_floor_is_div(2 * mn * d + md, 2 * md, min_col as int);
        assert(2 * xd * max_col == -((-max_col) * (2 * xd))) by (nonlinear_arith);
        assert(2 * xd * (max_col - 1) == -((-max_col) * (2 * xd) + 2 * xd)) by (nonlinear_arith);
        lemma_floor_is_div(xd - 2 * xn * d, 2 * xd, -max_col);
        assert(min_col == first_col(d as int, mn, md));
        assert(max_col == last_col(d as int, xn, xd));
        assert(total == row_cells(q, viewer, radius, *tiles, d as int, mn, md, xn, xd, min_col as int, None));
    }
    let ghost mut acc: Set<Position> = Set::empty();
    let ghost mut pend: Option<int> = None;
    proof {
        assert(painted(start, *result, viewer, radius, *tiles, acc)) by {
            reveal(painted);
        }
        assert(acc + total =~= total);
    }
    proof {
        if is_first_scanner(scanner) {
            let mn = scanner.min_slope;
            let mx = scanner.max_slope;
            assert(2 * mn.den * min_col == 2 * min_col) by (nonlinear_arith)
                requires
                    mn.den == 1,
            ;
            assert(2 * mn.den * (min_col + 1) == 2 * min_col + 2) by (nonlinear_arith)
                requires
                    mn.den == 1,
            ;
            assert(2 * mn.num * d + mn.den == -1) by (nonlinear_arith)
                requires
                    mn.den == 1,
                    mn.num == -1,
                    d == 1,
            ;
            assert(2 * mx.den * max_col == 2 * max_col) by (nonlinear_arith)
                requires
                    mx.den == 1,
            ;
            assert(2 * mx.den * (max_col - 1) == 2 * max_col - 2) by (nonlinear_arith)
                requires
                    mx.den == 1,
            ;
            assert(2 * mx.num * d - mx.den == 1) by (nonlinear_arith)
                requires
                    mx.den == 1,
                    mx.num == 1,
                    d == 1,
            ;
        }
    }
    let ghost open = wide(scanner) && quadrant_open(q, viewer, radius, *tiles);
    proof {
        if open {
            let mn = scanner.min_slope;
            let mx = scanner.max_slope;
            assert(min_col <= -d) by (nonlinear_arith)
                requires
                    2 * mn.den * min_col <= 2 * mn.num * d + mn.den,
                    mn.num <= -mn.den,
                    mn.den > 0,
                    d >= 1,
            ;
            assert(max_col >= d) by (nonlinear_arith)
                requires
                    2 * mx.num * d - mx.den <= 2 * mx.den * max_col,
                    mx.num >= mx.den,
                    mx.den > 0,
                    d >= 1,
            ;
        }
    }
    let mut next_scan: Option<Scanner> = None;
    let ghost mut start_col: int = 0;
    let ghost mut covered: bool = false;
    let mut col = min_col;
    while col <= max_col
        invariant
            scanner_ok(scanner, radius),
            d == scanner.depth,
            -(d * d) <= min_col <= col,
            max_col <= d * d,
            col <= max_col + 1 || col == min_col,
            d * d + 1 < isize::MAX,
            d < isize::MAX,
            d * d <= radius * radius,
            d <= radius,
            d <= d * d,
            view_sound(*result, viewer, radius, *tiles),
            view_shape(*result, radius),
            next_scan matches Some(ns) ==> ns.depth == d + 1 && d < radius && scanner_ok(ns, radius),
            next_scan matches Some(ns) ==> ns.min_slope.num == 2 * start_col - 1 && ns.min_slope.den == 2 * d && start_col < col,
            truth_kept(start, *result, viewer, radius, *tiles),
            is_first_scanner(scanner) ==> min_col == -1 && max_col == 1,
            is_first_scanner(scanner) ==> forall|x: int| -1 <= x < col ==> #[trigger] shows_truth(
                *result,
                viewer,
                radius,
                *tiles,
                view_cell(radius, q.spec_transform(Offset { x: x as isize, y: 1 })),
            ),
            open == (wide(scanner) && quadrant_open(q, viewer, radius, *tiles)),
            open ==> min_col <= -d && max_col >= d,
            open ==> forall|x: int| -d <= x < col && x <= d ==> #[trigger] shows_truth(
                *result,
                viewer,
                radius,
                *tiles,
                view_cell(radius, q.spec_transform(Offset { x: x as isize, y: d as isize })),
            ),
            covered ==> triangle_shown(*result, q, viewer, radius, *tiles, d + 1),
            open && d < radius && -d < col ==> covered || (next_scan is Some && start_col <= -d),
            mn == scanner.min_slope.num && md == scanner.min_slope.den,
            xn == scanner.max_slope.num && xd == scanner.max_slope.den,
            max_col == last_col(d as int, xn, xd),
            total == scan_cells(q, viewer, radius, *tiles, d as int, mn, md, xn, xd),
            painted(start, *result, viewer, radius, *tiles, acc),
            acc + row_cells(q, viewer, radius, *tiles, d as int, mn, md, xn, xd, col as int, pend) == total,
            pend == (if next_scan is Some { Some(start_col) } else { None::<int> }),
        decreases max_col + 1 - col,
    {
        let offset = Offset { x: col as isize, y: d as isize };
        let world_offset = q.transform(&offset);
        proof {
            lemma_mul_bounds(d as int, d as int, radius as int, radius as int);
        }
        let tile = tiles.get(viewer.offset_by(world_offset));
        proof {
            assert(world_offset == quad_offset(q, col as int, d as int));
            if open && d < radius && -d <= col <= d {
                assert(!quad_tile(q, viewer, *tiles, col as int, d as int).spec_opaque());
            }
        }
        // 1. Show the tile when it is opaque or its centre is in sight
        let ghost before = *result;
        let ghost here = row_here(q, viewer, radius, *tiles, d as int, mn, md, xn, xd, col as int);
        let ghost pend0 = pend;
        if tile.opaque() || scanner.see_center(col, Ghost(radius)) {
            show_world_tile(result, viewer, radius, tiles, world_offset);
            proof {
                if is_first_scanner(scanner) {
                    assert(in_view(radius, view_cell(radius, q.spec_transform(offset))));
                }
                if open && -d <= col <= d {
                    assert(in_view(radius, view_cell(radius, q.spec_transform(offset))));
                }
            }
        } else {
            proof {
                if is_first_scanner(scanner) {
                    assert(wide(scanner) && -d <= col <= d);
                }
                if wide(scanner) && -d <= col <= d {
                    let mn = scanner.min_slope;
                    let mx = scanner.max_slope;
                    assert(col * mn.den >= mn.num * d) by (nonlinear_arith)
                        requires
                            col >= -d,
                            mn.num <= -mn.den,
                            mn.den > 0,
                            d >= 1,
                    ;
                    assert(col * mx.den <= mx.num * d) by (nonlinear_arith)
                        requires
                            col <= d,
                            mx.num >= mx.den,
                            mx.den > 0,
                            d >= 1,
                    ;
                    assert(false);
                }
            }
        }
        proof {
            assert(painted(before, *result, viewer, radius, *tiles, here)) by {
                assert(quad_cell(q, radius, col as int, d as int) == view_cell(radius, (world_offset.x as int, world_offset.y as int)));
                if !(tile.spec_opaque() || sees_center(col as int, d as int, mn, md, xn, xd)) {
                    reveal(painted);
                }
            }
            lemma_painted_trans(start, before, *result, viewer, radius, *tiles, acc, here);
        }
        let ghost shown = *result;
        // 2. Start a new scanner at the first see-through tile
        if next_scan.is_none() && !tile.opaque() && d < radius {
            let slope = edge_slope(col, d, Ghost(radius));
            next_scan = Some(Scanner { depth: d + 1, min_slope: slope, max_slope: slope });
            proof {
                start_col = col as int;
            }
        }
        let ghost mut below = Set::<Position>::empty();
        // 3. End the new scanner at the next opaque tile
        if tile.opaque() {
            if let Some(ns) = next_scan {
                if d < radius {
                    let slope = edge_slope(col, d, Ghost(radius));
                    let ended = Scanner { depth: ns.depth, min_slope: ns.min_slope, max_slope: slope };
                    let ghost mid = *result;
                    scan(q, ended, viewer, radius, tiles, result);
                    proof {
                        below = scan_cells(q, viewer, radius, *tiles, d + 1, 2 * start_col - 1, 2 * d, 2 * col - 1, 2 * d);
                        if open && col > d && start_col <= -d {
                            assert(wide(ended));
                            covered = true;
                        }
                    }
                }
                next_scan = None;
            }
        }
        proof {
            if below == Set::<Position>::empty() {
                assert(painted(shown, *result, viewer, radius, *tiles, below)) by {
                    reveal(painted);
                }
            }
            lemma_painted_trans(start, shown, *result, viewer, radius, *tiles, acc + here, below);
            pend = if next_scan is Some { Some(start_col) } else { None::<int> };
            let rest = row_cells(q, viewer, radius, *tiles, d as int, mn, md, xn, xd, col + 1, pend);
            assert(tile == quad_tile(q, viewer, *tiles, col as int, d as int));
            lemma_row_step(q, viewer, radius, *tiles, d as int, mn, md, xn, xd, col as int, pend0, below, pend);
            lemma_acc_step(acc, here, below, rest, total);
            acc = acc + here + below;
        }
        col = col + 1;
    }
    let ghost walked = *result;
    proof {
        assert(col > last_col(d as int, xn, xd));
    }
    // A scanner still open ends with the row's max slope
    if let Some(ns) = next_scan {
        proof {
            assert(slope_ok(scanner.max_slope, d + 1)) by (nonlinear_arith)
                requires
                    slope_ok(scanner.max_slope, d as int),
            ;
        }
        let ended = Scanner { depth: ns.depth, min_slope: ns.min_slope, max_slope: scanner.max_slope };
        scan(q, ended, viewer, radius, tiles, result);
        proof {
            if open && start_col <= -d {
                assert(wide(ended));
                covered = true;
            }
            let last = scan_cells(q, viewer, radius, *tiles, d + 1, 2 * start_col - 1, 2 * d, xn, xd);
            assert(row_cells(q, viewer, radius, *tiles, d as int, mn, md, xn, xd, col as int, pend) == last);
            lemma_painted_trans(start, walked, *result, viewer, radius, *tiles, acc, last);
        }
    } else {
        proof {
            assert(row_cells(q, viewer, radius, *tiles, d as int, mn, md, xn, xd, col as int, pend) =~= Set::<Position>::empty());
            assert(acc =~= total);
        }
    }
}

spec fn abs(v: int) -> int {
    if v < 0 { -v } else { v }
}

/// Where nothing opaque stands closer than the radius, every quadrant is open.
proof fn lemma_open_quadrant(q: Quadrant, viewer: Position, radius: usize, tiles: Tiles)
    requires
        open_around(viewer, radius, tiles),
        radius_ok(radius),
    ensures
        quadrant_open(q, viewer, radius, tiles),
{
    assert forall|x: int, y: int| 1 <= y < radius && -y <= x <= y implies !(#[trigger] quad_tile(q, viewer, tiles, x, y)).spec_opaque() by {
        let t = q.spec_transform(Offset { x: x as isize, y: y as isize });
        lemma_radius_bound(radius, y);
        assert(-radius < t.0 < radius && -radius < t.1 < radius);
        assert(tiles.spec_get(spec_position_add(viewer, Offset { x: t.0 as isize, y: t.1 as isize })) == quad_tile(q, viewer, tiles, x, y));
    }
}

/// A cell of the view other than its centre lies at some distance of it, no
/// more than the radius.
proof fn lemma_cell_in_quadrant(radius: usize, p: Position)
    requires
        radius_ok(radius),
        in_view(radius, p),
        p != (Position { x: radius, y: radius }),
    ensures
        -(radius as int) <= p.x - radius <= radius,
        -(radius as int) <= p.y - radius <= radius,
        p.x - radius != 0 || p.y - radius != 0,
{
}

/// The four quadrants, in the order in which they are scanned.
spec fn spec_quadrant(i: int) -> Quadrant {
    if i == 0 {
        Quadrant::East
    } else if i == 1 {
        Quadrant::West
    } else if i == 2 {
        Quadrant::North
    } else {
        Quadrant::South
    }
}

/// Nothing opaque stands closer to `viewer` than `radius` tiles.
pub open spec fn open_around(viewer: Position, radius: usize, tiles: Tiles) -> bool {
    forall|dx: int, dy: int| -radius < dx < radius && -radius < dy < radius
        ==> !(#[trigger] tiles.spec_get(spec_position_add(viewer, Offset { x: dx as isize, y: dy as isize }))).spec_opaque()
}

/// The cells shown by the scans of the first `i` quadrants.
spec fn quadrants_cells(viewer: Position, radius: usize, tiles: Tiles, i: int) -> Set<Position>
    decreases i,
{
    if i <= 0 {
        Set::empty()
    } else {
        quadrants_cells(viewer, radius, tiles, i - 1) + scan_cells(spec_quadrant(i - 1), viewer, radius, tiles, 1, -1, 1, 1, 1)
    }
}

/// Painting the cells of the four quadrants on a view of unknown tiles shows
/// the field of view.
proof fn lemma_fov_result(init: Tiles, result: Tiles, viewer: Position, radius: usize, tiles: Tiles)
    requires
        forall|p: Position| #[trigger] init.spec_get(p) == Tile::Unknown,
        painted(init, result, viewer, radius, tiles, quadrants_cells(viewer, radius, tiles, 4)),
    ensures
        forall|p: Position| #[trigger] result.spec_get(p) == if fov_cells(viewer, radius, tiles).contains(p) {
            tiles.spec_get(world_of_view(viewer, radius, p))
        } else {
            Tile::Unknown
        },
{
    reveal_with_fuel(quadrants_cells, 5);
    assert(quadrants_cells(viewer, radius, tiles, 4) =~= fov_cells(viewer, radius, tiles));
    reveal(painted);
    assert forall|p: Position| #[trigger] result.spec_get(p) == if fov_cells(viewer, radius, tiles).contains(p) {
        tiles.spec_get(world_of_view(viewer, radius, p))
    } else {
        Tile::Unknown
    } by {
        assert(init.spec_get(p) == Tile::Unknown);
    }
}

/// The tiles seen from `viewer` within `radius`, as a square of side
/// `2 * radius + 1` centred on the viewer: the cells that the shadowcasting
/// scans show hold the map's tile, the others `Unknown`. So every cell shows
/// either the map's tile or `Unknown`; the eight cells around the viewer
/// always show the map's tiles; and where nothing opaque stands closer than
/// the radius, every cell but the viewer's own shows the map's tile.
#[verifier::spinoff_prover]
pub fn fov(viewer: Position, radius: usize, tiles: &Tiles) -> (result: Tiles)
    requires
        radius_ok(radius),
    ensures
        forall|p: Position| #[trigger] result.spec_get(p) == if fov_cells(viewer, radius, *tiles).contains(p) {
            tiles.spec_get(world_of_view(viewer, radius, p))
        } else {
            Tile::Unknown
        },
        view_shape(result, radius),
        view_sound(result, viewer, radius, *tiles),
        radius >= 1 ==> forall|dx: int, dy: int|
            -1 <= dx <= 1 && -1 <= dy <= 1 && (dx != 0 || dy != 0) ==> #[trigger] shows_truth(
                result,
                viewer,
                radius,
                *tiles,
                neighbour_cell(radius, dx, dy),
            ),
        open_around(viewer, radius, *tiles) ==> forall|p: Position| in_view(radius, p) && p != (Position { x: radius, y: radius })
            ==> #[trigger] shows_truth(result, viewer, radius, *tiles, p),
{
    proof {
        assert(2 * radius + 1 <= (2 * radius + 1) * (2 * radius + 1)) by (nonlinear_arith);
    }
    let size = 2 * radius + 1;
    let mut result = Tiles::new(size, size);
    let ghost init = result;
    if radius == 0 {
        proof {
            assert forall|q: Quadrant| #[trigger] scan_cells(q, viewer, radius, *tiles, 1, -1, 1, 1, 1) =~= Set::<Position>::empty() by {}
            assert(fov_cells(viewer, radius, *tiles) =~= Set::<Position>::empty());
        }
        return result;
    }
    proof {
        assert(painted(init, result, viewer, radius, *tiles, quadrants_cells(viewer, radius, *tiles, 0))) by {
            reveal(painted);
        }
    }
    let quadrants = [Quadrant::East, Quadrant::West, Quadrant::North, Quadrant::South];
    let mut i: usize = 0;
    while i < 4
        invariant
            i <= 4,
            radius >= 1,
            radius_ok(radius),
            view_sound(result, viewer, radius, *tiles),
            view_shape(result, radius),
            forall|k: int| 0 <= k < 4 ==> quadrants@[k] == spec_quadrant(k),
            forall|j: int, x: int| 0 <= j < i && -1 <= x <= 1 ==> #[trigger] shows_truth(
                result,
                viewer,
                radius,
                *tiles,
                view_cell(radius, spec_quadrant(j).spec_transform(Offset { x: x as isize, y: 1 })),
            ),
            open_around(viewer, radius, *tiles) ==> forall|j: int| 0 <= j < i
                ==> #[trigger] triangle_shown(result, spec_quadrant(j), viewer, radius, *tiles, 1),
            forall|p: Position| #[trigger] init.spec_get(p) == Tile::Unknown,
            painted(init, result, viewer, radius, *tiles, quadrants_cells(viewer, radius, *tiles, i as int)),
        decreases 4 - i,
    {
        let q = quadrants[i];
        let scanner = Scanner::new();
        let ghost before = result;
        proof {
            if open_around(viewer, radius, *tiles) {
                lemma_open_quadrant(q, viewer, radius, *tiles);
            }
        }
        scan(q, scanner, viewer, radius, tiles, &mut result);
        proof {
            lemma_painted_trans(init, before, result, viewer, radius, *tiles, quadrants_cells(viewer, radius, *tiles, i as int),
                scan_cells(q, viewer, radius, *tiles, 1, -1, 1, 1, 1));
            assert(quadrants_cells(viewer, radius, *tiles, i + 1) == quadrants_cells(viewer, radius, *tiles, i as int)
                + scan_cells(spec_quadrant(i as int), viewer, radius, *tiles, 1, -1, 1, 1, 1));
        }
        proof {
            if open_around(viewer, radius, *tiles) {
                assert forall|j: int| 0 <= j < i + 1 implies #[trigger] triangle_shown(result, spec_quadrant(j), viewer, radius, *tiles, 1) by {
                    if j < i {
                        assert(triangle_shown(before, spec_quadrant(j), viewer, radius, *tiles, 1));
                    } else {
                        assert(wide(scanner));
                    }
                }
            }
            assert forall|j: int, x: int| 0 <= j < i + 1 && -1 <= x <= 1 implies #[trigger] shows_truth(
                result,
                viewer,
                radius,
                *tiles,
                view_cell(radius, spec_quadrant(j).spec_transform(Offset { x: x as isize, y: 1 })),
            ) by {
                if j < i {
                    assert(shows_truth(before, viewer, radius, *tiles, view_cell(radius, spec_quadrant(j).spec_transform(Offset { x: x as isize, y: 1 }))));
                }
            }
        }
        i = i + 1;
    }
    proof {
        lemma_fov_result(init, result, viewer, radius, *tiles);
    }
    proof {
        if open_around(viewer, radius, *tiles) {
            assert forall|p: Position| in_view(radius, p) && p != (Position { x: radius, y: radius })
                implies #[trigger] shows_truth(result, viewer, radius, *tiles, p) by {
                lemma_cell_in_quadrant(radius, p);
                let dx = p.x - radius;
                let dy = p.y - radius;
                if dy >= abs(dx) && dy >= 1 {
                    assert(triangle_shown(result, spec_quadrant(3), viewer, radius, *tiles, 1));
                    assert(p == view_cell(radius, spec_quadrant(3).spec_transform(Offset { x: dx as isize, y: dy as isize })));
                } else if -dy >= abs(dx) && -dy >= 1 {
                    assert(triangle_shown(result, spec_quadrant(2), viewer, radius, *tiles, 1));
                    assert(p == view_cell(radius, spec_quadrant(2).spec_transform(Offset { x: dx as isize, y: -dy as isize })));
                } else if dx > 0 {
                    assert(triangle_shown(result, spec_quadrant(0), viewer, radius, *tiles, 1));
                    assert(p == view_cell(radius, spec_quadrant(0).spec_transform(Offset { x: dy as isize, y: dx as isize })));
                } else {
                    assert(triangle_shown(result, spec_quadrant(1), viewer, radius, *tiles, 1));
                    assert(p == view_cell(radius, spec_quadrant(1).spec_transform(Offset { x: -dy as isize, y: -dx as isize })));
                }
            }
        }
        assert forall|dx: int, dy: int| -1 <= dx <= 1 && -1 <= dy <= 1 && (dx != 0 || dy != 0) implies #[trigger] shows_truth(
            result,
            viewer,
            radius,
            *tiles,
            neighbour_cell(radius, dx, dy),
        ) by {
            if dy == 1 {
                assert(neighbour_cell(radius, dx, dy) == view_cell(radius, spec_quadrant(3).spec_transform(Offset { x: dx as isize, y: 1 })));
            } else if dy == -1 {
                assert(neighbour_cell(radius, dx, dy) == view_cell(radius, spec_quadrant(2).spec_transform(Offset { x: dx as isize, y: 1 })));
            } else if dx == 1 {
                assert(neighbour_cell(radius, dx, dy) == view_cell(radius, spec_quadrant(0).spec_transform(Offset { x: dy as isize, y: 1 })));
            } else {
                assert(neighbour_cell(radius, dx, dy) == view_cell(radius, spec_quadrant(1).spec_transform(Offset { x: -dy as isize, y: 1 })));
            }
        }
    }
    result
}

/// `to` shows in the field of view of radius `radius` from `from`: the cell
/// for it is one the shadowcasting reaches, and its tile is known.
pub open spec fn sees(tiles: Tiles, from: Position, to: Position, radius: usize) -> bool {
    let c = spec_position_add(Position { x: radius, y: radius }, spec_position_diff(to, from));
    fov_cells(from, radius, tiles).contains(c) && tiles.spec_get(world_of_view(from, radius, c)) != Tile::Unknown
}

/// Whether `to` shows in the view of radius `radius` from `from`.
pub fn can_see(tiles: &Tiles, from: Position, to: Position, radius: usize) -> (r: bool)
    requires
        radius_ok(radius),
    ensures
        r == sees(*tiles, from, to, radius),
        exists|view: Tiles| #[trigger] view_shape(view, radius) && view_sound(view, from, radius, *tiles)
            && r == (view.spec_get(spec_position_add(view.spec_center(), spec_position_diff(to, from))) != Tile::Unknown),
{
    let view = fov(from, radius, tiles);
    let offset = to.diff(from);
    let r = view.at_offset_from_center(offset) != Tile::Unknown;
    assert(view_shape(view, radius));
    proof {
        assert(view.spec_center() == Position { x: radius, y: radius });
        let c = spec_position_add(Position { x: radius, y: radius }, spec_position_diff(to, from));
        assert(view.spec_get(c) == if fov_cells(from, radius, *tiles).contains(c) {
            tiles.spec_get(world_of_view(from, radius, c))
        } else {
            Tile::Unknown
        });
    }
    r
}

} // verus!
