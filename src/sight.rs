//! The line-of-sight model: integer Bresenham rays cast from a viewer to
//! every cell on the perimeter of its sight square.
use vstd::prelude::*;

use crate::tiling::Tile;

verus! {

/// A cell position as mathematical integers.
pub type Cell = (int, int);

/// The opacity flags of a grid of tiles, row by row.
pub open spec fn opacity(cells: Seq<Seq<Tile>>) -> Seq<Seq<bool>> {
    cells.map_values(|row: Seq<Tile>| row.map_values(|t: Tile| t.opaque))
}

/// Whether `p` lies inside the grid described by `op`.
pub open spec fn inside(op: Seq<Seq<bool>>, p: Cell) -> bool {
    0 <= p.1 < op.len() && 0 <= p.0 < op[p.1].len()
}

pub open spec fn distance(a: int, b: int) -> int {
    if a <= b {
        b - a
    } else {
        a - b
    }
}

/// The unit step that moves `a` towards `b`.
pub open spec fn toward(a: int, b: int) -> int {
    if a < b {
        1
    } else {
        -1
    }
}

/// A ray's walking state: current position and accumulated error.
pub type RayState = (int, int, int);

/// The first state of the ray from `c` to `t`.
pub open spec fn ray_start(c: Cell, t: Cell) -> RayState {
    (c.0, c.1, distance(c.0, t.0) - distance(c.1, t.1))
}

/// One Bresenham step of the ray from `c` to `t`.
pub open spec fn ray_next(s: RayState, c: Cell, t: Cell) -> RayState {
    let dx = distance(c.0, t.0);
    let dy = -distance(c.1, t.1);
    let e2 = 2 * s.2;
    let x = if e2 >= dy { s.0 + toward(c.0, t.0) } else { s.0 };
    let err = if e2 >= dy { s.2 + dy } else { s.2 };
    let y = if e2 <= dx { s.1 + toward(c.1, t.1) } else { s.1 };
    let err2 = if e2 <= dx { err + dx } else { err };
    (x, y, err2)
}

/// The number of steps of the ray from `c` to `t`: their Chebyshev distance.
pub open spec fn ray_length(c: Cell, t: Cell) -> int {
    let dx = distance(c.0, t.0);
    let dy = distance(c.1, t.1);
    if dx >= dy {
        dx
    } else {
        dy
    }
}

/// The cells that the ray from `c` to `t` reaches after state `s`, with
/// `fuel` steps left: it stops on reaching `t`, on leaving the grid, or
/// just after stepping onto an opaque cell.
pub open spec fn ray_after(op: Seq<Seq<bool>>, s: RayState, c: Cell, t: Cell, fuel: nat) -> Seq<Cell>
    decreases fuel,
{
    if fuel == 0 || (s.0 == t.0 && s.1 == t.1) {
        Seq::empty()
    } else {
        let n = ray_next(s, c, t);
        if !inside(op, (n.0, n.1)) {
            Seq::empty()
        } else if op[n.1][n.0] {
            seq![(n.0, n.1)]
        } else {
            seq![(n.0, n.1)] + ray_after(op, n, c, t, (fuel - 1) as nat)
        }
    }
}

/// Every cell that the ray from `c` to `t` reveals, the viewer's own first.
pub open spec fn ray_cells(op: Seq<Seq<bool>>, c: Cell, t: Cell) -> Seq<Cell> {
    seq![c] + ray_after(op, ray_start(c, t), c, t, ray_length(c, t) as nat)
}

/// The corners of the sight square of `c` with `radius`, clamped to a grid of
/// `xsize` by `ysize` cells: `(x0, y0, x1, y1)`.
pub open spec fn sight_box(c: Cell, radius: int, xsize: int, ysize: int) -> (int, int, int, int) {
    let x0 = if c.0 >= radius { c.0 - radius } else { 0 };
    let y0 = if c.1 >= radius { c.1 - radius } else { 0 };
    let x1 = if c.0 + radius < xsize { c.0 + radius } else { xsize - 1 };
    let y1 = if c.1 + radius < ysize { c.1 + radius } else { ysize - 1 };
    (x0, y0, x1, y1)
}

/// Whether `t` lies on the edge of the sight square of `c`.
pub open spec fn on_perimeter(c: Cell, radius: int, xsize: int, ysize: int, t: Cell) -> bool {
    let b = sight_box(c, radius, xsize, ysize);
    &&& b.0 <= t.0 <= b.2
    &&& b.1 <= t.1 <= b.3
    &&& (t.0 == b.0 || t.0 == b.2 || t.1 == b.1 || t.1 == b.3)
}

/// Whether some ray from `c` to a cell of `targets` reaches `p`.
pub open spec fn lit_by(op: Seq<Seq<bool>>, c: Cell, targets: Set<Cell>, p: Cell) -> bool {
    exists|t: Cell| targets.contains(t) && #[trigger] ray_cells(op, c, t).contains(p)
}

/// Whether a viewer at `c` with sight `radius` sees `p` on a grid of
/// `xsize` by `ysize` cells with opacity `op`.
pub open spec fn in_sight(op: Seq<Seq<bool>>, c: Cell, radius: int, xsize: int, ysize: int, p: Cell) -> bool {
    lit_by(op, c, Set::new(|t: Cell| on_perimeter(c, radius, xsize, ysize, t)), p)
}

/// A tile after a ray has passed over it: revealed and lit.
pub open spec fn seen(t: Tile) -> Tile {
    Tile { visible: true, lit: true, ..t }
}

/// Whether `after` is what one sight sweep from `c` with `radius` makes of
/// the `xsize` by `ysize` grid `before`: each cell keeps its type and
/// opacity, is lit exactly when in sight, and is revealed when in sight or
/// revealed already.
pub open spec fn swept(
    before: Seq<Seq<Tile>>,
    after: Seq<Seq<Tile>>,
    c: Cell,
    radius: int,
    xsize: int,
    ysize: int,
) -> bool {
    forall|x: int, y: int|
        #![trigger after[y][x]]
        0 <= x < xsize && 0 <= y < ysize ==> after[y][x] == (Tile {
            visible: before[y][x].visible || in_sight(opacity(before), c, radius, xsize, ysize, (x, y)),
            lit: in_sight(opacity(before), c, radius, xsize, ysize, (x, y)),
            ..before[y][x]
        })
}

/// Fog of war only ever lifts: after two sweeps from the same place, the
/// second with the same or a smaller radius, every cell that was visible
/// before either sweep is still visible.
pub proof fn lemma_sweeps_never_hide(
    g0: Seq<Seq<Tile>>,
    g1: Seq<Seq<Tile>>,
    g2: Seq<Seq<Tile>>,
    c: Cell,
    r1: int,
    r2: int,
    xsize: int,
    ysize: int,
)
    requires
        swept(g0, g1, c, r1, xsize, ysize),
        swept(g1, g2, c, r2, xsize, ysize),
        r2 <= r1,
    ensures
        forall|x: int, y: int|
            0 <= x < xsize && 0 <= y < ysize && #[trigger] g0[y][x].visible ==> g1[y][x].visible && g2[y][x].visible,
        forall|x: int, y: int| 0 <= x < xsize && 0 <= y < ysize && #[trigger] g1[y][x].visible ==> g2[y][x].visible,
{
    assert forall|x: int, y: int| 0 <= x < xsize && 0 <= y < ysize && #[trigger] g0[y][x].visible implies g1[y][x].visible
        && g2[y][x].visible by {
        assert(g1[y][x].visible);
        assert(g2[y][x].visible);
    }
    assert forall|x: int, y: int| 0 <= x < xsize && 0 <= y < ysize && #[trigger] g1[y][x].visible implies g2[y][x].visible by {
        assert(g2[y][x].visible);
    }
}

/// A viewer always sees its own cell: every ray starts there.
pub proof fn lemma_viewer_in_sight(op: Seq<Seq<bool>>, c: Cell, radius: int, xsize: int, ysize: int)
    requires
        0 <= c.0 < xsize,
        0 <= c.1 < ysize,
        0 <= radius,
    ensures
        in_sight(op, c, radius, xsize, ysize, c),
{
    let b = sight_box(c, radius, xsize, ysize);
    let t: Cell = (b.0, b.1);
    assert(on_perimeter(c, radius, xsize, ysize, t));
    assert(Set::new(|w: Cell| on_perimeter(c, radius, xsize, ysize, w)).contains(t));
    assert(ray_cells(op, c, t)[0] == c);
    assert(ray_cells(op, c, t).contains(c));
}

/// Adding one target to a set adds exactly the cells of its ray.
pub proof fn lemma_lit_by_insert(op: Seq<Seq<bool>>, c: Cell, targets: Set<Cell>, t: Cell, p: Cell)
    ensures
        lit_by(op, c, targets.insert(t), p) == (lit_by(op, c, targets, p) || ray_cells(op, c, t).contains(p)),
{
    if ray_cells(op, c, t).contains(p) {
        assert(targets.insert(t).contains(t));
    }
    if lit_by(op, c, targets, p) {
        let w = choose|w: Cell| targets.contains(w) && #[trigger] ray_cells(op, c, w).contains(p);
        assert(targets.insert(t).contains(w));
    }
}

/// Whether the ray state `s` lies on the viewer's row at most one column to
/// its right, or has left that row for good, on the side the ray heads to.
pub open spec fn before_wall(s: RayState, c: Cell, t: Cell) -> bool {
    ||| s.1 == c.1 && s.0 <= c.0 + 1
    ||| toward(c.1, t.1) == 1 && s.1 > c.1
    ||| toward(c.1, t.1) == -1 && s.1 < c.1
}

/// From a state before the wall, a ray never reaches the viewer's row
/// beyond an opaque cell two columns to its right.
proof fn lemma_ray_after_stops_at_wall(op: Seq<Seq<bool>>, s: RayState, c: Cell, t: Cell, fuel: nat, k: int)
    requires
        inside(op, (c.0 + 2, c.1)),
        op[c.1][c.0 + 2],
        k >= 3,
        before_wall(s, c, t),
    ensures
        !ray_after(op, s, c, t, fuel).contains((c.0 + k, c.1)),
    decreases fuel,
{
    let cell: Cell = (c.0 + k, c.1);
    if fuel == 0 || (s.0 == t.0 && s.1 == t.1) {
    } else {
        let n = ray_next(s, c, t);
        let here: Cell = (n.0, n.1);
        if !inside(op, here) {
        } else if op[n.1][n.0] {
            assert(here != cell);
            assert(!seq![here].contains(cell)) by {
                if seq![here].contains(cell) {
                    let i = choose|i: int| 0 <= i < 1 && seq![here][i] == cell;
                }
            }
        } else {
            let rest = ray_after(op, n, c, t, (fuel - 1) as nat);
            lemma_ray_after_stops_at_wall(op, n, c, t, (fuel - 1) as nat, k);
            assert(here != cell);
            assert(!(seq![here] + rest).contains(cell)) by {
                if (seq![here] + rest).contains(cell) {
                    let i = choose|i: int| 0 <= i < rest.len() + 1 && (seq![here] + rest)[i] == cell;
                    if i > 0 {
                        assert(rest[i - 1] == cell);
                    }
                }
            }
        }
    }
}

/// Sight stops at the first opaque cell: with an opaque cell two columns to
/// the right of the viewer, no cell further along its row is in sight.
pub proof fn lemma_wall_hides_row(op: Seq<Seq<bool>>, c: Cell, radius: int, xsize: int, ysize: int, k: int)
    requires
        inside(op, (c.0 + 2, c.1)),
        op[c.1][c.0 + 2],
        k >= 3,
    ensures
        !in_sight(op, c, radius, xsize, ysize, (c.0 + k, c.1)),
{
    let cell: Cell = (c.0 + k, c.1);
    assert forall|t: Cell| !(#[trigger] ray_cells(op, c, t).contains(cell)) by {
        let rest = ray_after(op, ray_start(c, t), c, t, ray_length(c, t) as nat);
        lemma_ray_after_stops_at_wall(op, ray_start(c, t), c, t, ray_length(c, t) as nat, k);
        if (seq![c] + rest).contains(cell) {
            let i = choose|i: int| 0 <= i < rest.len() + 1 && (seq![c] + rest)[i] == cell;
            if i > 0 {
                assert(rest[i - 1] == cell);
            }
        }
    }
}

/// A sweep leaves alone what lies behind a wall: with an opaque cell two
/// columns to the right of the viewer, every cell further along its row
/// keeps its visibility and is not lit.
pub proof fn lemma_sweep_stops_at_wall(
    before: Seq<Seq<Tile>>,
    after: Seq<Seq<Tile>>,
    c: Cell,
    radius: int,
    xsize: int,
    ysize: int,
    k: int,
)
    requires
        swept(before, after, c, radius, xsize, ysize),
        0 <= c.0 && c.0 + k < xsize,
        0 <= c.1 < ysize,
        before.len() == ysize,
        before[c.1].len() == xsize,
        before[c.1][c.0 + 2].opaque,
        k >= 3,
    ensures
        after[c.1][c.0 + k].visible == before[c.1][c.0 + k].visible,
        !after[c.1][c.0 + k].lit,
{
    let op = opacity(before);
    assert(inside(op, (c.0 + 2, c.1)));
    assert(op[c.1][c.0 + 2]);
    lemma_wall_hides_row(op, c, radius, xsize, ysize, k);
    assert(after[c.1][c.0 + k] == (Tile {
        visible: before[c.1][c.0 + k].visible || in_sight(op, c, radius, xsize, ysize, (c.0 + k, c.1)),
        lit: in_sight(op, c, radius, xsize, ysize, (c.0 + k, c.1)),
        ..before[c.1][c.0 + k]
    }));
}

} // verus!
