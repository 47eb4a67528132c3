use vstd::prelude::*;

use crate::sight::{
    distance, in_sight, lemma_lit_by_insert, lit_by, on_perimeter, opacity, ray_after, ray_cells,
    ray_length, seen, sight_box, swept, toward, Cell,
};
use crate::world::Point;

verus! {

/// What occupies a grid cell.
#[derive(Clone, Copy, Debug)]
pub enum TileType {
    Empty,
    Wall,
    Floor,
    StairsUp,
    StairsDown,
    Character(&'static str),
    Player,
}

/// One grid cell: its terrain and its visibility state.
///
/// `visible` is cumulative: once a cell has been seen it stays revealed.
/// `lit` marks the cells seen by the most recent sight sweep only.
#[derive(Clone, Copy, Debug)]
pub struct Tile {
    pub tile_type: TileType,
    pub visible: bool,
    pub opaque: bool,
    pub lit: bool,
}

/// Whether a cell of type `t` blocks line of sight: walls and empty space do.
pub open spec fn opaque_type(t: TileType) -> bool {
    t is Empty || t is Wall
}

/// The tile that a freshly painted cell of type `t` holds.
pub open spec fn tile_of(t: TileType) -> Tile {
    Tile { tile_type: t, visible: false, opaque: opaque_type(t), lit: false }
}

impl Tile {
    pub fn new(tile_type: TileType, visible: bool, opaque: bool, lit: bool) -> (r: Tile)
        ensures
            r == (Tile { tile_type, visible, opaque, lit }),
    {
        Tile { tile_type, visible, opaque, lit }
    }

    pub fn get_type(&self) -> (r: &TileType)
        ensures
            *r == self.tile_type,
    {
        &self.tile_type
    }

    pub fn is_visible(&self) -> (r: bool)
        ensures
            r == self.visible,
    {
        self.visible
    }

    pub fn visibility(&mut self, visible: bool)
        ensures
            *final(self) == (Tile { visible, ..*old(self) }),
    {
        self.visible = visible;
    }

    pub fn is_lit(&self) -> (r: bool)
        ensures
            r == self.lit,
    {
        self.lit
    }

    pub fn lit(&mut self, lit: bool)
        ensures
            *final(self) == (Tile { lit, ..*old(self) }),
    {
        self.lit = lit;
    }

    pub fn is_opaque(&self) -> (r: bool)
        ensures
            r == self.opaque,
    {
        self.opaque
    }

    pub fn opacity(&mut self, opaque: bool)
        ensures
            *final(self) == (Tile { opaque, ..*old(self) }),
    {
        self.opaque = opaque;
    }
}

impl From<TileType> for Tile {
    /// A hidden, unlit tile whose opacity follows from its type.
    fn from(tile_type: TileType) -> Tile {
        let opaque = match tile_type {
            TileType::Empty => true,
            TileType::Wall => true,
            _ => false,
        };
        Tile { tile_type, visible: false, opaque, lit: false }
    }
}

impl vstd::std_specs::convert::FromSpecImpl<TileType> for Tile {
    open spec fn obeys_from_spec() -> bool {
        true
    }

    open spec fn from_spec(v: TileType) -> Tile {
        tile_of(v)
    }
}

/// Whether `cells` is a `ysize`-row grid of `xsize` cells per row.
pub open spec fn grid_shaped(cells: Seq<Seq<Tile>>, xsize: nat, ysize: nat) -> bool {
    &&& cells.len() == ysize
    &&& forall|y: int| 0 <= y < ysize ==> #[trigger] cells[y].len() == xsize
}

/// `cells` with the cell at `(x, y)` replaced by `t`.
pub open spec fn put(cells: Seq<Seq<Tile>>, x: int, y: int, t: Tile) -> Seq<Seq<Tile>> {
    cells.update(y, cells[y].update(x, t))
}

/// What a cell holding `under` holds after `t` is painted on it only where
/// nothing lies underneath.
pub open spec fn paint_if_empty(under: Tile, t: Tile) -> Tile {
    if under.tile_type is Empty {
        t
    } else {
        under
    }
}

/// Grids of one shape whose cells agree on opacity have the same opacity map.
proof fn lemma_same_opacity(a: Seq<Seq<Tile>>, b: Seq<Seq<Tile>>, xsize: nat, ysize: nat)
    requires
        grid_shaped(a, xsize, ysize),
        grid_shaped(b, xsize, ysize),
        forall|x: int, y: int| 0 <= x < xsize && 0 <= y < ysize ==> #[trigger] a[y][x].opaque == b[y][x].opaque,
    ensures
        opacity(a) == opacity(b),
{
    assert forall|y: int| 0 <= y < ysize implies #[trigger] opacity(a)[y] == opacity(b)[y] by {
        assert(opacity(a)[y] =~= opacity(b)[y]);
    }
    assert(opacity(a) =~= opacity(b));
}

/// What a renderer draws for `tile`: a blank while it is hidden, else the
/// glyph of its type.
pub open spec fn glyph(tile: Tile) -> Seq<char> {
    if !tile.visible {
        seq![' ']
    } else {
        match tile.tile_type {
            TileType::Floor => seq!['.'],
            TileType::Wall => seq!['#'],
            TileType::Empty => seq![' '],
            TileType::StairsDown => seq!['>'],
            TileType::StairsUp => seq!['<'],
            TileType::Player => seq!['@'],
            TileType::Character(label) => label@,
        }
    }
}

/// The text that a renderer draws for `tile`.
pub fn tile_to_str(tile: &Tile) -> (r: &str)
    ensures
        r@ == glyph(*tile),
{
    proof {
        reveal_strlit(" ");
        reveal_strlit(".");
        reveal_strlit("#");
        reveal_strlit(">");
        reveal_strlit("<");
        reveal_strlit("@");
    }
    if tile.visible {
        match tile.tile_type {
            TileType::Floor => ".",
            TileType::Wall => "#",
            TileType::Empty => " ",
            TileType::StairsDown => ">",
            TileType::StairsUp => "<",
            TileType::Player => "@",
            TileType::Character(label) => label,
        }
    } else {
        " "
    }
}

/// What painting `t` does to a cell holding `under`: replaces it when
/// `overwrite`, else only when the cell is empty.
pub open spec fn brushed(under: Tile, t: Tile, overwrite: bool) -> Tile {
    if overwrite {
        t
    } else {
        paint_if_empty(under, t)
    }
}

/// A rectangular grid of tiles, stored row by row.
pub struct TileGrid {
    grid: Vec<Vec<Tile>>,
    xsize: usize,
    ysize: usize,
}

impl View for TileGrid {
    type V = Seq<Seq<Tile>>;

    closed spec fn view(&self) -> Seq<Seq<Tile>> {
        self.grid@.map_values(|row: Vec<Tile>| row@)
    }
}

impl TileGrid {
    /// Number of columns.
    pub closed spec fn width(&self) -> nat {
        self.xsize as nat
    }

    /// Number of rows.
    pub closed spec fn height(&self) -> nat {
        self.ysize as nat
    }

    /// The grid holds exactly `height()` rows of `width()` cells.
    pub open spec fn wf(&self) -> bool {
        &&& grid_shaped(self@, self.width(), self.height())
        &&& self.width() <= usize::MAX
        &&& self.height() <= usize::MAX
    }

    pub open spec fn in_bounds(&self, x: int, y: int) -> bool {
        0 <= x < self.width() && 0 <= y < self.height()
    }

    /// The tile at column `x`, row `y`.
    pub open spec fn cell(&self, x: int, y: int) -> Tile {
        self@[y][x]
    }

    /// A grid of `xsize` columns and `ysize` rows of hidden empty tiles.
    pub fn new(xsize: usize, ysize: usize) -> (r: TileGrid)
        ensures
            r.wf(),
            r.width() == xsize,
            r.height() == ysize,
            forall|x: int, y: int| r.in_bounds(x, y) ==> #[trigger] r.cell(x, y) == tile_of(TileType::Empty),
    {
        let mut grid: Vec<Vec<Tile>> = Vec::with_capacity(ysize);
        let mut j: usize = 0;
        while j < ysize
            invariant
                j <= ysize,
                grid@.len() == j,
                forall|y: int| 0 <= y < j ==> #[trigger] grid@[y]@.len() == xsize,
                forall|y: int, x: int| 0 <= y < j && 0 <= x < xsize ==> #[trigger] grid@[y]@[x] == tile_of(TileType::Empty),
            decreases ysize - j,
        {
            let mut row: Vec<Tile> = Vec::with_capacity(xsize);
            let mut i: usize = 0;
            while i < xsize
                invariant
                    i <= xsize,
                    row@.len() == i,
                    forall|x: int| 0 <= x < i ==> #[trigger] row@[x] == tile_of(TileType::Empty),
                decreases xsize - i,
            {
                row.push(Tile::from(TileType::Empty));
                i = i + 1;
            }
            grid.push(row);
            j = j + 1;
        }
        let r = TileGrid { grid, xsize, ysize };
        assert forall|x: int, y: int| r.in_bounds(x, y) implies #[trigger] r.cell(x, y) == tile_of(TileType::Empty) by {
            assert(r@[y] == r.grid@[y]@);
        }
        r
    }

    /// Overwrites the cell at `(x, y)` with `tile`.
    pub fn set_tile(&mut self, x: usize, y: usize, tile: Tile)
        requires
            old(self).wf(),
            old(self).in_bounds(x as int, y as int),
        ensures
            final(self).wf(),
            final(self).width() == old(self).width(),
            final(self).height() == old(self).height(),
            final(self)@ == put(old(self)@, x as int, y as int, tile),
    {
        assert(self.grid@[y as int]@.len() == self@[y as int].len());
        self.grid[y][x] = tile;
        assert(self@ =~~= put(old(self)@, x as int, y as int, tile));
    }

    /// Paints `tile` at `(x, y)` only if the cell there is `Empty`.
    pub fn set_empty_tile(&mut self, x: usize, y: usize, tile: Tile)
        requires
            old(self).wf(),
            old(self).in_bounds(x as int, y as int),
        ensures
            final(self).wf(),
            final(self).width() == old(self).width(),
            final(self).height() == old(self).height(),
            final(self)@ == put(old(self)@, x as int, y as int, paint_if_empty(old(self).cell(x as int, y as int), tile)),
    {
        let under = *self.tile_at(x, y);
        match under.tile_type {
            TileType::Empty => self.set_tile(x, y, tile),
            _ => {
                assert(self@ =~~= put(old(self)@, x as int, y as int, under));
            },
        }
    }

    /// The rows of the grid, top to bottom.
    pub fn raw_data(&self) -> (r: &Vec<Vec<Tile>>)
        ensures
            r@.len() == self@.len(),
            forall|y: int| 0 <= y < r@.len() ==> #[trigger] r@[y]@ == self@[y],
    {
        &self.grid
    }

    /// The tile at column `x`, row `y`.
    pub fn tile_at(&self, x: usize, y: usize) -> (r: &Tile)
        requires
            self.wf(),
            self.in_bounds(x as int, y as int),
        ensures
            *r == self.cell(x as int, y as int),
    {
        assert(self.grid@[y as int]@ == self@[y as int]);
        &self.grid[y][x]
    }

    /// The tile at screen position `(x, y)`, whose first row holds a header:
    /// that is the grid cell `(x, y + 1)`.
    pub fn block_at(&self, x: usize, y: usize) -> (r: &Tile)
        requires
            self.wf(),
            self.in_bounds(x as int, y + 1),
        ensures
            *r == self.cell(x as int, y + 1),
    {
        self.tile_at(x, y + 1)
    }

    pub fn xsize(&self) -> (r: usize)
        ensures
            r == self.width(),
    {
        self.xsize
    }

    pub fn ysize(&self) -> (r: usize)
        ensures
            r == self.height(),
    {
        self.ysize
    }

    /// Marks the cell at `(x, y)` as seen.
    pub fn uncover(&mut self, x: usize, y: usize)
        requires
            old(self).wf(),
            old(self).in_bounds(x as int, y as int),
        ensures
            final(self).wf(),
            final(self).width() == old(self).width(),
            final(self).height() == old(self).height(),
            final(self)@ == put(old(self)@, x as int, y as int, Tile { visible: true, ..old(self).cell(x as int, y as int) }),
    {
        let mut t = *self.tile_at(x, y);
        t.visibility(true);
        self.set_tile(x, y, t);
    }

    /// Marks the cell at `(x, y)` as lit by the current sweep.
    pub fn light(&mut self, x: usize, y: usize)
        requires
            old(self).wf(),
            old(self).in_bounds(x as int, y as int),
        ensures
            final(self).wf(),
            final(self).width() == old(self).width(),
            final(self).height() == old(self).height(),
            final(self)@ == put(old(self)@, x as int, y as int, Tile { lit: true, ..old(self).cell(x as int, y as int) }),
    {
        let mut t = *self.tile_at(x, y);
        t.lit(true);
        self.set_tile(x, y, t);
    }

    /// Casts one sight ray from `c` towards `t`: reveals and lights every
    /// cell it passes, up to and including the first opaque one.
    fn cast_ray(&mut self, c: Point, t: Point)
        requires
            old(self).wf(),
            old(self).in_bounds(c.0 as int, c.1 as int),
        ensures
            final(self).wf(),
            final(self).width() == old(self).width(),
            final(self).height() == old(self).height(),
            forall|x: int, y: int|
                #![trigger final(self).cell(x, y)]
                final(self).in_bounds(x, y) ==> final(self).cell(x, y) == (if ray_cells(
                    opacity(old(self)@),
                    (c.0 as int, c.1 as int),
                    (t.0 as int, t.1 as int),
                ).contains((x, y)) {
                    seen(old(self).cell(x, y))
                } else {
                    old(self).cell(x, y)
                }),
    {
        let ghost g0 = self@;
        let ghost op = opacity(self@);
        let ghost gc: Cell = (c.0 as int, c.1 as int);
        let ghost gt: Cell = (t.0 as int, t.1 as int);
        let cx = c.0 as i128;
        let cy = c.1 as i128;
        let tx = t.0 as i128;
        let ty = t.1 as i128;
        let dx: i128 = if cx <= tx { tx - cx } else { cx - tx };
        let dy: i128 = if cy <= ty { cy - ty } else { ty - cy };
        let sx: i128 = if cx < tx { 1 } else { -1 };
        let sy: i128 = if cy < ty { 1 } else { -1 };
        let fuel: i128 = if dx >= -dy { dx } else { -dy };
        let mut x: i128 = cx;
        let mut y: i128 = cy;
        let mut err: i128 = dx + dy;
        let mut k: i128 = 0;
        self.uncover(c.0, c.1);
        self.light(c.0, c.1);
        let ghost mut done: Seq<Cell> = seq![gc];
        assert forall|px: int, py: int|
            #![trigger self.cell(px, py)]
            self.in_bounds(px, py) implies self.cell(px, py) == (if done.contains((px, py)) {
                seen(g0[py][px])
            } else {
                g0[py][px]
            }) by {
            if (px, py) == gc {
                assert(done[0] == gc);
            } else {
                assert(!done.contains((px, py))) by {
                    if done.contains((px, py)) {
                        let i = choose|i: int| 0 <= i < done.len() && done[i] == (px, py);
                        assert(i == 0);
                    }
                }
            }
        }
        loop
            invariant_except_break
                self.wf(),
                self.width() == old(self).width(),
                self.height() == old(self).height(),
                self.in_bounds(x as int, y as int),
                0 <= k <= fuel,
                2 * dy <= err <= 2 * dx,
                ray_cells(op, gc, gt) == done + ray_after(op, (x as int, y as int, err as int), gc, gt, (fuel - k) as nat),
                forall|px: int, py: int|
                    #![trigger self.cell(px, py)]
                    self.in_bounds(px, py) ==> self.cell(px, py) == (if done.contains((px, py)) {
                        seen(g0[py][px])
                    } else {
                        g0[py][px]
                    }),
            invariant
                g0 == old(self)@,
                op == opacity(g0),
                gc == (c.0 as int, c.1 as int),
                gt == (t.0 as int, t.1 as int),
                cx == gc.0,
                cy == gc.1,
                tx == gt.0,
                ty == gt.1,
                dx == distance(gc.0, gt.0),
                dy == -distance(gc.1, gt.1),
                sx == toward(gc.0, gt.0),
                sy == toward(gc.1, gt.1),
                fuel == ray_length(gc, gt),
                grid_shaped(g0, old(self).width(), old(self).height()),
            ensures
                self.wf(),
                self.width() == old(self).width(),
                self.height() == old(self).height(),
                ray_cells(op, gc, gt) == done,
                forall|px: int, py: int|
                    #![trigger self.cell(px, py)]
                    self.in_bounds(px, py) ==> self.cell(px, py) == (if done.contains((px, py)) {
                        seen(g0[py][px])
                    } else {
                        g0[py][px]
                    }),
            decreases fuel - k,
        {
            if k >= fuel || (x == tx && y == ty) {
                assert(done + Seq::<Cell>::empty() =~= done);
                break;
            }
            let e2 = 2 * err;
            let mut nx = x;
            let mut ny = y;
            let mut nerr = err;
            if e2 >= dy {
                nx = x + sx;
                nerr = nerr + dy;
            }
            if e2 <= dx {
                ny = y + sy;
                nerr = nerr + dx;
            }
            let ghost n: Cell = (nx as int, ny as int);
            assert((nx as int, ny as int, nerr as int) == crate::sight::ray_next((x as int, y as int, err as int), gc, gt));
            if nx < 0 || ny < 0 || nx >= self.xsize as i128 || ny >= self.ysize as i128 {
                assert(done + Seq::<Cell>::empty() =~= done);
                break;
            }
            let ux = nx as usize;
            let uy = ny as usize;
            let ghost before = self@;
            let ghost prev = done;
            assert forall|px: int, py: int| self.in_bounds(px, py) implies #[trigger] before[py][px] == (if prev.contains((px, py)) {
                seen(g0[py][px])
            } else {
                g0[py][px]
            }) by {
                assert(self.cell(px, py) == before[py][px]);
            }
            self.uncover(ux, uy);
            self.light(ux, uy);
            proof {
                done = done.push(n);
                assert forall|px: int, py: int|
                    #![trigger self.cell(px, py)]
                    self.in_bounds(px, py) implies self.cell(px, py) == (if done.contains((px, py)) {
                        seen(g0[py][px])
                    } else {
                        g0[py][px]
                    }) by {
                    if (px, py) != n {
                        assert(done.contains((px, py)) == prev.contains((px, py))) by {
                            if prev.contains((px, py)) {
                                let i = choose|i: int| 0 <= i < prev.len() && prev[i] == (px, py);
                                assert(done[i] == (px, py));
                            }
                            if done.contains((px, py)) {
                                let i = choose|i: int| 0 <= i < done.len() && done[i] == (px, py);
                                assert(prev[i] == (px, py));
                            }
                        }
                    } else {
                        assert(done[done.len() - 1] == n);
                    }
                }
                assert(op[uy as int][ux as int] == g0[uy as int][ux as int].opaque);
            }
            if self.tile_at(ux, uy).opaque {
                assert(done =~= prev + seq![n]);
                break;
            }
            proof {
                let rest = ray_after(op, (nx as int, ny as int, nerr as int), gc, gt, (fuel - k - 1) as nat);
                assert(prev + (seq![n] + rest) =~= done + rest);
            }
            x = nx;
            y = ny;
            err = nerr;
            k = k + 1;
        }
    }

    /// Clears the `lit` flag of every cell.
    fn unlight_all(&mut self)
        requires
            old(self).wf(),
        ensures
            final(self).wf(),
            final(self).width() == old(self).width(),
            final(self).height() == old(self).height(),
            forall|x: int, y: int|
                #![trigger final(self).cell(x, y)]
                final(self).in_bounds(x, y) ==> final(self).cell(x, y) == (Tile { lit: false, ..old(self).cell(x, y) }),
    {
        let ghost g0 = self@;
        let mut y: usize = 0;
        while y < self.ysize
            invariant
                self.wf(),
                self.width() == old(self).width(),
                self.height() == old(self).height(),
                g0 == old(self)@,
                y <= self.height(),
                forall|px: int, py: int|
                    #![trigger self.cell(px, py)]
                    self.in_bounds(px, py) ==> self.cell(px, py) == (if py < y {
                        Tile { lit: false, ..g0[py][px] }
                    } else {
                        g0[py][px]
                    }),
            decreases self.height() - y,
        {
            let mut x: usize = 0;
            while x < self.xsize
                invariant
                    self.wf(),
                    self.width() == old(self).width(),
                    self.height() == old(self).height(),
                    g0 == old(self)@,
                    y < self.height(),
                    x <= self.width(),
                    forall|px: int, py: int|
                        #![trigger self.cell(px, py)]
                        self.in_bounds(px, py) ==> self.cell(px, py) == (if py < y || (py == y && px < x) {
                            Tile { lit: false, ..g0[py][px] }
                        } else {
                            g0[py][px]
                        }),
                decreases self.width() - x,
            {
                let ghost before = self@;
                assert forall|px: int, py: int| self.in_bounds(px, py) implies #[trigger] before[py][px] == (if py < y || (
                py == y && px < x) {
                    Tile { lit: false, ..g0[py][px] }
                } else {
                    g0[py][px]
                }) by {
                    assert(self.cell(px, py) == before[py][px]);
                }
                let mut t = *self.tile_at(x, y);
                t.lit(false);
                self.set_tile(x, y, t);
                x = x + 1;
            }
            y = y + 1;
        }
    }

    /// Sweeps the sight of a viewer at `center`: every cell of the grid is
    /// first unlit, then a ray is cast from `center` to each cell on the edge
    /// of the square of half-side `radius` around it (clamped to the grid).
    /// The cells that the rays reach are lit and revealed; cells revealed
    /// before stay revealed.
    pub fn clear_fog_of_war(&mut self, center: &Point, radius: usize)
        requires
            old(self).wf(),
            old(self).in_bounds(center.0 as int, center.1 as int),
        ensures
            final(self).wf(),
            final(self).width() == old(self).width(),
            final(self).height() == old(self).height(),
            swept(
                old(self)@,
                final(self)@,
                (center.0 as int, center.1 as int),
                radius as int,
                old(self).width() as int,
                old(self).height() as int,
            ),
    {
        let ghost g0 = self@;
        let ghost gc: Cell = (center.0 as int, center.1 as int);
        let ghost w = self.width() as int;
        let ghost h = self.height() as int;
        self.unlight_all();
        let ghost g1 = self@;
        let ghost op = opacity(g1);
        assert forall|x: int, y: int| self.in_bounds(x, y) implies #[trigger] g1[y][x] == (Tile {
            lit: false,
            ..g0[y][x]
        }) by {
            assert(self.cell(x, y) == g1[y][x]);
        }
        proof {
            lemma_same_opacity(g0, g1, self.width(), self.height());
        }
        let x0: usize = if center.0 >= radius { center.0 - radius } else { 0 };
        let y0: usize = if center.1 >= radius { center.1 - radius } else { 0 };
        let x1: usize = if radius < self.xsize - center.0 { center.0 + radius } else { self.xsize - 1 };
        let y1: usize = if radius < self.ysize - center.1 { center.1 + radius } else { self.ysize - 1 };
        assert(sight_box(gc, radius as int, w, h) == (x0 as int, y0 as int, x1 as int, y1 as int));
        let ghost mut targets: Set<Cell> = Set::empty();
        let mut xi: usize = x0;
        while xi <= x1
            invariant
                self.wf(),
                self.width() == w,
                self.height() == h,
                x0 <= xi <= x1 + 1,
                x1 < w,
                y1 < h,
                y0 <= y1,
                op == opacity(g1),
                grid_shaped(g1, w as nat, h as nat),
                self.in_bounds(center.0 as int, center.1 as int),
                gc == (center.0 as int, center.1 as int),
                forall|t: Cell| #[trigger] targets.contains(t) <==> ((t.1 == y0 || t.1 == y1) && x0 <= t.0 < xi),
                forall|px: int, py: int|
                    #![trigger self.cell(px, py)]
                    self.in_bounds(px, py) ==> self.cell(px, py) == (Tile {
                        visible: g1[py][px].visible || lit_by(op, gc, targets, (px, py)),
                        lit: lit_by(op, gc, targets, (px, py)),
                        ..g1[py][px]
                    }),
            decreases x1 + 1 - xi,
        {
            let Ghost(next) = self.cast_two(center, (xi, y0), (xi, y1), Ghost(g1), Ghost(targets));
            proof {
                targets = next;
            }
            xi = xi + 1;
        }
        let mut yi: usize = y0;
        while yi <= y1
            invariant
                self.wf(),
                self.width() == w,
                self.height() == h,
                y0 <= yi <= y1 + 1,
                x1 < w,
                y1 < h,
                x0 <= x1,
                op == opacity(g1),
                grid_shaped(g1, w as nat, h as nat),
                self.in_bounds(center.0 as int, center.1 as int),
                gc == (center.0 as int, center.1 as int),
                forall|t: Cell|
                    #[trigger] targets.contains(t) <==> (((t.1 == y0 || t.1 == y1) && x0 <= t.0 <= x1) || ((t.0 == x0
                        || t.0 == x1) && y0 <= t.1 < yi)),
                forall|px: int, py: int|
                    #![trigger self.cell(px, py)]
                    self.in_bounds(px, py) ==> self.cell(px, py) == (Tile {
                        visible: g1[py][px].visible || lit_by(op, gc, targets, (px, py)),
                        lit: lit_by(op, gc, targets, (px, py)),
                        ..g1[py][px]
                    }),
            decreases y1 + 1 - yi,
        {
            let Ghost(next) = self.cast_two(center, (x0, yi), (x1, yi), Ghost(g1), Ghost(targets));
            proof {
                targets = next;
            }
            yi = yi + 1;
        }
        assert(targets =~= Set::new(|t: Cell| on_perimeter(gc, radius as int, w, h, t)));
        assert forall|x: int, y: int|
            #![trigger self.cell(x, y)]
            self.in_bounds(x, y) implies self.cell(x, y) == (Tile {
                visible: g0[y][x].visible || in_sight(op, gc, radius as int, w, h, (x, y)),
                lit: in_sight(op, gc, radius as int, w, h, (x, y)),
                ..g0[y][x]
            }) by {
            assert(g1[y][x] == (Tile { lit: false, ..g0[y][x] }));
        }
        assert forall|x: int, y: int| 0 <= x < w && 0 <= y < h implies #[trigger] self@[y][x] == (Tile {
            visible: g0[y][x].visible || in_sight(op, gc, radius as int, w, h, (x, y)),
            lit: in_sight(op, gc, radius as int, w, h, (x, y)),
            ..g0[y][x]
        }) by {
            assert(self.cell(x, y) == self@[y][x]);
        }
    }

    /// Casts the rays towards `a` and `b`, adding them to the rays already
    /// cast from `c` towards `targets` since the grid was `g1`.
    fn cast_two(
        &mut self,
        c: &Point,
        a: Point,
        b: Point,
        Ghost(g1): Ghost<Seq<Seq<Tile>>>,
        Ghost(targets): Ghost<Set<Cell>>,
    ) -> (r: Ghost<Set<Cell>>)
        requires
            old(self).wf(),
            old(self).in_bounds(c.0 as int, c.1 as int),
            grid_shaped(g1, old(self).width(), old(self).height()),
            forall|px: int, py: int|
                #![trigger old(self).cell(px, py)]
                old(self).in_bounds(px, py) ==> old(self).cell(px, py) == (Tile {
                    visible: g1[py][px].visible || lit_by(opacity(g1), (c.0 as int, c.1 as int), targets, (px, py)),
                    lit: lit_by(opacity(g1), (c.0 as int, c.1 as int), targets, (px, py)),
                    ..g1[py][px]
                }),
        ensures
            final(self).wf(),
            final(self).width() == old(self).width(),
            final(self).height() == old(self).height(),
            r@ == targets.insert((a.0 as int, a.1 as int)).insert((b.0 as int, b.1 as int)),
            forall|px: int, py: int|
                #![trigger final(self).cell(px, py)]
                final(self).in_bounds(px, py) ==> final(self).cell(px, py) == (Tile {
                    visible: g1[py][px].visible || lit_by(opacity(g1), (c.0 as int, c.1 as int), r@, (px, py)),
                    lit: lit_by(opacity(g1), (c.0 as int, c.1 as int), r@, (px, py)),
                    ..g1[py][px]
                }),
    {
        let ghost op = opacity(g1);
        let ghost gc: Cell = (c.0 as int, c.1 as int);
        let ghost ga: Cell = (a.0 as int, a.1 as int);
        let ghost gb: Cell = (b.0 as int, b.1 as int);
        let ghost b0 = self@;
        assert forall|px: int, py: int| self.in_bounds(px, py) implies #[trigger] b0[py][px] == (Tile {
            visible: g1[py][px].visible || lit_by(op, gc, targets, (px, py)),
            lit: lit_by(op, gc, targets, (px, py)),
            ..g1[py][px]
        }) by {
            assert(self.cell(px, py) == b0[py][px]);
        }
        proof {
            lemma_same_opacity(g1, b0, self.width(), self.height());
        }
        self.cast_ray(*c, a);
        let ghost m = self@;
        assert forall|px: int, py: int| self.in_bounds(px, py) implies #[trigger] m[py][px] == (if ray_cells(
            op,
            gc,
            ga,
        ).contains((px, py)) {
            seen(b0[py][px])
        } else {
            b0[py][px]
        }) by {
            assert(self.cell(px, py) == m[py][px]);
        }
        proof {
            lemma_same_opacity(g1, m, self.width(), self.height());
        }
        self.cast_ray(*c, b);
        let ghost r = targets.insert(ga).insert(gb);
        assert forall|px: int, py: int|
            #![trigger self.cell(px, py)]
            self.in_bounds(px, py) implies self.cell(px, py) == (Tile {
                visible: g1[py][px].visible || lit_by(op, gc, r, (px, py)),
                lit: lit_by(op, gc, r, (px, py)),
                ..g1[py][px]
            }) by {
            lemma_lit_by_insert(op, gc, targets, ga, (px, py));
            lemma_lit_by_insert(op, gc, targets.insert(ga), gb, (px, py));
        }
        Ghost(r)
    }

    /// Paints `tile` over the cells `(x, y)` with `x0 <= x <= x1` and
    /// `y0 <= y <= y1`: over every one if `overwrite`, else over empty ones.
    pub fn paint_rect(&mut self, x0: usize, y0: usize, x1: usize, y1: usize, tile: Tile, overwrite: bool)
        requires
            old(self).wf(),
            x1 < old(self).width(),
            y1 < old(self).height(),
        ensures
            final(self).wf(),
            final(self).width() == old(self).width(),
            final(self).height() == old(self).height(),
            forall|x: int, y: int|
                #![trigger final(self)@[y][x]]
                final(self).in_bounds(x, y) ==> final(self)@[y][x] == (if x0 <= x <= x1 && y0 <= y <= y1 {
                    brushed(old(self)@[y][x], tile, overwrite)
                } else {
                    old(self)@[y][x]
                }),
    {
        let ghost g0 = self@;
        let mut y: usize = y0;
        while y <= y1
            invariant
                self.wf(),
                self.width() == old(self).width(),
                self.height() == old(self).height(),
                g0 == old(self)@,
                x1 < self.width(),
                y1 < self.height(),
                y0 <= y,
                y <= y1 + 1 || y == y0,
                forall|px: int, py: int|
                    #![trigger self@[py][px]]
                    self.in_bounds(px, py) ==> self@[py][px] == (if x0 <= px <= x1 && y0 <= py < y {
                        brushed(g0[py][px], tile, overwrite)
                    } else {
                        g0[py][px]
                    }),
            decreases y1 + 1 - y,
        {
            let mut x: usize = x0;
            while x <= x1
                invariant
                    self.wf(),
                    self.width() == old(self).width(),
                    self.height() == old(self).height(),
                    g0 == old(self)@,
                    x1 < self.width(),
                    y1 < self.height(),
                    y0 <= y <= y1,
                    x0 <= x,
                    x <= x1 + 1 || x == x0,
                    forall|px: int, py: int|
                        #![trigger self@[py][px]]
                        self.in_bounds(px, py) ==> self@[py][px] == (if x0 <= px <= x1 && (y0 <= py < y || (py == y
                            && px < x)) {
                            brushed(g0[py][px], tile, overwrite)
                        } else {
                            g0[py][px]
                        }),
                decreases x1 + 1 - x,
            {
                let ghost before = self@;
                assert(before[y as int][x as int] == g0[y as int][x as int]);
                if overwrite {
                    self.set_tile(x, y, tile);
                } else {
                    self.set_empty_tile(x, y, tile);
                }
                assert forall|px: int, py: int|
                    #![trigger self@[py][px]]
                    self.in_bounds(px, py) implies self@[py][px] == (if x0 <= px <= x1 && (y0 <= py < y || (py == y
                        && px < x + 1)) {
                        brushed(g0[py][px], tile, overwrite)
                    } else {
                        g0[py][px]
                    }) by {
                    assert(before[py][px] == (if x0 <= px <= x1 && (y0 <= py < y || (py == y && px < x)) {
                        brushed(g0[py][px], tile, overwrite)
                    } else {
                        g0[py][px]
                    }));
                }
                x = x + 1;
            }
            y = y + 1;
        }
    }
}

} // verus!
