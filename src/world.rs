use vstd::prelude::*;

use rand::rngs::StdRng;

use crate::dice::{flip, roll};
use crate::entities::{Character, Enemy, Entity};
use crate::error::GameError;
use crate::tiling::{grid_shaped, paint_if_empty, put, tile_of, Tile, TileGrid, TileType};

verus! {

/// A grid coordinate `(x, y)`.
pub type Point = (usize, usize);

/// A displacement `(dx, dy)`.
pub type Movement = (i8, i8);

pub const LEFT: Movement = (-1, 0);

pub const RIGHT: Movement = (1, 0);

pub const UP: Movement = (0, -1);

pub const DOWN: Movement = (0, 1);

/// Whether `v + d` is a valid `usize`.
pub open spec fn shift_fits(v: usize, d: i8) -> bool {
    0 <= v + d <= usize::MAX
}

/// Whether `movement` applied to `point` stays on the non-negative quadrant.
pub open spec fn movement_fits(point: Point, movement: Movement) -> bool {
    shift_fits(point.0, movement.0) && shift_fits(point.1, movement.1)
}

/// The point reached by applying `movement` to `point`.
pub open spec fn moved(point: Point, movement: Movement) -> Point {
    ((point.0 + movement.0) as usize, (point.1 + movement.1) as usize)
}

fn shift(v: usize, d: i8) -> (r: Option<usize>)
    ensures
        r == (if shift_fits(v, d) { Some((v + d) as usize) } else { None::<usize> }),
{
    if d >= 0 {
        v.checked_add(d as usize)
    } else {
        let back: usize = (0i16 - d as i16) as usize;
        v.checked_sub(back)
    }
}

/// Applies `movement` to `point`, refusing a result with a negative (or
/// unrepresentable) component.
pub fn apply_movement(point: Point, movement: Movement) -> (r: Result<Point, GameError>)
    ensures
        r == (if movement_fits(point, movement) {
            Ok::<Point, GameError>(moved(point, movement))
        } else {
            Err::<Point, GameError>(GameError::OutOfBounds)
        }),
{
    match (shift(point.0, movement.0), shift(point.1, movement.1)) {
        (Some(x), Some(y)) => Ok((x, y)),
        _ => Err(GameError::OutOfBounds),
    }
}


/// The orientation of a corridor.
#[derive(Clone, Copy, Debug, PartialEq, Eq, Structural)]
pub enum CorridorType {
    Horizontal,
    Vertical,
}

/// A rectangular room: a hollow rectangle of walls around a floor.
///
/// Its walls run from `start` to `start + (width, height)` inclusive.
#[derive(Clone, Copy, Debug, PartialEq, Eq)]
pub struct Room {
    pub start: Point,
    pub center: Point,
    pub width: usize,
    pub height: usize,
}

/// A straight corridor of floor one tile wide, flanked by walls.
#[derive(Clone, Copy, Debug, PartialEq, Eq)]
pub struct Corridor {
    pub start: Point,
    pub length: usize,
    pub direction: CorridorType,
}

/// Whether the walls of `room` lie inside a grid of `xsize` by `ysize` cells.
pub open spec fn room_fits(room: Room, xsize: int, ysize: int) -> bool {
    room.start.0 + room.width < xsize && room.start.1 + room.height < ysize
}

/// What painting `room` does to the cell `(x, y)` holding `under`: its inside
/// becomes floor and its edge becomes wall where nothing lies.
pub open spec fn room_cell(room: Room, under: Tile, x: int, y: int) -> Tile {
    let x0 = room.start.0 as int;
    let y0 = room.start.1 as int;
    let x1 = room.start.0 + room.width;
    let y1 = room.start.1 + room.height;
    if x0 < x < x1 && y0 < y < y1 {
        tile_of(TileType::Floor)
    } else if x0 <= x <= x1 && y0 <= y <= y1 {
        paint_if_empty(under, tile_of(TileType::Wall))
    } else {
        under
    }
}

/// Whether `c` and its walls lie inside a grid of `xsize` by `ysize` cells.
pub open spec fn corridor_fits(c: Corridor, xsize: int, ysize: int) -> bool {
    match c.direction {
        CorridorType::Horizontal => 1 <= c.start.1 && c.start.1 + 1 < ysize && c.start.0 + c.length < xsize,
        CorridorType::Vertical => 1 <= c.start.0 && c.start.0 + 1 < xsize && c.start.1 + c.length < ysize,
    }
}

/// What painting `c` does to the cell `(x, y)` holding `under`: its path
/// becomes floor; its two flanks and its far end become wall where nothing
/// lies.
pub open spec fn corridor_cell(c: Corridor, under: Tile, x: int, y: int) -> Tile {
    // Along and across the corridor's axis.
    let (along, across, a0, b) = match c.direction {
        CorridorType::Horizontal => (x, y, c.start.0 as int, c.start.1 as int),
        CorridorType::Vertical => (y, x, c.start.1 as int, c.start.0 as int),
    };
    let a1 = a0 + c.length;
    if across == b && a0 <= along < a1 {
        tile_of(TileType::Floor)
    } else if ((across == b - 1 || across == b + 1) && a0 <= along <= a1) || (across == b && along == a1) {
        paint_if_empty(under, tile_of(TileType::Wall))
    } else {
        under
    }
}

/// `cells` with `brush` applied to every cell.
pub open spec fn repaint(cells: Seq<Seq<Tile>>, brush: spec_fn(Tile, int, int) -> Tile) -> Seq<Seq<Tile>> {
    Seq::new(cells.len(), |y: int| Seq::new(cells[y].len(), |x: int| brush(cells[y][x], x, y)))
}

pub open spec fn room_brush(room: Room) -> spec_fn(Tile, int, int) -> Tile {
    |under: Tile, x: int, y: int| room_cell(room, under, x, y)
}

pub open spec fn corridor_brush(c: Corridor) -> spec_fn(Tile, int, int) -> Tile {
    |under: Tile, x: int, y: int| corridor_cell(c, under, x, y)
}

/// The straight corridor between two distinct aligned points: it starts
/// at the lesser of them.
pub open spec fn corridor_between(start: Point, end: Point) -> Corridor {
    if start.0 == end.0 {
        Corridor {
            start: if start.1 < end.1 { start } else { end },
            length: (if start.1 < end.1 { end.1 - start.1 } else { start.1 - end.1 }) as usize,
            direction: CorridorType::Vertical,
        }
    } else {
        Corridor {
            start: if start.0 < end.0 { start } else { end },
            length: (if start.0 < end.0 { end.0 - start.0 } else { start.0 - end.0 }) as usize,
            direction: CorridorType::Horizontal,
        }
    }
}

/// Whether a corridor can join `start` and `end`: they are distinct and
/// share a row or a column.
pub open spec fn aligned(start: Point, end: Point) -> bool {
    start != end && (start.0 == end.0 || start.1 == end.1)
}

/// The corner at which two corridors join `start` to `end`: along the row
/// of `start` first when `horizontal_first`, else along its column.
pub open spec fn elbow(start: Point, end: Point, horizontal_first: bool) -> Point {
    if horizontal_first {
        (end.0, start.1)
    } else {
        (start.0, end.1)
    }
}

impl Room {
    /// The room with walls from `start` to `start + (width, height)`; its
    /// center lies half of each extent, rounded down, from `start`.
    pub fn new(start: Point, width: usize, height: usize) -> (r: Room)
        requires
            start.0 + width <= usize::MAX,
            start.1 + height <= usize::MAX,
        ensures
            r == (Room {
                start,
                width,
                height,
                center: ((start.0 + width / 2) as usize, (start.1 + height / 2) as usize),
            }),
    {
        Room { start, width, height, center: (start.0 + width / 2, start.1 + height / 2) }
    }

}

impl Corridor {
    pub fn new(start: Point, length: usize, direction: CorridorType) -> (r: Corridor)
        ensures
            r == (Corridor { start, length, direction }),
    {
        Corridor { start, length, direction }
    }

    /// The straight corridor between `start` and `end`, which must be
    /// distinct and share a row or a column.
    pub fn make(start: Point, end: Point) -> (r: Result<Corridor, GameError>)
        ensures
            r == (if aligned(start, end) {
                Ok::<Corridor, GameError>(corridor_between(start, end))
            } else {
                Err::<Corridor, GameError>(GameError::DegenerateCorridor)
            }),
    {
        if start.0 != end.0 && start.1 != end.1 {
            return Err(GameError::DegenerateCorridor);
        }
        let (direction, length) = if start.0 == end.0 {
            (CorridorType::Vertical, if start.1 < end.1 { end.1 - start.1 } else { start.1 - end.1 })
        } else {
            (CorridorType::Horizontal, if start.0 < end.0 { end.0 - start.0 } else { start.0 - end.0 })
        };
        if length == 0 {
            return Err(GameError::DegenerateCorridor);
        }
        let origin = match direction {
            CorridorType::Horizontal => if start.0 < end.0 { start } else { end },
            CorridorType::Vertical => if start.1 < end.1 { start } else { end },
        };
        Ok(Corridor::new(origin, length, direction))
    }

    /// The corridors joining `start` to `end`: one if they share a row or a
    /// column, else two meeting at their elbow, which goes along the row of
    /// `start` first when `horizontal_first`.
    pub fn link_via(start: Point, end: Point, horizontal_first: bool) -> (r: Result<Vec<Corridor>, GameError>)
        ensures
            start == end ==> r == Err::<Vec<Corridor>, GameError>(GameError::DegenerateCorridor),
            aligned(start, end) ==> r is Ok && r->Ok_0@ == seq![corridor_between(start, end)],
            start.0 != end.0 && start.1 != end.1 ==> r is Ok && r->Ok_0@ == seq![
                corridor_between(start, elbow(start, end, horizontal_first)),
                corridor_between(elbow(start, end, horizontal_first), end),
            ],
    {
        if start.0 == end.0 || start.1 == end.1 {
            return match Corridor::make(start, end) {
                Ok(c) => Ok(vec![c]),
                Err(e) => Err(e),
            };
        }
        let angle_point = if horizontal_first { (end.0, start.1) } else { (start.0, end.1) };
        let first = Corridor::make(start, angle_point);
        let second = Corridor::make(angle_point, end);
        match (first, second) {
            (Ok(a), Ok(b)) => Ok(vec![a, b]),
            _ => Err(GameError::DegenerateCorridor),
        }
    }

    /// The corridors joining `start` to `end`: one if they share a row or a
    /// column, else two meeting at an elbow chosen by a fair coin.
    pub fn link(start: Point, end: Point, rng: &mut StdRng) -> (r: Result<Vec<Corridor>, GameError>)
        ensures
            start == end ==> r == Err::<Vec<Corridor>, GameError>(GameError::DegenerateCorridor),
            aligned(start, end) ==> r is Ok && r->Ok_0@ == seq![corridor_between(start, end)],
            start.0 != end.0 && start.1 != end.1 ==> r is Ok && exists|horizontal_first: bool|
                r->Ok_0@ == seq![
                    corridor_between(start, elbow(start, end, horizontal_first)),
                    corridor_between(elbow(start, end, horizontal_first), end),
                ],
    {
        if start.0 == end.0 || start.1 == end.1 {
            return Corridor::link_via(start, end, true);
        }
        let horizontal_first = flip(rng);
        Corridor::link_via(start, end, horizontal_first)
    }

    fn tile_horizontal(&self, grid: &mut TileGrid)
        requires
            old(grid).wf(),
            self.direction == CorridorType::Horizontal,
            corridor_fits(*self, old(grid).width() as int, old(grid).height() as int),
        ensures
            final(grid).wf(),
            final(grid).width() == old(grid).width(),
            final(grid).height() == old(grid).height(),
            final(grid)@ == repaint(old(grid)@, corridor_brush(*self)),
    {
        let x0 = self.start.0;
        let y = self.start.1;
        let x1 = x0 + self.length;
        let ghost g0 = grid@;
        let wall = Tile::from(TileType::Wall);
        grid.paint_rect(x0, y - 1, x1, y - 1, wall, false);
        let ghost g1 = grid@;
        grid.paint_rect(x0, y + 1, x1, y + 1, wall, false);
        let ghost g2 = grid@;
        if self.length > 0 {
            grid.paint_rect(x0, y, x1 - 1, y, Tile::from(TileType::Floor), true);
        }
        let ghost g3 = grid@;
        grid.paint_rect(x1, y, x1, y, wall, false);
        assert forall|px: int, py: int| 0 <= py < g0.len() && 0 <= px < g0[py].len() implies #[trigger] grid@[py][px]
            == corridor_cell(*self, g0[py][px], px, py) by {
            assert(grid@[py][px] == g3[py][px] || (px == x1 && py == y));
            assert(g3[py][px] == g2[py][px] || (py == y && x0 <= px < x1));
            assert(g2[py][px] == g1[py][px] || py == y + 1);
            assert(g1[py][px] == g0[py][px] || py == y - 1);
        }
        assert(grid@ =~~= repaint(g0, corridor_brush(*self)));
    }

    fn tile_vertical(&self, grid: &mut TileGrid)
        requires
            old(grid).wf(),
            self.direction == CorridorType::Vertical,
            corridor_fits(*self, old(grid).width() as int, old(grid).height() as int),
        ensures
            final(grid).wf(),
            final(grid).width() == old(grid).width(),
            final(grid).height() == old(grid).height(),
            final(grid)@ == repaint(old(grid)@, corridor_brush(*self)),
    {
        let x = self.start.0;
        let y0 = self.start.1;
        let y1 = y0 + self.length;
        let ghost g0 = grid@;
        let wall = Tile::from(TileType::Wall);
        grid.paint_rect(x - 1, y0, x - 1, y1, wall, false);
        let ghost g1 = grid@;
        grid.paint_rect(x + 1, y0, x + 1, y1, wall, false);
        let ghost g2 = grid@;
        if self.length > 0 {
            grid.paint_rect(x, y0, x, y1 - 1, Tile::from(TileType::Floor), true);
        }
        let ghost g3 = grid@;
        grid.paint_rect(x, y1, x, y1, wall, false);
        assert forall|px: int, py: int| 0 <= py < g0.len() && 0 <= px < g0[py].len() implies #[trigger] grid@[py][px]
            == corridor_cell(*self, g0[py][px], px, py) by {
            assert(grid@[py][px] == g3[py][px] || (px == x && py == y1));
            assert(g3[py][px] == g2[py][px] || (px == x && y0 <= py < y1));
            assert(g2[py][px] == g1[py][px] || px == x + 1);
            assert(g1[py][px] == g0[py][px] || px == x - 1);
        }
        assert(grid@ =~~= repaint(g0, corridor_brush(*self)));
    }
}

/// A shape that paints itself on a tile grid.
pub trait Tileable {
    /// Whether the shape lies inside a grid of `xsize` by `ysize` cells.
    spec fn fits(&self, xsize: int, ysize: int) -> bool;

    /// What painting the shape does to the cell `(x, y)` holding a tile.
    spec fn brush(&self) -> spec_fn(Tile, int, int) -> Tile;

    /// The error that painting a shape that does not fit ends in.
    spec fn misfit(&self) -> GameError;

    /// Paints the shape on `grid`; fails, painting nothing, if it does not
    /// fit.
    fn tile(&self, grid: &mut TileGrid) -> (r: Result<(), GameError>)
        requires
            old(grid).wf(),
        ensures
            final(grid).wf(),
            final(grid).width() == old(grid).width(),
            final(grid).height() == old(grid).height(),
            self.fits(old(grid).width() as int, old(grid).height() as int) ==> r is Ok && final(grid)@ == repaint(
                old(grid)@,
                self.brush(),
            ),
            !self.fits(old(grid).width() as int, old(grid).height() as int) ==> r == Err::<(), GameError>(
                self.misfit(),
            ) && *final(grid) == *old(grid),
    ;
}

impl Tileable for Room {
    open spec fn fits(&self, xsize: int, ysize: int) -> bool {
        room_fits(*self, xsize, ysize)
    }

    open spec fn brush(&self) -> spec_fn(Tile, int, int) -> Tile {
        room_brush(*self)
    }

    open spec fn misfit(&self) -> GameError {
        GameError::RoomOutOfBounds
    }

    /// Walls where nothing lies on the room's edge, floor inside.
    fn tile(&self, grid: &mut TileGrid) -> (r: Result<(), GameError>)
    {
        let xsize = grid.xsize();
        let ysize = grid.ysize();
        if self.start.0 >= xsize || self.width >= xsize - self.start.0 || self.start.1 >= ysize || self.height
            >= ysize - self.start.1 {
            return Err(GameError::RoomOutOfBounds);
        }
        let x0 = self.start.0;
        let y0 = self.start.1;
        let x1 = x0 + self.width;
        let y1 = y0 + self.height;
        let ghost g0 = grid@;
        let wall = Tile::from(TileType::Wall);
        grid.paint_rect(x0, y0, x1, y0, wall, false);
        let ghost g1 = grid@;
        grid.paint_rect(x0, y1, x1, y1, wall, false);
        let ghost g2 = grid@;
        grid.paint_rect(x0, y0, x0, y1, wall, false);
        let ghost g3 = grid@;
        grid.paint_rect(x1, y0, x1, y1, wall, false);
        let ghost g4 = grid@;
        if self.width >= 2 && self.height >= 2 {
            grid.paint_rect(x0 + 1, y0 + 1, x1 - 1, y1 - 1, Tile::from(TileType::Floor), true);
        }
        assert forall|x: int, y: int| 0 <= y < g0.len() && 0 <= x < g0[y].len() implies #[trigger] grid@[y][x]
            == room_cell(*self, g0[y][x], x, y) by {
            assert(grid@[y][x] == g4[y][x] || (x0 < x < x1 && y0 < y < y1));
            assert(g4[y][x] == g3[y][x] || x == x1);
            assert(g3[y][x] == g2[y][x] || x == x0);
            assert(g2[y][x] == g1[y][x] || y == y1);
            assert(g1[y][x] == g0[y][x] || y == y0);
        }
        assert(grid@ =~~= repaint(g0, room_brush(*self)));
        Ok(())
    }
}

impl Tileable for Corridor {
    open spec fn fits(&self, xsize: int, ysize: int) -> bool {
        corridor_fits(*self, xsize, ysize)
    }

    open spec fn brush(&self) -> spec_fn(Tile, int, int) -> Tile {
        corridor_brush(*self)
    }

    open spec fn misfit(&self) -> GameError {
        GameError::OutOfBounds
    }

    /// Floor along the corridor's path, walls where nothing lies on both
    /// flanks and at its far end.
    fn tile(&self, grid: &mut TileGrid) -> (r: Result<(), GameError>)
    {
        let xsize = grid.xsize();
        let ysize = grid.ysize();
        let (a, b) = match self.direction {
            CorridorType::Horizontal => (self.start.0, self.start.1),
            CorridorType::Vertical => (self.start.1, self.start.0),
        };
        let (along_size, across_size) = match self.direction {
            CorridorType::Horizontal => (xsize, ysize),
            CorridorType::Vertical => (ysize, xsize),
        };
        if across_size == 0 || b == 0 || b >= across_size - 1 || a >= along_size || self.length >= along_size - a {
            return Err(GameError::OutOfBounds);
        }
        match self.direction {
            CorridorType::Horizontal => self.tile_horizontal(grid),
            CorridorType::Vertical => self.tile_vertical(grid),
        }
        Ok(())
    }

}

/// Whether `links` are corridors that join `start` to `end`: the straight
/// one if they are aligned, else two meeting at one of the two elbows.
pub open spec fn joins(start: Point, end: Point, links: Seq<Corridor>) -> bool {
    ||| aligned(start, end) && links == seq![corridor_between(start, end)]
    ||| start.0 != end.0 && start.1 != end.1 && exists|horizontal_first: bool|
        links == seq![
            corridor_between(start, elbow(start, end, horizontal_first)),
            corridor_between(elbow(start, end, horizontal_first), end),
        ]
}

/// The corridors of `parts`, in order.
pub open spec fn concat(parts: Seq<Seq<Corridor>>) -> Seq<Corridor>
    decreases parts.len(),
{
    if parts.len() == 0 {
        Seq::empty()
    } else {
        concat(parts.drop_last()) + parts.last()
    }
}

/// The room after room `i` of `n` rooms in a ring.
pub open spec fn next_room(i: int, n: int) -> int {
    if i + 1 == n {
        0
    } else {
        i + 1
    }
}

/// The deepest level a dungeon may have: enemy figures grow with depth and
/// must stay within `i32`.
pub const MAX_DEPTH: usize = 1000000;

/// How many start points a room placement draws before it gives up.
pub const PLACEMENT_ATTEMPTS: usize = 1000;

/// The empty margin kept between the walls of two rooms.
pub const ROOM_PADDING: usize = 2;

/// Whether the box of `room` and the box at `start` of `width` by `height`
/// come closer than `padding`.
pub open spec fn padded_overlap(room: Room, start: Point, width: int, height: int, padding: int) -> bool {
    &&& room.start.0 < start.0 + width + padding
    &&& room.start.0 + room.width + padding > start.0
    &&& room.start.1 < start.1 + height + padding
    &&& room.start.1 + room.height + padding > start.1
}

/// Whether two rooms come closer than the room padding.
pub open spec fn rooms_meet(a: Room, b: Room) -> bool {
    padded_overlap(a, b.start, b.width as int, b.height as int, ROOM_PADDING as int)
}

/// Whether `p` lies strictly inside the walls of `room`, on its floor.
pub open spec fn inside_room(room: Room, p: Point) -> bool {
    room.start.0 < p.0 < room.start.0 + room.width && room.start.1 < p.1 < room.start.1 + room.height
}

/// Whether `p` lies at least one cell away from every edge of the grid.
pub open spec fn interior_point(p: Point, xsize: int, ysize: int) -> bool {
    1 <= p.0 && p.0 + 2 <= xsize && 1 <= p.1 && p.1 + 2 <= ysize
}

/// A room as generation makes it: inside the grid, three to eleven cells
/// each way, with its center half of each extent from its start.
pub open spec fn room_shaped(room: Room, xsize: int, ysize: int) -> bool {
    &&& room_fits(room, xsize, ysize)
    &&& 3 <= room.width < 12
    &&& 3 <= room.height < 12
    &&& room.center.0 == room.start.0 + room.width / 2
    &&& room.center.1 == room.start.1 + room.height / 2
}

/// Whether a room can be centered on `c` in a grid of `xsize` by `ysize`
/// cells: `c` lies at least two cells from the left and top edges and three
/// from the others.
pub open spec fn centerable(c: Point, xsize: int, ysize: int) -> bool {
    2 <= c.0 && c.0 + 3 <= xsize && 2 <= c.1 && c.1 + 3 <= ysize
}

/// The bound, exclusive, on the extent of a room centered at `c` on an axis
/// of `size` cells: `min(12, 2 * c, 2 * (size - 1 - c))`, so that its walls
/// stay inside the grid.
pub open spec fn centered_limit(c: int, size: int) -> int {
    let near = if 2 * c < 12 {
        2 * c
    } else {
        12
    };
    if near < 2 * (size - 1 - c) {
        near
    } else {
        2 * (size - 1 - c)
    }
}

/// The failures that generation may end in.
pub open spec fn generation_error(e: GameError) -> bool {
    e == GameError::GenerationFailed || e == GameError::RoomOutOfBounds || e == GameError::DegenerateCorridor
}

/// A grid of `xsize` by `ysize` empty cells.
pub open spec fn blank(xsize: int, ysize: int) -> Seq<Seq<Tile>> {
    Seq::new(ysize as nat, |y: int| Seq::new(xsize as nat, |x: int| tile_of(TileType::Empty)))
}

/// `cells` with `rooms` painted on it in order.
pub open spec fn paint_rooms(cells: Seq<Seq<Tile>>, rooms: Seq<Room>) -> Seq<Seq<Tile>>
    decreases rooms.len(),
{
    if rooms.len() == 0 {
        cells
    } else {
        repaint(paint_rooms(cells, rooms.drop_last()), room_brush(rooms.last()))
    }
}

/// `cells` with `corridors` painted on it in order.
pub open spec fn paint_corridors(cells: Seq<Seq<Tile>>, corridors: Seq<Corridor>) -> Seq<Seq<Tile>>
    decreases corridors.len(),
{
    if corridors.len() == 0 {
        cells
    } else {
        repaint(paint_corridors(cells, corridors.drop_last()), corridor_brush(corridors.last()))
    }
}

/// Values that are generated once, in place, from random draws.
pub trait Generatable: Sized {
    /// Whether generation may start from this value.
    spec fn ready(&self) -> bool;

    /// Whether this value is a complete generation of `before`.
    spec fn generated_from(&self, before: &Self) -> bool;

    /// Whether this value is what a failed generation leaves of `before`.
    spec fn abandoned_from(&self, before: &Self) -> bool;

    /// The error that generation ends in whatever the draws, if there is
    /// one.
    spec fn owed_error(&self) -> Option<GameError>;

    /// Whether generation fails whatever the draws.
    spec fn doomed(&self) -> bool;

    /// Whether generation succeeds whatever the draws.
    spec fn assured(&self) -> bool;

    fn generate(&mut self, rng: &mut StdRng) -> (r: Result<(), GameError>)
        requires
            old(self).ready(),
        ensures
            r is Ok ==> final(self).generated_from(old(self)),
            r is Err ==> generation_error(r->Err_0) && final(self).abandoned_from(old(self)),
            old(self).owed_error() is Some ==> r == Err::<(), GameError>(old(self).owed_error()->Some_0),
            old(self).doomed() ==> r is Err,
            old(self).assured() ==> r is Ok,
    ;
}

/// One floor of the dungeon.
pub struct Level {
    pub xsize: usize,
    pub ysize: usize,
    pub depth: usize,
    pub rooms: Vec<Room>,
    pub corridors: Vec<Corridor>,
    pub entities: Vec<Character>,
    pub entrance: Point,
    pub exit: Point,
}

/// The levels of the dungeon, from the top down.
pub struct Dungeon {
    pub xsize: usize,
    pub ysize: usize,
    pub depth: usize,
    pub levels: Vec<Level>,
}

impl Level {
    /// Nothing generated yet.
    pub open spec fn is_fresh(&self) -> bool {
        &&& self.rooms@.len() == 0
        &&& self.corridors@.len() == 0
        &&& self.entities@.len() == 0
        &&& self.exit == (0usize, 0usize)
    }

    /// No two rooms come closer than the room padding.
    pub open spec fn rooms_apart(&self) -> bool {
        forall|i: int, j: int|
            0 <= i < self.rooms@.len() && 0 <= j < self.rooms@.len() && i != j ==> !rooms_meet(
                #[trigger] self.rooms@[i],
                #[trigger] self.rooms@[j],
            )
    }

    /// Every entity stands on the floor of some room other than the last.
    pub open spec fn enemies_inside(&self) -> bool {
        forall|e: int|
            #![trigger self.entities@[e]]
            0 <= e < self.entities@.len() ==> exists|i: int|
                0 <= i < self.rooms@.len() - 1 && #[trigger] inside_room(self.rooms@[i], self.entities@[e].location)
    }

    /// The corridors join each room to the next, and the last to the first.
    pub open spec fn ring_linked(&self) -> bool {
        exists|parts: Seq<Seq<Corridor>>|
            {
                &&& #[trigger] concat(parts) == self.corridors@
                &&& parts.len() == self.rooms@.len()
                &&& forall|i: int|
                    0 <= i < parts.len() ==> joins(
                        self.rooms@[i].center,
                        self.rooms@[next_room(i, parts.len() as int)].center,
                        #[trigger] parts[i],
                    )
            }
    }

    /// The shape of a generated level.
    pub open spec fn generated(&self) -> bool {
        &&& 3 <= self.rooms@.len() <= 4
        &&& forall|i: int|
            0 <= i < self.rooms@.len() ==> room_shaped(#[trigger] self.rooms@[i], self.xsize as int, self.ysize as int)
        &&& forall|i: int|
            1 <= i < self.rooms@.len() ==> 4 <= (#[trigger] self.rooms@[i]).width && 4 <= self.rooms@[i].height
        &&& self.rooms_apart()
        &&& forall|k: int|
            0 <= k < self.corridors@.len() ==> corridor_fits(
                #[trigger] self.corridors@[k],
                self.xsize as int,
                self.ysize as int,
            )
        &&& self.ring_linked()
        &&& self.entrance == self.rooms@[0].center
        &&& self.exit == self.rooms@.last().center
        &&& self.enemies_inside()
        &&& self.entities@.len() == self.rooms@.len() * self.depth / 2
    }

    /// Whether every room of the level fits its grid.
    pub open spec fn rooms_fit(&self) -> bool {
        forall|i: int|
            0 <= i < self.rooms@.len() ==> room_fits(#[trigger] self.rooms@[i], self.xsize as int, self.ysize as int)
    }

    /// Whether every room, corridor and stairway of the level fits its grid.
    pub open spec fn fits_grid(&self) -> bool {
        &&& forall|i: int|
            0 <= i < self.rooms@.len() ==> room_fits(#[trigger] self.rooms@[i], self.xsize as int, self.ysize as int)
        &&& forall|k: int|
            0 <= k < self.corridors@.len() ==> corridor_fits(
                #[trigger] self.corridors@[k],
                self.xsize as int,
                self.ysize as int,
            )
        &&& self.entrance.0 < self.xsize && self.entrance.1 < self.ysize
        &&& self.exit.0 < self.xsize && self.exit.1 < self.ysize
    }

    /// The tiles of the level: rooms, then corridors, then the stairs up at
    /// the entrance and the stairs down at the exit.
    pub open spec fn picture(&self) -> Seq<Seq<Tile>> {
        let built = paint_corridors(
            paint_rooms(blank(self.xsize as int, self.ysize as int), self.rooms@),
            self.corridors@,
        );
        let up = put(built, self.entrance.0 as int, self.entrance.1 as int, tile_of(TileType::StairsUp));
        put(up, self.exit.0 as int, self.exit.1 as int, tile_of(TileType::StairsDown))
    }

    /// An empty level of `xsize` by `ysize` cells at `depth`. When `start`
    /// is given, generation centers a room on it, to link with the level
    /// above.
    pub fn new(xsize: usize, ysize: usize, depth: usize, start: Option<Point>) -> (r: Level)
        ensures
            r.is_fresh(),
            r.xsize == xsize,
            r.ysize == ysize,
            r.depth == depth,
            r.entrance == (match start {
                Some(st) => st,
                None => (0usize, 0usize),
            }),
    {
        Level {
            xsize,
            ysize,
            rooms: Vec::new(),
            corridors: Vec::new(),
            entities: Vec::new(),
            entrance: match start {
                Some(st) => st,
                None => (0, 0),
            },
            exit: (0, 0),
            depth,
        }
    }

    /// Paints the level on a fresh grid; fails if some part of it does not
    /// fit.
    pub fn to_tilegrid(&self) -> (r: Result<TileGrid, GameError>)
        ensures
            self.fits_grid() ==> r is Ok && r->Ok_0.wf() && r->Ok_0.width() == self.xsize && r->Ok_0.height()
                == self.ysize && r->Ok_0@ == self.picture(),
            !self.rooms_fit() ==> r == Err::<TileGrid, GameError>(GameError::RoomOutOfBounds),
            self.rooms_fit() && !self.fits_grid() ==> r == Err::<TileGrid, GameError>(GameError::OutOfBounds),
    {
        let mut grid = TileGrid::new(self.xsize, self.ysize);
        assert forall|y: int| 0 <= y < self.ysize implies #[trigger] grid@[y] =~= blank(
            self.xsize as int,
            self.ysize as int,
        )[y] by {
            assert forall|x: int| 0 <= x < self.xsize implies grid@[y][x] == tile_of(TileType::Empty) by {
                assert(grid.in_bounds(x, y));
                assert(grid.cell(x, y) == tile_of(TileType::Empty));
            }
        }
        assert(grid@ =~= blank(self.xsize as int, self.ysize as int));
        let mut i: usize = 0;
        while i < self.rooms.len()
            invariant
                grid.wf(),
                grid.width() == self.xsize,
                grid.height() == self.ysize,
                i <= self.rooms@.len(),
                grid@ == paint_rooms(blank(self.xsize as int, self.ysize as int), self.rooms@.subrange(0, i as int)),
                forall|j: int| 0 <= j < i ==> room_fits(#[trigger] self.rooms@[j], self.xsize as int, self.ysize as int),
            decreases self.rooms@.len() - i,
        {
            let ghost before = grid@;
            match self.rooms[i].tile(&mut grid) {
                Ok(()) => {},
                Err(e) => {
                    return Err(e);
                },
            }
            assert(self.rooms@.subrange(0, i + 1).drop_last() =~= self.rooms@.subrange(0, i as int));
            i = i + 1;
        }
        assert(self.rooms@.subrange(0, i as int) =~= self.rooms@);
        assert(self.rooms_fit());
        let ghost rooms_done = grid@;
        let mut k: usize = 0;
        while k < self.corridors.len()
            invariant
                grid.wf(),
                grid.width() == self.xsize,
                grid.height() == self.ysize,
                k <= self.corridors@.len(),
                grid@ == paint_corridors(rooms_done, self.corridors@.subrange(0, k as int)),
                self.rooms_fit(),
                forall|j: int|
                    0 <= j < k ==> corridor_fits(#[trigger] self.corridors@[j], self.xsize as int, self.ysize as int),
            decreases self.corridors@.len() - k,
        {
            match self.corridors[k].tile(&mut grid) {
                Ok(()) => {},
                Err(e) => {
                    return Err(e);
                },
            }
            assert(self.corridors@.subrange(0, k + 1).drop_last() =~= self.corridors@.subrange(0, k as int));
            k = k + 1;
        }
        assert(self.corridors@.subrange(0, k as int) =~= self.corridors@);
        if self.entrance.0 >= self.xsize || self.entrance.1 >= self.ysize || self.exit.0 >= self.xsize || self.exit.1
            >= self.ysize {
            return Err(GameError::OutOfBounds);
        }
        grid.set_tile(self.entrance.0, self.entrance.1, Tile::from(TileType::StairsUp));
        grid.set_tile(self.exit.0, self.exit.1, Tile::from(TileType::StairsDown));
        Ok(grid)
    }

    /// Where the player arrives: the center of the first room, or `(0, 0)`
    /// before generation.
    pub open spec fn arrival(&self) -> Point {
        if self.rooms@.len() > 0 {
            self.rooms@[0].center
        } else {
            (0usize, 0usize)
        }
    }

    /// Where the player arrives: the center of the first room, or `(0, 0)`
    /// before generation.
    pub fn start_point(&self) -> (r: Point)
        ensures
            r == self.arrival(),
    {
        if self.rooms.len() > 0 {
            return self.rooms[0].center;
        }
        (0, 0)
    }

    pub fn exit(&self) -> (r: Point)
        ensures
            r == self.exit,
    {
        self.exit
    }

    /// Whether the box at `start` of `width` by `height` comes closer than
    /// `padding` to some room of the level.
    fn overlaps(&self, start: Point, width: usize, height: usize, padding: usize) -> (r: bool)
        ensures
            r == exists|i: int|
                0 <= i < self.rooms@.len() && #[trigger] padded_overlap(
                    self.rooms@[i],
                    start,
                    width as int,
                    height as int,
                    padding as int,
                ),
    {
        let mut i: usize = 0;
        while i < self.rooms.len()
            invariant
                i <= self.rooms@.len(),
                forall|j: int|
                    0 <= j < i ==> !#[trigger] padded_overlap(
                        self.rooms@[j],
                        start,
                        width as int,
                        height as int,
                        padding as int,
                    ),
            decreases self.rooms@.len() - i,
        {
            let room = self.rooms[i];
            let (rx, ry) = (room.start.0 as u128, room.start.1 as u128);
            let (sx, sy) = (start.0 as u128, start.1 as u128);
            let p = padding as u128;
            if rx < sx + width as u128 + p && rx + room.width as u128 + p > sx && ry < sy + height as u128 + p && ry
                + room.height as u128 + p > sy {
                assert(padded_overlap(self.rooms@[i as int], start, width as int, height as int, padding as int));
                return true;
            }
            i = i + 1;
        }
        false
    }

    /// A room of random size at a random place that keeps the room padding
    /// from every room of the level; gives up after a bounded number of
    /// draws.
    fn random_room(&self, rng: &mut StdRng) -> (r: Result<Room, GameError>)
        ensures
            r is Ok ==> room_shaped(r->Ok_0, self.xsize as int, self.ysize as int) && 4 <= r->Ok_0.width && 4
                <= r->Ok_0.height && forall|i: int|
                0 <= i < self.rooms@.len() ==> !rooms_meet(#[trigger] self.rooms@[i], r->Ok_0),
            r is Err ==> r->Err_0 == GameError::RoomOutOfBounds || r->Err_0 == GameError::GenerationFailed,
            self.xsize <= 4 || self.ysize <= 4 ==> r == Err::<Room, GameError>(GameError::RoomOutOfBounds),
            self.xsize >= 12 && self.ysize >= 12 && r is Err ==> r->Err_0 == GameError::GenerationFailed,
    {
        let room_width = roll(rng, 4, 12);
        let room_height = roll(rng, 4, 12);
        if self.xsize <= room_width || self.ysize <= room_height {
            return Err(GameError::RoomOutOfBounds);
        }
        let mut attempts: usize = 0;
        while attempts < PLACEMENT_ATTEMPTS
            invariant
                4 <= room_width < 12,
                4 <= room_height < 12,
                room_width < self.xsize,
                room_height < self.ysize,
            decreases PLACEMENT_ATTEMPTS - attempts,
        {
            let start: Point = (roll(rng, 0, self.xsize - room_width), roll(rng, 0, self.ysize - room_height));
            if !self.overlaps(start, room_width, room_height, ROOM_PADDING) {
                return Ok(Room::new(start, room_width, room_height));
            }
            attempts = attempts + 1;
        }
        Err(GameError::GenerationFailed)
    }

    /// A room of random size centered on `center`, which must lie at least
    /// two cells from the left and top edges and three from the others.
    fn centered_room(&self, center: Point, rng: &mut StdRng) -> (r: Result<Room, GameError>)
        ensures
            centerable(center, self.xsize as int, self.ysize as int) <==> r is Ok,
            r is Ok ==> room_shaped(r->Ok_0, self.xsize as int, self.ysize as int) && r->Ok_0.center == center
                && r->Ok_0.width < centered_limit(center.0 as int, self.xsize as int) && r->Ok_0.height
                < centered_limit(center.1 as int, self.ysize as int),
            r is Err ==> r->Err_0 == GameError::RoomOutOfBounds,
    {
        if center.0 < 2 || center.1 < 2 || center.0 >= self.xsize || self.xsize - center.0 < 3 || center.1
            >= self.ysize || self.ysize - center.1 < 3 {
            return Err(GameError::RoomOutOfBounds);
        }
        let right = self.xsize - 1 - center.0;
        let below = self.ysize - 1 - center.1;
        let max_width = if center.0 >= 6 && right >= 6 {
            12
        } else if center.0 <= right {
            2 * center.0
        } else {
            2 * right
        };
        let max_height = if center.1 >= 6 && below >= 6 {
            12
        } else if center.1 <= below {
            2 * center.1
        } else {
            2 * below
        };
        let room_width = roll(rng, 3, max_width);
        let room_height = roll(rng, 3, max_height);
        let start: Point = (center.0 - room_width / 2, center.1 - room_height / 2);
        Ok(Room::new(start, room_width, room_height))
    }
}

/// A corridor between two distinct aligned points away from the grid's
/// edges fits the grid.
proof fn lemma_corridor_between_fits(start: Point, end: Point, xsize: int, ysize: int)
    requires
        interior_point(start, xsize, ysize),
        interior_point(end, xsize, ysize),
        aligned(start, end),
    ensures
        corridor_fits(corridor_between(start, end), xsize, ysize),
{
}

/// The corridors that join two room centers fit the grid.
proof fn lemma_links_fit(start: Point, end: Point, links: Seq<Corridor>, xsize: int, ysize: int)
    requires
        interior_point(start, xsize, ysize),
        interior_point(end, xsize, ysize),
        aligned(start, end) ==> links == seq![corridor_between(start, end)],
        start.0 != end.0 && start.1 != end.1 ==> exists|horizontal_first: bool|
            links == seq![
                corridor_between(start, elbow(start, end, horizontal_first)),
                corridor_between(elbow(start, end, horizontal_first), end),
            ],
        start != end,
    ensures
        forall|k: int| 0 <= k < links.len() ==> corridor_fits(#[trigger] links[k], xsize, ysize),
{
    if aligned(start, end) {
        lemma_corridor_between_fits(start, end, xsize, ysize);
    } else {
        let h = choose|horizontal_first: bool|
            links == seq![
                corridor_between(start, elbow(start, end, horizontal_first)),
                corridor_between(elbow(start, end, horizontal_first), end),
            ];
        let corner = elbow(start, end, h);
        lemma_corridor_between_fits(start, corner, xsize, ysize);
        lemma_corridor_between_fits(corner, end, xsize, ysize);
    }
}

impl Generatable for Level {
    open spec fn ready(&self) -> bool {
        self.is_fresh()
    }

    /// Generated, with the grid size, the depth and a forced entrance kept.
    open spec fn generated_from(&self, before: &Level) -> bool {
        &&& self.generated()
        &&& self.xsize == before.xsize
        &&& self.ysize == before.ysize
        &&& self.depth == before.depth
        &&& before.entrance != (0usize, 0usize) ==> {
            &&& self.entrance == before.entrance
            &&& self.rooms@[0].width < centered_limit(before.entrance.0 as int, self.xsize as int)
            &&& self.rooms@[0].height < centered_limit(before.entrance.1 as int, self.ysize as int)
        }
        &&& before.entrance == (0usize, 0usize) ==> 4 <= self.rooms@[0].width && 4 <= self.rooms@[0].height
    }

    open spec fn abandoned_from(&self, before: &Level) -> bool {
        &&& self.xsize == before.xsize
        &&& self.ysize == before.ysize
        &&& self.depth == before.depth
    }

    /// Too deep a level fails; so does a forced entrance with no room for a
    /// room around it, and a grid too small for the smallest random room.
    open spec fn owed_error(&self) -> Option<GameError> {
        if self.depth > MAX_DEPTH {
            Some(GameError::GenerationFailed)
        } else if self.entrance != (0usize, 0usize) && !centerable(
            self.entrance,
            self.xsize as int,
            self.ysize as int,
        ) {
            Some(GameError::RoomOutOfBounds)
        } else if self.xsize <= 4 || self.ysize <= 4 {
            Some(GameError::RoomOutOfBounds)
        } else {
            None
        }
    }

    open spec fn doomed(&self) -> bool {
        self.owed_error() is Some
    }

    /// Room placement is random, so no level is sure to be generated.
    open spec fn assured(&self) -> bool {
        false
    }

    /// Places three or four rooms (the first centered on a forced entrance,
    /// if any), links them in a ring by corridors, sets the entrance at the
    /// first room's center and the exit at the last one's, and spawns
    /// `rooms * depth / 2` enemies on the floors of rooms other than the
    /// last.
    fn generate(&mut self, rng: &mut StdRng) -> Result<(), GameError> {
        if self.depth > MAX_DEPTH {
            return Err(GameError::GenerationFailed);
        }
        let room_number = roll(rng, 3, 5);
        let forced = self.entrance.0 != 0 || self.entrance.1 != 0;
        if forced {
            match self.centered_room(self.entrance, rng) {
                Ok(room) => self.rooms.push(room),
                Err(e) => {
                    return Err(e);
                },
            }
        }
        while self.rooms.len() < room_number
            invariant
                self.xsize == old(self).xsize,
                self.ysize == old(self).ysize,
                self.depth == old(self).depth,
                self.depth <= MAX_DEPTH,
                self.entrance == old(self).entrance,
                forced == (old(self).entrance != (0usize, 0usize)),
                self.corridors@.len() == 0,
                self.entities@.len() == 0,
                3 <= room_number < 5,
                self.rooms@.len() <= room_number,
                forced ==> self.rooms@.len() >= 1 && self.rooms@[0].center == self.entrance
                    && self.rooms@[0].width < centered_limit(self.entrance.0 as int, self.xsize as int)
                    && self.rooms@[0].height < centered_limit(self.entrance.1 as int, self.ysize as int),
                !forced && self.rooms@.len() >= 1 ==> 4 <= self.rooms@[0].width && 4 <= self.rooms@[0].height,
                self.xsize <= 4 || self.ysize <= 4 ==> self.rooms@.len() == 0,
                forall|i: int|
                    0 <= i < self.rooms@.len() ==> room_shaped(
                        #[trigger] self.rooms@[i],
                        self.xsize as int,
                        self.ysize as int,
                    ),
                forall|i: int|
                    1 <= i < self.rooms@.len() ==> 4 <= (#[trigger] self.rooms@[i]).width && 4 <= self.rooms@[i].height,
                self.rooms_apart(),
            decreases room_number - self.rooms@.len(),
        {
            match self.random_room(rng) {
                Ok(room) => {
                    self.rooms.push(room);
                },
                Err(e) => {
                    return Err(e);
                },
            }
        }
        let n = self.rooms.len();
        let ghost rooms = self.rooms@;
        let ghost mut parts: Seq<Seq<Corridor>> = Seq::empty();
        let mut i: usize = 0;
        while i < n
            invariant
                concat(parts) == self.corridors@,
                parts.len() == i,
                forall|j: int| 0 <= j < i ==> joins(rooms[j].center, rooms[next_room(j, n as int)].center, #[trigger] parts[j]),
                self.xsize == old(self).xsize,
                self.ysize == old(self).ysize,
                self.depth == old(self).depth,
                self.depth <= MAX_DEPTH,
                self.entrance == old(self).entrance,
                self.entities@.len() == 0,
                self.rooms@ == rooms,
                self.rooms_apart(),
                forced == (old(self).entrance != (0usize, 0usize)),
                forced ==> rooms[0].center == self.entrance,
                n == rooms.len(),
                3 <= n <= 4,
                i <= n,
                forall|j: int| 0 <= j < n ==> room_shaped(#[trigger] rooms[j], self.xsize as int, self.ysize as int),
                forall|k: int|
                    0 <= k < self.corridors@.len() ==> corridor_fits(
                        #[trigger] self.corridors@[k],
                        self.xsize as int,
                        self.ysize as int,
                    ),
            decreases n - i,
        {
            let next = if i + 1 == n { 0 } else { i + 1 };
            let a = self.rooms[i].center;
            let b = self.rooms[next].center;
            if a.0 == b.0 && a.1 == b.1 {
                return Err(GameError::DegenerateCorridor);
            }
            let links = match Corridor::link(a, b, rng) {
                Ok(links) => links,
                Err(e) => {
                    return Err(e);
                },
            };
            proof {
                lemma_links_fit(a, b, links@, self.xsize as int, self.ysize as int);
            }
            let ghost laid = self.corridors@;
            let mut k: usize = 0;
            while k < links.len()
                invariant
                    self.corridors@ == laid + links@.subrange(0, k as int),
                    self.xsize == old(self).xsize,
                    self.ysize == old(self).ysize,
                    self.depth == old(self).depth,
                    self.entrance == old(self).entrance,
                    self.entities@.len() == 0,
                    self.rooms@ == rooms,
                    k <= links@.len(),
                    forall|j: int| 0 <= j < links@.len() ==> corridor_fits(#[trigger] links@[j], self.xsize as int, self.ysize as int),
                    forall|j: int|
                        0 <= j < self.corridors@.len() ==> corridor_fits(
                            #[trigger] self.corridors@[j],
                            self.xsize as int,
                            self.ysize as int,
                        ),
                decreases links@.len() - k,
            {
                self.corridors.push(links[k]);
                assert(laid + links@.subrange(0, k + 1) =~= laid + links@.subrange(0, k as int) + seq![links@[k as int]]);
                k = k + 1;
            }
            proof {
                assert(links@.subrange(0, k as int) =~= links@);
                assert(parts.push(links@).drop_last() =~= parts);
                parts = parts.push(links@);
            }
            i = i + 1;
        }
        if !forced {
            self.entrance = self.rooms[0].center;
        }
        self.exit = self.rooms[n - 1].center;
        let depth = self.depth;
        assert(n * depth <= 4 * MAX_DEPTH) by (nonlinear_arith)
            requires
                n <= 4,
                depth <= MAX_DEPTH,
        ;
        let num_enemies = n * depth / 2;
        let health = (2 * depth) as i32;
        let attack = ((12 * depth + 5) / 10) as i32;
        let dodge = (if 4 * depth > 80 { 4 * depth } else { 80 }) as i32;
        let mut e: usize = 0;
        while e < num_enemies
            invariant
                self.xsize == old(self).xsize,
                self.ysize == old(self).ysize,
                self.depth == depth,
                depth == old(self).depth,
                self.rooms@ == rooms,
                self.rooms_apart(),
                self.entrance == rooms[0].center,
                forced ==> self.entrance == old(self).entrance,
                self.exit == rooms.last().center,
                forall|k: int|
                    0 <= k < self.corridors@.len() ==> corridor_fits(
                        #[trigger] self.corridors@[k],
                        self.xsize as int,
                        self.ysize as int,
                    ),
                n == rooms.len(),
                concat(parts) == self.corridors@,
                parts.len() == n,
                forall|j: int| 0 <= j < n ==> joins(rooms[j].center, rooms[next_room(j, n as int)].center, #[trigger] parts[j]),
                num_enemies == n * depth / 2,
                3 <= n <= 4,
                e <= num_enemies,
                self.entities@.len() == e,
                forall|j: int| 0 <= j < n ==> room_shaped(#[trigger] rooms[j], self.xsize as int, self.ysize as int),
                self.enemies_inside(),
            decreases num_enemies - e,
        {
            let index = roll(rng, 0, n - 1);
            let room = self.rooms[index];
            let location: Point = (
                roll(rng, room.start.0 + 1, room.start.0 + room.width),
                roll(rng, room.start.1 + 1, room.start.1 + room.height),
            );
            let ghost before = self.entities@;
            self.entities.push(
                <Character as Enemy>::new("snake".to_owned(), health, attack, dodge, 0, location, "s"),
            );
            assert forall|q: int|
                #![trigger self.entities@[q]]
                0 <= q < self.entities@.len() implies exists|j: int|
                    0 <= j < self.rooms@.len() - 1 && #[trigger] inside_room(self.rooms@[j], self.entities@[q].location) by {
                if q < e {
                    assert(self.entities@[q] == before[q]);
                    let j = choose|j: int| 0 <= j < self.rooms@.len() - 1 && #[trigger] inside_room(self.rooms@[j], before[q].location);
                    assert(inside_room(self.rooms@[j], self.entities@[q].location));
                } else {
                    assert(inside_room(self.rooms@[index as int], self.entities@[q].location));
                }
            }
            e = e + 1;
        }
        assert(concat(parts) == self.corridors@);
        Ok(())
    }
}

impl Dungeon {
    /// Every level generated at its depth on the dungeon's grid, each with
    /// an exit, and each entered where the level above exits.
    pub open spec fn generated(&self) -> bool {
        &&& self.levels@.len() == self.depth
        &&& forall|i: int|
            #![trigger self.levels@[i]]
            0 <= i < self.levels@.len() ==> {
                &&& self.levels@[i].generated()
                &&& self.levels@[i].xsize == self.xsize
                &&& self.levels@[i].ysize == self.ysize
                &&& self.levels@[i].depth == i + 1
                &&& self.levels@[i].exit != (0usize, 0usize)
            }
        &&& forall|i: int|
            0 <= i < self.levels@.len() - 1 ==> #[trigger] self.levels@[i + 1].entrance == self.levels@[i].exit
    }

    /// Whether `other` has the same levels as `self` but for what the
    /// player has spotted: same rooms, corridors, stairs and entity places.
    pub open spec fn same_layout(&self, other: &Dungeon) -> bool {
        &&& self.xsize == other.xsize
        &&& self.ysize == other.ysize
        &&& self.depth == other.depth
        &&& self.levels@.len() == other.levels@.len()
        &&& forall|i: int|
            #![trigger other.levels@[i]]
            0 <= i < self.levels@.len() ==> {
                let a = self.levels@[i];
                let b = other.levels@[i];
                &&& a.xsize == b.xsize
                &&& a.ysize == b.ysize
                &&& a.depth == b.depth
                &&& a.rooms@ == b.rooms@
                &&& a.corridors@ == b.corridors@
                &&& a.entrance == b.entrance
                &&& a.exit == b.exit
                &&& a.entities@.len() == b.entities@.len()
                &&& forall|e: int|
                    0 <= e < a.entities@.len() ==> (#[trigger] b.entities@[e]).location == a.entities@[e].location
            }
    }

    /// An ungenerated dungeon of `depth` levels of `xsize` by `ysize` cells.
    pub fn new(xsize: usize, ysize: usize, depth: usize) -> (r: Dungeon)
        ensures
            r.xsize == xsize,
            r.ysize == ysize,
            r.depth == depth,
            r.levels@.len() == 0,
    {
        Dungeon { xsize, ysize, depth, levels: Vec::new() }
    }

    pub fn xsize(&self) -> (r: usize)
        ensures
            r == self.xsize,
    {
        self.xsize
    }

    pub fn ysize(&self) -> (r: usize)
        ensures
            r == self.ysize,
    {
        self.ysize
    }

    pub fn depth(&self) -> (r: usize)
        ensures
            r == self.depth,
    {
        self.depth
    }
}

impl Generatable for Dungeon {
    open spec fn ready(&self) -> bool {
        self.levels@.len() == 0
    }

    /// Generated, with the grid size and the depth kept.
    open spec fn generated_from(&self, before: &Dungeon) -> bool {
        &&& self.generated()
        &&& self.xsize == before.xsize
        &&& self.ysize == before.ysize
        &&& self.depth == before.depth
    }

    /// No partial dungeon is kept.
    open spec fn abandoned_from(&self, before: &Dungeon) -> bool {
        &&& self.levels@.len() == 0
        &&& self.xsize == before.xsize
        &&& self.ysize == before.ysize
        &&& self.depth == before.depth
    }

    /// The first level fails on a grid too small for the smallest random
    /// room.
    open spec fn owed_error(&self) -> Option<GameError> {
        if self.depth >= 1 && (self.xsize <= 4 || self.ysize <= 4) {
            Some(GameError::RoomOutOfBounds)
        } else {
            None
        }
    }

    /// A dungeon deeper than the deepest level allowed never completes.
    open spec fn doomed(&self) -> bool {
        self.depth > MAX_DEPTH || self.owed_error() is Some
    }

    /// A dungeon of no levels draws nothing and always succeeds.
    open spec fn assured(&self) -> bool {
        self.depth == 0
    }

    /// Generates the levels from the top down, each entered where the one
    /// above exits.
    fn generate(&mut self, rng: &mut StdRng) -> Result<(), GameError> {
        let mut levels: Vec<Level> = Vec::new();
        let mut next_entrance: Option<Point> = None;
        let mut d: usize = 0;
        while d < self.depth
            invariant
                self.levels@.len() == 0,
                self.xsize == old(self).xsize,
                self.ysize == old(self).ysize,
                self.depth == old(self).depth,
                d <= self.depth,
                self.depth > MAX_DEPTH ==> d <= MAX_DEPTH,
                self.depth >= 1 && (self.xsize <= 4 || self.ysize <= 4) ==> d == 0,
                levels@.len() == d,
                d == 0 ==> next_entrance is None,
                d > 0 ==> next_entrance == Some(levels@[d - 1].exit),
                forall|i: int|
                    #![trigger levels@[i]]
                    0 <= i < d ==> {
                        &&& levels@[i].generated()
                        &&& levels@[i].xsize == self.xsize
                        &&& levels@[i].ysize == self.ysize
                        &&& levels@[i].depth == i + 1
                        &&& levels@[i].exit != (0usize, 0usize)
                    },
                forall|i: int| 0 <= i < d - 1 ==> #[trigger] levels@[i + 1].entrance == levels@[i].exit,
            decreases self.depth - d,
        {
            let mut level = Level::new(self.xsize, self.ysize, d + 1, next_entrance);
            match level.generate(rng) {
                Ok(()) => {},
                Err(e) => {
                    return Err(e);
                },
            }
            assert(level.exit != (0usize, 0usize)) by {
                assert(room_shaped(level.rooms@[level.rooms@.len() - 1], level.xsize as int, level.ysize as int));
            }
            next_entrance = Some(level.exit());
            let ghost before = levels@;
            levels.push(level);
            assert forall|i: int| 0 <= i < d + 1 - 1 implies #[trigger] levels@[i + 1].entrance == levels@[i].exit by {
                if i < d - 1 {
                    assert(levels@[i + 1] == before[i + 1]);
                }
            }
            d = d + 1;
        }
        self.levels = levels;
        Ok(())
    }
}

impl Level {
    /// Marks as spotted every entity that stands on a visible cell of `grid`.
    pub fn spot_entities(&mut self, grid: &TileGrid)
        requires
            old(self).generated(),
            grid.wf(),
            grid.width() == old(self).xsize,
            grid.height() == old(self).ysize,
        ensures
            final(self).generated(),
            final(self).xsize == old(self).xsize,
            final(self).ysize == old(self).ysize,
            final(self).depth == old(self).depth,
            final(self).rooms@ == old(self).rooms@,
            final(self).corridors@ == old(self).corridors@,
            final(self).entrance == old(self).entrance,
            final(self).exit == old(self).exit,
            final(self).entities@.len() == old(self).entities@.len(),
            forall|e: int|
                #![trigger final(self).entities@[e]]
                0 <= e < final(self).entities@.len() ==> {
                    let before = old(self).entities@[e];
                    let after = final(self).entities@[e];
                    &&& after.location == before.location
                    &&& after.tile.visible == (before.tile.visible || grid.cell(
                        before.location.0 as int,
                        before.location.1 as int,
                    ).visible)
                },
    {
        let mut e: usize = 0;
        while e < self.entities.len()
            invariant
                self.xsize == old(self).xsize,
                self.ysize == old(self).ysize,
                self.depth == old(self).depth,
                self.rooms@ == old(self).rooms@,
                self.corridors@ == old(self).corridors@,
                self.entrance == old(self).entrance,
                self.exit == old(self).exit,
                old(self).generated(),
                grid.wf(),
                grid.width() == self.xsize,
                grid.height() == self.ysize,
                self.entities@.len() == old(self).entities@.len(),
                e <= self.entities@.len(),
                forall|q: int|
                    #![trigger self.entities@[q]]
                    0 <= q < self.entities@.len() ==> {
                        let before = old(self).entities@[q];
                        let now = self.entities@[q];
                        &&& now.location == before.location
                        &&& now.tile.visible == (before.tile.visible || (q < e && grid.cell(
                            before.location.0 as int,
                            before.location.1 as int,
                        ).visible))
                    },
            decreases self.entities@.len() - e,
        {
            let location = self.entities[e].location;
            proof {
                let i = choose|i: int|
                    0 <= i < self.rooms@.len() - 1 && #[trigger] inside_room(self.rooms@[i], old(self).entities@[e as int].location);
                assert(room_shaped(self.rooms@[i], self.xsize as int, self.ysize as int));
            }
            if grid.tile_at(location.0, location.1).visible && !self.entities[e].tile.visible {
                self.entities[e].visibility(true);
            }
            e = e + 1;
        }
        assert forall|q: int|
            #![trigger self.entities@[q]]
            0 <= q < self.entities@.len() implies exists|i: int|
                0 <= i < self.rooms@.len() - 1 && #[trigger] inside_room(self.rooms@[i], self.entities@[q].location) by {
            let i = choose|i: int|
                0 <= i < self.rooms@.len() - 1 && #[trigger] inside_room(self.rooms@[i], old(self).entities@[q].location);
            assert(inside_room(self.rooms@[i], self.entities@[q].location));
        }
    }
}

/// A generated level fits its grid.
pub proof fn lemma_generated_fits(level: &Level)
    requires
        level.generated(),
    ensures
        level.fits_grid(),
        level.arrival().0 < level.xsize && level.arrival().1 < level.ysize,
{
    assert(room_shaped(level.rooms@[0], level.xsize as int, level.ysize as int));
    assert(room_shaped(level.rooms@[level.rooms@.len() - 1], level.xsize as int, level.ysize as int));
}

proof fn lemma_paint_rooms_shape(cells: Seq<Seq<Tile>>, rooms: Seq<Room>, xsize: nat, ysize: nat)
    requires
        grid_shaped(cells, xsize, ysize),
    ensures
        grid_shaped(paint_rooms(cells, rooms), xsize, ysize),
    decreases rooms.len(),
{
    if rooms.len() > 0 {
        lemma_paint_rooms_shape(cells, rooms.drop_last(), xsize, ysize);
    }
}

proof fn lemma_paint_corridors_shape(cells: Seq<Seq<Tile>>, corridors: Seq<Corridor>, xsize: nat, ysize: nat)
    requires
        grid_shaped(cells, xsize, ysize),
    ensures
        grid_shaped(paint_corridors(cells, corridors), xsize, ysize),
    decreases corridors.len(),
{
    if corridors.len() > 0 {
        lemma_paint_corridors_shape(cells, corridors.drop_last(), xsize, ysize);
    }
}

/// A cell on the floor of one of `rooms` is floor once they are all painted.
proof fn lemma_room_floor_stays(
    cells: Seq<Seq<Tile>>,
    rooms: Seq<Room>,
    i: int,
    p: Point,
    xsize: nat,
    ysize: nat,
)
    requires
        grid_shaped(cells, xsize, ysize),
        0 <= i < rooms.len(),
        inside_room(rooms[i], p),
        p.0 < xsize,
        p.1 < ysize,
    ensures
        paint_rooms(cells, rooms)[p.1 as int][p.0 as int].tile_type is Floor,
    decreases rooms.len(),
{
    lemma_paint_rooms_shape(cells, rooms.drop_last(), xsize, ysize);
    if i < rooms.len() - 1 {
        lemma_room_floor_stays(cells, rooms.drop_last(), i, p, xsize, ysize);
    }
}

/// Painting corridors leaves floor as floor.
proof fn lemma_corridor_floor_stays(cells: Seq<Seq<Tile>>, corridors: Seq<Corridor>, p: Point, xsize: nat, ysize: nat)
    requires
        grid_shaped(cells, xsize, ysize),
        p.0 < xsize,
        p.1 < ysize,
        cells[p.1 as int][p.0 as int].tile_type is Floor,
    ensures
        paint_corridors(cells, corridors)[p.1 as int][p.0 as int].tile_type is Floor,
    decreases corridors.len(),
{
    if corridors.len() > 0 {
        lemma_paint_corridors_shape(cells, corridors.drop_last(), xsize, ysize);
        lemma_corridor_floor_stays(cells, corridors.drop_last(), p, xsize, ysize);
    }
}

/// No enemy of a generated level stands on a wall: each stands inside the
/// grid on a cell of the level's picture that is floor or stairs.
pub proof fn lemma_enemies_off_walls(level: &Level)
    requires
        level.generated(),
    ensures
        forall|e: int|
            #![trigger level.entities@[e]]
            0 <= e < level.entities@.len() ==> {
                let p = level.entities@[e].location;
                let t = level.picture()[p.1 as int][p.0 as int].tile_type;
                &&& p.0 < level.xsize
                &&& p.1 < level.ysize
                &&& (t is Floor || t is StairsUp || t is StairsDown)
            },
{
    let xsize = level.xsize as nat;
    let ysize = level.ysize as nat;
    let empty = blank(xsize as int, ysize as int);
    assert(grid_shaped(empty, xsize, ysize));
    lemma_paint_rooms_shape(empty, level.rooms@, xsize, ysize);
    let painted = paint_rooms(empty, level.rooms@);
    lemma_paint_corridors_shape(painted, level.corridors@, xsize, ysize);
    lemma_generated_fits(level);
    assert forall|e: int|
        #![trigger level.entities@[e]]
        0 <= e < level.entities@.len() implies {
            let p = level.entities@[e].location;
            let t = level.picture()[p.1 as int][p.0 as int].tile_type;
            &&& p.0 < level.xsize
            &&& p.1 < level.ysize
            &&& (t is Floor || t is StairsUp || t is StairsDown)
        } by {
        let p = level.entities@[e].location;
        let i = choose|i: int| 0 <= i < level.rooms@.len() - 1 && #[trigger] inside_room(level.rooms@[i], p);
        assert(room_shaped(level.rooms@[i], level.xsize as int, level.ysize as int));
        lemma_room_floor_stays(empty, level.rooms@, i, p, xsize, ysize);
        lemma_corridor_floor_stays(painted, level.corridors@, p, xsize, ysize);
    }
}

/// Whether no cell of the `xsize` by `ysize` grid `cells` holds stairs.
pub open spec fn stairless(cells: Seq<Seq<Tile>>, xsize: nat, ysize: nat) -> bool {
    forall|x: int, y: int|
        0 <= x < xsize && 0 <= y < ysize ==> !((#[trigger] cells[y][x]).tile_type is StairsUp) && !(
        cells[y][x].tile_type is StairsDown)
}

proof fn lemma_paint_rooms_stairless(cells: Seq<Seq<Tile>>, rooms: Seq<Room>, xsize: nat, ysize: nat)
    requires
        grid_shaped(cells, xsize, ysize),
        stairless(cells, xsize, ysize),
    ensures
        stairless(paint_rooms(cells, rooms), xsize, ysize),
    decreases rooms.len(),
{
    if rooms.len() > 0 {
        lemma_paint_rooms_shape(cells, rooms.drop_last(), xsize, ysize);
        lemma_paint_rooms_stairless(cells, rooms.drop_last(), xsize, ysize);
    }
}

proof fn lemma_paint_corridors_stairless(
    cells: Seq<Seq<Tile>>,
    corridors: Seq<Corridor>,
    xsize: nat,
    ysize: nat,
)
    requires
        grid_shaped(cells, xsize, ysize),
        stairless(cells, xsize, ysize),
    ensures
        stairless(paint_corridors(cells, corridors), xsize, ysize),
    decreases corridors.len(),
{
    if corridors.len() > 0 {
        lemma_paint_corridors_shape(cells, corridors.drop_last(), xsize, ysize);
        lemma_paint_corridors_stairless(cells, corridors.drop_last(), xsize, ysize);
    }
}

/// In the picture of a generated level the only stairs up lie at the
/// entrance and the only stairs down at the exit, which differ.
pub proof fn lemma_stairs_of_generated(level: &Level)
    requires
        level.generated(),
    ensures
        level.entrance != level.exit,
        level.picture()[level.entrance.1 as int][level.entrance.0 as int].tile_type is StairsUp,
        level.picture()[level.exit.1 as int][level.exit.0 as int].tile_type is StairsDown,
        forall|x: int, y: int|
            0 <= x < level.xsize && 0 <= y < level.ysize && (#[trigger] level.picture()[y][x]).tile_type is StairsUp
                ==> (x, y) == (level.entrance.0 as int, level.entrance.1 as int),
        forall|x: int, y: int|
            0 <= x < level.xsize && 0 <= y < level.ysize && (#[trigger] level.picture()[y][x]).tile_type
                is StairsDown ==> (x, y) == (level.exit.0 as int, level.exit.1 as int),
{
    let xsize = level.xsize as nat;
    let ysize = level.ysize as nat;
    let empty = blank(xsize as int, ysize as int);
    assert(grid_shaped(empty, xsize, ysize));
    lemma_paint_rooms_shape(empty, level.rooms@, xsize, ysize);
    lemma_paint_rooms_stairless(empty, level.rooms@, xsize, ysize);
    let painted = paint_rooms(empty, level.rooms@);
    lemma_paint_corridors_shape(painted, level.corridors@, xsize, ysize);
    lemma_paint_corridors_stairless(painted, level.corridors@, xsize, ysize);
    lemma_generated_fits(level);
    let last = level.rooms@.len() - 1;
    let a = level.rooms@[0];
    let b = level.rooms@[last];
    assert(room_shaped(a, level.xsize as int, level.ysize as int));
    assert(room_shaped(b, level.xsize as int, level.ysize as int));
    assert(!rooms_meet(a, b));
    assert(a.width / 2 <= a.width && b.width / 2 <= b.width);
    assert(a.height / 2 <= a.height && b.height / 2 <= b.height);
}

} // verus!
