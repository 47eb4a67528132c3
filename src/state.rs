//! The simulation state: the live level, the player on it, and the rules
//! for moving the player and taking the stairs.
use rand::rngs::StdRng;
use vstd::prelude::*;

use crate::entities::{Character, Entity};
use crate::error::GameError;
use crate::sight::{lemma_viewer_in_sight, opacity, swept};
use crate::tiling::{Tile, TileGrid, TileType};
use crate::world::{
    apply_movement, generation_error, lemma_generated_fits, lemma_stairs_of_generated, moved, movement_fits, Dungeon, Generatable, Level,
    Movement, Point,
};

verus! {

/// How far the player sees.
pub const PLAYER_SIGHT: usize = 3;

/// Whether an entity may step onto a tile of type `t`.
pub open spec fn walkable(t: TileType) -> bool {
    t is Floor || t is StairsUp || t is StairsDown
}

/// The player, the dungeon, the index of the live level, and that level's
/// tiles once one is loaded.
pub struct State {
    pub player: Character,
    pub dungeon: Dungeon,
    pub level: usize,
    pub grid: Option<TileGrid>,
}

impl State {
    /// A level is loaded and the player stands on it.
    pub open spec fn active(&self) -> bool {
        &&& self.grid is Some
        &&& self.dungeon.generated()
        &&& self.level < self.dungeon.levels@.len()
        &&& self.grid->Some_0.wf()
        &&& self.grid->Some_0.width() == self.dungeon.xsize
        &&& self.grid->Some_0.height() == self.dungeon.ysize
        &&& self.grid->Some_0.in_bounds(self.player.location.0 as int, self.player.location.1 as int)
        &&& self.shows_level()
    }

    /// The live grid has the terrain of the live level: each cell has the
    /// type and the opacity that the level's picture gives it.
    pub open spec fn shows_level(&self) -> bool {
        let picture = self.dungeon.levels@[self.level as int].picture();
        forall|x: int, y: int|
            #![trigger self.grid->Some_0@[y][x]]
            self.grid->Some_0.in_bounds(x, y) ==> {
                &&& self.grid->Some_0@[y][x].tile_type == picture[y][x].tile_type
                &&& self.grid->Some_0@[y][x].opaque == picture[y][x].opaque
            }
    }

    /// Either no level is loaded, or the loaded one is consistent.
    pub open spec fn inv(&self) -> bool {
        self.grid is None || self.active()
    }

    /// The tile under the player.
    pub open spec fn under_player(&self) -> Tile {
        self.grid->Some_0.cell(self.player.location.0 as int, self.player.location.1 as int)
    }

    /// Whether `after` holds the tiles of `before` swept by the player's
    /// sight from `at`.
    pub open spec fn sight_swept(before: Seq<Seq<Tile>>, after: &TileGrid, at: Point) -> bool {
        swept(
            before,
            after@,
            (at.0 as int, at.1 as int),
            PLAYER_SIGHT as int,
            after.width() as int,
            after.height() as int,
        )
    }

    /// After a sweep from `at`, the cell at `at` is visible.
    pub proof fn lemma_swept_shows_viewer(before: Seq<Seq<Tile>>, after: &TileGrid, at: Point)
        requires
            State::sight_swept(before, after, at),
            after.in_bounds(at.0 as int, at.1 as int),
        ensures
            after.cell(at.0 as int, at.1 as int).visible,
    {
        lemma_viewer_in_sight(
            opacity(before),
            (at.0 as int, at.1 as int),
            PLAYER_SIGHT as int,
            after.width() as int,
            after.height() as int,
        );
        assert(after@[at.1 as int][at.0 as int].visible);
    }

    pub fn new(player: Character, dungeon: Dungeon) -> (r: State)
        ensures
            r.player == player,
            r.dungeon == dungeon,
            r.level == 0,
            r.grid is None,
    {
        State { player, dungeon, level: 0, grid: None }
    }

    /// Generates the dungeon, places the player at the start of the first
    /// level and loads that level.
    pub fn init(&mut self, rng: &mut StdRng) -> (r: Result<(), GameError>)
        requires
            old(self).dungeon.levels@.len() == 0,
        ensures
            r is Ok ==> {
                &&& final(self).active()
                &&& final(self).level == 0
                &&& final(self).dungeon.depth == old(self).dungeon.depth
                &&& final(self).player.location == final(self).dungeon.levels@[0].arrival()
                &&& State::sight_swept(
                    final(self).dungeon.levels@[0].picture(),
                    &final(self).grid->Some_0,
                    final(self).player.location,
                )
            },
            old(self).dungeon.depth == 0 ==> r == Err::<(), GameError>(GameError::GenerationFailed),
            r is Err ==> generation_error(r->Err_0) && final(self).grid is None,
    {
        self.grid = None;
        if self.dungeon.depth() == 0 {
            return Err(GameError::GenerationFailed);
        }
        match self.dungeon.generate(rng) {
            Ok(()) => {},
            Err(e) => {
                return Err(e);
            },
        }
        proof {
            lemma_generated_fits(&self.dungeon.levels@[0]);
        }
        let start = self.dungeon.levels[0].start_point();
        self.player.place(start);
        let ghost first = self.dungeon.levels@[0];
        self.switch_level(0);
        assert(self.dungeon.levels@[0].picture() == first.picture());
        Ok(())
    }

    pub fn get_grid(&self) -> (r: Option<&TileGrid>)
        ensures
            r is Some <==> self.grid is Some,
            r is Some ==> *r->Some_0 == self.grid->Some_0,
    {
        match &self.grid {
            Some(g) => Some(g),
            None => None,
        }
    }

    pub fn get_player(&self) -> (r: &Character)
        ensures
            *r == self.player,
    {
        &self.player
    }

    /// Makes level `num_level` the live one: rebuilds its tiles from its
    /// rooms and corridors and sweeps the player's sight on them.
    pub fn switch_level(&mut self, num_level: usize)
        requires
            old(self).dungeon.generated(),
            num_level < old(self).dungeon.levels@.len(),
            old(self).player.location.0 < old(self).dungeon.xsize,
            old(self).player.location.1 < old(self).dungeon.ysize,
        ensures
            final(self).active(),
            final(self).level == num_level,
            final(self).player == old(self).player,
            old(self).dungeon.same_layout(&final(self).dungeon),
            State::sight_swept(
                old(self).dungeon.levels@[num_level as int].picture(),
                &final(self).grid->Some_0,
                old(self).player.location,
            ),
    {
        self.level = num_level;
        proof {
            lemma_generated_fits(&self.dungeon.levels@[num_level as int]);
        }
        match self.dungeon.levels[num_level].to_tilegrid() {
            Ok(grid) => {
                self.grid = Some(grid);
            },
            Err(_) => {
                // A generated level always fits its grid.
                assert(false);
            },
        }
        self.fog_of_war();
    }

    pub fn current_level(&self) -> (r: &Level)
        requires
            self.level < self.dungeon.levels@.len(),
        ensures
            *r == self.dungeon.levels@[self.level as int],
    {
        &self.dungeon.levels[self.level]
    }

    fn can_step_on(tile: &Tile) -> (r: bool)
        ensures
            r == walkable(tile.tile_type),
    {
        match tile.get_type() {
            TileType::Floor => true,
            TileType::StairsDown => true,
            TileType::StairsUp => true,
            _ => false,
        }
    }

    /// Sweeps the player's sight over the live level and marks as spotted
    /// the entities of the level that stand on visible cells.
    pub fn fog_of_war(&mut self)
        requires
            old(self).active(),
        ensures
            final(self).active(),
            final(self).level == old(self).level,
            final(self).player == old(self).player,
            old(self).dungeon.same_layout(&final(self).dungeon),
            State::sight_swept(old(self).grid->Some_0@, &final(self).grid->Some_0, old(self).player.location),
            forall|e: int|
                #![trigger final(self).dungeon.levels@[old(self).level as int].entities@[e]]
                0 <= e < old(self).dungeon.levels@[old(self).level as int].entities@.len() ==> {
                    let before = old(self).dungeon.levels@[old(self).level as int].entities@[e];
                    let after = final(self).dungeon.levels@[old(self).level as int].entities@[e];
                    after.tile.visible == (before.tile.visible || final(self).grid->Some_0.cell(
                        before.location.0 as int,
                        before.location.1 as int,
                    ).visible)
                },
    {
        let location = self.player.location;
        let level = self.level;
        match &mut self.grid {
            Some(grid) => grid.clear_fog_of_war(&location, PLAYER_SIGHT),
            None => {},
        }
        let ghost levels = self.dungeon.levels@;
        match &self.grid {
            Some(grid) => self.dungeon.levels[level].spot_entities(grid),
            None => {},
        }
        assert(old(self).dungeon.same_layout(&self.dungeon)) by {
            assert forall|i: int| 0 <= i < levels.len() implies #[trigger] self.dungeon.levels@[i] == levels[i]
                || i == level by {}
        }
        assert forall|i: int|
            0 <= i < self.dungeon.levels@.len() - 1 implies #[trigger] self.dungeon.levels@[i + 1].entrance
            == self.dungeon.levels@[i].exit by {
            assert(levels[i + 1].entrance == levels[i].exit);
        }
        assert(self.dungeon.levels@[level as int].picture() == levels[level as int].picture());
    }

    pub fn current_level_mut(&mut self) -> (r: &mut Level)
        requires
            old(self).level < old(self).dungeon.levels@.len(),
        ensures
            *r == old(self).dungeon.levels@[old(self).level as int],
            final(self).dungeon.levels@ == old(self).dungeon.levels@.update(old(self).level as int, *final(r)),
            final(self).dungeon.xsize == old(self).dungeon.xsize,
            final(self).dungeon.ysize == old(self).dungeon.ysize,
            final(self).dungeon.depth == old(self).dungeon.depth,
            final(self).player == old(self).player,
            final(self).level == old(self).level,
            final(self).grid == old(self).grid,
    {
        &mut self.dungeon.levels[self.level]
    }

    /// Moves the player by `dir` onto a walkable tile of the live level and
    /// sweeps its sight from there. Refuses, changing nothing, a move with
    /// no level loaded, off the grid, or onto a tile that is not floor or
    /// stairs.
    pub fn move_player(&mut self, dir: Movement) -> (r: Result<(), GameError>)
        requires
            old(self).inv(),
        ensures
            final(self).inv(),
            old(self).grid is None ==> r == Err::<(), GameError>(GameError::NoLevelLoaded),
            old(self).active() ==> {
                let from = old(self).player.location;
                let dest = moved(from, dir);
                let grid = old(self).grid->Some_0;
                &&& !movement_fits(from, dir) ==> r == Err::<(), GameError>(GameError::OutOfBounds)
                &&& movement_fits(from, dir) && !grid.in_bounds(dest.0 as int, dest.1 as int) ==> r == Err::<
                    (),
                    GameError,
                >(GameError::OutOfBounds)
                &&& movement_fits(from, dir) && grid.in_bounds(dest.0 as int, dest.1 as int) && !walkable(
                    grid.cell(dest.0 as int, dest.1 as int).tile_type,
                ) ==> r == Err::<(), GameError>(GameError::InvalidMove)
                &&& movement_fits(from, dir) && grid.in_bounds(dest.0 as int, dest.1 as int) && walkable(
                    grid.cell(dest.0 as int, dest.1 as int).tile_type,
                ) ==> {
                    &&& r is Ok
                    &&& final(self).active()
                    &&& final(self).grid->Some_0.cell(dest.0 as int, dest.1 as int).visible
                    &&& final(self).player.location == dest
                    &&& final(self).player.previous_location == from
                    &&& final(self).level == old(self).level
                    &&& old(self).dungeon.same_layout(&final(self).dungeon)
                    &&& State::sight_swept(grid@, &final(self).grid->Some_0, dest)
                }
            },
            r is Err ==> *final(self) == *old(self),
    {
        match &self.grid {
            None => {
                return Err(GameError::NoLevelLoaded);
            },
            Some(grid) => {
                let dest = match apply_movement(self.player.location, dir) {
                    Ok(p) => p,
                    Err(e) => {
                        return Err(e);
                    },
                };
                if dest.0 >= grid.xsize() || dest.1 >= grid.ysize() {
                    return Err(GameError::OutOfBounds);
                }
                if !State::can_step_on(grid.tile_at(dest.0, dest.1)) {
                    return Err(GameError::InvalidMove);
                }
            },
        }
        match self.player.move_by(dir) {
            Ok(()) => {},
            Err(e) => {
                return Err(e);
            },
        }
        self.fog_of_war();
        proof {
            State::lemma_swept_shows_viewer(old(self).grid->Some_0@, &self.grid->Some_0, self.player.location);
        }
        Ok(())
    }

    /// Takes the stairs down from the live level: the player must stand on
    /// stairs down and the level must not be the deepest. Refuses, changing
    /// nothing, otherwise.
    pub fn down_stairs(&mut self) -> (r: Result<(), GameError>)
        requires
            old(self).inv(),
        ensures
            final(self).inv(),
            old(self).grid is None ==> r == Err::<(), GameError>(GameError::NoLevelLoaded),
            old(self).active() ==> {
                &&& old(self).level + 1 == old(self).dungeon.depth ==> r == Err::<(), GameError>(
                    GameError::BoundaryLevel,
                )
                &&& old(self).level + 1 < old(self).dungeon.depth && !(old(
                    self,
                ).under_player().tile_type is StairsDown) ==> r == Err::<(), GameError>(GameError::NotOnStairs)
                &&& old(self).level + 1 < old(self).dungeon.depth && old(self).under_player().tile_type is StairsDown
                    ==> {
                    &&& r is Ok
                    &&& final(self).active()
                    &&& final(self).under_player().visible
                    &&& final(self).under_player().tile_type is StairsUp
                    &&& final(self).level == old(self).level + 1
                    &&& final(self).player == old(self).player
                    &&& old(self).dungeon.same_layout(&final(self).dungeon)
                    &&& State::sight_swept(
                        old(self).dungeon.levels@[old(self).level + 1].picture(),
                        &final(self).grid->Some_0,
                        old(self).player.location,
                    )
                }
            },
            r is Err ==> *final(self) == *old(self),
    {
        match &self.grid {
            None => {
                return Err(GameError::NoLevelLoaded);
            },
            Some(grid) => {
                if self.level == self.dungeon.depth() - 1 {
                    return Err(GameError::BoundaryLevel);
                }
                let location = self.player.location;
                match grid.tile_at(location.0, location.1).get_type() {
                    TileType::StairsDown => {},
                    _ => {
                        return Err(GameError::NotOnStairs);
                    },
                }
            },
        }
        self.switch_level(self.level + 1);
        proof {
            State::lemma_swept_shows_viewer(
                old(self).dungeon.levels@[old(self).level + 1].picture(),
                &self.grid->Some_0,
                self.player.location,
            );
            let i = old(self).level as int;
            let at = old(self).player.location;
            let levels = old(self).dungeon.levels@;
            lemma_stairs_of_generated(&levels[i]);
            lemma_stairs_of_generated(&levels[i + 1]);
            assert(old(self).grid->Some_0@[at.1 as int][at.0 as int].tile_type == levels[i].picture()[at.1 as int][at.0 as int].tile_type);
            assert(levels[i + 1].entrance == levels[i].exit);
            assert(self.grid->Some_0@[at.1 as int][at.0 as int].tile_type == levels[i + 1].picture()[at.1 as int][at.0 as int].tile_type);
        }
        Ok(())
    }

    /// Takes the stairs up from the live level: the player must stand on
    /// stairs up and the level must not be the first. Refuses, changing
    /// nothing, otherwise.
    pub fn up_stairs(&mut self) -> (r: Result<(), GameError>)
        requires
            old(self).inv(),
        ensures
            final(self).inv(),
            old(self).grid is None ==> r == Err::<(), GameError>(GameError::NoLevelLoaded),
            old(self).active() ==> {
                &&& old(self).level == 0 ==> r == Err::<(), GameError>(GameError::BoundaryLevel)
                &&& old(self).level > 0 && !(old(self).under_player().tile_type is StairsUp) ==> r == Err::<
                    (),
                    GameError,
                >(GameError::NotOnStairs)
                &&& old(self).level > 0 && old(self).under_player().tile_type is StairsUp ==> {
                    &&& r is Ok
                    &&& final(self).active()
                    &&& final(self).under_player().visible
                    &&& final(self).under_player().tile_type is StairsDown
                    &&& final(self).level == old(self).level - 1
                    &&& final(self).player == old(self).player
                    &&& old(self).dungeon.same_layout(&final(self).dungeon)
                    &&& State::sight_swept(
                        old(self).dungeon.levels@[old(self).level - 1].picture(),
                        &final(self).grid->Some_0,
                        old(self).player.location,
                    )
                }
            },
            r is Err ==> *final(self) == *old(self),
    {
        match &self.grid {
            None => {
                return Err(GameError::NoLevelLoaded);
            },
            Some(grid) => {
                if self.level == 0 {
                    return Err(GameError::BoundaryLevel);
                }
                let location = self.player.location;
                match grid.tile_at(location.0, location.1).get_type() {
                    TileType::StairsUp => {},
                    _ => {
                        return Err(GameError::NotOnStairs);
                    },
                }
            },
        }
        self.switch_level(self.level - 1);
        proof {
            State::lemma_swept_shows_viewer(
                old(self).dungeon.levels@[old(self).level - 1].picture(),
                &self.grid->Some_0,
                self.player.location,
            );
            let i = old(self).level as int;
            let at = old(self).player.location;
            let levels = old(self).dungeon.levels@;
            lemma_stairs_of_generated(&levels[i]);
            lemma_stairs_of_generated(&levels[i - 1]);
            assert(old(self).grid->Some_0@[at.1 as int][at.0 as int].tile_type == levels[i].picture()[at.1 as int][at.0 as int].tile_type);
            assert(levels[(i - 1) + 1].entrance == levels[i - 1].exit);
            assert(self.grid->Some_0@[at.1 as int][at.0 as int].tile_type == levels[i - 1].picture()[at.1 as int][at.0 as int].tile_type);
        }
        Ok(())
    }
}

} // verus!
