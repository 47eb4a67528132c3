//! Creatures of the dungeon: the player and the enemies it meets.
use vstd::prelude::*;

use crate::error::GameError;
use crate::tiling::{tile_of, Tile, TileType};
use crate::world::{apply_movement, moved, movement_fits, Movement, Point};

verus! {

/// `v` clamped to the range of `i32`.
pub open spec fn saturate(v: int) -> i32 {
    if v > i32::MAX {
        i32::MAX
    } else if v < i32::MIN {
        i32::MIN
    } else {
        v as i32
    }
}

/// Half of `v`, rounded toward zero.
pub open spec fn half(v: int) -> int {
    if v >= 0 {
        v / 2
    } else {
        -((-v) / 2)
    }
}

fn clamp_i32(v: i64) -> (r: i32)
    ensures
        r == saturate(v as int),
{
    if v > i32::MAX as i64 {
        i32::MAX
    } else if v < i32::MIN as i64 {
        i32::MIN
    } else {
        v as i32
    }
}

fn half_i32(v: i32) -> (r: i64)
    ensures
        r == half(v as int),
{
    if v >= 0 {
        v as i64 / 2
    } else {
        -((-(v as i64)) / 2)
    }
}

/// What the simulation needs of anything that stands on the grid.
pub trait Entity: Sized {
    /// Where the entity stands.
    spec fn position(&self) -> Point;

    /// Where the entity stood before its last move.
    spec fn last_position(&self) -> Point;

    /// Whether the entity must be redrawn.
    spec fn stale(&self) -> bool;

    /// Whether the player has spotted the entity.
    spec fn spotted(&self) -> bool;

    /// The tile that draws the entity.
    spec fn look(&self) -> Tile;

    /// Initial placement of the entity.
    fn place(&mut self, location: Point)
        ensures
            final(self).position() == location,
            final(self).last_position() == location,
            final(self).stale(),
            final(self).spotted() == old(self).spotted(),
    ;

    fn tile(&self) -> (r: &Tile)
        ensures
            *r == self.look(),
    ;

    fn location(&self) -> (r: &Point)
        ensures
            *r == self.position(),
    ;

    fn previous_location(&self) -> (r: &Point)
        ensures
            *r == self.last_position(),
    ;

    /// Moves the entity to `location`.
    fn move_to(&mut self, location: Point)
        ensures
            final(self).position() == location,
            final(self).last_position() == old(self).position(),
            final(self).stale(),
            final(self).spotted() == old(self).spotted(),
    ;

    /// Moves the entity by `movement`; refuses, changing nothing, a move
    /// that would leave the non-negative quadrant.
    fn move_by(&mut self, movement: Movement) -> (r: Result<(), GameError>)
        ensures
            movement_fits(old(self).position(), movement) ==> r is Ok && final(self).position() == moved(
                old(self).position(),
                movement,
            ) && final(self).last_position() == old(self).position() && final(self).stale()
                && final(self).spotted() == old(self).spotted(),
            !movement_fits(old(self).position(), movement) ==> r == Err::<(), GameError>(GameError::OutOfBounds)
                && *final(self) == *old(self),
    ;

    fn is_dirty(&self) -> (r: bool)
        ensures
            r == self.stale(),
    ;

    /// Declares the entity drawn.
    fn clean(&mut self)
        ensures
            !final(self).stale(),
            final(self).position() == old(self).position(),
            final(self).spotted() == old(self).spotted(),
    ;

    /// Sets whether the entity is spotted; a change makes it stale.
    fn visibility(&mut self, visible: bool)
        ensures
            final(self).spotted() == visible,
            final(self).stale() == (old(self).stale() || visible != old(self).spotted()),
            final(self).position() == old(self).position(),
            final(self).last_position() == old(self).last_position(),
    ;

    fn is_visible(&self) -> (r: bool)
        ensures
            r == self.spotted(),
    ;
}

/// A player or an enemy.
#[derive(Debug)]
pub struct Character {
    pub name: String,
    pub class: String,
    pub health: i32,
    pub level: i32,
    pub location: Point,
    pub previous_location: Point,
    pub dirty: bool,
    pub max_health: i32,
    pub attack: i32,
    pub dodge: i32,
    pub luck: i32,
    pub xp: i32,
    pub tile: Tile,
}

impl Entity for Character {
    open spec fn position(&self) -> Point {
        self.location
    }

    open spec fn last_position(&self) -> Point {
        self.previous_location
    }

    open spec fn stale(&self) -> bool {
        self.dirty
    }

    open spec fn spotted(&self) -> bool {
        self.tile.visible
    }

    open spec fn look(&self) -> Tile {
        self.tile
    }

    fn place(&mut self, location: Point) {
        self.location = location;
        self.previous_location = location;
        self.dirty = true;
    }

    fn tile(&self) -> &Tile {
        &self.tile
    }

    fn location(&self) -> &Point {
        &self.location
    }

    fn previous_location(&self) -> &Point {
        &self.previous_location
    }

    fn move_to(&mut self, location: Point) {
        self.previous_location = self.location;
        self.location = location;
        self.dirty = true;
    }

    fn move_by(&mut self, movement: Movement) -> Result<(), GameError> {
        match apply_movement(self.location, movement) {
            Ok(to) => {
                self.move_to(to);
                Ok(())
            },
            Err(e) => Err(e),
        }
    }

    fn is_dirty(&self) -> bool {
        self.dirty
    }

    fn clean(&mut self) {
        self.dirty = false;
    }

    fn visibility(&mut self, visible: bool) {
        if visible != self.tile.visible {
            self.dirty = true;
        }
        self.tile.visibility(visible);
    }

    fn is_visible(&self) -> bool {
        self.tile.is_visible()
    }
}

/// A creature that the dungeon spawns.
pub trait Enemy: Entity {
    fn new(
        class: String,
        health: i32,
        attack: i32,
        dodge: i32,
        luck: i32,
        location: Point,
        tile_str: &'static str,
    ) -> (r: Self)
        ensures
            r.position() == location,
            r.last_position() == location,
            !r.stale(),
            r.look() == tile_of(TileType::Character(tile_str)),
    ;

    fn set_tile(&mut self, tile: Tile)
        ensures
            final(self).look() == tile,
            final(self).position() == old(self).position(),
    ;
}

impl Enemy for Character {
    fn new(
        class: String,
        health: i32,
        attack: i32,
        dodge: i32,
        luck: i32,
        location: Point,
        tile_str: &'static str,
    ) -> Character {
        Character {
            name: class.clone(),
            class,
            max_health: health,
            health,
            attack,
            dodge,
            luck,
            level: 0,
            xp: 0,
            location,
            previous_location: location,
            tile: Tile::from(TileType::Character(tile_str)),
            dirty: false,
        }
    }

    fn set_tile(&mut self, tile: Tile) {
        self.tile = tile;
    }
}

/// The character that the user plays, with its fighting figures.
pub trait Player: Entity {
    spec fn hit_points(&self) -> i32;

    spec fn max_hit_points(&self) -> i32;

    spec fn experience(&self) -> i32;

    spec fn base_attack(&self) -> i32;

    spec fn base_dodge(&self) -> i32;

    spec fn fortune(&self) -> i32;

    /// A fresh player at `(0, 0)`, visible, with full health.
    fn new(name: String, class: String, health: i32, attack: i32, dodge: i32, luck: i32) -> (r: Self)
        ensures
            r.hit_points() == health,
            r.max_hit_points() == health,
            r.experience() == 0,
            r.base_attack() == attack,
            r.base_dodge() == dodge,
            r.fortune() == luck,
            r.position() == (0usize, 0usize),
            r.spotted(),
            r.look().tile_type is Player,
    ;

    /// Takes `damage_amount` off the health, down to zero at least, and
    /// gains two points of experience.
    fn damage(&mut self, damage_amount: i32)
        ensures
            final(self).hit_points() == (if old(self).hit_points() - damage_amount < 0 {
                0
            } else {
                saturate(old(self).hit_points() - damage_amount)
            }),
            final(self).experience() == saturate(old(self).experience() + 2),
            final(self).max_hit_points() == old(self).max_hit_points(),
            final(self).position() == old(self).position(),
    ;

    /// Restores up to `heal_amount` of health, never past the maximum, and
    /// gains a point of experience; does nothing above the maximum.
    fn heal(&mut self, heal_amount: i32)
        ensures
            old(self).hit_points() <= old(self).max_hit_points() ==> final(self).hit_points() == (if old(
                self,
            ).hit_points() + heal_amount < old(self).max_hit_points() {
                saturate(old(self).hit_points() + heal_amount)
            } else {
                old(self).max_hit_points()
            }) && final(self).experience() == saturate(old(self).experience() + 1),
            old(self).hit_points() > old(self).max_hit_points() ==> final(self).hit_points() == old(
                self,
            ).hit_points() && final(self).experience() == old(self).experience(),
            final(self).max_hit_points() == old(self).max_hit_points(),
            final(self).position() == old(self).position(),
    ;

    /// Experience plus base attack plus half the luck.
    fn attack(&self) -> (r: i32)
        ensures
            r == saturate(self.experience() + self.base_attack() + half(self.fortune() as int)),
    ;

    /// Experience plus base dodge plus half the luck.
    fn dodge(&self) -> (r: i32)
        ensures
            r == saturate(self.experience() + self.base_dodge() + half(self.fortune() as int)),
    ;
}

impl Player for Character {
    open spec fn hit_points(&self) -> i32 {
        self.health
    }

    open spec fn max_hit_points(&self) -> i32 {
        self.max_health
    }

    open spec fn experience(&self) -> i32 {
        self.xp
    }

    open spec fn base_attack(&self) -> i32 {
        self.attack
    }

    open spec fn base_dodge(&self) -> i32 {
        self.dodge
    }

    open spec fn fortune(&self) -> i32 {
        self.luck
    }

    fn new(name: String, class: String, health: i32, attack: i32, dodge: i32, luck: i32) -> Character {
        Character {
            name,
            class,
            max_health: health,
            health,
            attack,
            dodge,
            luck,
            xp: 0,
            level: 0,
            location: (0, 0),
            previous_location: (0, 0),
            tile: Tile::new(TileType::Player, true, false, true),
            dirty: false,
        }
    }

    fn damage(&mut self, damage_amount: i32) {
        let left = self.health as i64 - damage_amount as i64;
        self.health = if left < 0 { 0 } else { clamp_i32(left) };
        self.xp = clamp_i32(self.xp as i64 + 2);
    }

    fn heal(&mut self, heal_amount: i32) {
        if self.health <= self.max_health {
            let raised = self.health as i64 + heal_amount as i64;
            self.health = if raised < self.max_health as i64 { clamp_i32(raised) } else { self.max_health };
            self.xp = clamp_i32(self.xp as i64 + 1);
        }
    }

    fn attack(&self) -> i32 {
        clamp_i32(self.xp as i64 + self.attack as i64 + half_i32(self.luck))
    }

    fn dodge(&self) -> i32 {
        clamp_i32(self.xp as i64 + self.dodge as i64 + half_i32(self.luck))
    }
}

} // verus!
