use rand::rngs::StdRng;
use rand::SeedableRng;
use roguerust::entities::{Character, Entity, Player};
use roguerust::error::GameError;
use roguerust::events::{event_for_key, Key, ViewportEvent};
use roguerust::state::State;
use roguerust::tiling::{Tile, TileGrid, TileType};
use roguerust::world::{Dungeon, DOWN, LEFT, RIGHT, UP};

fn hero() -> Character {
    Player::new(String::from("Kshar"), String::from("Warrior"), 30, 10, 10, 20)
}

/// A loaded state on a hand-made floor grid, with the player at `(2, 2)`.
fn hand_made(depth: usize, level: usize) -> State {
    let mut grid = TileGrid::new(5, 5);
    grid.paint_rect(0, 0, 4, 4, Tile::from(TileType::Floor), true);
    grid.set_tile(3, 2, Tile::from(TileType::Wall));
    let mut player = hero();
    player.place((2, 2));
    let mut state = State::new(player, Dungeon::new(5, 5, depth));
    state.level = level;
    state.grid = Some(grid);
    state
}

#[test]
fn moving_onto_a_wall_is_refused() {
    let mut state = hand_made(1, 0);
    assert_eq!(state.move_player(RIGHT), Err(GameError::InvalidMove));
    assert_eq!(*state.get_player().location(), (2, 2));
}

#[test]
fn down_stairs_away_from_stairs_is_refused() {
    let mut state = hand_made(2, 0);
    assert_eq!(state.down_stairs(), Err(GameError::NotOnStairs));
    assert_eq!(state.level, 0);
}

#[test]
fn down_stairs_on_the_deepest_level_is_refused() {
    let mut state = hand_made(1, 0);
    state.grid.as_mut().unwrap().set_tile(2, 2, Tile::from(TileType::StairsDown));
    assert_eq!(state.down_stairs(), Err(GameError::BoundaryLevel));
}

#[test]
fn up_stairs_refusals() {
    let mut state = hand_made(2, 0);
    assert_eq!(state.up_stairs(), Err(GameError::BoundaryLevel));
    let mut lower = hand_made(2, 1);
    assert_eq!(lower.up_stairs(), Err(GameError::NotOnStairs));
}

#[test]
fn nothing_moves_before_a_level_is_loaded() {
    let mut state = State::new(hero(), Dungeon::new(80, 22, 2));
    assert!(state.get_grid().is_none());
    assert_eq!(state.move_player(LEFT), Err(GameError::NoLevelLoaded));
    assert_eq!(state.down_stairs(), Err(GameError::NoLevelLoaded));
    assert_eq!(state.up_stairs(), Err(GameError::NoLevelLoaded));
}

#[test]
fn an_empty_dungeon_cannot_start() {
    let mut rng = StdRng::seed_from_u64(3);
    let mut state = State::new(hero(), Dungeon::new(80, 22, 0));
    assert_eq!(state.init(&mut rng), Err(GameError::GenerationFailed));
    assert!(state.get_grid().is_none());
}

#[test]
fn init_places_the_player_at_the_start_in_sight() {
    let mut rng = StdRng::seed_from_u64(21);
    let mut state = State::new(hero(), Dungeon::new(80, 22, 3));
    state.init(&mut rng).unwrap();
    let start = state.current_level().start_point();
    assert_eq!(*state.get_player().location(), start);
    let grid = state.get_grid().unwrap();
    assert!(grid.tile_at(start.0, start.1).is_visible());
    assert!(grid.tile_at(start.0, start.1).is_lit());
    assert!(matches!(grid.tile_at(start.0, start.1).tile_type, TileType::StairsUp));
}

#[test]
fn walking_into_a_wall_stops_the_player() {
    let mut rng = StdRng::seed_from_u64(5);
    let mut state = State::new(hero(), Dungeon::new(80, 22, 2));
    state.init(&mut rng).unwrap();
    let mut steps = 0;
    loop {
        let before = *state.get_player().location();
        match state.move_player(LEFT) {
            Ok(()) => {
                assert_eq!(*state.get_player().location(), (before.0 - 1, before.1));
                assert_eq!(*state.get_player().previous_location(), before);
                steps += 1;
            }
            Err(e) => {
                assert_eq!(e, GameError::InvalidMove);
                assert_eq!(*state.get_player().location(), before);
                let grid = state.get_grid().unwrap();
                assert!(!matches!(
                    grid.tile_at(before.0 - 1, before.1).tile_type,
                    TileType::Floor | TileType::StairsUp | TileType::StairsDown
                ));
                break;
            }
        }
        assert!(steps < 80);
    }
}

#[test]
fn stairs_lead_down_and_back_up() {
    let mut rng = StdRng::seed_from_u64(8);
    let mut state = State::new(hero(), Dungeon::new(80, 22, 2));
    state.init(&mut rng).unwrap();
    let exit = state.current_level().exit();
    state.player.place(exit);
    state.down_stairs().unwrap();
    assert_eq!(state.level, 1);
    assert_eq!(state.current_level().start_point(), exit);
    let grid = state.get_grid().unwrap();
    assert!(grid.tile_at(exit.0, exit.1).is_visible());
    assert!(matches!(grid.tile_at(exit.0, exit.1).tile_type, TileType::StairsUp));
    assert_eq!(state.down_stairs(), Err(GameError::BoundaryLevel));
    state.up_stairs().unwrap();
    assert_eq!(state.level, 0);
    let grid = state.get_grid().unwrap();
    assert!(matches!(grid.tile_at(exit.0, exit.1).tile_type, TileType::StairsDown));
    assert!(grid.tile_at(exit.0, exit.1).is_visible());
}

#[test]
fn keys_map_to_requests() {
    assert!(matches!(event_for_key(Key::Char('q')), Some(ViewportEvent::Quit)));
    assert!(matches!(event_for_key(Key::Char('?')), Some(ViewportEvent::Help)));
    assert!(matches!(event_for_key(Key::Char('j')), Some(ViewportEvent::MovePlayer(m)) if m == DOWN));
    assert!(matches!(event_for_key(Key::Up), Some(ViewportEvent::MovePlayer(m)) if m == UP));
    assert!(matches!(event_for_key(Key::Char('l')), Some(ViewportEvent::MovePlayer(m)) if m == RIGHT));
    assert!(matches!(event_for_key(Key::Char('>')), Some(ViewportEvent::DownStairs)));
    assert!(matches!(event_for_key(Key::Char('<')), Some(ViewportEvent::UpStairs)));
    assert!(event_for_key(Key::Char('x')).is_none());
}
