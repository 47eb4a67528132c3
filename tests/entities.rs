use roguerust::entities::{Character, Enemy, Entity, Player};
use roguerust::error::GameError;
use roguerust::tiling::{Tile, TileType};

fn rogue() -> Character {
    Player::new(String::from(""), String::from("Rogue"), 1, 4, 1, 4)
}

#[test]
fn attack_adds_experience_and_half_the_luck() {
    let player = rogue();
    assert_eq!(player.attack(), 6);
    assert_eq!(player.dodge(), 3);
}

#[test]
fn damage_stops_at_zero_and_teaches() {
    let mut player: Character = Player::new(String::from("a"), String::from("b"), 10, 1, 1, -3);
    player.damage(4);
    assert_eq!(player.health, 6);
    assert_eq!(player.xp, 2);
    player.damage(100);
    assert_eq!(player.health, 0);
    assert_eq!(player.attack(), 4 + 1 - 1);
    player.heal(3);
    assert_eq!(player.health, 3);
    player.heal(100);
    assert_eq!(player.health, 10);
    assert_eq!(player.xp, 6);
}

#[test]
fn entities_track_their_moves() {
    let mut snake: Character = Enemy::new(String::from("snake"), 2, 1, 80, 0, (3, 4), "s");
    assert_eq!(*snake.location(), (3, 4));
    assert!(!snake.is_dirty());
    assert!(!snake.is_visible());
    assert!(matches!(snake.tile().tile_type, TileType::Character("s")));
    snake.move_to((5, 4));
    assert_eq!(*snake.previous_location(), (3, 4));
    assert!(snake.is_dirty());
    snake.clean();
    assert_eq!(snake.move_by((-6, 0)), Err(GameError::OutOfBounds));
    assert_eq!(*snake.location(), (5, 4));
    assert!(!snake.is_dirty());
    assert_eq!(snake.move_by((-1, 1)), Ok(()));
    assert_eq!(*snake.location(), (4, 5));
    snake.clean();
    snake.visibility(true);
    assert!(snake.is_visible() && snake.is_dirty());
    snake.set_tile(Tile::from(TileType::Wall));
    assert!(matches!(snake.tile().tile_type, TileType::Wall));
}
