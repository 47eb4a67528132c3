use rand::rngs::StdRng;
use rand::SeedableRng;
use roguerust::error::GameError;
use roguerust::tiling::{Tile, TileGrid, TileType};
use roguerust::world::{
    apply_movement, Corridor, CorridorType, Dungeon, Generatable, Level, Room, Tileable, DOWN, LEFT, MAX_DEPTH,
    RIGHT, UP,
};

#[test]
fn test_make_corridor_detects_horizontal() {
    let start = (0, 0);
    let end = (5, 0);

    let corridor = Corridor::make(start, end).unwrap();
    assert_eq!(corridor, Corridor::new(start, 5, CorridorType::Horizontal));
}

#[test]
fn test_make_corridor_detects_vertical() {
    let start = (0, 0);
    let end = (0, 5);

    let corridor = Corridor::make(start, end).unwrap();
    assert_eq!(corridor, Corridor::new(start, 5, CorridorType::Vertical));
}

#[test]
fn test_make_corridor_with_overlapping_points_should_panic() {
    match Corridor::make((0, 0), (0, 0)) {
        Ok(_) => assert!(false),
        Err(_) => assert!(true),
    };
}

#[test]
fn test_make_corridor_with_misaligned_points_should_panic() {
    match Corridor::make((3, 3), (5, 5)) {
        Ok(_) => assert!(false),
        Err(_) => assert!(true),
    };
}

#[test]
fn test_link_corridors_returns_a_vec_of_corridors() {
    let mut rng = StdRng::seed_from_u64(1);
    let cor = Corridor::link((0, 0), (5, 5), &mut rng).unwrap();

    let exp_horz = vec![
        Corridor::new((0, 0), 5, CorridorType::Horizontal),
        Corridor::new((5, 0), 5, CorridorType::Vertical),
    ];
    let exp_vert = vec![
        Corridor::new((0, 0), 5, CorridorType::Vertical),
        Corridor::new((0, 5), 5, CorridorType::Horizontal),
    ];

    match cor[0].direction {
        CorridorType::Horizontal => assert_eq!(cor, exp_horz),
        CorridorType::Vertical => assert_eq!(cor, exp_vert),
    };
}

#[test]
fn test_link_corridors_returns_a_vec_of_corridors_on_reversed_diagonal_points() {
    let mut rng = StdRng::seed_from_u64(2);
    let cor = Corridor::link((5, 5), (0, 0), &mut rng).unwrap();

    let exp_horz = vec![
        Corridor::new((0, 5), 5, CorridorType::Horizontal),
        Corridor::new((0, 0), 5, CorridorType::Vertical),
    ];
    let exp_vert = vec![
        Corridor::new((5, 0), 5, CorridorType::Vertical),
        Corridor::new((0, 0), 5, CorridorType::Horizontal),
    ];

    match cor[0].direction {
        CorridorType::Horizontal => assert_eq!(cor, exp_horz),
        CorridorType::Vertical => assert_eq!(cor, exp_vert),
    };
}

#[test]
fn test_link_corridors_returns_a_vec_of_corridors_on_reversed_vertical_points() {
    let mut rng = StdRng::seed_from_u64(3);
    let cor = Corridor::link((0, 5), (5, 0), &mut rng).unwrap();

    let exp_horz = vec![
        Corridor::new((0, 5), 5, CorridorType::Horizontal),
        Corridor::new((5, 0), 5, CorridorType::Vertical),
    ];
    let exp_vert = vec![
        Corridor::new((0, 0), 5, CorridorType::Vertical),
        Corridor::new((0, 0), 5, CorridorType::Horizontal),
    ];

    match cor[0].direction {
        CorridorType::Horizontal => assert_eq!(cor, exp_horz),
        CorridorType::Vertical => assert_eq!(cor, exp_vert),
    };
}

#[test]
fn test_link_corridors_returns_a_vec_of_corridors_on_reversed_horizontal_points() {
    let mut rng = StdRng::seed_from_u64(4);
    let cor = Corridor::link((5, 0), (0, 5), &mut rng).unwrap();

    let exp_horz = vec![
        Corridor::new((0, 0), 5, CorridorType::Horizontal),
        Corridor::new((0, 0), 5, CorridorType::Vertical),
    ];
    let exp_vert = vec![
        Corridor::new((5, 0), 5, CorridorType::Vertical),
        Corridor::new((0, 5), 5, CorridorType::Horizontal),
    ];

    match cor[0].direction {
        CorridorType::Horizontal => assert_eq!(cor, exp_horz),
        CorridorType::Vertical => assert_eq!(cor, exp_vert),
    };
}

#[test]
fn test_link_corridors_with_horizontal_aligned_points_returns_one_corridor() {
    let mut rng = StdRng::seed_from_u64(5);
    let cor = Corridor::link((0, 0), (5, 0), &mut rng).unwrap();

    assert_eq!(cor.len(), 1);
    assert_eq!(cor[0], Corridor::new((0, 0), 5, CorridorType::Horizontal));
}

#[test]
fn test_link_corridors_with_vertical_aligned_points_returns_one_corridor() {
    let mut rng = StdRng::seed_from_u64(6);
    let cor = Corridor::link((0, 0), (0, 5), &mut rng).unwrap();

    assert_eq!(cor.len(), 1);
    assert_eq!(cor[0], Corridor::new((0, 0), 5, CorridorType::Vertical));
}

#[test]
fn link_via_takes_the_chosen_elbow() {
    let horizontal = Corridor::link_via((0, 0), (5, 5), true).unwrap();
    assert_eq!(
        horizontal,
        vec![
            Corridor::new((0, 0), 5, CorridorType::Horizontal),
            Corridor::new((5, 0), 5, CorridorType::Vertical),
        ]
    );
    let vertical = Corridor::link_via((0, 0), (5, 5), false).unwrap();
    assert_eq!(
        vertical,
        vec![
            Corridor::new((0, 0), 5, CorridorType::Vertical),
            Corridor::new((0, 5), 5, CorridorType::Horizontal),
        ]
    );
    assert_eq!(Corridor::link_via((2, 2), (2, 2), true), Err(GameError::DegenerateCorridor));
}

#[test]
fn both_elbows_come_up_over_many_seeds() {
    let mut seen_horizontal = false;
    let mut seen_vertical = false;
    for seed in 0..64 {
        let mut rng = StdRng::seed_from_u64(seed);
        let cor = Corridor::link((0, 0), (5, 5), &mut rng).unwrap();
        assert_eq!(cor.len(), 2);
        match cor[0].direction {
            CorridorType::Horizontal => seen_horizontal = true,
            CorridorType::Vertical => seen_vertical = true,
        }
    }
    assert!(seen_horizontal && seen_vertical);
}

#[test]
fn make_errors_are_degenerate_corridors() {
    assert_eq!(Corridor::make((1, 1), (1, 1)), Err(GameError::DegenerateCorridor));
    assert_eq!(Corridor::make((3, 3), (5, 5)), Err(GameError::DegenerateCorridor));
    assert_eq!(Corridor::make((5, 7), (5, 2)), Ok(Corridor::new((5, 2), 5, CorridorType::Vertical)));
}

#[test]
fn movements_refuse_negative_coordinates() {
    assert_eq!(apply_movement((0, 0), LEFT), Err(GameError::OutOfBounds));
    assert_eq!(apply_movement((0, 0), UP), Err(GameError::OutOfBounds));
    assert_eq!(apply_movement((0, 0), RIGHT), Ok((1, 0)));
    assert_eq!(apply_movement((0, 0), DOWN), Ok((0, 1)));
    assert_eq!(apply_movement((2, 3), (1, -1)), Ok((3, 2)));
    assert_eq!(apply_movement((200, 3), (-128, 127)), Ok((72, 130)));
}

#[test]
fn room_centers_round_down() {
    let room = Room::new((2, 3), 5, 4);
    assert_eq!(room.center, (4, 5));
}

#[test]
fn rooms_paint_walls_around_a_floor() {
    let mut grid = TileGrid::new(8, 8);
    Room::new((1, 1), 4, 3).tile(&mut grid).unwrap();
    assert!(matches!(grid.tile_at(1, 1).tile_type, TileType::Wall));
    assert!(matches!(grid.tile_at(5, 4).tile_type, TileType::Wall));
    assert!(matches!(grid.tile_at(2, 2).tile_type, TileType::Floor));
    assert!(matches!(grid.tile_at(4, 3).tile_type, TileType::Floor));
    assert!(matches!(grid.tile_at(6, 2).tile_type, TileType::Empty));
}

#[test]
fn rooms_too_big_for_the_grid_are_refused() {
    let mut grid = TileGrid::new(5, 5);
    assert_eq!(Room::new((1, 1), 4, 2).tile(&mut grid), Err(GameError::RoomOutOfBounds));
    assert!(matches!(grid.tile_at(1, 1).tile_type, TileType::Empty));
}

#[test]
fn corridors_keep_room_walls_and_cap_their_ends() {
    let mut grid = TileGrid::new(8, 5);
    grid.set_tile(3, 1, Tile::from(TileType::Floor));
    Corridor::new((1, 2), 4, CorridorType::Horizontal).tile(&mut grid).unwrap();
    assert!(matches!(grid.tile_at(1, 2).tile_type, TileType::Floor));
    assert!(matches!(grid.tile_at(4, 2).tile_type, TileType::Floor));
    assert!(matches!(grid.tile_at(5, 2).tile_type, TileType::Wall));
    assert!(matches!(grid.tile_at(2, 1).tile_type, TileType::Wall));
    assert!(matches!(grid.tile_at(3, 1).tile_type, TileType::Floor));
    assert!(matches!(grid.tile_at(5, 3).tile_type, TileType::Wall));
    assert!(matches!(grid.tile_at(6, 2).tile_type, TileType::Empty));
    let mut edge = TileGrid::new(8, 5);
    assert_eq!(
        Corridor::new((0, 1), 3, CorridorType::Vertical).tile(&mut edge),
        Err(GameError::OutOfBounds)
    );
}

#[test]
fn tiny_levels_cannot_hold_rooms() {
    let mut rng = StdRng::seed_from_u64(9);
    let mut level = Level::new(4, 4, 1, None);
    assert_eq!(level.generate(&mut rng), Err(GameError::RoomOutOfBounds));
}

#[test]
fn too_deep_levels_are_refused() {
    let mut rng = StdRng::seed_from_u64(9);
    let mut level = Level::new(80, 22, MAX_DEPTH + 1, None);
    assert_eq!(level.generate(&mut rng), Err(GameError::GenerationFailed));
}

fn inside(room: &Room, p: (usize, usize)) -> bool {
    room.start.0 < p.0 && p.0 < room.start.0 + room.width && room.start.1 < p.1 && p.1 < room.start.1 + room.height
}

fn apart(a: &Room, b: &Room) -> bool {
    !(a.start.0 < b.start.0 + b.width + 2
        && a.start.0 + a.width + 2 > b.start.0
        && a.start.1 < b.start.1 + b.height + 2
        && a.start.1 + a.height + 2 > b.start.1)
}

#[test]
fn generated_levels_keep_rooms_apart_and_enemies_inside() {
    for seed in 0..20 {
        let mut rng = StdRng::seed_from_u64(seed);
        let mut level = Level::new(80, 22, 3, None);
        level.generate(&mut rng).unwrap();
        let n = level.rooms.len();
        assert!(3 <= n && n <= 4);
        for i in 0..n {
            let room = &level.rooms[i];
            assert!(4 <= room.width && room.width < 12 && 4 <= room.height && room.height < 12);
            for j in 0..n {
                if i != j {
                    assert!(apart(room, &level.rooms[j]));
                }
            }
        }
        assert_eq!(level.entities.len(), n * 3 / 2);
        for e in level.entities.iter() {
            // Enemies never land in the last room.
            assert!(level.rooms[..n - 1].iter().any(|r| inside(r, e.location)));
        }
        assert_eq!(level.start_point(), level.rooms[0].center);
        assert_eq!(level.exit(), level.rooms[n - 1].center);
        let grid = level.to_tilegrid().unwrap();
        assert!(matches!(grid.tile_at(level.exit().0, level.exit().1).tile_type, TileType::StairsDown));
        let start = level.start_point();
        assert!(matches!(grid.tile_at(start.0, start.1).tile_type, TileType::StairsUp));
    }
}

#[test]
fn forced_entrances_get_a_room_centered_on_them() {
    let mut rng = StdRng::seed_from_u64(11);
    let mut level = Level::new(80, 22, 2, Some((40, 10)));
    level.generate(&mut rng).unwrap();
    assert_eq!(level.rooms[0].center, (40, 10));
    assert_eq!(level.start_point(), (40, 10));
    let mut cramped = Level::new(80, 22, 2, Some((1, 10)));
    assert_eq!(cramped.generate(&mut rng), Err(GameError::RoomOutOfBounds));
}

#[test]
fn dungeons_link_each_level_to_the_next() {
    for seed in 0..10 {
        let mut rng = StdRng::seed_from_u64(seed);
        let mut dungeon = Dungeon::new(80, 22, 5);
        dungeon.generate(&mut rng).unwrap();
        assert_eq!(dungeon.levels.len(), 5);
        assert_eq!(dungeon.depth(), 5);
        assert_eq!(dungeon.xsize(), 80);
        assert_eq!(dungeon.ysize(), 22);
        for i in 0..5 {
            assert_ne!(dungeon.levels[i].exit(), (0, 0));
            assert_eq!(dungeon.levels[i].depth, i + 1);
            if i + 1 < 5 {
                assert_eq!(dungeon.levels[i + 1].start_point(), dungeon.levels[i].exit());
            }
        }
    }
}

#[test]
fn failed_dungeons_keep_no_level() {
    let mut rng = StdRng::seed_from_u64(0);
    let mut dungeon = Dungeon::new(4, 4, 3);
    assert_eq!(dungeon.generate(&mut rng), Err(GameError::RoomOutOfBounds));
    assert_eq!(dungeon.levels.len(), 0);
}

#[test]
fn room_sizes_and_counts_vary_with_the_seed() {
    let mut widths = vec![];
    let mut counts = vec![];
    for seed in 0..30 {
        let mut rng = StdRng::seed_from_u64(seed);
        let mut level = Level::new(80, 22, 1, None);
        level.generate(&mut rng).unwrap();
        counts.push(level.rooms.len());
        for room in level.rooms.iter() {
            widths.push(room.width);
        }
    }
    assert!(widths.iter().any(|w| *w != widths[0]));
    assert!(counts.contains(&3) && counts.contains(&4));
}

#[test]
fn an_empty_dungeon_generates_at_once() {
    let mut rng = StdRng::seed_from_u64(0);
    let mut dungeon = Dungeon::new(4, 4, 0);
    assert_eq!(dungeon.generate(&mut rng), Ok(()));
    assert_eq!(dungeon.levels.len(), 0);
}

#[test]
fn tilegrid_errors_name_what_does_not_fit() {
    let mut level = Level::new(10, 10, 1, None);
    level.rooms.push(Room::new((5, 5), 6, 3));
    assert!(matches!(level.to_tilegrid(), Err(GameError::RoomOutOfBounds)));
    let mut level = Level::new(10, 10, 1, None);
    level.rooms.push(Room::new((1, 1), 4, 4));
    level.corridors.push(Corridor::new((3, 0), 4, CorridorType::Horizontal));
    assert!(matches!(level.to_tilegrid(), Err(GameError::OutOfBounds)));
    let mut level = Level::new(10, 10, 1, None);
    level.rooms.push(Room::new((1, 1), 4, 4));
    level.exit = (12, 3);
    assert!(matches!(level.to_tilegrid(), Err(GameError::OutOfBounds)));
}

#[test]
fn centered_rooms_stay_small_near_edges() {
    for seed in 0..20 {
        let mut rng = StdRng::seed_from_u64(seed);
        let mut level = Level::new(80, 22, 2, Some((3, 10)));
        level.generate(&mut rng).unwrap();
        assert_eq!(level.rooms[0].center, (3, 10));
        assert!(3 <= level.rooms[0].width && level.rooms[0].width < 6);
    }
}
