use roguerust::tiling::{tile_to_str, Tile, TileGrid, TileType};

#[test]
fn new_tilegrid_is_populated_by_empty_invisible_tiles() {
    const GRID_SIZE: usize = 2;
    let grid = TileGrid::new(GRID_SIZE, GRID_SIZE);
    for x in 0..2 {
        for y in 0..2 {
            assert!(match grid.tile_at(x, y).tile_type {
                TileType::Empty => true,
                _ => false,
            });
            assert_eq!(grid.tile_at(x, y).is_visible(), false);
        }
    }
}

#[test]
fn tiles_can_be_revealed() {
    let mut tile = Tile::from(TileType::Wall);
    assert_eq!(tile.visible, false);
    assert_eq!(tile.is_visible(), false);
    tile.visibility(true);
    assert_eq!(tile.visible, true);
    assert_eq!(tile.is_visible(), true);
}

#[test]
fn tilegrid_can_reveal_tiles() {
    let mut grid = TileGrid::new(1, 1);
    grid.uncover(0, 0);
    assert_eq!(grid.raw_data()[0][0].is_visible(), true);
    assert_eq!(grid.tile_at(0, 0).is_visible(), true);
}

#[test]
fn test_clear_fog_of_war() {
    let mut grid = TileGrid::new(5, 5);

    grid.clear_fog_of_war(&(2, 2), 1);

    assert_eq!(grid.tile_at(0, 0).is_visible(), false);
    assert_eq!(grid.tile_at(1, 0).is_visible(), false);
    assert_eq!(grid.tile_at(2, 0).is_visible(), false);
    assert_eq!(grid.tile_at(3, 0).is_visible(), false);
    assert_eq!(grid.tile_at(4, 0).is_visible(), false);

    assert_eq!(grid.tile_at(0, 1).is_visible(), false);
    assert_eq!(grid.tile_at(1, 1).is_visible(), true);
    assert_eq!(grid.tile_at(2, 1).is_visible(), true);
    assert_eq!(grid.tile_at(3, 1).is_visible(), true);
    assert_eq!(grid.tile_at(4, 1).is_visible(), false);

    assert_eq!(grid.tile_at(0, 2).is_visible(), false);
    assert_eq!(grid.tile_at(1, 2).is_visible(), true);
    assert_eq!(grid.tile_at(2, 2).is_visible(), true);
    assert_eq!(grid.tile_at(3, 2).is_visible(), true);
    assert_eq!(grid.tile_at(4, 2).is_visible(), false);

    assert_eq!(grid.tile_at(0, 3).is_visible(), false);
    assert_eq!(grid.tile_at(1, 3).is_visible(), true);
    assert_eq!(grid.tile_at(2, 3).is_visible(), true);
    assert_eq!(grid.tile_at(3, 3).is_visible(), true);
    assert_eq!(grid.tile_at(4, 3).is_visible(), false);

    assert_eq!(grid.tile_at(0, 4).is_visible(), false);
    assert_eq!(grid.tile_at(1, 4).is_visible(), false);
    assert_eq!(grid.tile_at(2, 4).is_visible(), false);
    assert_eq!(grid.tile_at(3, 4).is_visible(), false);
    assert_eq!(grid.tile_at(4, 4).is_visible(), false);
}

fn open_floor(size: usize) -> TileGrid {
    let mut grid = TileGrid::new(size, size);
    grid.paint_rect(0, 0, size - 1, size - 1, Tile::from(TileType::Floor), true);
    grid
}

#[test]
fn sight_stops_at_the_first_wall() {
    let mut grid = open_floor(9);
    grid.set_tile(6, 4, Tile::from(TileType::Wall));
    grid.clear_fog_of_war(&(4, 4), 4);
    assert!(grid.tile_at(4, 4).is_visible());
    assert!(grid.tile_at(5, 4).is_visible());
    assert!(grid.tile_at(6, 4).is_visible());
    assert!(!grid.tile_at(7, 4).is_visible());
    assert!(!grid.tile_at(8, 4).is_visible());
    assert!(grid.tile_at(6, 4).is_lit());
    assert!(!grid.tile_at(7, 4).is_lit());
}

#[test]
fn sight_in_the_open_reaches_the_perimeter() {
    let mut grid = open_floor(9);
    grid.clear_fog_of_war(&(4, 4), 2);
    assert!(grid.tile_at(2, 2).is_visible());
    assert!(grid.tile_at(6, 6).is_visible());
    assert!(grid.tile_at(6, 3).is_visible());
    assert!(!grid.tile_at(1, 4).is_visible());
    assert!(!grid.tile_at(4, 7).is_visible());
}

#[test]
fn zero_radius_reveals_only_the_center() {
    let mut grid = open_floor(5);
    grid.clear_fog_of_war(&(2, 2), 0);
    for x in 0..5 {
        for y in 0..5 {
            assert_eq!(grid.tile_at(x, y).is_visible(), x == 2 && y == 2);
        }
    }
}

#[test]
fn a_second_smaller_sweep_hides_nothing() {
    let mut grid = open_floor(9);
    grid.clear_fog_of_war(&(4, 4), 3);
    let mut before = vec![];
    for y in 0..9 {
        for x in 0..9 {
            before.push(grid.tile_at(x, y).is_visible());
        }
    }
    grid.clear_fog_of_war(&(4, 4), 1);
    for y in 0..9 {
        for x in 0..9 {
            if before[y * 9 + x] {
                assert!(grid.tile_at(x, y).is_visible());
            }
        }
    }
    // Only the small square is lit now.
    assert!(grid.tile_at(4, 1).is_visible());
    assert!(!grid.tile_at(4, 1).is_lit());
    assert!(grid.tile_at(4, 3).is_lit());
}

#[test]
fn sweeps_keep_cells_seen_from_elsewhere() {
    let mut grid = open_floor(9);
    grid.clear_fog_of_war(&(1, 1), 1);
    grid.clear_fog_of_war(&(7, 7), 1);
    assert!(grid.tile_at(0, 0).is_visible());
    assert!(!grid.tile_at(0, 0).is_lit());
    assert!(grid.tile_at(8, 8).is_lit());
}

#[test]
fn set_empty_tile_keeps_what_lies_underneath() {
    let mut grid = TileGrid::new(3, 3);
    grid.set_tile(1, 1, Tile::from(TileType::Floor));
    grid.set_empty_tile(1, 1, Tile::from(TileType::Wall));
    grid.set_empty_tile(0, 1, Tile::from(TileType::Wall));
    assert!(matches!(grid.tile_at(1, 1).tile_type, TileType::Floor));
    assert!(matches!(grid.tile_at(0, 1).tile_type, TileType::Wall));
    assert!(matches!(grid.block_at(0, 0).tile_type, TileType::Wall));
    assert_eq!(grid.xsize(), 3);
    assert_eq!(grid.ysize(), 3);
}

#[test]
fn opacity_follows_the_tile_type() {
    assert!(Tile::from(TileType::Wall).is_opaque());
    assert!(Tile::from(TileType::Empty).is_opaque());
    assert!(!Tile::from(TileType::Floor).is_opaque());
    assert!(!Tile::from(TileType::StairsDown).is_opaque());
    let mut tile = Tile::from(TileType::Floor);
    tile.visibility(true);
    tile.lit(true);
    assert!(!tile.is_opaque());
    tile.opacity(true);
    assert!(tile.is_opaque());
    assert!(matches!(tile.get_type(), TileType::Floor));
    let made = Tile::new(TileType::Player, true, false, true);
    assert!(made.is_visible() && made.is_lit() && !made.is_opaque());
}

#[test]
fn tiles_render_as_their_glyphs() {
    let shown = |t: TileType| {
        let mut tile = Tile::from(t);
        tile.visibility(true);
        tile
    };
    assert_eq!(tile_to_str(&shown(TileType::Floor)), ".");
    assert_eq!(tile_to_str(&shown(TileType::Wall)), "#");
    assert_eq!(tile_to_str(&shown(TileType::Empty)), " ");
    assert_eq!(tile_to_str(&shown(TileType::StairsDown)), ">");
    assert_eq!(tile_to_str(&shown(TileType::StairsUp)), "<");
    assert_eq!(tile_to_str(&shown(TileType::Player)), "@");
    assert_eq!(tile_to_str(&shown(TileType::Character("s"))), "s");
    assert_eq!(tile_to_str(&Tile::from(TileType::Wall)), " ");
}
