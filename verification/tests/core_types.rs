use evo_wasm::types::{Direction, Position, Tile, TileType};

#[test]
fn test_position_wrap() {
    let pos = Position::new(5, 5);
    let wrapped = pos.wrap(10, 10);
    assert_eq!(wrapped, Position::new(5, 5));

    let pos = Position::new(-1, -1);
    let wrapped = pos.wrap(10, 10);
    assert_eq!(wrapped, Position::new(9, 9));

    let pos = Position::new(10, 10);
    let wrapped = pos.wrap(10, 10);
    assert_eq!(wrapped, Position::new(0, 0));
}

#[test]
fn test_manhattan_distance() {
    let pos1 = Position::new(0, 0);
    let pos2 = Position::new(3, 4);
    assert_eq!(pos1.manhattan_distance(&pos2), 7);
}

#[test]
fn test_direction_delta() {
    assert_eq!(Direction::North.to_delta(), (0, -1));
    assert_eq!(Direction::South.to_delta(), (0, 1));
    assert_eq!(Direction::East.to_delta(), (1, 0));
    assert_eq!(Direction::West.to_delta(), (-1, 0));
}

#[test]
fn wrap_of_far_negative_coordinates() {
    let pos = Position::new(-23, 37);
    assert_eq!(pos.wrap(10, 7), Position::new(7, 2));
}

#[test]
fn add_shifts_both_coordinates() {
    assert_eq!(Position::new(2, 3).add(-5, 4), Position::new(-3, 7));
}

#[test]
fn all_directions_are_distinct_unit_steps() {
    let all = Direction::all();
    assert_eq!(all.len(), 8);
    assert_eq!(all[4], Direction::NorthEast);
    let mut deltas: Vec<(i32, i32)> = all.iter().map(|d| d.to_delta()).collect();
    deltas.sort();
    deltas.dedup();
    assert_eq!(deltas.len(), 8);
    assert!(!deltas.contains(&(0, 0)));
}

#[test]
fn tile_constructors() {
    assert_eq!(Tile::empty().tile_type, TileType::Empty);
    let r = Tile::resource(50, 100);
    assert_eq!((r.tile_type, r.resource_amount, r.max_resource), (TileType::Resource, 50, 100));
    assert_eq!(Tile::obstacle().tile_type, TileType::Obstacle);
    assert_eq!(Tile::hazard().tile_type, TileType::Hazard);
}

/// Logistic growth of a tile's resource at a rate, truncated to an integer.
fn logistic_growth(tile: &Tile, rate: f32) -> i32 {
    (rate * tile.resource_amount as f32 * (1.0 - tile.resource_amount as f32 / tile.max_resource as f32)) as i32
}

#[test]
fn test_tile_regeneration() {
    let mut tile = Tile::resource(50, 100);
    let growth = logistic_growth(&tile, 0.1);
    tile.grow(growth);
    assert!(tile.resource_amount > 50);
    assert!(tile.resource_amount <= 100);
}

#[test]
fn test_tile_growth_is_at_least_one_and_capped() {
    let mut tile = Tile::resource(99, 100);
    tile.grow(0);
    assert_eq!(tile.resource_amount, 100);
    tile.grow(5);
    assert_eq!(tile.resource_amount, 100);
    let mut other = Tile::resource(10, 100);
    other.grow(7);
    assert_eq!(other.resource_amount, 17);
    let mut rock = Tile::obstacle();
    rock.grow(3);
    assert_eq!(rock, Tile::obstacle());
}
