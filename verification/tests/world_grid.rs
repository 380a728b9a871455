use evo_wasm::types::{Position, Tile, TileType};
use evo_wasm::world::grid::Grid;

#[test]
fn test_grid_creation() {
    let grid = Grid::new(10, 10);
    assert_eq!(grid.width, 10);
    assert_eq!(grid.height, 10);
    assert_eq!(grid.tiles.len(), 100);
}

#[test]
fn test_toroidal_wrapping() {
    let grid = Grid::new(10, 10);

    let pos = Position::new(-1, -1);
    let tile = grid.get(pos);
    // Should wrap to (9, 9)
    assert_eq!(tile.tile_type, TileType::Empty);

    let pos = Position::new(10, 10);
    let tile = grid.get(pos);
    // Should wrap to (0, 0)
    assert_eq!(tile.tile_type, TileType::Empty);
}

#[test]
fn test_neighbors() {
    let grid = Grid::new(10, 10);
    let pos = Position::new(5, 5);
    let neighbors = grid.neighbors(pos, 1);

    // Should have 8 neighbors
    assert_eq!(neighbors.len(), 8);
}

#[test]
fn neighbors_are_listed_row_by_row_without_the_centre() {
    let mut grid = Grid::new(4, 4);
    grid.set(Position::new(0, 0), Tile::obstacle());
    let n = grid.neighbors(Position::new(0, 0), 1);
    let positions: Vec<(i32, i32)> = n.iter().map(|(p, _)| (p.x, p.y)).collect();
    assert_eq!(positions, vec![(-1, -1), (0, -1), (1, -1), (-1, 0), (1, 0), (-1, 1), (0, 1), (1, 1)]);
    // (3, 3) wraps onto nothing special, the obstacle at the origin is not among them.
    assert!(n.iter().all(|(_, t)| t.tile_type == TileType::Empty));
    assert_eq!(grid.neighbors(Position::new(1, 1), 2).len(), 24);
    assert_eq!(grid.neighbors(Position::new(1, 1), 0).len(), 0);
}

#[test]
fn set_then_get_through_wrapping() {
    let mut grid = Grid::new(5, 3);
    grid.set(Position::new(-1, 4), Tile::resource(7, 9));
    let t = grid.get(Position::new(4, 1));
    assert_eq!((t.tile_type, t.resource_amount), (TileType::Resource, 7));
    grid.get_mut(Position::new(9, -2)).resource_amount = 3;
    assert_eq!(grid.get(Position::new(4, 1)).resource_amount, 3);
}

#[test]
fn positions_follow_cell_order() {
    let grid = Grid::new(3, 2);
    let ps: Vec<(i32, i32)> = grid.positions().iter().map(|p| (p.x, p.y)).collect();
    assert_eq!(ps, vec![(0, 0), (1, 0), (2, 0), (0, 1), (1, 1), (2, 1)]);
    assert_eq!(grid.index_to_pos(4), Position::new(1, 1));
    let all = grid.iter();
    assert_eq!(all.len(), 6);
    assert_eq!(all[5].0, Position::new(2, 1));
}

#[test]
fn test_regenerate_resources() {
    let mut grid = Grid::new(10, 10);
    grid.set(Position::new(5, 5), Tile::resource(50, 100));

    let initial_amount = grid.get(Position::new(5, 5)).resource_amount;
    let rate: f32 = 0.1;
    for index in 0..100usize {
        let tile = grid.tiles[index];
        if tile.max_resource > 0 {
            let growth = (rate * tile.resource_amount as f32
                * (1.0 - tile.resource_amount as f32 / tile.max_resource as f32)) as i32;
            grid.grow_tile(index, growth);
        }
    }
    let new_amount = grid.get(Position::new(5, 5)).resource_amount;

    assert!(new_amount > initial_amount);
}

#[test]
fn a_roll_picks_the_tile_by_the_thresholds() {
    let c = evo_wasm::config::WorldConfig::default();
    assert_eq!(Grid::tile_from_roll(0, &c).tile_type, TileType::Obstacle);
    assert_eq!(Grid::tile_from_roll(838860, &c).tile_type, TileType::Obstacle);
    assert_eq!(Grid::tile_from_roll(838861, &c).tile_type, TileType::Hazard);
    let r = Grid::tile_from_roll(1174406, &c);
    assert_eq!((r.tile_type, r.resource_amount, r.max_resource), (TileType::Resource, 1000, 1000));
    assert_eq!(Grid::tile_from_roll(6207570, &c).tile_type, TileType::Empty);
    assert_eq!(Grid::tile_from_roll(0xff_ffff, &c).tile_type, TileType::Empty);
}
