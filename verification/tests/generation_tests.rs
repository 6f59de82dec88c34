use bsp_dungeon::bsp::generate;
use bsp_dungeon::grid::Grid;
use bsp_dungeon::grid::Tile;
use bsp_dungeon::map::MapError;

fn floor_cells(grid: &Grid) -> Vec<(usize, usize)> {
    let mut cells = Vec::new();
    for y in 0..grid.height() {
        for x in 0..grid.width() {
            if grid.tiles[y][x] == Tile::Floor {
                cells.push((x, y));
            }
        }
    }
    cells
}

fn floor_is_connected(grid: &Grid) -> bool {
    let cells = floor_cells(grid);
    if cells.is_empty() {
        return true;
    }
    let w = grid.width();
    let h = grid.height();
    let mut seen = vec![vec![false; w]; h];
    let mut queue = vec![cells[0]];
    seen[cells[0].1][cells[0].0] = true;
    let mut reached = 0usize;
    while let Some((x, y)) = queue.pop() {
        reached += 1;
        let mut neighbours = Vec::new();
        if x > 0 {
            neighbours.push((x - 1, y));
        }
        if x + 1 < w {
            neighbours.push((x + 1, y));
        }
        if y > 0 {
            neighbours.push((x, y - 1));
        }
        if y + 1 < h {
            neighbours.push((x, y + 1));
        }
        for (nx, ny) in neighbours {
            if grid.tiles[ny][nx] == Tile::Floor && !seen[ny][nx] {
                seen[ny][nx] = true;
                queue.push((nx, ny));
            }
        }
    }
    reached == cells.len()
}

#[test]
fn generate_rejects_an_oversized_minimum_room_size() {
    for (w, h, m) in [(10, 10, 10), (10, 20, 10), (20, 10, 10), (5, 40, 7), (40, 5, 7), (0, 0, 0)]
    {
        match generate(w, h, m, 1) {
            Err(MapError::MinimumRoomSizeMustBeSmallerThanGridSize) => {}
            Ok(_) => panic!("expected a minimum-room-size failure"),
        }
    }
}

#[test]
fn map_error_describes_itself() {
    let error = MapError::MinimumRoomSizeMustBeSmallerThanGridSize;
    assert_eq!(
        "Minimum room size must be smaller than grid size",
        error.description()
    );
}

#[test]
fn generate_keeps_the_requested_dimensions() {
    let grid = generate(48, 30, 4, 7).unwrap();
    assert_eq!(48, grid.width());
    assert_eq!(30, grid.height());
    assert_eq!(30, grid.tiles.len());
    for row in &grid.tiles {
        assert_eq!(48, row.len());
    }
}

#[test]
fn generate_carves_at_least_one_room() {
    let grid = generate(32, 32, 3, 11).unwrap();
    assert!(!floor_cells(&grid).is_empty());
    assert!(grid.render().contains('.'));
}

#[test]
fn generated_floor_is_fully_connected() {
    for seed in [0, 1, 2, 41, 997, 123456789] {
        let grid = generate(60, 40, 4, seed).unwrap();
        assert!(!floor_cells(&grid).is_empty());
        assert!(floor_is_connected(&grid));
    }
}

#[test]
fn generation_is_deterministic_for_a_fixed_seed() {
    let first = generate(50, 35, 5, 20250101).unwrap();
    let second = generate(50, 35, 5, 20250101).unwrap();
    assert_eq!(first.tiles, second.tiles);
    assert_eq!(first.render(), second.render());
    let other_seed = generate(50, 35, 5, 20250102).unwrap();
    assert_eq!(other_seed.tiles.len(), first.tiles.len());
}

#[test]
fn tiny_valid_inputs_still_generate() {
    let grid = generate(2, 2, 1, 3).unwrap();
    assert_eq!(2, grid.width());
    assert_eq!(2, grid.height());
    assert!(floor_is_connected(&grid));
}
