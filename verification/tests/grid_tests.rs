use bsp_dungeon::grid::Grid;
use bsp_dungeon::grid::Tile;

#[test]
fn test_display_tile() {
    assert_eq!(".", Tile::Floor.render());
    assert_eq!("#", Tile::Wall.render());
}

#[test]
fn test_new_map() {
    let grid = Grid::new(3, 2);
    assert_eq!(3, grid.width());
    assert_eq!(2, grid.height());
    assert_eq!(
        vec![
            vec![Tile::Wall, Tile::Wall, Tile::Wall],
            vec![Tile::Wall, Tile::Wall, Tile::Wall],
        ],
        grid.tiles
    );
}

#[test]
fn test_display_map() {
    let grid = Grid::new(3, 2);
    assert_eq!("###\n###\n", grid.render());
}

#[test]
fn test_new_map_zero_dimensions() {
    let grid = Grid::new(0, 0);
    assert_eq!(0, grid.width());
    assert_eq!(0, grid.height());
    assert_eq!("", grid.render());
    let grid = Grid::new(4, 0);
    assert_eq!("", grid.render());
    let grid = Grid::new(0, 2);
    assert_eq!("\n\n", grid.render());
}
