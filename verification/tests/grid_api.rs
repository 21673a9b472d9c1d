use hauberk::Grid;
use hauberk::Tile;

#[test]
fn new_grid_coerces_even_dimensions() {
    let g = Grid::new(10, 10);
    assert_eq!(g.get_width(), 9);
    assert_eq!(g.get_height(), 9);
    let g2 = Grid::new(21, 43);
    assert_eq!(g2.get_width(), 21);
    assert_eq!(g2.get_height(), 43);
}

#[test]
fn new_grid_is_all_walls() {
    let g = Grid::new(9, 7);
    for x in 0..g.get_width() {
        for y in 0..g.get_height() {
            assert!(!g.is_open(x, y));
            assert_eq!(g.get(x, y), Tile::wall());
        }
    }
}

#[test]
fn set_tile_changes_only_the_one_cell() {
    let mut g = Grid::new(9, 9);
    g.set_tile(4, 5, Tile::empty());
    for x in 0..9 {
        for y in 0..9 {
            assert_eq!(g.is_open(x, y), x == 4 && y == 5);
        }
    }
}

#[test]
fn neighbor_count_sees_the_cardinal_cells_only() {
    let mut g = Grid::new(9, 9);
    g.set_tile(4, 4, Tile::empty());
    g.set_tile(4, 3, Tile::empty());
    g.set_tile(5, 4, Tile::empty());
    g.set_tile(5, 5, Tile::empty());  // diagonal: must not count
    assert_eq!(g.open_neighbor_count(4, 4), 2);
    assert_eq!(g.open_neighbor_count(4, 3), 1);
}
