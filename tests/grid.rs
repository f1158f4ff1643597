use hex_tactics::grid::Grid;

#[test]
fn grid_new() {
    let num_x = 13;
    let num_y = 10;
    let grid = Grid::new(num_x, num_y);

    assert_eq!(grid.hexes.len(), (num_x * num_y) as usize);

    let mut hexes = grid.hexes.into_iter();
    for x in 0..num_x {
        for y in 0..num_y {
            let hex = hexes.next().unwrap();

            assert_eq!(hex.x, x);
            assert_eq!(hex.y, y);
            assert_eq!(hex.unit.is_none(), true);
            assert_eq!(hex.content.is_none(), true);
        }
    }
}

#[test]
fn grid_get_hex_mut() {
    let mut grid = Grid::new(5, 5);

    // hex that exists
    let hex = grid.get_hex_mut(1, 2);

    assert!(hex.is_some());
    let hex = hex.unwrap();
    assert_eq!(hex.x, 1);
    assert_eq!(hex.y, 2);

    // hex that does not exists
    let hex = grid.get_hex_mut(3, 8);
    assert!(hex.is_none());
}
