use carrier::{Countdown, GameGrid, GameLevel, GridCell, GridCellType, LevelReset, MapError};

#[test]
fn new_grid_is_empty() {
    let grid = GameGrid::new(3, 2, 2);
    for y in 0..2 {
        for z in 0..2 {
            for x in 0..3 {
                assert_eq!(grid.get(&GridCell::new(x, y, z)), None);
            }
        }
    }
    assert_eq!(grid.lookup(&GridCell::new(3, 0, 0)), None);
    assert_eq!(grid.lookup(&GridCell::new(2, 1, 1)), Some(None));
    assert!(!grid.in_bounds(&GridCell::new(0, -1, 0)));
}

#[test]
fn negative_size_has_no_cells() {
    let grid = GameGrid::new(-2, 3, 1);
    assert!(!grid.in_bounds(&GridCell::new(0, 0, 0)));
}

#[test]
fn set_and_reset_grid() {
    let mut grid = GameGrid::new(2, 2, 1);
    grid.set(&GridCell::new(1, 0, 1), Some(GridCellType::Player));
    assert_eq!(grid.get(&GridCell::new(1, 0, 1)), Some(GridCellType::Player));
    assert_eq!(grid.get(&GridCell::new(0, 0, 1)), None);
    grid.reset(4, 1, 1);
    assert_eq!(grid.get(&GridCell::new(1, 0, 0)), None);
    assert_eq!(grid.get_width(), 4);
    assert!(!grid.in_bounds(&GridCell::new(1, 0, 1)));
}

#[test]
fn tiles_from_csv_places_tiles() {
    let tiles = vec!["0,1,-1\r\n2,+3,4\n".to_string(), "-1,-1,7".to_string()];
    let grid = GameGrid::new(3, 2, 2).tiles_from_csv(&tiles).unwrap();
    assert_eq!(grid.get(&GridCell::new(0, 0, 0)), Some(GridCellType::Tile(0)));
    assert_eq!(grid.get(&GridCell::new(1, 0, 0)), Some(GridCellType::Tile(1)));
    assert_eq!(grid.get(&GridCell::new(2, 0, 0)), None);
    assert_eq!(grid.get(&GridCell::new(0, 0, 1)), Some(GridCellType::Tile(2)));
    assert_eq!(grid.get(&GridCell::new(1, 0, 1)), Some(GridCellType::Tile(3)));
    assert_eq!(grid.get(&GridCell::new(2, 0, 1)), Some(GridCellType::Tile(4)));
    assert_eq!(grid.get(&GridCell::new(2, 1, 0)), Some(GridCellType::Tile(7)));
    assert_eq!(grid.get(&GridCell::new(0, 1, 1)), None);
}

#[test]
fn negative_entries_may_lie_outside() {
    let tiles = vec!["0,-1,-1,-1\n".to_string()];
    let grid = GameGrid::new(1, 1, 1).tiles_from_csv(&tiles).unwrap();
    assert_eq!(grid.get(&GridCell::new(0, 0, 0)), Some(GridCellType::Tile(0)));
}

#[test]
fn malformed_entry_is_reported() {
    let tiles = vec!["0,0\n0,x\n".to_string()];
    assert_eq!(
        GameGrid::new(2, 2, 1).tiles_from_csv(&tiles).unwrap_err(),
        MapError::BadEntry { layer: 0, line: 1, column: 1 }
    );
    let empty_entry = vec!["0,,0\n".to_string()];
    assert_eq!(
        GameGrid::new(3, 1, 1).tiles_from_csv(&empty_entry).unwrap_err(),
        MapError::BadEntry { layer: 0, line: 0, column: 1 }
    );
    let too_big = vec!["2147483648".to_string()];
    assert_eq!(
        GameGrid::new(1, 1, 1).tiles_from_csv(&too_big).unwrap_err(),
        MapError::BadEntry { layer: 0, line: 0, column: 0 }
    );
    let lowest = vec!["-2147483648".to_string()];
    assert!(GameGrid::new(1, 1, 1).tiles_from_csv(&lowest).is_ok());
}

#[test]
fn tile_outside_grid_is_reported() {
    let tiles = vec!["0,0\n".to_string(), "0,0,5\n".to_string()];
    assert_eq!(
        GameGrid::new(2, 1, 2).tiles_from_csv(&tiles).unwrap_err(),
        MapError::OutOfBounds { layer: 1, line: 0, column: 2 }
    );
    let too_many_layers = vec!["0".to_string(), "0".to_string()];
    assert_eq!(
        GameGrid::new(1, 1, 1).tiles_from_csv(&too_many_layers).unwrap_err(),
        MapError::OutOfBounds { layer: 1, line: 0, column: 0 }
    );
}

#[test]
fn first_fault_wins() {
    let tiles = vec!["0,9,q\n".to_string()];
    assert_eq!(
        GameGrid::new(1, 1, 1).tiles_from_csv(&tiles).unwrap_err(),
        MapError::OutOfBounds { layer: 0, line: 0, column: 1 }
    );
}

#[test]
fn cell_arithmetic() {
    let a = GridCell::new(1, 2, 3);
    let b = GridCell::new(-1, 5, 0);
    assert_eq!(a.add(b), GridCell::new(0, 7, 3));
    assert_eq!(a.sub(b), GridCell::new(2, -3, 3));
    let mut c = a;
    c.reset();
    assert!(c.is_zero());
    assert!(!a.is_zero());
    let min = GridCell::new(0, 0, 0);
    let max = GridCell::new(3, 3, 3);
    assert!(!a.out_of_bounds(min, max));
    assert!(GridCell::new(4, 0, 0).out_of_bounds(min, max));
    assert!(GridCell::new(0, -1, 0).out_of_bounds(min, max));
}

#[test]
fn countdown_saturates() {
    let mut t = Countdown::from_micros(300);
    t.tick(100);
    assert_eq!(t.elapsed, 100);
    assert!(!t.finished());
    t.tick(u64::MAX);
    assert_eq!(t.elapsed, 300);
    assert!(t.finished());
    t.reset();
    assert_eq!(t.elapsed, 0);
    assert!(Countdown::from_micros(0).finished());
}

#[test]
fn level_reset_resolves_once() {
    let mut r = LevelReset { level: GameLevel::Unset, reset: false };
    assert_eq!(r.resolve(GameLevel::Unset), None);
    r.request(GameLevel::LevelThree);
    assert_eq!(r.resolve(GameLevel::LevelThree), None);
    assert!(r.reset);
    assert_eq!(r.resolve(GameLevel::Unset), Some(GameLevel::LevelThree));
    assert!(!r.reset);
    assert_eq!(r.resolve(GameLevel::Unset), None);
}
