use carrier::{
    Facing, GameLevel, GridCell, GridCellType, InputOutcome, Level, LevelDescriptor, LoadError,
    PlayerSpawned, SimError,
};

const MOVE: u64 = 300_000;
const WIN: u64 = 2_000_000;

fn layer(width: usize, length: usize, value: &str) -> String {
    let row = vec![value; width].join(",");
    let mut text = String::new();
    for _ in 0..length {
        text.push_str(&row);
        text.push('\n');
    }
    text
}

/// Ground of tile 0 everywhere except at the given (x, z) holes.
fn ground_with_holes(width: usize, length: usize, holes: &[(usize, usize)]) -> String {
    let mut text = String::new();
    for z in 0..length {
        let row: Vec<&str> = (0..width)
            .map(|x| if holes.contains(&(x, z)) { "-1" } else { "0" })
            .collect();
        text.push_str(&row.join(","));
        text.push('\n');
    }
    text
}

fn level_one(player: GridCell, holes: &[(usize, usize)]) -> LevelDescriptor {
    LevelDescriptor {
        width: 8,
        length: 9,
        height: 2,
        tiles: vec![ground_with_holes(8, 9, holes), layer(8, 9, "-1")],
        player,
        blocks: vec![GridCell::new(2, 1, 2), GridCell::new(4, 1, 4), GridCell::new(2, 1, 6)],
        targets: vec![GridCell::new(6, 1, 5), GridCell::new(6, 1, 6), GridCell::new(6, 1, 7)],
        level: GameLevel::LevelOne,
        next: GameLevel::LevelTwo,
        move_duration: MOVE,
        win_duration: WIN,
    }
}

fn all_cells(level: &Level) -> Vec<Option<GridCellType>> {
    let mut cells = Vec::new();
    for y in 0..level.grid.get_height() {
        for z in 0..level.grid.get_length() {
            for x in 0..level.grid.get_width() {
                cells.push(level.grid.get(&GridCell::new(x, y, z)));
            }
        }
    }
    cells
}

#[test]
fn idle_level_does_not_change() {
    let mut level = Level::load(&level_one(GridCell::new(6, 1, 4), &[])).unwrap();
    let bodies = level.bodies.clone();
    let cells = all_cells(&level);
    for _ in 0..50 {
        assert_eq!(level.step(None, 16_000), Ok(InputOutcome::Ignored));
    }
    assert_eq!(level.bodies, bodies);
    assert_eq!(all_cells(&level), cells);
    assert_eq!(level.current, GameLevel::LevelOne);
}

#[test]
fn loaded_level_records_spawns() {
    let level = Level::load(&level_one(GridCell::new(6, 1, 4), &[])).unwrap();
    assert_eq!(level.grid.get(&GridCell::new(6, 1, 4)), Some(GridCellType::Player));
    assert_eq!(level.grid.get(&GridCell::new(2, 1, 2)), Some(GridCellType::MovingTile(0)));
    assert_eq!(level.grid.get(&GridCell::new(4, 1, 4)), Some(GridCellType::MovingTile(1)));
    assert_eq!(level.grid.get(&GridCell::new(2, 1, 6)), Some(GridCellType::MovingTile(2)));
    assert_eq!(level.grid.get(&GridCell::new(3, 0, 3)), Some(GridCellType::Tile(0)));
    assert_eq!(level.grid.get(&GridCell::new(3, 1, 3)), None);
    assert_eq!(level.bodies.len(), 4);
    assert_eq!(level.player_spawned, PlayerSpawned::Yes);
}

#[test]
fn push_moves_player_and_block_in_lockstep() {
    let mut level = Level::load(&level_one(GridCell::new(3, 1, 4), &[])).unwrap();
    assert_eq!(level.step(Some(Facing::Right), 0), Ok(InputOutcome::Pushed(1)));
    let player = level.bodies[0];
    let block = level.bodies[2];
    assert!(player.to_move && block.to_move);
    assert_eq!(player.velocity, GridCell::new(1, 0, 0));
    assert_eq!(block.velocity, player.velocity);
    // Half way: nobody has arrived, and input is blocked.
    assert_eq!(level.step(Some(Facing::Up), MOVE / 2), Ok(InputOutcome::Ignored));
    assert_eq!(level.bodies[0].position, GridCell::new(3, 1, 4));
    assert_eq!(level.bodies[2].position, GridCell::new(4, 1, 4));
    // The rest of the move duration: both arrive together.
    level.step(None, MOVE / 2).unwrap();
    assert_eq!(level.bodies[2].position, GridCell::new(5, 1, 4));
    assert_eq!(level.bodies[0].position, GridCell::new(4, 1, 4));
    assert!(!level.bodies[0].to_move && !level.bodies[2].to_move);
    assert_eq!(level.bodies[0].velocity, GridCell::new(0, 0, 0));
    assert_eq!(level.grid.get(&GridCell::new(5, 1, 4)), Some(GridCellType::MovingTile(1)));
    assert_eq!(level.grid.get(&GridCell::new(4, 1, 4)), Some(GridCellType::Player));
    assert_eq!(level.grid.get(&GridCell::new(3, 1, 4)), None);
    assert!(!level.block_next_move.0);
}

#[test]
fn push_into_occupied_cell_is_refused() {
    let mut desc = level_one(GridCell::new(3, 1, 4), &[]);
    desc.blocks.push(GridCell::new(5, 1, 4));
    let mut level = Level::load(&desc).unwrap();
    let before = level.bodies.clone();
    assert_eq!(level.step(Some(Facing::Right), 0), Ok(InputOutcome::Refused));
    assert_eq!(level.bodies, before);
    assert_eq!(level.bodies[0].velocity, GridCell::new(0, 0, 0));
    assert_eq!(level.bodies[2].velocity, GridCell::new(0, 0, 0));
}

#[test]
fn walking_off_a_ledge_is_refused() {
    let mut level = Level::load(&level_one(GridCell::new(6, 1, 4), &[(5, 4)])).unwrap();
    assert_eq!(level.step(Some(Facing::Left), 0), Ok(InputOutcome::Refused));
    assert_eq!(level.bodies[0].position, GridCell::new(6, 1, 4));
    assert!(!level.bodies[0].to_move);
}

#[test]
fn walking_onto_supported_cell() {
    let mut level = Level::load(&level_one(GridCell::new(6, 1, 4), &[])).unwrap();
    assert_eq!(level.step(Some(Facing::Down), 0), Ok(InputOutcome::Walked));
    assert!(level.block_next_move.0);
    level.step(None, MOVE).unwrap();
    assert_eq!(level.bodies[0].position, GridCell::new(6, 1, 5));
    assert_eq!(level.grid.get(&GridCell::new(6, 1, 5)), Some(GridCellType::Player));
    assert_eq!(level.grid.get(&GridCell::new(6, 1, 4)), None);
}

#[test]
fn wall_tile_refuses_move() {
    let mut desc = level_one(GridCell::new(6, 1, 4), &[]);
    let mut upper = String::new();
    for z in 0..9 {
        let row: Vec<&str> = (0..8).map(|x| if x == 7 && z == 4 { "1" } else { "-1" }).collect();
        upper.push_str(&row.join(","));
        upper.push('\n');
    }
    desc.tiles[1] = upper;
    let mut level = Level::load(&desc).unwrap();
    assert_eq!(level.step(Some(Facing::Right), 0), Ok(InputOutcome::Refused));
    assert_eq!(level.bodies[0].position, GridCell::new(6, 1, 4));
}

#[test]
fn leaving_the_grid_is_an_error() {
    let mut level = Level::load(&level_one(GridCell::new(0, 1, 4), &[])).unwrap();
    let before = level.bodies.clone();
    assert_eq!(
        level.step(Some(Facing::Left), 0),
        Err(SimError::OutOfBounds(GridCell::new(-1, 1, 4)))
    );
    assert_eq!(level.bodies, before);
}

#[test]
fn pushed_block_falls_into_hole_and_settles() {
    let mut level = Level::load(&level_one(GridCell::new(3, 1, 4), &[(5, 4)])).unwrap();
    assert_eq!(level.step(Some(Facing::Right), 0), Ok(InputOutcome::Pushed(1)));
    // The push lands; the block is now above the hole and starts falling.
    level.step(None, MOVE).unwrap();
    assert_eq!(level.bodies[2].position, GridCell::new(5, 1, 4));
    assert!(level.bodies[2].to_move);
    assert_eq!(level.bodies[2].velocity, GridCell::new(0, -1, 0));
    assert!(level.block_next_move.0);
    assert_eq!(level.step(Some(Facing::Right), 0), Ok(InputOutcome::Ignored));
    // The fall lands on the floor and the block stays there.
    level.step(None, MOVE).unwrap();
    assert_eq!(level.bodies[2].position, GridCell::new(5, 0, 4));
    assert!(!level.bodies[2].to_move);
    for _ in 0..5 {
        level.step(None, MOVE).unwrap();
    }
    assert_eq!(level.bodies[2].position, GridCell::new(5, 0, 4));
    assert!(!level.bodies[2].to_move);
    assert_eq!(level.grid.get(&GridCell::new(5, 0, 4)), Some(GridCellType::MovingTile(1)));
    assert_eq!(level.grid.get(&GridCell::new(5, 1, 4)), None);
    // The filled hole carries the player now.
    assert_eq!(level.step(Some(Facing::Right), 0), Ok(InputOutcome::Walked));
}

fn solved_level() -> Level {
    let mut desc = level_one(GridCell::new(1, 1, 1), &[]);
    desc.blocks = vec![GridCell::new(6, 1, 5), GridCell::new(6, 1, 6), GridCell::new(6, 1, 7)];
    Level::load(&desc).unwrap()
}

#[test]
fn held_targets_complete_level() {
    let mut level = solved_level();
    level.step(None, WIN / 2).unwrap();
    assert_eq!(level.player_spawned, PlayerSpawned::Yes);
    assert_eq!(level.win_timer.0.elapsed, WIN / 2);
    assert!(level.block_next_move.0);
    assert_eq!(level.step(Some(Facing::Left), 0), Ok(InputOutcome::Ignored));
    level.step(None, WIN / 2).unwrap();
    assert_eq!(level.player_spawned, PlayerSpawned::No);
    assert_eq!(level.current, GameLevel::LevelTwo);
    assert_eq!(level.win_timer.0.elapsed, 0);
    // Nothing runs once the player is gone.
    assert_eq!(level.step(Some(Facing::Left), MOVE), Ok(InputOutcome::Ignored));
}

#[test]
fn unheld_target_resets_win_timer() {
    let mut level = Level::load(&level_one(GridCell::new(6, 1, 4), &[])).unwrap();
    level.win_timer.0.elapsed = 1_000_000;
    level.step(None, 16_000).unwrap();
    assert_eq!(level.win_timer.0.elapsed, 0);
    assert_eq!(level.current, GameLevel::LevelOne);
    assert_eq!(level.player_spawned, PlayerSpawned::Yes);
}

#[test]
fn reset_restores_fresh_load() {
    let desc = level_one(GridCell::new(3, 1, 4), &[(5, 4)]);
    let fresh = Level::load(&desc).unwrap();
    let mut level = Level::load(&desc).unwrap();
    level.step(Some(Facing::Right), 0).unwrap();
    level.step(None, MOVE).unwrap();
    level.step(None, MOVE).unwrap();
    assert_ne!(level.bodies, fresh.bodies);
    level.reset(&desc).unwrap();
    assert_eq!(level.bodies, fresh.bodies);
    assert_eq!(all_cells(&level), all_cells(&fresh));
    assert_eq!(level.move_timer, fresh.move_timer);
    assert_eq!(level.win_timer, fresh.win_timer);
    assert_eq!(level.block_next_move, fresh.block_next_move);
    assert_eq!(level.player_spawned, PlayerSpawned::Yes);
}

#[test]
fn failed_reset_leaves_level_unchanged() {
    let desc = level_one(GridCell::new(3, 1, 4), &[]);
    let mut level = Level::load(&desc).unwrap();
    level.step(Some(Facing::Right), 0).unwrap();
    let bodies = level.bodies.clone();
    let mut bad = desc.clone();
    bad.targets.push(GridCell::new(8, 1, 0));
    assert_eq!(level.reset(&bad), Err(LoadError::BadTarget(GridCell::new(8, 1, 0))));
    assert_eq!(level.bodies, bodies);
}

#[test]
fn spawn_on_tile_is_rejected() {
    let desc = level_one(GridCell::new(6, 0, 4), &[]);
    assert_eq!(
        Level::load(&desc).unwrap_err(),
        LoadError::BadSpawn(GridCell::new(6, 0, 4))
    );
}

#[test]
fn spawn_on_earlier_spawn_is_rejected() {
    let desc = level_one(GridCell::new(2, 1, 6), &[]);
    assert_eq!(
        Level::load(&desc).unwrap_err(),
        LoadError::BadSpawn(GridCell::new(2, 1, 6))
    );
}

#[test]
fn spawn_outside_grid_is_rejected() {
    let mut desc = level_one(GridCell::new(6, 1, 4), &[]);
    desc.blocks.push(GridCell::new(3, 2, 3));
    assert_eq!(
        Level::load(&desc).unwrap_err(),
        LoadError::BadSpawn(GridCell::new(3, 2, 3))
    );
}

fn assert_one_occupant_per_cell(level: &Level) {
    for (i, a) in level.bodies.iter().enumerate() {
        assert_eq!(level.grid.get(&a.position), Some(a.cell_type));
        for b in level.bodies.iter().skip(i + 1) {
            assert_ne!(a.position, b.position);
        }
    }
    let movers = all_cells(level)
        .into_iter()
        .filter(|c| matches!(c, Some(GridCellType::Player) | Some(GridCellType::MovingTile(_))))
        .count();
    assert_eq!(movers, level.bodies.len());
}

#[test]
fn occupancy_stays_unique_while_playing() {
    let mut level = Level::load(&level_one(GridCell::new(3, 1, 4), &[(6, 4)])).unwrap();
    let moves = [
        Facing::Right,
        Facing::Right,
        Facing::Right,
        Facing::Up,
        Facing::Left,
        Facing::Down,
        Facing::Down,
        Facing::Left,
    ];
    for f in moves {
        level.step(Some(f), 0).unwrap();
        assert_one_occupant_per_cell(&level);
        for _ in 0..4 {
            level.step(None, MOVE / 2).unwrap();
            assert_one_occupant_per_cell(&level);
        }
    }
    // The pushed block went down the hole at (6, 0, 4).
    assert_eq!(level.grid.get(&GridCell::new(6, 0, 4)), Some(GridCellType::MovingTile(1)));
}

#[test]
fn tall_fall_settles_on_floor() {
    let desc = LevelDescriptor {
        width: 3,
        length: 3,
        height: 4,
        tiles: vec![
            "0,0,0\n0,-1,0\n0,0,0\n".to_string(),
            layer(3, 3, "-1"),
            layer(3, 3, "-1"),
            layer(3, 3, "-1"),
        ],
        player: GridCell::new(0, 1, 0),
        blocks: vec![GridCell::new(1, 3, 1)],
        targets: vec![],
        level: GameLevel::LevelOne,
        next: GameLevel::LevelTwo,
        move_duration: MOVE,
        win_duration: WIN,
    };
    let mut level = Level::load(&desc).unwrap();
    let mut lowest = 3;
    for _ in 0..40 {
        level.step(None, MOVE / 3).unwrap();
        let y = level.bodies[1].position.y;
        assert!(y >= 0);
        assert!(y <= lowest);
        lowest = y;
    }
    assert_eq!(level.bodies[1].position, GridCell::new(1, 0, 1));
    assert!(!level.bodies[1].to_move);
    assert_eq!(level.grid.get(&GridCell::new(1, 0, 1)), Some(GridCellType::MovingTile(0)));
    for y in 1..4 {
        assert_eq!(level.grid.get(&GridCell::new(1, y, 1)), None);
    }
}
