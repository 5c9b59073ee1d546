//! Discrete grid simulation for a block-pushing puzzle game: a grid store,
//! movable bodies with a shared move timer, gravity, push resolution and
//! win detection, all driven one tick at a time.

pub mod countdown;
pub mod game;
pub mod game_grid;
pub mod grid_cell;
pub mod grid_physics;
pub mod laws;
pub mod level;
pub mod model;
pub mod player;
pub mod preservation;
pub mod tile_map;

pub use countdown::Countdown;
pub use game::{GameLevel, Level, LevelReset, PlayerSpawned, WinTimer};
pub use game_grid::GameGrid;
pub use grid_cell::{GridCell, GridCellType};
pub use grid_physics::{BlockNextMove, GridEntity, MoveTimer};
pub use level::{LevelDescriptor, LoadError};
pub use model::LevelModel;
pub use player::{Facing, InputOutcome, SimError};
pub use tile_map::MapError;
