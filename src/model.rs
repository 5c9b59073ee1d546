use vstd::prelude::*;
use crate::countdown::Countdown;
use crate::game::{GameLevel, PlayerSpawned};
use crate::grid_cell::{GridCell, GridCellType, cell_sum, down_cell, zero_cell};
use crate::grid_physics::GridEntity;
use crate::player::{Facing, InputOutcome, SimError, step_of};

verus! {

/// The abstract state of a running level: the occupancy of every cell, the
/// bodies that can move (the player first, then the blocks), the target
/// cells, the shared timers and the flags that gate input and play.
pub struct LevelModel {
    pub grid: Map<GridCell, Option<GridCellType>>,
    pub bodies: Seq<GridEntity>,
    pub targets: Seq<GridCell>,
    pub move_timer: Countdown,
    pub win_timer: Countdown,
    pub block_next_move: bool,
    pub player_spawned: PlayerSpawned,
    pub current: GameLevel,
    pub next: GameLevel,
}

/// Whether some body is in the middle of a move.
pub open spec fn any_moving(bodies: Seq<GridEntity>) -> bool {
    exists|i: int| 0 <= i < bodies.len() && (#[trigger] bodies[i]).to_move
}

/// Every target cell holds a movable block.
pub open spec fn targets_held(grid: Map<GridCell, Option<GridCellType>>, targets: Seq<GridCell>) -> bool {
    forall|k: int| 0 <= k < targets.len() ==> (grid[#[trigger] targets[k]] matches Some(
        GridCellType::MovingTile(_),
    ))
}

/// A body that starts a move by `v`.
pub open spec fn launched(b: GridEntity, v: GridCell) -> GridEntity {
    GridEntity { velocity: v, to_move: true, ..b }
}

impl LevelModel {
    pub open spec fn player(self) -> GridEntity {
        self.bodies[0]
    }

    /// The player comes first, every other body is a block.
    #[verifier::opaque]
    pub open spec fn inv_kinds(self) -> bool {
        &&& self.bodies.len() >= 1
        &&& self.player().cell_type == GridCellType::Player
        &&& forall|i: int|
            1 <= i < self.bodies.len() ==> (#[trigger] self.bodies[i]).cell_type is MovingTile
    }

    /// Each body is recorded at its declared cell of the grid; a body at
    /// rest has no velocity and a moving one moves by a unit step.
    #[verifier::opaque]
    pub open spec fn inv_cells(self) -> bool {
        forall|i: int|
            0 <= i < self.bodies.len() ==> {
                &&& self.grid.dom().contains((#[trigger] self.bodies[i]).position)
                &&& self.grid[self.bodies[i].position] == Some(self.bodies[i].cell_type)
                &&& unit_step(self.bodies[i].velocity)
                &&& !self.bodies[i].to_move ==> self.bodies[i].velocity == zero_cell()
            }
    }

    /// No two bodies share a cell or an identity.
    #[verifier::opaque]
    pub open spec fn inv_distinct(self) -> bool {
        forall|i: int, j: int|
            0 <= i < self.bodies.len() && 0 <= j < self.bodies.len() && i != j ==> {
                &&& (#[trigger] self.bodies[i]).position != (#[trigger] self.bodies[j]).position
                &&& self.bodies[i].cell_type != self.bodies[j].cell_type
            }
    }

    /// A cell that records a player or a block is some body's declared cell.
    #[verifier::opaque]
    pub open spec fn inv_marked(self) -> bool {
        forall|c: GridCell|
            self.grid.dom().contains(c) && (#[trigger] self.grid[c]) is Some
                && self.grid[c].unwrap().is_mover() ==> exists|i: int|
                0 <= i < self.bodies.len() && (#[trigger] self.bodies[i]).position == c
    }

    /// A moving body heads for a cell of the grid that holds no static tile,
    /// no resting body and no other moving body's destination.
    #[verifier::opaque]
    pub open spec fn inv_moves(self) -> bool {
        &&& forall|i: int|
            0 <= i < self.bodies.len() && (#[trigger] self.bodies[i]).to_move ==> {
                &&& self.grid.dom().contains(self.bodies[i].destination())
                &&& !(self.grid[self.bodies[i].destination()] matches Some(GridCellType::Tile(_)))
            }
        &&& forall|i: int, j: int|
            0 <= i < self.bodies.len() && 0 <= j < self.bodies.len() && (#[trigger] self.bodies[i]).to_move
                && (#[trigger] self.bodies[j]).position == self.bodies[i].destination()
                ==> self.bodies[j].to_move
        &&& forall|i: int, j: int|
            0 <= i < self.bodies.len() && 0 <= j < self.bodies.len() && i != j
                && (#[trigger] self.bodies[i]).to_move && (#[trigger] self.bodies[j]).to_move
                ==> self.bodies[i].destination() != self.bodies[j].destination()
    }

    /// The well-formedness of a running level: the parts above, with every
    /// target a cell of the grid and both timers within their durations.
    pub open spec fn inv(self) -> bool {
        &&& self.inv_kinds()
        &&& self.inv_cells()
        &&& self.inv_distinct()
        &&& self.inv_marked()
        &&& self.inv_moves()
        &&& forall|k: int| 0 <= k < self.targets.len() ==> self.grid.dom().contains(#[trigger] self.targets[k])
        &&& self.move_timer.wf()
        &&& self.win_timer.wf()
    }

    /// The index of the block that carries identity `id`.
    pub open spec fn block_index(self, id: i32) -> int {
        choose|i: int| 0 <= i < self.bodies.len() && self.bodies[i].cell_type == GridCellType::MovingTile(id)
    }

    /// The cell the player would step into when facing `f`.
    pub open spec fn input_target(self, f: Facing) -> GridCell {
        cell_sum(self.player().position, step_of(f))
    }

    /// What a directional intent leads to. It is ignored while input is
    /// blocked or anything moves. Stepping onto an empty cell needs a
    /// non-empty cell below it; stepping into a block pushes it when the cell
    /// beyond the block is empty; everything else is refused. A cell outside
    /// the grid that has to be looked at is an error.
    pub open spec fn input_result(self, f: Facing) -> Result<InputOutcome, SimError> {
        let t = self.input_target(f);
        if self.block_next_move || any_moving(self.bodies) {
            Ok(InputOutcome::Ignored)
        } else if !self.grid.dom().contains(t) {
            Err(SimError::OutOfBounds(t))
        } else {
            match self.grid[t] {
                None => {
                    let below = cell_sum(t, down_cell());
                    if !self.grid.dom().contains(below) {
                        Err(SimError::OutOfBounds(below))
                    } else if self.grid[below] is None {
                        Ok(InputOutcome::Refused)
                    } else {
                        Ok(InputOutcome::Walked)
                    }
                },
                Some(GridCellType::MovingTile(id)) => {
                    let beyond = cell_sum(t, step_of(f));
                    if !self.grid.dom().contains(beyond) {
                        Err(SimError::OutOfBounds(beyond))
                    } else if self.grid[beyond] is None {
                        Ok(InputOutcome::Pushed(id))
                    } else {
                        Ok(InputOutcome::Refused)
                    }
                },
                Some(_) => Ok(InputOutcome::Refused),
            }
        }
    }

    /// The state after a directional intent: a walk sets the player moving,
    /// a push sets the player and the pushed block moving by the same step;
    /// either restarts the move timer and blocks further input. Anything else
    /// changes nothing.
    pub open spec fn after_input(self, f: Facing) -> LevelModel {
        let v = step_of(f);
        match self.input_result(f) {
            Ok(InputOutcome::Walked) => LevelModel {
                bodies: self.bodies.update(0, launched(self.player(), v)),
                move_timer: self.move_timer.restarted(),
                block_next_move: true,
                ..self
            },
            Ok(InputOutcome::Pushed(id)) => {
                let k = self.block_index(id);
                LevelModel {
                    bodies: self.bodies.update(0, launched(self.player(), v)).update(
                        k,
                        launched(self.bodies[k], v),
                    ),
                    move_timer: self.move_timer.restarted(),
                    block_next_move: true,
                    ..self
                }
            },
            _ => self,
        }
    }

    /// The grid once the moving bodies among the first `n` have left their
    /// declared cells.
    pub open spec fn vacated_upto(self, n: int) -> Map<GridCell, Option<GridCellType>>
        decreases n,
    {
        if n <= 0 {
            self.grid
        } else if self.bodies[n - 1].to_move {
            self.vacated_upto(n - 1).insert(self.bodies[n - 1].position, None)
        } else {
            self.vacated_upto(n - 1)
        }
    }

    /// The grid once every moving body has left its declared cell.
    pub open spec fn vacated(self) -> Map<GridCell, Option<GridCellType>> {
        self.vacated_upto(self.bodies.len() as int)
    }

    /// Advancing the shared move timer by `delta`; when it finishes, every
    /// moving body arrives at its destination together, and the cells they
    /// left are cleared.
    pub open spec fn after_move(self, delta: u64) -> LevelModel {
        let timer = self.move_timer.ticked(delta);
        if timer.is_finished() {
            LevelModel {
                grid: self.vacated(),
                bodies: self.bodies.map_values(|b: GridEntity| b.committed()),
                move_timer: timer,
                ..self
            }
        } else {
            LevelModel { move_timer: timer, ..self }
        }
    }

    /// The grid with each of the first `n` bodies recorded at its declared
    /// cell, in order.
    pub open spec fn published_upto(self, n: int) -> Map<GridCell, Option<GridCellType>>
        decreases n,
    {
        if n <= 0 {
            self.grid
        } else {
            self.published_upto(n - 1).insert(
                self.bodies[n - 1].position,
                Some(self.bodies[n - 1].cell_type),
            )
        }
    }

    /// The grid with every body recorded at its declared cell.
    pub open spec fn published(self) -> Map<GridCell, Option<GridCellType>> {
        self.published_upto(self.bodies.len() as int)
    }

    pub open spec fn after_publish(self) -> LevelModel {
        LevelModel { grid: self.published(), ..self }
    }

    /// Whether body `i` is a block at rest above the floor with an empty
    /// cell below it.
    pub open spec fn unsupported(self, i: int) -> bool {
        &&& 1 <= i < self.bodies.len()
        &&& !self.bodies[i].to_move
        &&& self.bodies[i].position.y > 0
        &&& self.grid.dom().contains(cell_sum(self.bodies[i].position, down_cell()))
        &&& self.grid[cell_sum(self.bodies[i].position, down_cell())] is None
    }

    /// Gravity: when nothing moves, every unsupported block starts falling
    /// one cell, all in the same move episode.
    pub open spec fn after_gravity(self) -> LevelModel {
        if any_moving(self.bodies) {
            self
        } else if exists|i: int| self.unsupported(i) {
            LevelModel {
                bodies: Seq::new(
                    self.bodies.len(),
                    |i: int|
                        if self.unsupported(i) {
                            launched(self.bodies[i], down_cell())
                        } else {
                            self.bodies[i]
                        },
                ),
                move_timer: self.move_timer.restarted(),
                ..self
            }
        } else {
            self
        }
    }

    /// Input is blocked while anything moves.
    pub open spec fn after_block_update(self) -> LevelModel {
        LevelModel { block_next_move: any_moving(self.bodies), ..self }
    }

    /// The win check: while every target holds a block, input stays blocked
    /// and the win timer accrues `delta`; once it finishes the level hands
    /// over to its successor and the player is no longer spawned. A tick on
    /// which some target is not held starts the win timer over.
    pub open spec fn after_win_check(self, delta: u64) -> LevelModel {
        if self.player_spawned != PlayerSpawned::Yes {
            self
        } else if targets_held(self.grid, self.targets) {
            let timer = self.win_timer.ticked(delta);
            if timer.is_finished() {
                LevelModel {
                    block_next_move: true,
                    win_timer: timer.restarted(),
                    player_spawned: PlayerSpawned::No,
                    current: self.next,
                    ..self
                }
            } else {
                LevelModel { block_next_move: true, win_timer: timer, ..self }
            }
        } else {
            LevelModel { win_timer: self.win_timer.restarted(), ..self }
        }
    }

    /// The simulation part of a tick, once the intent is resolved.
    pub open spec fn after_physics(self, delta: u64) -> LevelModel {
        self.after_move(delta).after_publish().after_gravity().after_block_update().after_win_check(delta)
    }

    /// What a whole tick returns.
    pub open spec fn step_result(self, intent: Option<Facing>) -> Result<InputOutcome, SimError> {
        if self.player_spawned != PlayerSpawned::Yes {
            Ok(InputOutcome::Ignored)
        } else {
            match intent {
                Some(f) => self.input_result(f),
                None => Ok(InputOutcome::Ignored),
            }
        }
    }

    /// One tick: resolve the intent, advance moves, re-publish the bodies,
    /// apply gravity and check for a win. Nothing runs unless the player is
    /// spawned, and an error leaves the state as it was.
    pub open spec fn after_step(self, intent: Option<Facing>, delta: u64) -> LevelModel {
        if self.player_spawned != PlayerSpawned::Yes {
            self
        } else {
            match self.step_result(intent) {
                Err(_) => self,
                Ok(_) => {
                    let resolved = match intent {
                        Some(f) => self.after_input(f),
                        None => self,
                    };
                    resolved.after_physics(delta)
                },
            }
        }
    }
}

/// Each component of `v` is -1, 0 or 1.
pub open spec fn unit_step(v: GridCell) -> bool {
    -1 <= v.x <= 1 && -1 <= v.y <= 1 && -1 <= v.z <= 1
}

} // verus!
