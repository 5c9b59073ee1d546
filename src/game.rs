use vstd::prelude::*;
use crate::countdown::Countdown;
use crate::game_grid::GameGrid;
use crate::grid_cell::{GridCell, GridCellType};
use crate::grid_physics::{BlockNextMove, GridEntity, MoveTimer};
use crate::model::{LevelModel, targets_held};
use crate::player::{Facing, InputOutcome, SimError};

verus! {

/// The levels of the game, and the states between them.
#[derive(Clone, Copy, Debug, PartialEq, Eq, Hash, Structural)]
pub enum GameLevel {
    Unset,
    Pause,
    LevelOne,
    LevelTwo,
    LevelThree,
    LevelFour,
    LevelFive,
    LevelSix,
    LevelSeven,
    LevelEight,
    LevelNine,
    LevelTen,
}

/// Whether the player of the current level is in play.
#[derive(Clone, Copy, Debug, PartialEq, Eq, Hash, Structural)]
pub enum PlayerSpawned {
    Yes,
    No,
    Paused,
}

/// A pending restart: which level to return to, and whether a restart was
/// asked for.
#[derive(Clone, Copy, Debug, PartialEq, Eq, Structural)]
pub struct LevelReset {
    pub level: GameLevel,
    pub reset: bool,
}

impl LevelReset {
    /// Asks for `level` to be restarted once the game has left it.
    pub fn request(&mut self, level: GameLevel)
        ensures
            *final(self) == (LevelReset { level, reset: true }),
    {
        self.level = level;
        self.reset = true;
    }

    /// With a restart pending and no level running, clears the request and
    /// returns the level to enter again; otherwise changes nothing.
    pub fn resolve(&mut self, current: GameLevel) -> (r: Option<GameLevel>)
        ensures
            old(self).reset && current == GameLevel::Unset ==> {
                &&& r == Some(old(self).level)
                &&& *final(self) == (LevelReset { level: old(self).level, reset: false })
            },
            !(old(self).reset && current == GameLevel::Unset) ==> r is None && *final(self) == *old(self),
    {
        if !self.reset {
            return None;
        }
        match current {
            GameLevel::Unset => {},
            _ => {
                return None;
            },
        }
        self.reset = false;
        Some(self.level)
    }
}

/// The countdown that all targets must stay held for.
#[derive(Clone, Copy, Debug, PartialEq, Eq, Structural)]
pub struct WinTimer(pub Countdown);

/// A running level: the grid store, its bodies (the player first), the
/// target cells, the timers and the flags that gate input and play.
#[derive(Debug)]
pub struct Level {
    pub grid: GameGrid,
    pub bodies: Vec<GridEntity>,
    pub targets: Vec<GridCell>,
    pub move_timer: MoveTimer,
    pub win_timer: WinTimer,
    pub block_next_move: BlockNextMove,
    pub player_spawned: PlayerSpawned,
    pub current: GameLevel,
    pub next: GameLevel,
}

impl View for Level {
    type V = LevelModel;

    open spec fn view(&self) -> LevelModel {
        LevelModel {
            grid: self.grid@,
            bodies: self.bodies@,
            targets: self.targets@,
            move_timer: self.move_timer.0,
            win_timer: self.win_timer.0,
            block_next_move: self.block_next_move.0,
            player_spawned: self.player_spawned,
            current: self.current,
            next: self.next,
        }
    }
}

impl Level {
    pub open spec fn wf(&self) -> bool {
        self.grid.wf() && self@.inv()
    }

    /// Everything but the grid, the bodies and the move timer is as in `m`.
    pub open spec fn keeps_rest(&self, m: LevelModel) -> bool {
        &&& self.targets@ == m.targets
        &&& self.win_timer.0 == m.win_timer
        &&& self.block_next_move.0 == m.block_next_move
        &&& self.player_spawned == m.player_spawned
        &&& self.current == m.current
        &&& self.next == m.next
    }
}

} // verus!

verus! {

impl Level {
    /// Whether every target cell holds a movable block.
    pub fn targets_held(&self) -> (r: bool)
        requires
            self.wf(),
        ensures
            r == targets_held(self.grid@, self.targets@),
    {
        let mut i: usize = 0;
        while i < self.targets.len()
            invariant
                self.wf(),
                i <= self.targets@.len(),
                forall|k: int| 0 <= k < i ==> (self.grid@[#[trigger] self.targets@[k]] matches Some(
                    GridCellType::MovingTile(_),
                )),
            decreases self.targets.len() - i,
        {
            assert(self@.grid.dom().contains(self@.targets[i as int]));
            match self.grid.get(&self.targets[i]) {
                Some(GridCellType::MovingTile(_)) => {},
                _ => {
                    return false;
                },
            }
            i = i + 1;
        }
        true
    }

    /// The win check of one tick; returns whether the level was completed
    /// and handed over to its successor. See `LevelModel::after_win_check`.
    pub fn check_if_finished(&mut self, delta: u64) -> (r: bool)
        requires
            old(self).wf(),
        ensures
            final(self).wf(),
            final(self)@ == old(self)@.after_win_check(delta),
            r == (old(self).player_spawned == PlayerSpawned::Yes && final(self).player_spawned
                == PlayerSpawned::No),
    {
        proof {
            self@.lemma_flags_preserve(self@.after_win_check(delta));
        }
        match self.player_spawned {
            PlayerSpawned::Yes => {},
            _ => {
                return false;
            },
        }
        if !self.targets_held() {
            self.win_timer.0.reset();
            return false;
        }
        self.block_next_move.0 = true;
        self.win_timer.0.tick(delta);
        if self.win_timer.0.finished() {
            self.player_spawned = PlayerSpawned::No;
            self.current = self.next;
            self.win_timer.0.reset();
            return true;
        }
        false
    }

    /// One tick of the simulation: the intent (if any) is resolved, the
    /// shared move timer advances by `delta` microseconds and finished moves
    /// land, every body is recorded at its cell, gravity starts new falls,
    /// input is blocked while anything moves, and the win check runs.
    /// Nothing happens unless the player is spawned. An error leaves the
    /// level as it was.
    pub fn step(&mut self, intent: Option<Facing>, delta: u64) -> (r: Result<InputOutcome, SimError>)
        requires
            old(self).wf(),
        ensures
            final(self).wf(),
            r == old(self)@.step_result(intent),
            final(self)@ == old(self)@.after_step(intent, delta),
    {
        match self.player_spawned {
            PlayerSpawned::Yes => {},
            _ => {
                return Ok(InputOutcome::Ignored);
            },
        }
        let r = match intent {
            Some(f) => self.player_input(f),
            None => Ok(InputOutcome::Ignored),
        };
        if r.is_err() {
            return r;
        }
        proof {
            self@.lemma_move_preserves(delta);
        }
        self.move_movable(delta);
        self.update_grid();
        self.ground_movable();
        let moving = self.any_moving();
        proof {
            self@.lemma_flags_preserve(LevelModel { block_next_move: moving, ..self@ });
        }
        self.block_next_move.0 = moving;
        self.check_if_finished(delta);
        r
    }
}

} // verus!
