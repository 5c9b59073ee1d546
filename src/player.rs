use vstd::prelude::*;
use crate::game::Level;
use crate::grid_cell::{GridCell, GridCellType};
use crate::grid_physics::GridEntity;
use crate::model::{LevelModel, any_moving};

verus! {

/// A directional intent, also the way the player faces. `Up` and `Down`
/// run along the length of the level (towards lower and higher `z`).
#[derive(Clone, Copy, Debug, PartialEq, Eq, Hash, Structural)]
pub enum Facing {
    Up,
    Down,
    Right,
    Left,
}

/// The unit step that a direction stands for.
pub open spec fn step_of(f: Facing) -> GridCell {
    match f {
        Facing::Up => GridCell { x: 0, y: 0, z: -1i32 },
        Facing::Down => GridCell { x: 0, y: 0, z: 1 },
        Facing::Right => GridCell { x: 1, y: 0, z: 0 },
        Facing::Left => GridCell { x: -1i32, y: 0, z: 0 },
    }
}

/// How an intent was resolved.
#[derive(Clone, Copy, Debug, PartialEq, Eq, Structural)]
pub enum InputOutcome {
    /// No intent, or input was blocked.
    Ignored,
    /// The move was not allowed; nothing changed.
    Refused,
    /// The player started a step onto an empty cell.
    Walked,
    /// The player started pushing the block with this identity.
    Pushed(i32),
}

/// A broken invariant of the level: a cell outside the grid had to be read.
#[derive(Clone, Copy, Debug, PartialEq, Eq, Structural)]
pub enum SimError {
    OutOfBounds(GridCell),
}

impl Facing {
    pub fn delta(&self) -> (r: GridCell)
        ensures
            r == step_of(*self),
    {
        match self {
            Facing::Up => GridCell::new(0, 0, -1),
            Facing::Down => GridCell::new(0, 0, 1),
            Facing::Right => GridCell::new(1, 0, 0),
            Facing::Left => GridCell::new(-1, 0, 0),
        }
    }
}

} // verus!

verus! {

impl Level {
    /// Whether some body is in the middle of a move.
    pub fn any_moving(&self) -> (r: bool)
        ensures
            r == any_moving(self.bodies@),
    {
        let mut i: usize = 0;
        while i < self.bodies.len()
            invariant
                i <= self.bodies.len(),
                forall|j: int| 0 <= j < i ==> !(#[trigger] self.bodies@[j]).to_move,
            decreases self.bodies.len() - i,
        {
            if self.bodies[i].to_move {
                return true;
            }
            i = i + 1;
        }
        false
    }

    /// The index of the block that carries identity `id`.
    fn find_block(&self, id: i32, at: GridCell) -> (r: usize)
        requires
            self.wf(),
            self.grid@.dom().contains(at),
            self.grid@[at] == Some(GridCellType::MovingTile(id)),
        ensures
            r == self@.block_index(id),
    {
        proof {
            self@.lemma_block_at(at, id);
        }
        let ghost k = self@.block_index(id);
        let mut i: usize = 0;
        while i < self.bodies.len()
            invariant
                self.wf(),
                0 <= k < self.bodies@.len(),
                self.bodies@[k].cell_type == GridCellType::MovingTile(id),
                i <= k,
            decreases self.bodies.len() - i,
        {
            if self.bodies[i].cell_type == GridCellType::MovingTile(id) {
                proof {
                    reveal(LevelModel::inv_distinct);
                    if i != k {
                        assert(self.bodies@[i as int].cell_type != self.bodies@[k].cell_type);
                    }
                }
                return i;
            }
            i = i + 1;
        }
        i
    }

    /// Resolves a directional intent against the grid: a walk onto an
    /// empty, supported cell, a push of a block into an empty cell, or a
    /// refusal. See `LevelModel::input_result` and `LevelModel::after_input`.
    pub fn player_input(&mut self, f: Facing) -> (r: Result<InputOutcome, SimError>)
        requires
            old(self).wf(),
        ensures
            final(self).wf(),
            r == old(self)@.input_result(f),
            final(self)@ == old(self)@.after_input(f),
    {
        proof {
            self@.lemma_input_preserves(f);
            self.grid.lemma_dom();
            reveal(LevelModel::inv_kinds);
            reveal(LevelModel::inv_cells);
        }
        if self.block_next_move.0 || self.any_moving() {
            return Ok(InputOutcome::Ignored);
        }
        let d = f.delta();
        let p = self.bodies[0];
        let t = p.position.add(d);
        if !self.grid.in_bounds(&t) {
            return Err(SimError::OutOfBounds(t));
        }
        match self.grid.get(&t) {
            None => {
                let below = t.add(GridCell::new(0, -1, 0));
                if !self.grid.in_bounds(&below) {
                    return Err(SimError::OutOfBounds(below));
                }
                if self.grid.get(&below).is_none() {
                    return Ok(InputOutcome::Refused);
                }
                self.bodies.set(0, GridEntity { velocity: d, to_move: true, ..p });
                self.move_timer.0.reset();
                self.block_next_move.0 = true;
                Ok(InputOutcome::Walked)
            },
            Some(GridCellType::MovingTile(id)) => {
                let beyond = t.add(d);
                if !self.grid.in_bounds(&beyond) {
                    return Err(SimError::OutOfBounds(beyond));
                }
                if self.grid.get(&beyond).is_some() {
                    return Ok(InputOutcome::Refused);
                }
                let k = self.find_block(id, t);
                proof {
                    self@.lemma_block_at(t, id);
                }
                let b = self.bodies[k];
                self.bodies.set(0, GridEntity { velocity: d, to_move: true, ..p });
                self.bodies.set(k, GridEntity { velocity: d, to_move: true, ..b });
                self.move_timer.0.reset();
                self.block_next_move.0 = true;
                Ok(InputOutcome::Pushed(id))
            },
            Some(_) => Ok(InputOutcome::Refused),
        }
    }
}

} // verus!
