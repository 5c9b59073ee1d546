use vstd::prelude::*;
use crate::countdown::Countdown;
use crate::game::Level;
use crate::grid_cell::{GridCell, GridCellType, cell_sum, down_cell, zero_cell};
use crate::model::{LevelModel, any_moving, launched, unit_step};

verus! {

/// A body that occupies the grid and can move: the player or a block. Its
/// declared cell is `position`; while `to_move` is set it travels by
/// `velocity` and arrives when the shared move timer finishes.
#[derive(Clone, Copy, Debug, PartialEq, Eq, Structural)]
pub struct GridEntity {
    pub cell_type: GridCellType,
    pub position: GridCell,
    pub velocity: GridCell,
    pub to_move: bool,
}

impl GridEntity {
    /// The cell a moving body is heading for.
    pub open spec fn destination(self) -> GridCell {
        cell_sum(self.position, self.velocity)
    }

    /// The body once its move is over: at its destination and at rest.
    pub open spec fn committed(self) -> GridEntity {
        if self.to_move {
            GridEntity {
                position: self.destination(),
                velocity: zero_cell(),
                to_move: false,
                ..self
            }
        } else {
            self
        }
    }

    /// A body at rest at `position`.
    pub fn at_rest(cell_type: GridCellType, position: GridCell) -> (r: GridEntity)
        ensures
            r == (GridEntity { cell_type, position, velocity: zero_cell(), to_move: false }),
    {
        GridEntity { cell_type, position, velocity: GridCell::new(0, 0, 0), to_move: false }
    }
}

/// Set while no new move may be started.
#[derive(Clone, Copy, Debug, PartialEq, Eq, Structural)]
pub struct BlockNextMove(pub bool);

/// The single countdown shared by every move in flight.
#[derive(Clone, Copy, Debug, PartialEq, Eq, Structural)]
pub struct MoveTimer(pub Countdown);

} // verus!

verus! {

impl Level {
    /// Advances the shared move timer by `delta` microseconds. When it
    /// finishes, every moving body leaves its cell, which is cleared, and
    /// arrives at its destination at rest.
    pub fn move_movable(&mut self, delta: u64)
        requires
            old(self).wf(),
        ensures
            final(self).grid.wf(),
            final(self)@ == old(self)@.after_move(delta),
    {
        proof {
            self.grid.lemma_dom();
            reveal(LevelModel::inv_cells);
            reveal(LevelModel::inv_moves);
        }
        let ghost m = self@;
        self.move_timer.0.tick(delta);
        if !self.move_timer.0.finished() {
            return;
        }
        let ghost timer = self.move_timer.0;
        let n = self.bodies.len();
        let mut i: usize = 0;
        while i < n
            invariant
                n == self.bodies@.len(),
                self.bodies@ == m.bodies,
                self.grid.wf(),
                self.keeps_rest(m),
                self.move_timer.0 == timer,
                0 <= i <= n,
                self.grid@ == m.vacated_upto(i as int),
                forall|j: int| 0 <= j < n ==> m.grid.dom().contains(#[trigger] m.bodies[j].position),
            decreases n - i,
        {
            proof {
                m.lemma_vacated_upto(i as int);
            }
            if self.bodies[i].to_move {
                let c = self.bodies[i].position;
                self.grid.set(&c, None);
            }
            i = i + 1;
        }
        let mut i: usize = 0;
        while i < n
            invariant
                n == self.bodies@.len(),
                n == m.bodies.len(),
                0 <= i <= n,
                self.grid.wf(),
                self.grid@ == m.vacated(),
                self.keeps_rest(m),
                self.move_timer.0 == timer,
                forall|j: int| 0 <= j < i ==> self.bodies@[j] == (#[trigger] m.bodies[j]).committed(),
                forall|j: int| i <= j < n ==> self.bodies@[j] == m.bodies[j],
                forall|j: int|
                    0 <= j < n ==> {
                        &&& m.grid.dom().contains((#[trigger] m.bodies[j]).position)
                        &&& unit_step(m.bodies[j].velocity)
                    },
                forall|c: GridCell| #[trigger] m.grid.dom().contains(c) ==> 0 <= c.x < i32::MAX && 0 <= c.y
                    < i32::MAX && 0 <= c.z < i32::MAX,
            decreases n - i,
        {
            let b = self.bodies[i];
            if b.to_move {
                assert(m.grid.dom().contains(m.bodies[i as int].position));
                let p = b.position.add(b.velocity);
                self.bodies.set(i, GridEntity { position: p, velocity: GridCell::new(0, 0, 0), to_move: false, ..b });
            }
            i = i + 1;
        }
        assert(self.bodies@ =~= m.bodies.map_values(|b: GridEntity| b.committed()));
    }

    /// Records every body at its declared cell.
    pub fn update_grid(&mut self)
        requires
            old(self).grid.wf(),
            forall|i: int|
                0 <= i < old(self).bodies@.len() ==> old(self).grid@.dom().contains(
                    (#[trigger] old(self).bodies@[i]).position,
                ),
        ensures
            final(self).grid.wf(),
            final(self)@ == old(self)@.after_publish(),
    {
        let ghost m = self@;
        let n = self.bodies.len();
        let mut i: usize = 0;
        while i < n
            invariant
                n == self.bodies@.len(),
                self.bodies@ == m.bodies,
                self.grid.wf(),
                0 <= i <= n,
                self.grid@ == m.published_upto(i as int),
                self.grid@.dom() == m.grid.dom(),
                self.keeps_rest(m),
                self.move_timer.0 == m.move_timer,
                forall|j: int| 0 <= j < n ==> m.grid.dom().contains(#[trigger] m.bodies[j].position),
            decreases n - i,
        {
            let b = self.bodies[i];
            self.grid.set(&b.position, Some(b.cell_type));
            assert(self.grid@.dom() =~= m.grid.dom());
            i = i + 1;
        }
    }

    /// Gravity: when nothing moves, every block at rest above an empty cell
    /// starts falling one cell, and the move timer starts over.
    pub fn ground_movable(&mut self)
        requires
            old(self).wf(),
        ensures
            final(self).wf(),
            final(self)@ == old(self)@.after_gravity(),
    {
        proof {
            self@.lemma_gravity_preserves();
            self.grid.lemma_dom();
            reveal(LevelModel::inv_cells);
        }
        if self.any_moving() {
            return;
        }
        let ghost m = self@;
        proof {
            reveal(LevelModel::inv_kinds);
        }
        let n = self.bodies.len();
        let mut started = false;
        let mut i: usize = 1;
        while i < n
            invariant
                self.grid.wf(),
                self.grid@ == m.grid,
                self.keeps_rest(m),
                self.move_timer.0 == m.move_timer,
                n == self.bodies@.len(),
                n == m.bodies.len(),
                n >= 1,
                1 <= i <= n,
                !any_moving(m.bodies),
                forall|j: int|
                    0 <= j < i ==> self.bodies@[j] == if m.unsupported(j) {
                        launched(#[trigger] m.bodies[j], down_cell())
                    } else {
                        m.bodies[j]
                    },
                forall|j: int| i <= j < n ==> self.bodies@[j] == m.bodies[j],
                forall|j: int| 0 <= j < n ==> m.grid.dom().contains(#[trigger] m.bodies[j].position),
                forall|c: GridCell| #[trigger] m.grid.dom().contains(c) ==> 0 <= c.x < i32::MAX && 0 <= c.y
                    < i32::MAX && 0 <= c.z < i32::MAX,
                started == exists|j: int| 0 <= j < i && m.unsupported(j),
            decreases n - i,
        {
            let b = self.bodies[i];
            assert(!m.bodies[i as int].to_move);
            let mut falls = false;
            if b.position.y > 0 {
                let below = b.position.add(GridCell::new(0, -1, 0));
                falls = self.grid.in_bounds(&below) && self.grid.get(&below).is_none();
            }
            assert(falls == m.unsupported(i as int));
            if falls {
                self.bodies.set(i, GridEntity { velocity: GridCell::new(0, -1, 0), to_move: true, ..b });
                started = true;
            }
            i = i + 1;
        }
        assert(self.bodies@ =~= m.after_gravity().bodies || !started);
        if started {
            self.move_timer.0.reset();
        } else {
            assert(!exists|j: int| m.unsupported(j));
            assert(self.bodies@ =~= m.bodies);
        }
    }
}

} // verus!
