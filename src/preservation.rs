use vstd::prelude::*;
use crate::grid_cell::{GridCell, GridCellType, cell_sum, down_cell, zero_cell};
use crate::model::{LevelModel, any_moving, unit_step};
use crate::player::{Facing, InputOutcome, step_of};

verus! {

impl LevelModel {
    /// A cell that records block `id` is the declared cell of the body that
    /// carries that identity, which is a block.
    pub proof fn lemma_block_at(self, c: GridCell, id: i32)
        requires
            self.inv(),
            self.grid.dom().contains(c),
            self.grid[c] == Some(GridCellType::MovingTile(id)),
        ensures
            0 < self.block_index(id) < self.bodies.len(),
            self.bodies[self.block_index(id)].cell_type == GridCellType::MovingTile(id),
            self.bodies[self.block_index(id)].position == c,
    {
        reveal(LevelModel::inv_kinds);
        reveal(LevelModel::inv_cells);
        reveal(LevelModel::inv_distinct);
        reveal(LevelModel::inv_marked);
        assert(self.grid[c].unwrap().is_mover());
        let j = choose|j: int| 0 <= j < self.bodies.len() && (#[trigger] self.bodies[j]).position == c;
        assert(self.bodies[j].cell_type == GridCellType::MovingTile(id));
        let k = self.block_index(id);
        assert(0 <= k < self.bodies.len() && self.bodies[k].cell_type == GridCellType::MovingTile(id));
        if k != j {
            assert(self.bodies[k].cell_type != self.bodies[j].cell_type);
        }
    }

    /// Setting bodies moving, without moving any body or touching the grid,
    /// keeps the invariant when the moves themselves are well-formed.
    pub proof fn lemma_launch_preserves(self, n: LevelModel)
        requires
            self.inv(),
            n.grid == self.grid,
            n.targets == self.targets,
            n.move_timer.wf(),
            n.win_timer.wf(),
            n.bodies.len() == self.bodies.len(),
            forall|i: int|
                0 <= i < n.bodies.len() ==> {
                    &&& (#[trigger] n.bodies[i]).cell_type == self.bodies[i].cell_type
                    &&& n.bodies[i].position == self.bodies[i].position
                    &&& unit_step(n.bodies[i].velocity)
                    &&& !n.bodies[i].to_move ==> n.bodies[i] == self.bodies[i]
                },
            n.inv_moves(),
        ensures
            n.inv(),
    {
        reveal(LevelModel::inv_kinds);
        reveal(LevelModel::inv_cells);
        reveal(LevelModel::inv_distinct);
        reveal(LevelModel::inv_marked);
        assert(n.inv_kinds());
        assert(n.inv_cells());
        assert(n.inv_distinct()) by {
            assert forall|i: int, j: int|
                0 <= i < n.bodies.len() && 0 <= j < n.bodies.len() && i != j implies
                (#[trigger] n.bodies[i]).position != (#[trigger] n.bodies[j]).position
                && n.bodies[i].cell_type != n.bodies[j].cell_type by {
                assert(self.bodies[i].position != self.bodies[j].position);
            }
        }
        assert(n.inv_marked()) by {
            assert forall|c: GridCell|
                n.grid.dom().contains(c) && (#[trigger] n.grid[c]) is Some && n.grid[c].unwrap().is_mover()
                implies exists|i: int| 0 <= i < n.bodies.len() && (#[trigger] n.bodies[i]).position == c by {
                let i = choose|i: int| 0 <= i < self.bodies.len() && (#[trigger] self.bodies[i]).position == c;
                assert(n.bodies[i].position == c);
            }
        }
    }

    pub proof fn lemma_input_preserves(self, f: Facing)
        requires
            self.inv(),
        ensures
            self.after_input(f).inv(),
    {
        reveal(LevelModel::inv_kinds);
        reveal(LevelModel::inv_cells);
        let v = step_of(f);
        let t = self.input_target(f);
        let n = self.after_input(f);
        match self.input_result(f) {
            Ok(InputOutcome::Walked) => {
                assert(!any_moving(self.bodies));
                assert forall|i: int| 0 <= i < self.bodies.len() implies !(#[trigger] self.bodies[i]).to_move by {
                }
                assert(self.grid[t] is None);
                assert(n.bodies[0].destination() == t);
                assert(n.inv_moves()) by {
                    reveal(LevelModel::inv_moves);
                    assert forall|i: int, j: int|
                        0 <= i < n.bodies.len() && 0 <= j < n.bodies.len() && (#[trigger] n.bodies[i]).to_move
                            && (#[trigger] n.bodies[j]).position == n.bodies[i].destination()
                        implies n.bodies[j].to_move by {
                        assert(i == 0);
                        assert(self.grid[self.bodies[j].position] is Some);
                    }
                }
                self.lemma_launch_preserves(n);
            },
            Ok(InputOutcome::Pushed(id)) => {
                self.lemma_block_at(t, id);
                let k = self.block_index(id);
                assert(!any_moving(self.bodies));
                assert forall|i: int| 0 <= i < self.bodies.len() implies !(#[trigger] self.bodies[i]).to_move by {
                }
                let beyond = cell_sum(t, v);
                assert(self.grid[beyond] is None);
                assert(n.bodies[0].destination() == t);
                assert(n.bodies[k].destination() == beyond);
                assert(n.inv_moves()) by {
                    reveal(LevelModel::inv_moves);
                    reveal(LevelModel::inv_distinct);
                    assert forall|i: int, j: int|
                        0 <= i < n.bodies.len() && 0 <= j < n.bodies.len() && (#[trigger] n.bodies[i]).to_move
                            && (#[trigger] n.bodies[j]).position == n.bodies[i].destination()
                        implies n.bodies[j].to_move by {
                        assert(i == 0 || i == k);
                        assert(self.grid[self.bodies[j].position] is Some);
                        if i == 0 && j != k {
                            assert(self.bodies[j].position != self.bodies[k].position);
                        }
                    }
                }
                self.lemma_launch_preserves(n);
            },
            _ => {},
        }
    }

    pub proof fn lemma_gravity_preserves(self)
        requires
            self.inv(),
        ensures
            self.after_gravity().inv(),
    {
        let n = self.after_gravity();
        if !any_moving(self.bodies) && exists|i: int| self.unsupported(i) {
            reveal(LevelModel::inv_cells);
            assert forall|i: int| 0 <= i < self.bodies.len() implies !(#[trigger] self.bodies[i]).to_move by {
            }
            assert forall|i: int| 0 <= i < n.bodies.len() && (#[trigger] n.bodies[i]).to_move implies {
                &&& self.unsupported(i)
                &&& n.bodies[i].destination() == cell_sum(self.bodies[i].position, down_cell())
            } by {
            }
            assert(n.inv_moves()) by {
                reveal(LevelModel::inv_moves);
                reveal(LevelModel::inv_distinct);
                assert forall|i: int, j: int|
                    0 <= i < n.bodies.len() && 0 <= j < n.bodies.len() && (#[trigger] n.bodies[i]).to_move
                        && (#[trigger] n.bodies[j]).position == n.bodies[i].destination()
                    implies n.bodies[j].to_move by {
                    assert(self.grid[self.bodies[j].position] is Some);
                }
                assert forall|i: int, j: int|
                    0 <= i < n.bodies.len() && 0 <= j < n.bodies.len() && i != j
                        && (#[trigger] n.bodies[i]).to_move && (#[trigger] n.bodies[j]).to_move
                    implies n.bodies[i].destination() != n.bodies[j].destination() by {
                    assert(self.bodies[i].position != self.bodies[j].position);
                }
            }
            self.lemma_launch_preserves(n);
        }
    }

    pub proof fn lemma_vacated_upto(self, n: int)
        requires
            0 <= n <= self.bodies.len(),
            forall|i: int|
                0 <= i < n && (#[trigger] self.bodies[i]).to_move ==> self.grid.dom().contains(
                    self.bodies[i].position,
                ),
        ensures
            self.vacated_upto(n).dom() == self.grid.dom(),
            forall|c: GridCell|
                #![trigger self.vacated_upto(n)[c]]
                self.grid.dom().contains(c) ==> self.vacated_upto(n)[c] == if exists|i: int|
                    0 <= i < n && (#[trigger] self.bodies[i]).to_move && self.bodies[i].position == c {
                    None
                } else {
                    self.grid[c]
                },
        decreases n,
    {
        if n > 0 {
            self.lemma_vacated_upto(n - 1);
            let g = self.vacated_upto(n - 1);
            if self.bodies[n - 1].to_move {
                assert(g.insert(self.bodies[n - 1].position, None).dom() =~= g.dom());
            }
            assert forall|c: GridCell| #![trigger self.vacated_upto(n)[c]] self.grid.dom().contains(c) implies
                self.vacated_upto(n)[c] == if exists|i: int|
                    0 <= i < n && (#[trigger] self.bodies[i]).to_move && self.bodies[i].position == c {
                    None
                } else {
                    self.grid[c]
                } by {
                if exists|i: int| 0 <= i < n && (#[trigger] self.bodies[i]).to_move && self.bodies[i].position == c {
                    let i = choose|i: int| 0 <= i < n && (#[trigger] self.bodies[i]).to_move && self.bodies[i].position == c;
                    if i < n - 1 {
                        assert(g[c] is None);
                    }
                } else {
                    assert(!(self.bodies[n - 1].to_move && self.bodies[n - 1].position == c));
                    assert(g[c] == self.grid[c]);
                }
            }
        }
    }

    pub proof fn lemma_published_upto(self, n: int)
        requires
            0 <= n <= self.bodies.len(),
            forall|i: int| 0 <= i < n ==> self.grid.dom().contains((#[trigger] self.bodies[i]).position),
            forall|i: int, j: int|
                0 <= i < n && 0 <= j < n && i != j ==> (#[trigger] self.bodies[i]).position
                    != (#[trigger] self.bodies[j]).position,
        ensures
            self.published_upto(n).dom() == self.grid.dom(),
            forall|i: int|
                0 <= i < n ==> self.published_upto(n)[(#[trigger] self.bodies[i]).position] == Some(
                    self.bodies[i].cell_type,
                ),
            forall|c: GridCell|
                (forall|i: int| 0 <= i < n ==> (#[trigger] self.bodies[i]).position != c)
                    ==> self.published_upto(n)[c] == self.grid[c],
        decreases n,
    {
        if n > 0 {
            self.lemma_published_upto(n - 1);
            let g = self.published_upto(n - 1);
            assert(g.insert(self.bodies[n - 1].position, Some(self.bodies[n - 1].cell_type)).dom() =~= g.dom());
            assert forall|i: int| 0 <= i < n implies self.published_upto(n)[(#[trigger] self.bodies[i]).position]
                == Some(self.bodies[i].cell_type) by {
                if i < n - 1 {
                    assert(self.bodies[i].position != self.bodies[n - 1].position);
                }
            }
            assert forall|c: GridCell|
                (forall|i: int| 0 <= i < n ==> (#[trigger] self.bodies[i]).position != c) implies
                self.published_upto(n)[c] == self.grid[c] by {
                assert(self.bodies[n - 1].position != c);
                assert forall|i: int| 0 <= i < n - 1 implies (#[trigger] self.bodies[i]).position != c by {
                    assert(0 <= i < n);
                }
            }
        }
    }

    /// What a finished move does to each body.
    pub proof fn lemma_commit_bodies(self, delta: u64)
        requires
            self.inv(),
            self.move_timer.ticked(delta).is_finished(),
        ensures
            self.after_move(delta).bodies.len() == self.bodies.len(),
            forall|i: int|
                0 <= i < self.bodies.len() ==> {
                    &&& (#[trigger] self.after_move(delta).bodies[i]).position == if self.bodies[i].to_move {
                        self.bodies[i].destination()
                    } else {
                        self.bodies[i].position
                    }
                    &&& self.after_move(delta).bodies[i].cell_type == self.bodies[i].cell_type
                    &&& !self.after_move(delta).bodies[i].to_move
                    &&& self.after_move(delta).bodies[i].velocity == zero_cell()
                    &&& self.grid.dom().contains(self.after_move(delta).bodies[i].position)
                },
            forall|i: int, j: int|
                0 <= i < self.bodies.len() && 0 <= j < self.bodies.len() && i != j
                    ==> (#[trigger] self.after_move(delta).bodies[i]).position
                    != (#[trigger] self.after_move(delta).bodies[j]).position,
    {
        let m1 = self.after_move(delta);
        let len = self.bodies.len() as int;
        assert forall|i: int| 0 <= i < len implies {
            &&& (#[trigger] m1.bodies[i]).position == if self.bodies[i].to_move {
                self.bodies[i].destination()
            } else {
                self.bodies[i].position
            }
            &&& m1.bodies[i].cell_type == self.bodies[i].cell_type
            &&& !m1.bodies[i].to_move
            &&& m1.bodies[i].velocity == zero_cell()
            &&& self.grid.dom().contains(m1.bodies[i].position)
        } by {
            reveal(LevelModel::inv_cells);
            reveal(LevelModel::inv_moves);
            assert(self.grid.dom().contains(self.bodies[i].position));
            if self.bodies[i].to_move {
                assert(self.grid.dom().contains(self.bodies[i].destination()));
            }
        }
        assert forall|i: int, j: int| 0 <= i < len && 0 <= j < len && i != j implies
            (#[trigger] m1.bodies[i]).position != (#[trigger] m1.bodies[j]).position by {
            reveal(LevelModel::inv_distinct);
            reveal(LevelModel::inv_moves);
            let (bi, bj) = (self.bodies[i], self.bodies[j]);
            if bi.to_move && !bj.to_move {
                assert(bj.position != bi.destination());
            } else if !bi.to_move && bj.to_move {
                assert(bi.position != bj.destination());
            } else if !bi.to_move && !bj.to_move {
                assert(bi.position != bj.position);
            }
        }
    }

    /// The positions after a move are cells of the grid and pairwise
    /// distinct, and publishing them restores the invariant.
    pub proof fn lemma_move_preserves(self, delta: u64)
        requires
            self.inv(),
        ensures
            forall|i: int|
                0 <= i < self.after_move(delta).bodies.len() ==> self.after_move(delta).grid.dom().contains(
                    (#[trigger] self.after_move(delta).bodies[i]).position,
                ),
            forall|i: int, j: int|
                0 <= i < self.after_move(delta).bodies.len() && 0 <= j < self.after_move(delta).bodies.len()
                    && i != j ==> (#[trigger] self.after_move(delta).bodies[i]).position
                    != (#[trigger] self.after_move(delta).bodies[j]).position,
            self.after_move(delta).grid.dom() == self.grid.dom(),
            self.after_move(delta).after_publish().inv(),
            !self.move_timer.ticked(delta).is_finished() ==> self.after_move(delta).after_publish()
                == self.after_move(delta),
    {
        let m1 = self.after_move(delta);
        let len = self.bodies.len() as int;
        if m1.move_timer.is_finished() {
            assert forall|i: int| 0 <= i < len && (#[trigger] self.bodies[i]).to_move implies
                self.grid.dom().contains(self.bodies[i].position) by {
                reveal(LevelModel::inv_cells);
            }
            self.lemma_vacated_upto(len);
            self.lemma_commit_bodies(delta);
            assert(m1.grid.dom() =~= self.grid.dom());
            m1.lemma_published_upto(len);
            let m2 = m1.after_publish();
            assert(m2.grid.dom() =~= self.grid.dom());
            assert(m2.inv_marked()) by {
                reveal(LevelModel::inv_marked);
                assert forall|c: GridCell|
                    m2.grid.dom().contains(c) && (#[trigger] m2.grid[c]) is Some && m2.grid[c].unwrap().is_mover()
                    implies exists|i: int| 0 <= i < m2.bodies.len() && (#[trigger] m2.bodies[i]).position == c by {
                    if forall|i: int| 0 <= i < len ==> (#[trigger] m1.bodies[i]).position != c {
                        assert(m2.grid[c] == m1.grid[c]);
                        if exists|i: int| 0 <= i < len && (#[trigger] self.bodies[i]).to_move && self.bodies[i].position == c {
                        } else {
                            assert(m1.grid[c] == self.grid[c]);
                            let j = choose|j: int| 0 <= j < len && (#[trigger] self.bodies[j]).position == c;
                            assert(m1.bodies[j].position == c);
                        }
                    }
                }
            }
            assert(m2.inv_kinds()) by {
                reveal(LevelModel::inv_kinds);
            }
            assert(m2.inv_cells()) by {
                reveal(LevelModel::inv_cells);
            }
            assert(m2.inv_distinct()) by {
                reveal(LevelModel::inv_distinct);
                assert forall|i: int, j: int| 0 <= i < len && 0 <= j < len && i != j implies
                    (#[trigger] m2.bodies[i]).cell_type != (#[trigger] m2.bodies[j]).cell_type by {
                    assert(self.bodies[i].cell_type != self.bodies[j].cell_type);
                }
            }
            assert(m2.inv_moves()) by {
                reveal(LevelModel::inv_moves);
            }
        } else {
            reveal(LevelModel::inv_kinds);
            reveal(LevelModel::inv_cells);
            reveal(LevelModel::inv_distinct);
            reveal(LevelModel::inv_marked);
            reveal(LevelModel::inv_moves);
            m1.lemma_published_upto(len);
            assert(m1.published() =~= m1.grid) by {
                assert forall|c: GridCell| #[trigger] m1.grid.dom().contains(c) implies m1.published()[c] == m1.grid[c] by {
                    if exists|i: int| 0 <= i < len && (#[trigger] m1.bodies[i]).position == c {
                        let i = choose|i: int| 0 <= i < len && (#[trigger] m1.bodies[i]).position == c;
                        assert(m1.published()[m1.bodies[i].position] == Some(m1.bodies[i].cell_type));
                    }
                }
            }
            assert(m1.after_publish() == m1);
        }
    }

    /// Changing only timers and flags keeps the invariant.
    pub proof fn lemma_flags_preserve(self, n: LevelModel)
        requires
            self.inv(),
            n.grid == self.grid,
            n.bodies == self.bodies,
            n.targets == self.targets,
            n.move_timer.wf(),
            n.win_timer.wf(),
        ensures
            n.inv(),
    {
        reveal(LevelModel::inv_kinds);
        reveal(LevelModel::inv_cells);
        reveal(LevelModel::inv_distinct);
        reveal(LevelModel::inv_marked);
        reveal(LevelModel::inv_moves);
    }
}

} // verus!
