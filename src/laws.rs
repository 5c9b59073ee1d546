use vstd::prelude::*;
use crate::game::PlayerSpawned;
use crate::grid_cell::{GridCell, GridCellType, cell_sum, down_cell, zero_cell};
use crate::model::{LevelModel, any_moving, targets_held};
use crate::player::{Facing, InputOutcome, SimError, step_of};

verus! {

/// A tick keeps a well-formed level well-formed, whatever the intent and
/// the elapsed time.
pub proof fn step_keeps_invariant(m: LevelModel, intent: Option<Facing>, delta: u64)
    requires
        m.inv(),
    ensures
        m.after_step(intent, delta).inv(),
{
    if m.player_spawned == PlayerSpawned::Yes && m.step_result(intent) is Ok {
        let r = match intent {
            Some(f) => {
                m.lemma_input_preserves(f);
                m.after_input(f)
            },
            None => m,
        };
        r.lemma_move_preserves(delta);
        let p = r.after_move(delta).after_publish();
        p.lemma_gravity_preserves();
        let g = p.after_gravity();
        g.lemma_flags_preserve(g.after_block_update());
        let b = g.after_block_update();
        b.lemma_flags_preserve(b.after_win_check(delta));
    }
}

/// In a well-formed level no cell holds two occupants: distinct bodies
/// stand on distinct cells, and the grid records each body, and nothing
/// else, at its cell.
pub proof fn occupancy_unique(m: LevelModel, i: int, j: int)
    requires
        m.inv(),
        0 <= i < m.bodies.len(),
        0 <= j < m.bodies.len(),
        i != j,
    ensures
        m.bodies[i].position != m.bodies[j].position,
        m.grid[m.bodies[i].position] == Some(m.bodies[i].cell_type),
        m.grid[m.bodies[j].position] == Some(m.bodies[j].cell_type),
        forall|c: GridCell|
            m.grid.dom().contains(c) && (#[trigger] m.grid[c]) is Some && m.grid[c].unwrap().is_mover()
                ==> exists|k: int| 0 <= k < m.bodies.len() && (#[trigger] m.bodies[k]).position == c,
{
    reveal(LevelModel::inv_distinct);
    reveal(LevelModel::inv_cells);
    reveal(LevelModel::inv_marked);
}

/// A successful push sets the player and the pushed block moving by the
/// same step in the same tick.
pub proof fn push_moves_both(m: LevelModel, f: Facing, id: i32)
    requires
        m.inv(),
        m.input_result(f) == Ok::<InputOutcome, SimError>(InputOutcome::Pushed(id)),
    ensures
        ({
            let n = m.after_input(f);
            let k = m.block_index(id);
            &&& 0 < k < n.bodies.len()
            &&& m.bodies[k].position == m.input_target(f)
            &&& n.player().to_move
            &&& n.bodies[k].to_move
            &&& n.player().velocity == step_of(f)
            &&& n.bodies[k].velocity == step_of(f)
        }),
{
    m.lemma_block_at(m.input_target(f), id);
}

/// All moving bodies arrive together: after the move phase either every
/// body that was moving has arrived at its destination and is at rest, or
/// none has moved.
pub proof fn moves_commit_together(m: LevelModel, delta: u64, i: int, j: int)
    requires
        m.inv(),
        0 <= i < m.bodies.len(),
        0 <= j < m.bodies.len(),
        m.bodies[i].to_move,
        m.bodies[j].to_move,
    ensures
        m.after_move(delta).bodies[i].to_move == m.after_move(delta).bodies[j].to_move,
        !m.after_move(delta).bodies[i].to_move ==> m.after_move(delta).bodies[i].position
            == m.bodies[i].destination() && m.after_move(delta).bodies[j].position == m.bodies[j].destination(),
        m.after_move(delta).bodies[i].to_move ==> m.after_move(delta).bodies[i] == m.bodies[i]
            && m.after_move(delta).bodies[j] == m.bodies[j],
{
}

/// Pushing a block whose far side is occupied is refused: nothing changes,
/// so the player and the block stay where they are, at rest.
pub proof fn blocked_push_refused(m: LevelModel, f: Facing, id: i32)
    requires
        m.inv(),
        !m.block_next_move,
        !any_moving(m.bodies),
        m.grid.dom().contains(m.input_target(f)),
        m.grid[m.input_target(f)] == Some(GridCellType::MovingTile(id)),
        m.grid.dom().contains(cell_sum(m.input_target(f), step_of(f))),
        m.grid[cell_sum(m.input_target(f), step_of(f))] is Some,
    ensures
        m.input_result(f) == Ok::<InputOutcome, SimError>(InputOutcome::Refused),
        m.after_input(f) == m,
        m.player().velocity == zero_cell(),
        m.bodies[m.block_index(id)].velocity == zero_cell(),
        m.bodies[m.block_index(id)].position == m.input_target(f),
{
    reveal(LevelModel::inv_cells);
    m.lemma_block_at(m.input_target(f), id);
    assert(!m.bodies[m.block_index(id)].to_move);
    assert(!m.player().to_move);
}

/// Stepping onto an empty cell with nothing below it is refused: the
/// player does not walk off a ledge, and nothing changes.
pub proof fn ledge_refused(m: LevelModel, f: Facing)
    requires
        m.inv(),
        !m.block_next_move,
        !any_moving(m.bodies),
        m.grid.dom().contains(m.input_target(f)),
        m.grid[m.input_target(f)] is None,
        m.grid.dom().contains(cell_sum(m.input_target(f), down_cell())),
        m.grid[cell_sum(m.input_target(f), down_cell())] is None,
    ensures
        m.input_result(f) == Ok::<InputOutcome, SimError>(InputOutcome::Refused),
        m.after_input(f) == m,
{
}

/// The level after a run of win checks with the given elapsed times.
pub open spec fn win_checks(m: LevelModel, deltas: Seq<u64>) -> LevelModel
    decreases deltas.len(),
{
    if deltas.len() == 0 {
        m
    } else {
        win_checks(m, deltas.drop_last()).after_win_check(deltas.last())
    }
}

pub open spec fn total(deltas: Seq<u64>) -> int
    decreases deltas.len(),
{
    if deltas.len() == 0 {
        0
    } else {
        total(deltas.drop_last()) + deltas.last()
    }
}

/// While every target holds a block, the win checks accrue the elapsed
/// time; once it reaches the win duration the level has handed over to its
/// successor and the player is no longer spawned. Until then the accrued
/// time is the sum of the ticks.
pub proof fn held_targets_win(m: LevelModel, deltas: Seq<u64>)
    requires
        m.player_spawned == PlayerSpawned::Yes,
        m.win_timer.wf(),
        m.win_timer.elapsed == 0,
        targets_held(m.grid, m.targets),
    ensures
        deltas.len() > 0 && total(deltas) >= m.win_timer.duration ==> win_checks(m, deltas).player_spawned
            == PlayerSpawned::No
            && win_checks(m, deltas).current == m.next,
        total(deltas) < m.win_timer.duration ==> win_checks(m, deltas).player_spawned == PlayerSpawned::Yes
            && win_checks(m, deltas).win_timer.elapsed == total(deltas),
    decreases deltas.len(),
{
    if deltas.len() > 0 {
        let init = deltas.drop_last();
        held_targets_win(m, init);
        let w = win_checks(m, init);
        lemma_win_checks_keep(m, init);
        assert(total(deltas) == total(init) + deltas.last());
        if init.len() > 0 && total(init) >= m.win_timer.duration {
            assert(w.player_spawned == PlayerSpawned::No);
        } else {
            assert(w.player_spawned == PlayerSpawned::Yes);
            assert(w.win_timer.elapsed == total(init));
        }
    }
}

proof fn lemma_win_checks_keep(m: LevelModel, deltas: Seq<u64>)
    requires
        m.player_spawned == PlayerSpawned::Yes,
    ensures
        win_checks(m, deltas).grid == m.grid,
        win_checks(m, deltas).targets == m.targets,
        win_checks(m, deltas).next == m.next,
        win_checks(m, deltas).bodies == m.bodies,
        win_checks(m, deltas).win_timer.duration == m.win_timer.duration,
        win_checks(m, deltas).player_spawned != PlayerSpawned::Yes ==> win_checks(m, deltas).current == m.next,
    decreases deltas.len(),
{
    if deltas.len() > 0 {
        lemma_win_checks_keep(m, deltas.drop_last());
    }
}

/// A tick on which some target does not hold a block completes nothing and
/// discards the accrued win time.
pub proof fn unheld_target_resets(m: LevelModel, delta: u64)
    requires
        m.player_spawned == PlayerSpawned::Yes,
        !targets_held(m.grid, m.targets),
    ensures
        m.after_win_check(delta).win_timer.elapsed == 0,
        m.after_win_check(delta).player_spawned == PlayerSpawned::Yes,
        m.after_win_check(delta).current == m.current,
{
}

} // verus!

verus! {

/// The cell of the column through `p` at height `y`.
pub open spec fn column_cell(p: GridCell, y: int) -> GridCell {
    GridCell { x: p.x, y: y as i32, z: p.z }
}

/// Every cell of the column through `p` below height `top` is a cell of the
/// grid and empty.
pub open spec fn column_clear(m: LevelModel, p: GridCell, top: int) -> bool {
    forall|y: int|
        0 <= y < top ==> m.grid.dom().contains(#[trigger] column_cell(p, y)) && m.grid[column_cell(p, y)]
            is None
}

/// The grid has no cell below height zero.
pub open spec fn floor_at_zero(m: LevelModel) -> bool {
    forall|c: GridCell| #[trigger] m.grid.dom().contains(c) ==> c.y >= 0
}

/// Every body in motion is falling.
pub open spec fn only_falls(m: LevelModel) -> bool {
    forall|j: int| 0 <= j < m.bodies.len() && (#[trigger] m.bodies[j]).to_move ==> m.bodies[j].velocity == down_cell()
}

/// `n` ticks without input, each of `delta` microseconds.
pub open spec fn idle_ticks(m: LevelModel, n: nat, delta: u64) -> LevelModel
    decreases n,
{
    if n == 0 {
        m
    } else {
        idle_ticks(m.after_step(None, delta), (n - 1) as nat, delta)
    }
}

/// One idle tick of a block that rests or falls straight down over an
/// empty column. When the move timer runs out, or nothing moves, a fall in
/// progress lands one cell lower and the block then falls on exactly when
/// it is still above the floor; otherwise only the move timer advances.
proof fn lemma_fall_tick(s: LevelModel, i: int, delta: u64)
    requires
        s.inv(),
        s.player_spawned == PlayerSpawned::Yes,
        1 <= i < s.bodies.len(),
        s.bodies[i].position.y >= 0,
        s.bodies[i].to_move ==> s.bodies[i].position.y > 0,
        only_falls(s),
        floor_at_zero(s),
        column_clear(s, s.bodies[i].position, s.bodies[i].position.y as int),
    ensures
        s.after_step(None, delta).grid.dom() == s.grid.dom(),
        s.after_step(None, delta).inv(),
        s.after_step(None, delta).bodies.len() == s.bodies.len(),
        s.after_step(None, delta).move_timer.duration == s.move_timer.duration,
        !s.move_timer.ticked(delta).is_finished() && any_moving(s.bodies) ==> {
            &&& s.after_step(None, delta).bodies == s.bodies
            &&& s.after_step(None, delta).grid == s.grid
            &&& s.after_step(None, delta).move_timer == s.move_timer.ticked(delta)
        },
        ({
            let n = s.after_step(None, delta);
            let y = if s.bodies[i].to_move {
                s.bodies[i].position.y - 1
            } else {
                s.bodies[i].position.y as int
            };
            (s.move_timer.ticked(delta).is_finished() || !any_moving(s.bodies)) ==> (n.player_spawned
                != PlayerSpawned::Yes || {
                &&& n.bodies[i].position == column_cell(s.bodies[i].position, y)
                &&& n.bodies[i].to_move == (y > 0)
                &&& only_falls(n)
                &&& column_clear(n, s.bodies[i].position, y)
            })
        }),
{
    let len = s.bodies.len() as int;
    let p = s.bodies[i].position;
    let a = s.after_move(delta);
    s.lemma_move_preserves(delta);
    let b = a.after_publish();
    let finished = a.move_timer.is_finished();
    if !finished && any_moving(s.bodies) {
        assert(b == a);
        assert(b.after_gravity() == b);
        let g = b.after_gravity();
        g.lemma_flags_preserve(g.after_block_update());
        let f = g.after_block_update();
        f.lemma_flags_preserve(f.after_win_check(delta));
        return;
    }
    let y = if s.bodies[i].to_move {
        p.y - 1
    } else {
        p.y as int
    };
    if finished {
        s.lemma_commit_bodies(delta);
        assert forall|j: int| 0 <= j < len && (#[trigger] s.bodies[j]).to_move implies s.grid.dom().contains(
            s.bodies[j].position,
        ) by {
            reveal(LevelModel::inv_cells);
        }
        s.lemma_vacated_upto(len);
        a.lemma_published_upto(len);
        assert(a.bodies[i].position == column_cell(p, y));
        assert(column_clear(b, p, y)) by {
            assert forall|yy: int| 0 <= yy < y implies b.grid.dom().contains(#[trigger] column_cell(p, yy))
                && b.grid[column_cell(p, yy)] is None by {
                let c = column_cell(p, yy);
                assert(s.grid.dom().contains(column_cell(p, yy)));
                assert forall|j: int| 0 <= j < len implies (#[trigger] a.bodies[j]).position != c by {
                    reveal(LevelModel::inv_cells);
                    reveal(LevelModel::inv_distinct);
                    assert(s.grid[s.bodies[j].position] is Some);
                    if s.bodies[j].to_move && a.bodies[j].position == c {
                        let q = s.bodies[j].position;
                        assert(q.y >= 0);
                        assert(s.bodies[j].velocity == down_cell());
                        assert(a.bodies[j].position == cell_sum(q, down_cell()));
                        assert(q.y - 1 == yy);
                        if yy + 1 < p.y {
                            assert(q == column_cell(p, yy + 1));
                        } else {
                            assert(q == p);
                        }
                    }
                }
                assert(b.grid[c] == a.grid[c]);
            }
        }
    } else {
        assert(!any_moving(s.bodies));
        assert(!s.bodies[i].to_move);
        assert(b == a);
        assert(column_cell(p, y) == p);
        assert(column_clear(b, p, y)) by {
            assert forall|yy: int| 0 <= yy < y implies b.grid.dom().contains(#[trigger] column_cell(p, yy))
                && b.grid[column_cell(p, yy)] is None by {
                assert(s.grid.dom().contains(column_cell(p, yy)));
            }
        }
    }
    assert(b.bodies == a.bodies);
    b.lemma_gravity_preserves();
    let g = b.after_gravity();
    assert(!any_moving(b.bodies)) by {
        if finished {
        } else {
            assert(b.bodies == s.bodies);
        }
    }
    assert(b.unsupported(i) == (y > 0)) by {
        if y > 0 {
            assert(cell_sum(a.bodies[i].position, down_cell()) == column_cell(p, y - 1));
        }
    }
    assert(only_falls(g));
    g.lemma_flags_preserve(g.after_block_update());
    let f = g.after_block_update();
    f.lemma_flags_preserve(f.after_win_check(delta));
    assert(b.grid.dom() == s.grid.dom());
}

/// The state of `lemma_settle_from`: block `i` stands in the column
/// through `p` over empty cells, falling exactly when above the floor, and
/// every body in motion is falling.
pub open spec fn settling(s: LevelModel, i: int, p: GridCell) -> bool {
    &&& s.inv()
    &&& 1 <= i < s.bodies.len()
    &&& floor_at_zero(s)
    &&& s.bodies[i].position.y >= 0
    &&& s.bodies[i].position == column_cell(p, s.bodies[i].position.y as int)
    &&& s.bodies[i].to_move == (s.bodies[i].position.y > 0)
    &&& only_falls(s)
    &&& column_clear(s, p, s.bodies[i].position.y as int)
}

/// The block has come to rest on the floor of its column, or the level is
/// over.
pub open spec fn settled(n: LevelModel, i: int, p: GridCell) -> bool {
    n.player_spawned != PlayerSpawned::Yes || {
        &&& n.bodies[i].position == column_cell(p, 0)
        &&& !n.bodies[i].to_move
    }
}

proof fn lemma_settle_from(s: LevelModel, i: int, p: GridCell, delta: u64)
    requires
        settling(s, i, p),
        delta > 0,
    ensures
        exists|n: nat| settled(#[trigger] idle_ticks(s, n, delta), i, p),
    decreases s.bodies[i].position.y, s.move_timer.duration - s.move_timer.elapsed,
{
    let q = s.bodies[i].position;
    assert(idle_ticks(s, 0, delta) == s);
    if s.player_spawned != PlayerSpawned::Yes || q.y == 0 {
        assert(q.y == 0 ==> q == column_cell(p, 0));
        assert(settled(idle_ticks(s, 0, delta), i, p));
        return;
    }
    assert(column_clear(s, q, q.y as int)) by {
        assert forall|yy: int| 0 <= yy < q.y implies #[trigger] column_cell(q, yy) == column_cell(p, yy) by {
        }
    }
    lemma_fall_tick(s, i, delta);
    let n = s.after_step(None, delta);
    assert(any_moving(s.bodies)) by {
        assert(s.bodies[i].to_move);
    }
    if n.player_spawned != PlayerSpawned::Yes {
        assert(idle_ticks(s, 1, delta) == idle_ticks(n, 0, delta));
        assert(settled(idle_ticks(s, 1, delta), i, p));
        return;
    }
    if s.move_timer.ticked(delta).is_finished() {
        let y = q.y - 1;
        assert(column_cell(q, y) == column_cell(p, y));
        assert(column_clear(n, q, y));
        assert(column_clear(n, p, y)) by {
            assert forall|yy: int| 0 <= yy < y implies n.grid.dom().contains(#[trigger] column_cell(p, yy))
                && n.grid[column_cell(p, yy)] is None by {
                assert(column_cell(q, yy) == column_cell(p, yy));
            }
        }
        assert(settling(n, i, p));
        lemma_settle_from(n, i, p, delta);
    } else {
        assert(n.bodies == s.bodies && n.grid == s.grid);
        assert(settling(n, i, p));
        lemma_settle_from(n, i, p, delta);
    }
    let k = choose|k: nat| settled(#[trigger] idle_ticks(n, k, delta), i, p);
    assert(idle_ticks(s, k + 1, delta) == idle_ticks(n, k, delta));
}

/// A block over an empty column settles: when it rests at height `h` over
/// empty cells all the way down and nothing is in motion, then, for any
/// positive tick length, some number of idle ticks later it lies at rest on
/// the floor of its column, never below, unless the level was completed
/// meanwhile.
pub proof fn block_settles(m: LevelModel, i: int, delta: u64)
    requires
        m.inv(),
        m.player_spawned == PlayerSpawned::Yes,
        delta > 0,
        1 <= i < m.bodies.len(),
        m.bodies[i].position.y >= 0,
        !any_moving(m.bodies),
        floor_at_zero(m),
        column_clear(m, m.bodies[i].position, m.bodies[i].position.y as int),
    ensures
        exists|n: nat| settled(#[trigger] idle_ticks(m, n, delta), i, m.bodies[i].position),
{
    let p = m.bodies[i].position;
    assert(only_falls(m));
    lemma_fall_tick(m, i, delta);
    let n = m.after_step(None, delta);
    assert(idle_ticks(m, 0, delta) == m);
    assert(column_cell(p, p.y as int) == p);
    if n.player_spawned != PlayerSpawned::Yes {
        assert(idle_ticks(m, 1, delta) == idle_ticks(n, 0, delta));
        assert(settled(idle_ticks(m, 1, delta), i, p));
        return;
    }
    assert(settling(n, i, p));
    lemma_settle_from(n, i, p, delta);
    let k = choose|k: nat| settled(#[trigger] idle_ticks(n, k, delta), i, p);
    assert(idle_ticks(m, k + 1, delta) == idle_ticks(n, k, delta));
}

} // verus!
