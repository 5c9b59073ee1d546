use vstd::prelude::*;
use crate::countdown::Countdown;
use crate::game::{GameLevel, Level, PlayerSpawned, WinTimer};
use crate::game_grid::{GameGrid, box_volume, empty_box};
use crate::grid_cell::{GridCell, GridCellType, zero_cell};
use crate::grid_physics::{BlockNextMove, GridEntity, MoveTimer};
use crate::model::LevelModel;
use crate::tile_map::{MapError, filled_before, first_fault, map_ok, texts};

verus! {

/// What a level is made of: its size, its tile map (one text per layer),
/// where the player and the blocks start (block `i` has identity `i`), the
/// target cells, which level it is and which comes next, and how long a
/// move and a win take, in microseconds.
#[derive(Clone, Debug)]
pub struct LevelDescriptor {
    pub width: i32,
    pub length: i32,
    pub height: i32,
    pub tiles: Vec<String>,
    pub player: GridCell,
    pub blocks: Vec<GridCell>,
    pub targets: Vec<GridCell>,
    pub level: GameLevel,
    pub next: GameLevel,
    pub move_duration: u64,
    pub win_duration: u64,
}

/// Why a level could not be loaded.
#[derive(Clone, Copy, Debug, PartialEq, Eq, Structural)]
pub enum LoadError {
    /// The tile map is malformed.
    TileMap(MapError),
    /// A spawn cell lies outside the grid or is already occupied.
    BadSpawn(GridCell),
    /// A target cell lies outside the grid.
    BadTarget(GridCell),
}

impl LevelDescriptor {
    /// The empty grid of the level's size.
    pub open spec fn empty_grid(&self) -> Map<GridCell, Option<GridCellType>> {
        empty_box(self.width as int, self.length as int, self.height as int)
    }

    /// The grid with the tiles of the map placed.
    pub open spec fn tiled(&self) -> Map<GridCell, Option<GridCellType>> {
        filled_before(self.empty_grid(), texts(self.tiles@), self.tiles@.len() as int, 0, 0)
    }

    pub open spec fn map_ok(&self) -> bool {
        map_ok(texts(self.tiles@), self.width as int, self.length as int, self.height as int)
    }

    /// Every spawn before `k` is sound.
    pub open spec fn spawns_ok_before(&self, k: int) -> bool {
        forall|j: int| 0 <= j < k ==> #[trigger] self.spawn_ok(self.tiled(), j)
    }

    pub open spec fn spawn_count(&self) -> int {
        self.blocks@.len() as int + 1
    }

    pub open spec fn targets_ok_before(&self, k: int) -> bool {
        forall|j: int| 0 <= j < k ==> self.tiled().dom().contains(#[trigger] self.targets@[j])
    }

    /// `e` is the error that loading the level reports: the first fault of
    /// the tile map, else the first unsound spawn, else the first target
    /// outside the grid.
    pub open spec fn load_error(&self, e: LoadError) -> bool {
        match e {
            LoadError::TileMap(m) => first_fault(
                texts(self.tiles@),
                self.width as int,
                self.length as int,
                self.height as int,
                m,
            ),
            LoadError::BadSpawn(c) => {
                &&& self.map_ok()
                &&& exists|k: int|
                    0 <= k < self.spawn_count() && self.spawns_ok_before(k) && !self.spawn_ok(self.tiled(), k)
                        && self.spawn(k) == c
            },
            LoadError::BadTarget(c) => {
                &&& self.map_ok()
                &&& self.spawns_ok_before(self.spawn_count())
                &&& exists|k: int|
                    0 <= k < self.targets@.len() && self.targets_ok_before(k) && !self.tiled().dom().contains(c)
                        && self.targets@[k] == c
            },
        }
    }

    /// Loading succeeds: the map is sound, and so are the spawns and the
    /// targets.
    pub open spec fn load_ok(&self) -> bool {
        &&& self.map_ok()
        &&& self.spawns_ok_before(self.spawn_count())
        &&& self.targets_ok_before(self.targets@.len() as int)
    }

    /// Spawn `k` is the player for `k == 0` and block `k - 1` otherwise.
    pub open spec fn spawn(&self, k: int) -> GridCell {
        if k == 0 {
            self.player
        } else {
            self.blocks@[k - 1]
        }
    }

    pub open spec fn spawn_type(k: int) -> GridCellType {
        if k == 0 {
            GridCellType::Player
        } else {
            GridCellType::MovingTile((k - 1) as i32)
        }
    }

    /// Spawn `k` lands on a cell of the grid that holds no tile and no
    /// earlier spawn.
    pub open spec fn spawn_ok(&self, tiled: Map<GridCell, Option<GridCellType>>, k: int) -> bool {
        &&& tiled.dom().contains(self.spawn(k))
        &&& tiled[self.spawn(k)] is None
        &&& forall|j: int| 0 <= j < k ==> self.spawn(j) != self.spawn(k)
    }

    /// The body that spawn `k` creates, at rest.
    pub open spec fn body(&self, k: int) -> GridEntity {
        GridEntity {
            cell_type: Self::spawn_type(k),
            position: self.spawn(k),
            velocity: zero_cell(),
            to_move: false,
        }
    }

    /// The state of the level right after loading, given its tiled grid.
    pub open spec fn initial(&self) -> LevelModel {
        let tiled = self.tiled();
        let n = self.spawn_count();
        LevelModel {
            grid: Map::new(
                |c: GridCell| tiled.dom().contains(c),
                |c: GridCell|
                    if exists|k: int| 0 <= k < n && self.spawn(k) == c {
                        Some(Self::spawn_type(choose|k: int| 0 <= k < n && self.spawn(k) == c))
                    } else {
                        tiled[c]
                    },
            ),
            bodies: Seq::new(n as nat, |k: int| self.body(k)),
            targets: self.targets@,
            move_timer: Countdown { duration: self.move_duration, elapsed: 0 },
            win_timer: Countdown { duration: self.win_duration, elapsed: 0 },
            block_next_move: false,
            player_spawned: PlayerSpawned::Yes,
            current: self.level,
            next: self.next,
        }
    }
}

impl LevelDescriptor {
    proof fn lemma_initial(&self, level: Level)
        requires
            level.grid.wf(),
            level.grid@.dom() == self.tiled().dom(),
            self.load_ok(),
            self.spawn_count() <= i32::MAX,
            forall|j: int|
                0 <= j < self.spawn_count() ==> level.grid@[#[trigger] self.spawn(j)] == Some(
                    LevelDescriptor::spawn_type(j),
                ),
            forall|c: GridCell|
                (forall|j: int| 0 <= j < self.spawn_count() ==> #[trigger] self.spawn(j) != c)
                    ==> level.grid@[c] == self.tiled()[c],
            level.bodies@ == Seq::new(self.spawn_count() as nat, |i: int| self.body(i)),
            level.targets@ == self.targets@,
            level.move_timer.0 == (Countdown { duration: self.move_duration, elapsed: 0 }),
            level.win_timer.0 == (Countdown { duration: self.win_duration, elapsed: 0 }),
            level.block_next_move.0 == false,
            level.player_spawned == PlayerSpawned::Yes,
            level.current == self.level,
            level.next == self.next,
        ensures
            level.wf(),
            level@ == self.initial(),
    {
        let n = self.spawn_count();
        let tiled = self.tiled();
        let init = self.initial();
        assert forall|j: int, k: int| 0 <= j < n && 0 <= k < n && j != k implies
            #[trigger] self.spawn(j) != #[trigger] self.spawn(k) by {
            if j < k {
                assert(self.spawn_ok(tiled, k));
            } else {
                assert(self.spawn_ok(tiled, j));
            }
        }
        assert(level.grid@ =~= init.grid) by {
            assert forall|c: GridCell| #[trigger] tiled.dom().contains(c) implies level.grid@[c] == init.grid[c] by {
                if exists|k: int| 0 <= k < n && self.spawn(k) == c {
                    let k = choose|k: int| 0 <= k < n && self.spawn(k) == c;
                    assert(level.grid@[self.spawn(k)] == Some(LevelDescriptor::spawn_type(k)));
                }
            }
        }
        assert(level@ == init);
        reveal(LevelModel::inv_kinds);
        reveal(LevelModel::inv_cells);
        reveal(LevelModel::inv_distinct);
        reveal(LevelModel::inv_marked);
        reveal(LevelModel::inv_moves);
        assert(init.bodies[0] == self.body(0));
        assert(init.inv_cells()) by {
            assert forall|i: int| 0 <= i < n implies tiled.dom().contains((#[trigger] init.bodies[i]).position) by {
                assert(self.spawn_ok(tiled, i));
            }
        }
        assert(init.inv_marked()) by {
            assert forall|c: GridCell|
                init.grid.dom().contains(c) && (#[trigger] init.grid[c]) is Some && init.grid[c].unwrap().is_mover()
                implies exists|i: int| 0 <= i < init.bodies.len() && (#[trigger] init.bodies[i]).position == c by {
                if forall|j: int| 0 <= j < n ==> #[trigger] self.spawn(j) != c {
                    assert(init.grid[c] == tiled[c]);
                    assert(!tiled[c].unwrap().is_mover());
                } else {
                    let j = choose|j: int| 0 <= j < n && #[trigger] self.spawn(j) == c;
                    assert(init.bodies[j].position == c);
                }
            }
        }
        assert(init.inv_distinct()) by {
            assert forall|i: int, j: int| 0 <= i < n && 0 <= j < n && i != j implies
                (#[trigger] init.bodies[i]).cell_type != (#[trigger] init.bodies[j]).cell_type by {
                assert(self.spawn(i) != self.spawn(j));
            }
        }
    }
}

impl Level {
    /// Loads a level: an empty grid of its size, the tiles of its map, then
    /// the player and each block at its spawn cell, at rest, and the
    /// targets; the player is spawned and both timers are at zero. A faulty
    /// map, a spawn cell outside the grid or already occupied (by a tile or
    /// an earlier spawn), or a target outside the grid is an error, the
    /// first one in that order.
    pub fn load(desc: &LevelDescriptor) -> (r: Result<Level, LoadError>)
        requires
            box_volume(desc.width as int, desc.length as int, desc.height as int) <= usize::MAX,
            desc.blocks@.len() < i32::MAX,
        ensures
            match r {
                Ok(level) => {
                    &&& desc.load_ok()
                    &&& level.wf()
                    &&& level@ == desc.initial()
                },
                Err(e) => desc.load_error(e),
            },
    {
        let empty = GameGrid::new(desc.width, desc.length, desc.height);
        let mut grid = match empty.tiles_from_csv(&desc.tiles) {
            Ok(g) => g,
            Err(e) => {
                return Err(LoadError::TileMap(e));
            },
        };
        let ghost tiled = grid@;
        assert(tiled == desc.tiled());
        let n = desc.blocks.len() + 1;
        let mut bodies: Vec<GridEntity> = Vec::with_capacity(n);
        let mut k: usize = 0;
        while k < n
            invariant
                n == desc.spawn_count(),
                n <= i32::MAX,
                k <= n,
                grid.wf(),
                grid@.dom() == tiled.dom(),
                tiled == desc.tiled(),
                desc.map_ok(),
                desc.spawns_ok_before(k as int),
                bodies@ == Seq::new(k as nat, |i: int| desc.body(i)),
                forall|j: int| 0 <= j < k ==> grid@[#[trigger] desc.spawn(j)] == Some(LevelDescriptor::spawn_type(j)),
                forall|c: GridCell|
                    (forall|j: int| 0 <= j < k ==> #[trigger] desc.spawn(j) != c) ==> grid@[c] == tiled[c],
            decreases n - k,
        {
            let cell = if k == 0 { desc.player } else { desc.blocks[k - 1] };
            let kind = if k == 0 { GridCellType::Player } else { GridCellType::MovingTile((k - 1) as i32) };
            assert(cell == desc.spawn(k as int));
            assert(kind == LevelDescriptor::spawn_type(k as int));
            if !grid.in_bounds(&cell) {
                return Err(LoadError::BadSpawn(cell));
            }
            if grid.get(&cell).is_some() {
                proof {
                    if forall|j: int| 0 <= j < k ==> #[trigger] desc.spawn(j) != cell {
                        assert(grid@[cell] == tiled[cell]);
                    }
                }
                return Err(LoadError::BadSpawn(cell));
            }
            proof {
                assert forall|j: int| 0 <= j < k implies #[trigger] desc.spawn(j) != cell by {
                    assert(grid@[desc.spawn(j)] is Some);
                }
                if forall|j: int| 0 <= j < k ==> #[trigger] desc.spawn(j) != cell {
                    assert(grid@[cell] == tiled[cell]);
                }
                assert(desc.spawn_ok(tiled, k as int));
            }
            grid.set(&cell, Some(kind));
            bodies.push(GridEntity::at_rest(kind, cell));
            proof {
                assert(grid@.dom() =~= tiled.dom());
                assert(bodies@ =~= Seq::new((k + 1) as nat, |i: int| desc.body(i)));
                assert forall|j: int| 0 <= j < k + 1 implies #[trigger] desc.spawn_ok(tiled, j) by {
                    if j < k {
                        assert(desc.spawns_ok_before(k as int));
                    }
                }
            }
            k = k + 1;
        }
        let mut t: usize = 0;
        while t < desc.targets.len()
            invariant
                t <= desc.targets@.len(),
                grid@.dom() == desc.tiled().dom(),
                desc.targets_ok_before(t as int),
                desc.map_ok(),
                desc.spawns_ok_before(desc.spawn_count()),
                grid.wf(),
            decreases desc.targets.len() - t,
        {
            if !grid.in_bounds(&desc.targets[t]) {
                assert(!desc.tiled().dom().contains(desc.targets@[t as int]));
                return Err(LoadError::BadTarget(desc.targets[t]));
            }
            t = t + 1;
        }
        let level = Level {
            grid,
            bodies,
            targets: copy_cells(&desc.targets),
            move_timer: MoveTimer(Countdown::from_micros(desc.move_duration)),
            win_timer: WinTimer(Countdown::from_micros(desc.win_duration)),
            block_next_move: BlockNextMove(false),
            player_spawned: PlayerSpawned::Yes,
            current: desc.level,
            next: desc.next,
        };
        proof {
            assert(level.targets@ == desc.targets@);
            desc.lemma_initial(level);
        }
        Ok(level)
    }
}

impl Level {
    /// Restarts the level from its descriptor: on success the level is
    /// exactly what `load` gives; on failure it is left as it was.
    pub fn reset(&mut self, desc: &LevelDescriptor) -> (r: Result<(), LoadError>)
        requires
            box_volume(desc.width as int, desc.length as int, desc.height as int) <= usize::MAX,
            desc.blocks@.len() < i32::MAX,
        ensures
            match r {
                Ok(()) => {
                    &&& desc.load_ok()
                    &&& final(self).wf()
                    &&& final(self)@ == desc.initial()
                },
                Err(e) => {
                    &&& desc.load_error(e)
                    &&& *final(self) == *old(self)
                },
            },
    {
        match Level::load(desc) {
            Ok(level) => {
                *self = level;
                Ok(())
            },
            Err(e) => Err(e),
        }
    }
}

fn copy_cells(v: &Vec<GridCell>) -> (r: Vec<GridCell>)
    ensures
        r@ == v@,
{
    let mut r: Vec<GridCell> = Vec::with_capacity(v.len());
    let mut i: usize = 0;
    while i < v.len()
        invariant
            i <= v@.len(),
            r@ == v@.take(i as int),
        decreases v.len() - i,
    {
        r.push(v[i]);
        i = i + 1;
        assert(r@ =~= v@.take(i as int));
    }
    assert(v@.take(v@.len() as int) =~= v@);
    r
}

} // verus!
