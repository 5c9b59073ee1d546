use vstd::prelude::*;
use crate::grid_cell::{GridCell, GridCellType};
use crate::tile_map::{
    MapError, chars_of, comes_before, entry_at, entry_ok, fields_of, filled_before,
    first_fault, has_entry, lines, lines_of, map_ok, parse_entry, placed_tile, split_chars, texts, views,
};

verus! {

/// Whether `c` lies in the box of `width` x `height` x `length` cells whose
/// lowest corner is the origin (`x` runs along the width, `z` along the
/// length, `y` upwards).
pub open spec fn box_contains(width: int, length: int, height: int, c: GridCell) -> bool {
    0 <= c.x < width && 0 <= c.y < height && 0 <= c.z < length
}

/// The store of a freshly reset grid: every cell of the box, all empty.
pub open spec fn empty_box(width: int, length: int, height: int) -> Map<
    GridCell,
    Option<GridCellType>,
> {
    Map::new(|c: GridCell| box_contains(width, length, height, c), |c: GridCell| None)
}

/// The extent of one side, where a negative size holds no cell.
pub open spec fn side(d: int) -> int {
    if d > 0 {
        d
    } else {
        0
    }
}

/// How many cells a box of the given size holds.
pub open spec fn box_volume(width: int, length: int, height: int) -> int {
    side(width) * side(length) * side(height)
}

/// The grid store: the occupancy of every cell of a box-shaped level.
/// Cells are kept in one vector, layer by layer, row by row.
#[derive(Debug)]
pub struct GameGrid {
    width: i32,
    length: i32,
    height: i32,
    grid: Vec<Option<GridCellType>>,
}

proof fn lemma_split_unique(a1: int, x1: int, a2: int, x2: int, w: int)
    requires
        0 <= x1 < w,
        0 <= x2 < w,
        0 <= a1,
        0 <= a2,
        a1 * w + x1 == a2 * w + x2,
    ensures
        a1 == a2,
        x1 == x2,
{
    if a1 < a2 {
        assert(a1 * w + w <= a2 * w) by (nonlinear_arith)
            requires
                a1 < a2,
                0 < w,
        ;
    } else if a2 < a1 {
        assert(a2 * w + w <= a1 * w) by (nonlinear_arith)
            requires
                a2 < a1,
                0 < w,
        ;
    }
}

proof fn lemma_split_bound(a: int, x: int, n: int, w: int)
    requires
        0 <= x < w,
        0 <= a < n,
    ensures
        0 <= a * w + x < n * w,
{
    assert(0 <= a * w + x < n * w) by (nonlinear_arith)
        requires
            0 <= x < w,
            0 <= a < n,
    ;
}

impl GameGrid {
    pub closed spec fn width(&self) -> int {
        self.width as int
    }

    pub closed spec fn length(&self) -> int {
        self.length as int
    }

    pub closed spec fn height(&self) -> int {
        self.height as int
    }

    pub open spec fn contains(&self, c: GridCell) -> bool {
        box_contains(self.width(), self.length(), self.height(), c)
    }

    spec fn index_of(&self, c: GridCell) -> int {
        (c.y * self.length + c.z) * self.width + c.x
    }

    pub closed spec fn wf(&self) -> bool {
        self.grid@.len() == box_volume(self.width(), self.length(), self.height())
    }

    /// The occupancy of every cell of the box.
    pub closed spec fn view(&self) -> Map<GridCell, Option<GridCellType>> {
        Map::new(|c: GridCell| self.contains(c), |c: GridCell| self.grid@[self.index_of(c)])
    }

    proof fn lemma_index(&self, c: GridCell)
        requires
            self.wf(),
            self.contains(c),
        ensures
            0 <= self.index_of(c) < self.grid@.len(),
    {
        let (w, l, h) = (self.width as int, self.length as int, self.height as int);
        lemma_split_bound(c.y as int, c.z as int, h, l);
        lemma_split_bound(c.y * l + c.z, c.x as int, h * l, w);
        assert(h * l * w == w * l * h) by (nonlinear_arith);
    }

    proof fn lemma_index_unique(&self, c1: GridCell, c2: GridCell)
        requires
            self.wf(),
            self.contains(c1),
            self.contains(c2),
            c1 != c2,
        ensures
            self.index_of(c1) != self.index_of(c2),
    {
        let (w, l) = (self.width as int, self.length as int);
        if self.index_of(c1) == self.index_of(c2) {
            lemma_split_bound(c1.y as int, c1.z as int, self.height as int, l);
            lemma_split_bound(c2.y as int, c2.z as int, self.height as int, l);
            lemma_split_unique(c1.y * l + c1.z, c1.x as int, c2.y * l + c2.z, c2.x as int, w);
            lemma_split_unique(c1.y as int, c1.z as int, c2.y as int, c2.z as int, l);
        }
    }

    /// The cells of the store are exactly those of its box, whose sides fit
    /// in an `i32`.
    pub proof fn lemma_dom(&self)
        ensures
            forall|c: GridCell| #[trigger] self@.dom().contains(c) <==> self.contains(c),
            self.width() <= i32::MAX,
            self.length() <= i32::MAX,
            self.height() <= i32::MAX,
    {
    }

    /// A grid of the given size with every cell empty.
    pub fn new(width: i32, length: i32, height: i32) -> (r: Self)
        requires
            box_volume(width as int, length as int, height as int) <= usize::MAX,
        ensures
            r.wf(),
            r.width() == width,
            r.length() == length,
            r.height() == height,
            r@ == empty_box(width as int, length as int, height as int),
    {
        let w: usize = if width > 0 { width as usize } else { 0 };
        let l: usize = if length > 0 { length as usize } else { 0 };
        let h: usize = if height > 0 { height as usize } else { 0 };
        assert(w * l <= w * l * h || h == 0) by (nonlinear_arith);
        assert(w as int * l as int * h as int == box_volume(width as int, length as int, height as int));
        let count: usize = if h == 0 { 0 } else { w * l * h };
        let mut grid: Vec<Option<GridCellType>> = Vec::with_capacity(count);
        let mut i: usize = 0;
        while i < count
            invariant
                i <= count,
                grid@.len() == i,
                forall|k: int| 0 <= k < i ==> grid@[k] is None,
            decreases count - i,
        {
            grid.push(None);
            i = i + 1;
        }
        let r = GameGrid { width, length, height, grid };
        assert(r@ =~= empty_box(width as int, length as int, height as int)) by {
            assert forall|c: GridCell| #[trigger] r.contains(c) implies r.grid@[r.index_of(c)] is None by {
                r.lemma_index(c);
            }
        }
        r
    }

    /// Clears the store and sizes it again, every cell empty.
    pub fn reset(&mut self, width: i32, length: i32, height: i32)
        requires
            box_volume(width as int, length as int, height as int) <= usize::MAX,
        ensures
            final(self).wf(),
            final(self).width() == width,
            final(self).length() == length,
            final(self).height() == height,
            final(self)@ == empty_box(width as int, length as int, height as int),
    {
        *self = GameGrid::new(width, length, height);
    }

    pub fn get_width(&self) -> (r: i32)
        ensures
            r == self.width(),
    {
        self.width
    }

    pub fn get_length(&self) -> (r: i32)
        ensures
            r == self.length(),
    {
        self.length
    }

    pub fn get_height(&self) -> (r: i32)
        ensures
            r == self.height(),
    {
        self.height
    }

    /// Whether `c` is one of the grid's cells.
    pub fn in_bounds(&self, c: &GridCell) -> (r: bool)
        ensures
            r == self.contains(*c),
            r == self@.dom().contains(*c),
    {
        0 <= c.x && c.x < self.width && 0 <= c.y && c.y < self.height && 0 <= c.z && c.z
            < self.length
    }

    fn index(&self, c: &GridCell) -> (r: usize)
        requires
            self.wf(),
            self.contains(*c),
        ensures
            r == self.index_of(*c),
            r < self.grid@.len(),
    {
        proof {
            self.lemma_index(*c);
            let (w, l) = (self.width as int, self.length as int);
            lemma_split_bound(c.y as int, c.z as int, self.height as int, l);
            assert(0 <= c.y * l <= c.y * l + c.z);
            assert(c.y * l + c.z <= (c.y * l + c.z) * w <= self.index_of(*c)) by (nonlinear_arith)
                requires
                    0 <= c.y * l + c.z,
                    0 <= c.x,
                    1 <= w,
                    self.index_of(*c) == (c.y * l + c.z) * w + c.x,
            ;
        }
        let y = c.y as usize;
        let l = self.length as usize;
        let w = self.width as usize;
        let n = self.grid.len();
        assert(self.index_of(*c) < n);
        assert(y * l + c.z <= self.index_of(*c) < self.grid@.len());
        let row = y * l + c.z as usize;
        row * w + c.x as usize
    }

    /// The occupancy of a cell of the grid.
    pub fn get(&self, c: &GridCell) -> (r: Option<GridCellType>)
        requires
            self.wf(),
            self@.dom().contains(*c),
        ensures
            r == self@[*c],
    {
        let i = self.index(c);
        self.grid[i]
    }

    /// The occupancy of `c`, or `None` where `c` lies outside the grid.
    pub fn lookup(&self, c: &GridCell) -> (r: Option<Option<GridCellType>>)
        requires
            self.wf(),
        ensures
            r == (if self@.dom().contains(*c) {
                Some(self@[*c])
            } else {
                None
            }),
    {
        if self.in_bounds(c) {
            Some(self.get(c))
        } else {
            None
        }
    }

    /// Records `value` as the occupancy of the cell `c`.
    pub fn set(&mut self, c: &GridCell, value: Option<GridCellType>)
        requires
            old(self).wf(),
            old(self)@.dom().contains(*c),
        ensures
            final(self).wf(),
            final(self).width() == old(self).width(),
            final(self).length() == old(self).length(),
            final(self).height() == old(self).height(),
            final(self)@ == old(self)@.insert(*c, value),
    {
        let i = self.index(c);
        self.grid.set(i, value);
        proof {
            let pre = *old(self);
            assert(self@ =~= pre@.insert(*c, value)) by {
                assert forall|d: GridCell| #[trigger] self.contains(d) implies self.grid@[self.index_of(d)]
                    == (if d == *c { value } else { pre.grid@[pre.index_of(d)] }) by {
                    if d != *c {
                        pre.lemma_index_unique(d, *c);
                        pre.lemma_index(d);
                    }
                }
            }
        }
    }

    /// Places the tiles of a map: `tiles[y]` is layer `y`, one line per row
    /// `z`, comma-separated entries per column `x`. A negative entry places
    /// nothing; any other places a static tile with that index. The grid
    /// keeps its size. A malformed map is rejected with the first faulty
    /// entry, in the order layer, line, column.
    pub fn tiles_from_csv(self, tiles: &Vec<String>) -> (r: Result<GameGrid, MapError>)
        requires
            self.wf(),
        ensures
            match r {
                Ok(g) => {
                    &&& map_ok(texts(tiles@), self.width(), self.length(), self.height())
                    &&& g.wf()
                    &&& g.width() == self.width()
                    &&& g.length() == self.length()
                    &&& g.height() == self.height()
                    &&& g@ == filled_before(self@, texts(tiles@), tiles@.len() as int, 0, 0)
                },
                Err(e) => first_fault(texts(tiles@), self.width(), self.length(), self.height(), e),
            },
    {
        let ghost t = texts(tiles@);
        let ghost start = self;
        let mut grid = self;
        let mut y: usize = 0;
        assert(grid@ =~= filled_before(start@, t, 0, 0, 0));
        while y < tiles.len()
            invariant
                t == texts(tiles@),
                y <= tiles@.len(),
                start.wf(),
                start == self,
                grid.wf(),
                grid.width() == start.width(),
                grid.length() == start.length(),
                grid.height() == start.height(),
                grid@ == filled_before(start@, t, y as int, 0, 0),
                forall|y2: int, z2: int, x2: int|
                    #[trigger] has_entry(t, y2, z2, x2) && y2 < y ==> entry_ok(
                        t,
                        start.width(),
                        start.length(),
                        start.height(),
                        y2,
                        z2,
                        x2,
                    ),
            decreases tiles.len() - y,
        {
            let text = chars_of(&tiles[y]);
            let rows = lines(&text);
            assert(t[y as int] == tiles@[y as int]@);
            let mut z: usize = 0;
            while z < rows.len()
                invariant
                    t == texts(tiles@),
                    y < tiles@.len(),
                    views(rows@) == lines_of(t[y as int]),
                    z <= rows@.len(),
                    start.wf(),
                    start == self,
                    grid.wf(),
                    grid.width() == start.width(),
                    grid.length() == start.length(),
                    grid.height() == start.height(),
                    grid@ == filled_before(start@, t, y as int, z as int, 0),
                    forall|y2: int, z2: int, x2: int|
                        #[trigger] has_entry(t, y2, z2, x2) && comes_before(y2, z2, x2, y as int, z as int, 0)
                            ==> entry_ok(t, start.width(), start.length(), start.height(), y2, z2, x2),
                decreases rows.len() - z,
            {
                let fields = split_chars(&rows[z], ',');
                assert(views(fields@) == fields_of(lines_of(t[y as int])[z as int]));
                let mut x: usize = 0;
                while x < fields.len()
                    invariant
                        t == texts(tiles@),
                        y < tiles@.len(),
                        z < lines_of(t[y as int]).len(),
                        views(fields@) == fields_of(lines_of(t[y as int])[z as int]),
                        x <= fields@.len(),
                        start.wf(),
                        start == self,
                        grid.wf(),
                        grid.width() == start.width(),
                        grid.length() == start.length(),
                        grid.height() == start.height(),
                        grid@ == filled_before(start@, t, y as int, z as int, x as int),
                        forall|y2: int, z2: int, x2: int|
                            #[trigger] has_entry(t, y2, z2, x2) && comes_before(
                                y2,
                                z2,
                                x2,
                                y as int,
                                z as int,
                                x as int,
                            ) ==> entry_ok(t, start.width(), start.length(), start.height(), y2, z2, x2),
                    decreases fields.len() - x,
                {
                    assert(fields@[x as int]@ == entry_at(t, y as int, z as int, x as int));
                    assert(has_entry(t, y as int, z as int, x as int));
                    let v = match parse_entry(&fields[x]) {
                        Some(v) => v,
                        None => {
                            return Err(MapError::BadEntry { layer: y, line: z, column: x });
                        },
                    };
                    if v >= 0 {
                        if x > 0x7fff_ffff || y > 0x7fff_ffff || z > 0x7fff_ffff {
                            proof {
                                grid.lemma_dom();
                            }
                            return Err(MapError::OutOfBounds { layer: y, line: z, column: x });
                        }
                        let cell = GridCell::new(x as i32, y as i32, z as i32);
                        if !grid.in_bounds(&cell) {
                            return Err(MapError::OutOfBounds { layer: y, line: z, column: x });
                        }
                        grid.set(&cell, Some(GridCellType::Tile(v)));
                    }
                    proof {
                        let next = filled_before(start@, t, y as int, z as int, x + 1);
                        assert forall|c: GridCell| #[trigger] next.dom().contains(c) implies grid@[c] == next[c] by {
                            if c.y == y && c.z == z && c.x == x {
                            } else {
                                assert(comes_before(c.y as int, c.z as int, c.x as int, y as int, z as int, x + 1)
                                    == comes_before(c.y as int, c.z as int, c.x as int, y as int, z as int, x as int));
                            }
                        }
                        assert(grid@ =~= next);
                    }
                    x = x + 1;
                }
                proof {
                    let next = filled_before(start@, t, y as int, z + 1, 0);
                    assert forall|c: GridCell| #[trigger] next.dom().contains(c) implies grid@[c] == next[c] by {
                        if c.y == y && c.z == z && placed_tile(t, c.y as int, c.z as int, c.x as int) is Some {
                            assert(c.x < fields@.len());
                        }
                    }
                    assert(grid@ =~= next);
                }
                z = z + 1;
            }
            proof {
                let next = filled_before(start@, t, y + 1, 0, 0);
                assert forall|c: GridCell| #[trigger] next.dom().contains(c) implies grid@[c] == next[c] by {
                    if c.y == y && placed_tile(t, c.y as int, c.z as int, c.x as int) is Some {
                        assert(c.z < rows@.len());
                    }
                }
                assert(grid@ =~= next);
            }
            y = y + 1;
        }
        Ok(grid)
    }
}

} // verus!
