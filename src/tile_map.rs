use vstd::prelude::*;
use vstd::string::StrSliceExecFns;
use crate::grid_cell::{GridCell, GridCellType};

verus! {

/// `s` cut at every `sep`: the pieces between separators, in order, always
/// at least one (an empty text gives one empty piece).
pub open spec fn split_on(s: Seq<char>, sep: char) -> Seq<Seq<char>>
    decreases s.len(),
{
    if s.len() == 0 {
        seq![Seq::empty()]
    } else {
        let init = split_on(s.drop_last(), sep);
        if s.last() == sep {
            init.push(Seq::empty())
        } else {
            init.update(init.len() - 1, init.last().push(s.last()))
        }
    }
}

/// A line without the carriage return that may end it.
pub open spec fn strip_cr(l: Seq<char>) -> Seq<char> {
    if l.len() > 0 && l.last() == '\r' {
        l.drop_last()
    } else {
        l
    }
}

/// The lines of a text: cut at each line feed, with an optional carriage
/// return before it; a final line feed ends the last line and opens no new
/// one, so an empty text has no line.
pub open spec fn lines_of(s: Seq<char>) -> Seq<Seq<char>> {
    let pieces = split_on(s, '\n');
    let kept = if pieces.last().len() == 0 {
        pieces.drop_last()
    } else {
        pieces
    };
    kept.map_values(|l: Seq<char>| strip_cr(l))
}

/// The comma-separated entries of a line.
pub open spec fn fields_of(line: Seq<char>) -> Seq<Seq<char>> {
    split_on(line, ',')
}

pub open spec fn is_digit(c: char) -> bool {
    '0' <= c <= '9'
}

/// The value of a string of decimal digits.
pub open spec fn digits_value(d: Seq<char>) -> int
    decreases d.len(),
{
    if d.len() == 0 {
        0
    } else {
        digits_value(d.drop_last()) * 10 + (d.last() as int - '0' as int)
    }
}

pub open spec fn has_sign(f: Seq<char>) -> bool {
    f.len() > 0 && (f[0] == '-' || f[0] == '+')
}

/// An entry without its sign.
pub open spec fn magnitude(f: Seq<char>) -> Seq<char> {
    if has_sign(f) {
        f.skip(1)
    } else {
        f
    }
}

pub open spec fn all_digits(d: Seq<char>) -> bool {
    d.len() > 0 && forall|i: int| 0 <= i < d.len() ==> is_digit(#[trigger] d[i])
}

/// An entry is an optional sign followed by one or more decimal digits.
pub open spec fn field_value(f: Seq<char>) -> Option<int> {
    if all_digits(magnitude(f)) {
        Some(
            if f[0] == '-' {
                -digits_value(magnitude(f))
            } else {
                digits_value(magnitude(f))
            },
        )
    } else {
        None
    }
}

/// The tile index an entry names, where it is well-formed and fits an `i32`.
pub open spec fn entry_value(f: Seq<char>) -> Option<i32> {
    match field_value(f) {
        Some(v) => if i32::MIN <= v <= i32::MAX {
            Some(v as i32)
        } else {
            None
        },
        None => None,
    }
}

proof fn lemma_split_nonempty(s: Seq<char>, sep: char)
    ensures
        split_on(s, sep).len() >= 1,
    decreases s.len(),
{
    if s.len() > 0 {
        lemma_split_nonempty(s.drop_last(), sep);
    }
}

proof fn lemma_digits_grow(d: Seq<char>, k: int)
    requires
        0 <= k <= d.len(),
        forall|i: int| 0 <= i < d.len() ==> is_digit(#[trigger] d[i]),
    ensures
        digits_value(d) >= digits_value(d.take(k)) >= 0,
    decreases d.len(),
{
    if d.len() > 0 {
        if k == d.len() {
            assert(d.take(k) =~= d);
            lemma_digits_grow(d.drop_last(), 0);
            assert(d.drop_last().take(0) =~= d.take(0));
        } else {
            lemma_digits_grow(d.drop_last(), k);
            assert(d.drop_last().take(k) =~= d.take(k));
        }
    }
}

/// The characters of a string.
pub fn chars_of(s: &String) -> (r: Vec<char>)
    ensures
        r@ == s@,
{
    let text = s.as_str();
    let n = text.unicode_len();
    let mut r: Vec<char> = Vec::with_capacity(n);
    let mut i: usize = 0;
    while i < n
        invariant
            n == text@.len(),
            text@ == s@,
            i <= n,
            r@ == s@.take(i as int),
        decreases n - i,
    {
        r.push(text.get_char(i));
        i = i + 1;
        assert(r@ =~= s@.take(i as int));
    }
    assert(s@.take(n as int) =~= s@);
    r
}

pub open spec fn views(v: Seq<Vec<char>>) -> Seq<Seq<char>> {
    v.map_values(|x: Vec<char>| x@)
}

/// Cuts `s` at every `sep`.
pub fn split_chars(s: &Vec<char>, sep: char) -> (r: Vec<Vec<char>>)
    ensures
        views(r@) == split_on(s@, sep),
{
    let mut out: Vec<Vec<char>> = Vec::new();
    out.push(Vec::new());
    assert(views(out@) =~= split_on(s@.take(0), sep));
    let mut i: usize = 0;
    while i < s.len()
        invariant
            i <= s@.len(),
            views(out@) == split_on(s@.take(i as int), sep),
            out@.len() >= 1,
        decreases s.len() - i,
    {
        let c = s[i];
        proof {
            assert(s@.take(i + 1).drop_last() =~= s@.take(i as int));
        }
        if c == sep {
            out.push(Vec::new());
        } else {
            let mut piece = out.pop().unwrap();
            piece.push(c);
            out.push(piece);
            proof {
                lemma_split_nonempty(s@.take(i as int), sep);
            }
        }
        i = i + 1;
        assert(views(out@) =~= split_on(s@.take(i as int), sep));
    }
    assert(s@.take(s@.len() as int) =~= s@);
    out
}

fn copy_chars(v: &Vec<char>) -> (r: Vec<char>)
    ensures
        r@ == v@,
{
    let mut r: Vec<char> = Vec::with_capacity(v.len());
    let mut i: usize = 0;
    while i < v.len()
        invariant
            i <= v@.len(),
            r@ == v@.take(i as int),
        decreases v.len() - i,
    {
        r.push(v[i]);
        i = i + 1;
        assert(r@ =~= v@.take(i as int));
    }
    assert(v@.take(v@.len() as int) =~= v@);
    r
}

/// The lines of a text, as `lines_of` states.
pub fn lines(s: &Vec<char>) -> (r: Vec<Vec<char>>)
    ensures
        views(r@) == lines_of(s@),
{
    let mut pieces = split_chars(s, '\n');
    proof {
        lemma_split_nonempty(s@, '\n');
    }
    let ghost all = views(pieces@);
    if pieces[pieces.len() - 1].len() == 0 {
        pieces.pop();
    }
    let ghost kept = views(pieces@);
    assert(kept =~= if all.last().len() == 0 {
        all.drop_last()
    } else {
        all
    });
    let mut out: Vec<Vec<char>> = Vec::with_capacity(pieces.len());
    let mut i: usize = 0;
    while i < pieces.len()
        invariant
            i <= pieces@.len(),
            kept == views(pieces@),
            views(out@) == kept.take(i as int).map_values(|l: Seq<char>| strip_cr(l)),
        decreases pieces.len() - i,
    {
        let mut line = copy_chars(&pieces[i]);
        let n = line.len();
        if n > 0 && line[n - 1] == '\r' {
            line.pop();
        }
        assert(line@ == strip_cr(kept[i as int]));
        let ghost before = views(out@);
        out.push(line);
        proof {
            let goal = kept.take(i + 1).map_values(|l: Seq<char>| strip_cr(l));
            assert(before.len() == i);
            assert(out@.len() == i + 1);
            assert(goal.len() == i + 1);
            assert(views(out@).len() == goal.len());
            assert forall|k: int| 0 <= k < goal.len() implies views(out@)[k] == goal[k] by {
                if k < i {
                    assert(views(out@)[k] == before[k]);
                }
            }
            assert(views(out@) =~= goal);
        }
        i = i + 1;
    }
    assert(kept.take(kept.len() as int) =~= kept);
    out
}

/// Reads one entry of a tile map.
pub fn parse_entry(f: &Vec<char>) -> (r: Option<i32>)
    ensures
        r == entry_value(f@),
{
    let n = f.len();
    let negative = n > 0 && f[0] == '-';
    let start: usize = if n > 0 && (f[0] == '-' || f[0] == '+') { 1 } else { 0 };
    let ghost d = magnitude(f@);
    assert(d =~= f@.skip(start as int));
    if start >= n {
        return None;
    }
    let limit: i64 = 0x8000_0000;
    let mut acc: i64 = 0;
    let mut i: usize = start;
    while i < n
        invariant
            n == f@.len(),
            d == magnitude(f@),
            negative == (f@.len() > 0 && f@[0] == '-'),
            start <= i <= n,
            start == 0 || start == 1,
            d =~= f@.skip(start as int),
            forall|k: int| 0 <= k < i - start ==> is_digit(#[trigger] d[k]),
            acc == digits_value(d.take(i - start)),
            0 <= acc <= limit,
            limit == 0x8000_0000,
        decreases n - i,
    {
        let c = f[i];
        if !('0' <= c && c <= '9') {
            assert(!is_digit(d[i - start]));
            assert(!(forall|k: int| 0 <= k < d.len() ==> is_digit(#[trigger] d[k])));
            assert(field_value(f@) is None);
            return None;
        }
        proof {
            assert(d.take(i - start + 1).drop_last() =~= d.take(i - start));
        }
        acc = acc * 10 + (c as u32 - '0' as u32) as i64;
        i = i + 1;
        assert(acc == digits_value(d.take(i - start)));
        if acc > limit {
            proof {
                if forall|k: int| 0 <= k < d.len() ==> is_digit(#[trigger] d[k]) {
                    lemma_digits_grow(d, i - start);
                    assert(field_value(f@) is Some);
                } else {
                    assert(field_value(f@) is None);
                }
            }
            return None;
        }
    }
    assert(d.take(n - start) =~= d);
    if negative {
        Some((-acc) as i32)
    } else if acc <= 0x7fff_ffff {
        Some(acc as i32)
    } else {
        None
    }
}

} // verus!

verus! {

/// Whether layer `y`, line `z`, column `x` is an entry of the tile map.
pub open spec fn has_entry(tiles: Seq<Seq<char>>, y: int, z: int, x: int) -> bool {
    &&& 0 <= y < tiles.len()
    &&& 0 <= z < lines_of(tiles[y]).len()
    &&& 0 <= x < fields_of(lines_of(tiles[y])[z]).len()
}

pub open spec fn entry_at(tiles: Seq<Seq<char>>, y: int, z: int, x: int) -> Seq<char> {
    fields_of(lines_of(tiles[y])[z])[x]
}

/// An entry is sound when it is a number that fits an `i32` and, unless it
/// is negative (no tile), names a cell of the box.
pub open spec fn entry_ok(
    tiles: Seq<Seq<char>>,
    width: int,
    length: int,
    height: int,
    y: int,
    z: int,
    x: int,
) -> bool {
    match entry_value(entry_at(tiles, y, z, x)) {
        Some(v) => v >= 0 ==> (0 <= x < width && 0 <= y < height && 0 <= z < length),
        None => false,
    }
}

/// Entry `(y2, z2, x2)` comes before `(y, z, x)`: layer by layer, line by
/// line, column by column.
pub open spec fn comes_before(y2: int, z2: int, x2: int, y: int, z: int, x: int) -> bool {
    y2 < y || (y2 == y && (z2 < z || (z2 == z && x2 < x)))
}

/// The tile an entry places, if any.
pub open spec fn placed_tile(tiles: Seq<Seq<char>>, y: int, z: int, x: int) -> Option<i32> {
    if has_entry(tiles, y, z, x) {
        match entry_value(entry_at(tiles, y, z, x)) {
            Some(v) => if v >= 0 {
                Some(v)
            } else {
                None
            },
            None => None,
        }
    } else {
        None
    }
}

/// The text of each layer of a tile map.
pub open spec fn texts(tiles: Seq<String>) -> Seq<Seq<char>> {
    tiles.map_values(|s: String| s@)
}

/// Why a tile map was rejected, and where: the layer, the line within it
/// and the column within the line, each counted from zero.
#[derive(Clone, Copy, Debug, PartialEq, Eq, Structural)]
pub enum MapError {
    /// The entry is not an integer that fits an `i32`.
    BadEntry { layer: usize, line: usize, column: usize },
    /// The entry places a tile outside the grid.
    OutOfBounds { layer: usize, line: usize, column: usize },
}

impl MapError {
    pub open spec fn layer(self) -> int {
        match self {
            MapError::BadEntry { layer, .. } => layer as int,
            MapError::OutOfBounds { layer, .. } => layer as int,
        }
    }

    pub open spec fn line(self) -> int {
        match self {
            MapError::BadEntry { line, .. } => line as int,
            MapError::OutOfBounds { line, .. } => line as int,
        }
    }

    pub open spec fn column(self) -> int {
        match self {
            MapError::BadEntry { column, .. } => column as int,
            MapError::OutOfBounds { column, .. } => column as int,
        }
    }
}

/// `grid` with every tile placed that the entries of `tiles` before
/// `(y, z, x)` place.
pub open spec fn filled_before(
    grid: Map<GridCell, Option<GridCellType>>,
    tiles: Seq<Seq<char>>,
    y: int,
    z: int,
    x: int,
) -> Map<GridCell, Option<GridCellType>> {
    Map::new(
        |c: GridCell| grid.dom().contains(c),
        |c: GridCell|
            if comes_before(c.y as int, c.z as int, c.x as int, y, z, x) && placed_tile(
                tiles,
                c.y as int,
                c.z as int,
                c.x as int,
            ) is Some {
                Some(GridCellType::Tile(placed_tile(tiles, c.y as int, c.z as int, c.x as int).unwrap()))
            } else {
                grid[c]
            },
    )
}

/// Every entry of the map is sound for a grid of the given size.
pub open spec fn map_ok(tiles: Seq<Seq<char>>, width: int, length: int, height: int) -> bool {
    forall|y: int, z: int, x: int|
        #[trigger] has_entry(tiles, y, z, x) ==> entry_ok(tiles, width, length, height, y, z, x)
}

/// `e` names the first faulty entry of the map, and says how it is faulty.
pub open spec fn first_fault(
    tiles: Seq<Seq<char>>,
    width: int,
    length: int,
    height: int,
    e: MapError,
) -> bool {
    &&& has_entry(tiles, e.layer(), e.line(), e.column())
    &&& !entry_ok(tiles, width, length, height, e.layer(), e.line(), e.column())
    &&& (e is BadEntry <==> entry_value(entry_at(tiles, e.layer(), e.line(), e.column())) is None)
    &&& forall|y2: int, z2: int, x2: int|
        #[trigger] has_entry(tiles, y2, z2, x2) && comes_before(y2, z2, x2, e.layer(), e.line(), e.column())
            ==> entry_ok(tiles, width, length, height, y2, z2, x2)
}

} // verus!
