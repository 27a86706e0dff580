//! The tile grid: rows of tile ids, and the bounds-checked operations on it.
//!
//! A position is a pair `(row, column)`. Where a function takes `x` and `y`,
//! `x` counts columns and `y` counts rows.

use itertools::Itertools;
use vstd::arithmetic::div_mod::{lemma_fundamental_div_mod, lemma_fundamental_div_mod_converse};

use vstd::prelude::*;

verus! {

/// The most cells a grid may have: a list of their positions then fits in
/// memory that one allocation can ask for.
pub const MAX_CELLS: usize = usize::MAX / 32;

/// Why a grid is refused.
#[derive(Clone, Copy, Debug, PartialEq, Eq, Structural)]
pub enum ShapeError {
    /// The grid has no rows.
    Empty,
    /// Two rows differ in length.
    Ragged,
}

/// Every row is as long as the first one.
pub open spec fn rectangular(grid: Seq<Seq<i32>>) -> bool {
    forall|i: int| 0 <= i < grid.len() ==> (#[trigger] grid[i]).len() == grid[0].len()
}

/// A grid is valid when it has a row and all rows have one length.
pub open spec fn valid(grid: Seq<Seq<i32>>) -> bool {
    grid.len() > 0 && rectangular(grid)
}

/// The grid has `height` rows of `width` cells.
pub open spec fn sized(grid: Seq<Seq<i32>>, width: nat, height: nat) -> bool {
    &&& grid.len() == height
    &&& forall|r: int| 0 <= r < height ==> (#[trigger] grid[r]).len() == width
}

/// The number of rows.
pub open spec fn height(grid: Seq<Seq<i32>>) -> nat {
    grid.len()
}

/// The number of columns, taken from the first row.
pub open spec fn width(grid: Seq<Seq<i32>>) -> nat {
    if grid.len() == 0 {
        0
    } else {
        grid[0].len()
    }
}

/// The deep view of a row is its view.
pub broadcast proof fn lemma_row_view(row: Vec<i32>)
    ensures
        #[trigger] row.deep_view() == row@,
{
}

/// Whether column `x` and row `y` lie inside a grid `lx` wide and `ly` high.
pub open spec fn inside(lx: int, ly: int, x: int, y: int) -> bool {
    0 <= x < lx && 0 <= y < ly
}

/// Whether column `x` and row `y` lie inside a grid `lx` wide and `ly` high.
pub fn in_bounds(lx: usize, ly: usize, x: usize, y: usize) -> (r: bool)
    ensures
        r == inside(lx as int, ly as int, x as int, y as int),
{
    x < lx && y < ly
}

/// Accepts a grid that has a row and whose rows all have one length, and
/// says of any other why it is refused.
pub fn validate(map: &Vec<Vec<i32>>) -> (r: Result<(), ShapeError>)
    ensures
        r is Ok <==> valid(map.deep_view()),
        r == Err::<(), ShapeError>(ShapeError::Empty) <==> map.len() == 0,
        r == Err::<(), ShapeError>(ShapeError::Ragged) <==> map.len() > 0 && !rectangular(
            map.deep_view(),
        ),
{
    if map.len() == 0 {
        return Err(ShapeError::Empty);
    }
    let len = map[0].len();
    let mut i: usize = 1;
    while i < map.len()
        invariant
            1 <= i <= map.len(),
            len == map[0].len(),
            forall|k: int| 0 <= k < i ==> (#[trigger] map.deep_view()[k]).len() == len,
        decreases map.len() - i,
    {
        if map[i].len() != len {
            assert(map.deep_view()[i as int].len() != map.deep_view()[0].len());
            return Err(ShapeError::Ragged);
        }
        i += 1;
    }
    Ok(())
}

/// Sets the tile in column `x` of row `y` and says whether the cell changed.
/// A position outside the grid is left alone.
pub fn dot(map: &mut Vec<Vec<i32>>, x: usize, y: usize, tile: i32) -> (changed: bool)
    ensures
        y < old(map).deep_view().len() && x < old(map).deep_view()[y as int].len() ==> {
            &&& final(map).deep_view() == old(map).deep_view().update(
                y as int,
                old(map).deep_view()[y as int].update(x as int, tile),
            )
            &&& changed == (old(map).deep_view()[y as int][x as int] != tile)
        },
        !(y < old(map).deep_view().len() && x < old(map).deep_view()[y as int].len()) ==> {
            &&& *final(map) == *old(map)
            &&& !changed
        },
{
    broadcast use lemma_row_view;

    if y < map.len() && x < map[y].len() {
        if map[y][x] == tile {
            assert(map.deep_view()[y as int].update(x as int, tile) =~= map.deep_view()[y as int]);
            false
        } else {
            map[y][x] = tile;
            true
        }
    } else {
        false
    }
}

/// Whether the list of positions holds row `r`, column `c`.
pub open spec fn covers(positions: Seq<(usize, usize)>, r: int, c: int) -> bool {
    exists|k: int| 0 <= k < positions.len() && #[trigger] at(positions[k], r, c)
}

/// Whether `p` is the position in row `r`, column `c`.
pub open spec fn at(p: (usize, usize), r: int, c: int) -> bool {
    p.0 == r && p.1 == c
}

/// The grid with `tile` in every cell that `positions` covers.
pub open spec fn painted(grid: Seq<Seq<i32>>, positions: Seq<(usize, usize)>, tile: i32) -> Seq<
    Seq<i32>,
> {
    Seq::new(
        grid.len(),
        |r: int|
            Seq::new(
                grid[r].len(),
                |c: int|
                    if covers(positions, r, c) {
                        tile
                    } else {
                        grid[r][c]
                    },
            ),
    )
}

/// Whether some cell of the grid that `positions` covers holds another tile
/// than `tile`.
pub open spec fn differs(grid: Seq<Seq<i32>>, positions: Seq<(usize, usize)>, tile: i32) -> bool {
    exists|k: int|
        0 <= k < positions.len() && #[trigger] positions[k].0 < grid.len() && positions[k].1
            < grid[positions[k].0 as int].len() && grid[positions[k].0 as int][positions[k].1 as int]
            != tile
}

/// Painting changes the grid exactly when a covered cell held another tile.
pub proof fn lemma_painted_differs(grid: Seq<Seq<i32>>, positions: Seq<(usize, usize)>, tile: i32)
    ensures
        differs(grid, positions, tile) <==> painted(grid, positions, tile) != grid,
{
    let after = painted(grid, positions, tile);
    if differs(grid, positions, tile) {
        let k = choose|k: int|
            0 <= k < positions.len() && #[trigger] positions[k].0 < grid.len() && positions[k].1
                < grid[positions[k].0 as int].len()
                && grid[positions[k].0 as int][positions[k].1 as int] != tile;
        let r = positions[k].0 as int;
        let c = positions[k].1 as int;
        assert(at(positions[k], r, c));
    } else {
        assert forall|r: int| 0 <= r < grid.len() implies #[trigger] after[r] == grid[r] by {
            assert forall|c: int| 0 <= c < grid[r].len() implies #[trigger] after[r][c]
                == grid[r][c] by {
                if covers(positions, r, c) {
                    let k = choose|k: int|
                        0 <= k < positions.len() && #[trigger] at(positions[k], r, c);
                }
            }
        }
        assert(after =~= grid);
    }
}

/// Painting no position changes nothing.
pub proof fn lemma_painted_none(grid: Seq<Seq<i32>>, tile: i32)
    ensures
        painted(grid, Seq::empty(), tile) == grid,
        !differs(grid, Seq::empty(), tile),
{
    let after = painted(grid, Seq::empty(), tile);
    assert forall|r: int| 0 <= r < grid.len() implies #[trigger] after[r] == grid[r] by {
    }
}

/// Painting one more position: a position inside the grid gets the tile,
/// and the grid is changed where it was changed before or where that cell
/// held another tile.
pub proof fn lemma_painted_step(
    grid: Seq<Seq<i32>>,
    positions: Seq<(usize, usize)>,
    k: int,
    tile: i32,
)
    requires
        0 <= k < positions.len(),
    ensures
        ({
            let before = painted(grid, positions.take(k), tile);
            let p = positions[k];
            let inside = p.0 < grid.len() && p.1 < grid[p.0 as int].len();
            &&& painted(grid, positions.take(k + 1), tile) == if inside {
                before.update(p.0 as int, before[p.0 as int].update(p.1 as int, tile))
            } else {
                before
            }
            &&& differs(grid, positions.take(k + 1), tile) == (differs(
                grid,
                positions.take(k),
                tile,
            ) || (inside && before[p.0 as int][p.1 as int] != tile))
        }),
{
    let shorter = positions.take(k);
    let longer = positions.take(k + 1);
    let before = painted(grid, shorter, tile);
    let after = painted(grid, longer, tile);
    let p = positions[k];
    let inside = p.0 < grid.len() && p.1 < grid[p.0 as int].len();
    assert forall|r: int, c: int| covers(longer, r, c) <==> covers(shorter, r, c) || at(
        p,
        r,
        c,
    ) by {
        if covers(longer, r, c) {
            let j = choose|j: int| 0 <= j < longer.len() && #[trigger] at(longer[j], r, c);
        }
        if covers(shorter, r, c) {
            let j = choose|j: int| 0 <= j < shorter.len() && #[trigger] at(shorter[j], r, c);
        }
        if at(p, r, c) {
            assert(at(longer[k], r, c));
        }
    }
    let target = if inside {
        before.update(p.0 as int, before[p.0 as int].update(p.1 as int, tile))
    } else {
        before
    };
    assert forall|r: int| 0 <= r < after.len() implies #[trigger] after[r] == target[r] by {
    }
    if differs(grid, longer, tile) {
        let j = choose|j: int|
            0 <= j < longer.len() && #[trigger] longer[j].0 < grid.len() && longer[j].1
                < grid[longer[j].0 as int].len() && grid[longer[j].0 as int][longer[j].1 as int]
                != tile;
        if j >= k && covers(shorter, p.0 as int, p.1 as int) {
            let i = choose|i: int|
                0 <= i < shorter.len() && #[trigger] at(shorter[i], p.0 as int, p.1 as int);
        }
    }
    if differs(grid, shorter, tile) {
        let j = choose|j: int|
            0 <= j < shorter.len() && #[trigger] shorter[j].0 < grid.len() && shorter[j].1
                < grid[shorter[j].0 as int].len()
                && grid[shorter[j].0 as int][shorter[j].1 as int] != tile;
    }
}

/// Sets `tile` at every position of the list that lies inside the grid, and
/// says whether any cell changed. Every position is visited.
pub fn draw_all(map: &mut Vec<Vec<i32>>, positions: &Vec<(usize, usize)>, tile: i32) -> (changed:
    bool)
    ensures
        final(map).deep_view() == painted(old(map).deep_view(), positions@, tile),
        changed == differs(old(map).deep_view(), positions@, tile),
{
    broadcast use lemma_row_view;

    let ghost before = map.deep_view();
    let mut changed = false;
    let mut k: usize = 0;
    proof {
        lemma_painted_none(before, tile);
        assert(positions@.take(0) =~= Seq::empty());
    }
    while k < positions.len()
        invariant
            k <= positions.len(),
            before == old(map).deep_view(),
            map.deep_view() == painted(before, positions@.take(k as int), tile),
            changed == differs(before, positions@.take(k as int), tile),
        decreases positions.len() - k,
    {
        let (row, col) = positions[k];
        proof {
            lemma_painted_step(before, positions@, k as int, tile);
            let current = map.deep_view();
            assert(current.len() == before.len());
            if row < map.len() {
                assert(current[row as int].len() == before[row as int].len());
            }
        }
        let hit = dot(map, col, row, tile);
        changed = hit || changed;
        k += 1;
    }
    assert(positions@.take(k as int) =~= positions@);
    changed
}

/// A grid `width` wide and `height` high with `tile` in every cell.
pub open spec fn filled(width: nat, height: nat, tile: i32) -> Seq<Seq<i32>> {
    Seq::new(height, |r: int| Seq::new(width, |c: int| tile))
}

/// A grid `width` wide and `height` high with `tile` in every cell.
pub fn create(width: usize, height: usize, tile: i32) -> (map: Vec<Vec<i32>>)
    ensures
        map.deep_view() == filled(width as nat, height as nat, tile),
{
    broadcast use lemma_row_view;

    let mut map: Vec<Vec<i32>> = Vec::new();
    let mut r: usize = 0;
    while r < height
        invariant
            r <= height,
            map.len() == r,
            forall|i: int| 0 <= i < r ==> (#[trigger] map@[i])@ == Seq::new(
                width as nat,
                |c: int| tile,
            ),
        decreases height - r,
    {
        let mut row: Vec<i32> = Vec::new();
        let mut c: usize = 0;
        while c < width
            invariant
                c <= width,
                row.len() == c,
                forall|j: int| 0 <= j < c ==> #[trigger] row@[j] == tile,
            decreases width - c,
        {
            row.push(tile);
            c += 1;
        }
        map.push(row);
        r += 1;
    }
    map
}

/// Whether two grids hold the same tiles, cell for cell.
pub fn same(a: &Vec<Vec<i32>>, b: &Vec<Vec<i32>>) -> (r: bool)
    ensures
        r == (a.deep_view() == b.deep_view()),
{
    broadcast use lemma_row_view;

    if a.len() != b.len() {
        assert(a.deep_view().len() != b.deep_view().len());
        return false;
    }
    let mut i: usize = 0;
    while i < a.len()
        invariant
            i <= a.len(),
            a.len() == b.len(),
            forall|k: int| 0 <= k < i ==> (#[trigger] a@[k])@ == b@[k]@,
        decreases a.len() - i,
    {
        if a[i].len() != b[i].len() {
            assert(a.deep_view()[i as int].len() != b.deep_view()[i as int].len());
            return false;
        }
        let mut j: usize = 0;
        while j < a[i].len()
            invariant
                i < a.len(),
                a.len() == b.len(),
                j <= a[i as int].len(),
                a[i as int].len() == b[i as int].len(),
                forall|k: int| 0 <= k < j ==> #[trigger] a@[i as int]@[k] == b@[i as int]@[k],
            decreases a[i as int].len() - j,
        {
            if a[i][j] != b[i][j] {
                assert(a.deep_view()[i as int][j as int] != b.deep_view()[i as int][j as int]);
                return false;
            }
            j += 1;
        }
        i += 1;
    }
    assert(a.deep_view() =~= b.deep_view());
    true
}

/// A copy of the grid.
pub fn copy(map: &Vec<Vec<i32>>) -> (out: Vec<Vec<i32>>)
    ensures
        out.deep_view() == map.deep_view(),
{
    broadcast use lemma_row_view;

    let mut out: Vec<Vec<i32>> = Vec::new();
    let mut i: usize = 0;
    while i < map.len()
        invariant
            i <= map.len(),
            out.len() == i,
            forall|k: int| 0 <= k < i ==> (#[trigger] out@[k])@ == map@[k]@,
        decreases map.len() - i,
    {
        let mut row: Vec<i32> = Vec::new();
        let mut j: usize = 0;
        while j < map[i].len()
            invariant
                i < map.len(),
                j <= map[i as int].len(),
                row@ == map@[i as int]@.take(j as int),
            decreases map[i as int].len() - j,
        {
            row.push(map[i][j]);
            j += 1;
        }
        out.push(row);
        i += 1;
    }
    out
}

/// `Itertools::cartesian_product` on the ranges `r0..r1` and `c0..c1`,
/// collected into a vector: the pairs of one item of the first range and one
/// of the second, the first range outermost, each range in rising order.
#[verifier::external_body]
pub(crate) fn cartesian_product(r0: usize, r1: usize, c0: usize, c1: usize) -> (out: Vec<
    (usize, usize),
>)
    requires
        r0 <= r1,
        c0 <= c1,
        (r1 - r0) * (c1 - c0) <= MAX_CELLS,
    ensures
        out@ == Seq::new(
            ((r1 - r0) * (c1 - c0)) as nat,
            |k: int| ((r0 + k / (c1 - c0)) as usize, (c0 + k % (c1 - c0)) as usize),
        ),
{
    (r0..r1).cartesian_product(c0..c1).collect()
}

/// The positions of a grid `width` wide and `height` high, row by row.
pub open spec fn all_cells(width: nat, height: nat) -> Seq<(usize, usize)> {
    Seq::new(width * height, |k: int| ((k / width as int) as usize, (k % width as int) as usize))
}

/// Where the list of all positions holds row `r`, column `c`.
pub proof fn lemma_cell_index(width: nat, height: nat, r: int, c: int)
    requires
        0 <= r < height,
        0 <= c < width,
        width * height <= usize::MAX,
    ensures
        0 <= r * width + c < width * height,
        all_cells(width, height)[r * width + c] == (r as usize, c as usize),
        at(all_cells(width, height)[r * width + c], r, c),
{
    let w = width as int;
    assert(height <= usize::MAX && w <= usize::MAX) by (nonlinear_arith)
        requires
            w * height <= usize::MAX,
            0 <= r < height,
            0 <= c < w,
    ;
    assert(r * w + c < w * height) by (nonlinear_arith)
        requires
            0 <= r < height,
            0 <= c < w,
    ;
    assert(0 <= r * w + c) by (nonlinear_arith)
        requires
            0 <= r,
            0 <= c,
            0 <= w,
    ;
    lemma_fundamental_div_mod_converse(r * w + c, w, r, c);
}

/// What the list of all positions holds at an index.
pub proof fn lemma_cell_at(width: nat, height: nat, k: int)
    requires
        0 <= k < width * height,
        width * height <= usize::MAX,
    ensures
        0 <= k / (width as int) < height,
        0 <= k % (width as int) < width,
        k == (k / (width as int)) * width + k % (width as int),
        all_cells(width, height)[k] == ((k / (width as int)) as usize, (k % (width as int)) as usize),
        all_cells(width, height)[k].0 == k / (width as int),
        all_cells(width, height)[k].1 == k % (width as int),
{
    let w = width as int;
    assert(w > 0) by (nonlinear_arith)
        requires
            0 <= k < w * height,
            0 <= w,
    ;
    lemma_fundamental_div_mod(k, w);
    let q = k / w;
    let m = k % w;
    assert(0 <= q < height) by (nonlinear_arith)
        requires
            k == q * w + m,
            0 <= m < w,
            0 <= k < w * height,
    ;
    assert(height <= usize::MAX) by (nonlinear_arith)
        requires
            w * height <= usize::MAX,
            w >= 1,
            height >= 0,
    ;
}

/// Every position of a grid `width` wide and `height` high, row by row.
pub fn cells(width: usize, height: usize) -> (out: Vec<(usize, usize)>)
    requires
        width * height <= MAX_CELLS,
    ensures
        out@ == all_cells(width as nat, height as nat),
{
    assert(height * width == width * height) by (nonlinear_arith);
    let out = cartesian_product(0, height, 0, width);
    out
}

} // verus!
