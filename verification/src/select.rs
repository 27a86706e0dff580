//! The selection: one flag for each cell of the grid, set where the cell is
//! selected. A selection made for a grid has the grid's shape, so it never
//! holds a position outside of it.

use crate::map::{
    all_cells, at, cells, covers, inside, lemma_cell_at, lemma_cell_index, lemma_row_view,
    MAX_CELLS,
};
use vstd::prelude::*;

verus! {

/// The deep view of a row of flags is its view.
pub broadcast proof fn lemma_flags_view(row: Vec<bool>)
    ensures
        #[trigger] row.deep_view() == row@,
{
}

/// The selection has `height` rows of `width` flags.
pub open spec fn shaped(select: Seq<Seq<bool>>, width: nat, height: nat) -> bool {
    &&& select.len() == height
    &&& forall|r: int| 0 <= r < height ==> (#[trigger] select[r]).len() == width
}

/// Whether row `r`, column `c` is selected.
pub open spec fn selected(select: Seq<Seq<bool>>, r: int, c: int) -> bool {
    0 <= r < select.len() && 0 <= c < select[r].len() && select[r][c]
}

/// A selection of the given shape with every flag equal to `on`.
pub open spec fn plain(width: nat, height: nat, on: bool) -> Seq<Seq<bool>> {
    Seq::new(height, |r: int| Seq::new(width, |c: int| on))
}

/// A selection of the given shape with every flag equal to `on`.
pub fn uniform(width: usize, height: usize, on: bool) -> (select: Vec<Vec<bool>>)
    ensures
        select.deep_view() == plain(width as nat, height as nat, on),
{
    broadcast use lemma_flags_view;

    let mut select: Vec<Vec<bool>> = Vec::new();
    let mut r: usize = 0;
    while r < height
        invariant
            r <= height,
            select.len() == r,
            forall|i: int| 0 <= i < r ==> (#[trigger] select@[i])@ == Seq::new(
                width as nat,
                |c: int| on,
            ),
        decreases height - r,
    {
        let mut row: Vec<bool> = Vec::new();
        let mut c: usize = 0;
        while c < width
            invariant
                c <= width,
                row.len() == c,
                forall|j: int| 0 <= j < c ==> #[trigger] row@[j] == on,
            decreases width - c,
        {
            row.push(on);
            c += 1;
        }
        select.push(row);
        r += 1;
    }
    select
}

/// The selection with the flag of every covered cell set to `on`.
pub open spec fn marked(select: Seq<Seq<bool>>, positions: Seq<(usize, usize)>, on: bool) -> Seq<
    Seq<bool>,
> {
    Seq::new(
        select.len(),
        |r: int|
            Seq::new(
                select[r].len(),
                |c: int|
                    if covers(positions, r, c) {
                        on
                    } else {
                        select[r][c]
                    },
            ),
    )
}

/// Sets the flag in row `row`, column `col`, and says whether it changed. A
/// position outside the selection's shape is left alone.
pub fn mark(select: &mut Vec<Vec<bool>>, row: usize, col: usize, on: bool) -> (changed: bool)
    ensures
        row < old(select).deep_view().len() && col < old(select).deep_view()[row as int].len()
            ==> {
            &&& final(select).deep_view() == old(select).deep_view().update(
                row as int,
                old(select).deep_view()[row as int].update(col as int, on),
            )
            &&& changed == (old(select).deep_view()[row as int][col as int] != on)
        },
        !(row < old(select).deep_view().len() && col < old(select).deep_view()[row as int].len())
            ==> {
            &&& *final(select) == *old(select)
            &&& !changed
        },
{
    broadcast use lemma_flags_view;

    if row < select.len() && col < select[row].len() {
        if select[row][col] == on {
            assert(select.deep_view()[row as int].update(col as int, on) =~= select.deep_view()[row as int]);
            false
        } else {
            select[row][col] = on;
            true
        }
    } else {
        false
    }
}

/// Marking one more position.
pub proof fn lemma_marked_step(
    select: Seq<Seq<bool>>,
    positions: Seq<(usize, usize)>,
    k: int,
    on: bool,
)
    requires
        0 <= k < positions.len(),
    ensures
        ({
            let before = marked(select, positions.take(k), on);
            let p = positions[k];
            marked(select, positions.take(k + 1), on) == if p.0 < select.len() && p.1
                < select[p.0 as int].len() {
                before.update(p.0 as int, before[p.0 as int].update(p.1 as int, on))
            } else {
                before
            }
        }),
{
    let shorter = positions.take(k);
    let longer = positions.take(k + 1);
    let before = marked(select, shorter, on);
    let after = marked(select, longer, on);
    let p = positions[k];
    assert forall|r: int, c: int| covers(longer, r, c) <==> covers(shorter, r, c) || at(
        p,
        r,
        c,
    ) by {
        if covers(longer, r, c) {
            let j = choose|j: int| 0 <= j < longer.len() && #[trigger] at(longer[j], r, c);
        }
        if covers(shorter, r, c) {
            let j = choose|j: int| 0 <= j < shorter.len() && #[trigger] at(shorter[j], r, c);
        }
        if at(p, r, c) {
            assert(at(longer[k], r, c));
        }
    }
    let target = if p.0 < select.len() && p.1 < select[p.0 as int].len() {
        before.update(p.0 as int, before[p.0 as int].update(p.1 as int, on))
    } else {
        before
    };
    assert forall|r: int| 0 <= r < after.len() implies #[trigger] after[r] == target[r] by {
        assert forall|c: int| 0 <= c < after[r].len() implies #[trigger] after[r][c]
            == target[r][c] by {}
    }
}

/// Marking no position changes nothing.
pub proof fn lemma_marked_none(select: Seq<Seq<bool>>, on: bool)
    ensures
        marked(select, Seq::empty(), on) == select,
{
    let after = marked(select, Seq::empty(), on);
    assert forall|r: int| 0 <= r < select.len() implies #[trigger] after[r] == select[r] by {
    }
}

/// Sets the flag of every position of the list that lies inside the
/// selection's shape to `on`.
pub fn mark_all(select: &mut Vec<Vec<bool>>, positions: &Vec<(usize, usize)>, on: bool)
    ensures
        final(select).deep_view() == marked(old(select).deep_view(), positions@, on),
{
    broadcast use lemma_flags_view;

    let ghost before = select.deep_view();
    let mut k: usize = 0;
    proof {
        lemma_marked_none(before, on);
        assert(positions@.take(0) =~= Seq::empty());
    }
    while k < positions.len()
        invariant
            k <= positions.len(),
            before == old(select).deep_view(),
            select.deep_view() == marked(before, positions@.take(k as int), on),
        decreases positions.len() - k,
    {
        let (row, col) = positions[k];
        proof {
            lemma_marked_step(before, positions@, k as int, on);
            let current = select.deep_view();
            assert(current.len() == before.len());
            if row < select.len() {
                assert(current[row as int].len() == before[row as int].len());
            }
        }
        mark(select, row, col, on);
        k += 1;
    }
    assert(positions@.take(k as int) =~= positions@);
}

/// The selection with every flag turned over.
pub open spec fn inverted(select: Seq<Seq<bool>>) -> Seq<Seq<bool>> {
    Seq::new(select.len(), |r: int| Seq::new(select[r].len(), |c: int| !select[r][c]))
}

/// Turns every flag over.
pub fn invert(select: &Vec<Vec<bool>>) -> (out: Vec<Vec<bool>>)
    ensures
        out.deep_view() == inverted(select.deep_view()),
{
    broadcast use lemma_flags_view;

    let mut out: Vec<Vec<bool>> = Vec::new();
    let mut i: usize = 0;
    while i < select.len()
        invariant
            i <= select.len(),
            out.len() == i,
            forall|k: int|
                0 <= k < i ==> (#[trigger] out@[k])@ == Seq::new(
                    select@[k]@.len(),
                    |c: int| !select@[k]@[c],
                ),
        decreases select.len() - i,
    {
        let mut row: Vec<bool> = Vec::new();
        let mut j: usize = 0;
        while j < select[i].len()
            invariant
                i < select.len(),
                j <= select[i as int].len(),
                row.len() == j,
                forall|k: int| 0 <= k < j ==> #[trigger] row@[k] == !select@[i as int]@[k],
            decreases select[i as int].len() - j,
        {
            row.push(!select[i][j]);
            j += 1;
        }
        out.push(row);
        i += 1;
    }
    out
}

/// Whether two selections hold the same flags, cell for cell.
pub fn same_flags(a: &Vec<Vec<bool>>, b: &Vec<Vec<bool>>) -> (r: bool)
    ensures
        r == (a.deep_view() == b.deep_view()),
{
    broadcast use lemma_flags_view;

    if a.len() != b.len() {
        assert(a.deep_view().len() != b.deep_view().len());
        return false;
    }
    let mut i: usize = 0;
    while i < a.len()
        invariant
            i <= a.len(),
            a.len() == b.len(),
            forall|k: int| 0 <= k < i ==> (#[trigger] a@[k])@ == b@[k]@,
        decreases a.len() - i,
    {
        if a[i].len() != b[i].len() {
            assert(a.deep_view()[i as int].len() != b.deep_view()[i as int].len());
            return false;
        }
        let mut j: usize = 0;
        while j < a[i].len()
            invariant
                i < a.len(),
                a.len() == b.len(),
                j <= a[i as int].len(),
                a[i as int].len() == b[i as int].len(),
                forall|k: int| 0 <= k < j ==> #[trigger] a@[i as int]@[k] == b@[i as int]@[k],
            decreases a[i as int].len() - j,
        {
            if a[i][j] != b[i][j] {
                assert(a.deep_view()[i as int][j as int] != b.deep_view()[i as int][j as int]);
                return false;
            }
            j += 1;
        }
        i += 1;
    }
    assert(a.deep_view() =~= b.deep_view());
    true
}

/// A copy of the selection.
pub fn copy_flags(select: &Vec<Vec<bool>>) -> (out: Vec<Vec<bool>>)
    ensures
        out.deep_view() == select.deep_view(),
{
    broadcast use lemma_flags_view;

    let mut out: Vec<Vec<bool>> = Vec::new();
    let mut i: usize = 0;
    while i < select.len()
        invariant
            i <= select.len(),
            out.len() == i,
            forall|k: int| 0 <= k < i ==> (#[trigger] out@[k])@ == select@[k]@,
        decreases select.len() - i,
    {
        let mut row: Vec<bool> = Vec::new();
        let mut j: usize = 0;
        while j < select[i].len()
            invariant
                i < select.len(),
                j <= select[i as int].len(),
                row@ == select@[i as int]@.take(j as int),
            decreases select[i as int].len() - j,
        {
            row.push(select[i][j]);
            j += 1;
        }
        out.push(row);
        i += 1;
    }
    out
}

/// The test that a position is selected.
pub open spec fn flagged(select: Seq<Seq<bool>>) -> spec_fn((usize, usize)) -> bool {
    |p: (usize, usize)| selected(select, p.0 as int, p.1 as int)
}

/// The selected positions, row by row.
pub open spec fn listing(select: Seq<Seq<bool>>, width: nat, height: nat) -> Seq<(usize, usize)> {
    all_cells(width, height).filter(flagged(select))
}

/// The test that a cell of the grid holds `tile`.
pub open spec fn holds(grid: Seq<Seq<i32>>, tile: i32) -> spec_fn((usize, usize)) -> bool {
    |p: (usize, usize)|
        0 <= p.0 < grid.len() && 0 <= p.1 < grid[p.0 as int].len() && grid[p.0 as int][p.1 as int]
            == tile
}

/// The positions of the cells that hold `tile`, row by row.
pub open spec fn holding(grid: Seq<Seq<i32>>, tile: i32, width: nat, height: nat) -> Seq<
    (usize, usize),
> {
    all_cells(width, height).filter(holds(grid, tile))
}

/// A filtered list of all positions covers the positions inside the grid
/// that pass the test, and no other.
pub proof fn lemma_filtered_covers(
    width: nat,
    height: nat,
    test: spec_fn((usize, usize)) -> bool,
    r: int,
    c: int,
)
    requires
        width * height <= usize::MAX,
    ensures
        covers(all_cells(width, height).filter(test), r, c) <==> inside(
            width as int,
            height as int,
            c,
            r,
        ) && test((r as usize, c as usize)),
{
    let all = all_cells(width, height);
    let kept = all.filter(test);
    if inside(width as int, height as int, c, r) && test((r as usize, c as usize)) {
        lemma_cell_index(width, height, r, c);
        let k = r * width + c;
        all.lemma_filter_contains(test, k);
        let j = choose|j: int| 0 <= j < kept.len() && kept[j] == all[k];
    }
    if covers(kept, r, c) {
        let j = choose|j: int| 0 <= j < kept.len() && #[trigger] at(kept[j], r, c);
        all.lemma_filter_contains_rev(test, kept[j]);
        let k = choose|k: int| 0 <= k < all.len() && all[k] == kept[j];
        lemma_cell_at(width, height, k);
    }
}

/// The list of the selected positions covers exactly the selected cells, and
/// each of its positions lies inside the grid.
pub proof fn lemma_listing(select: Seq<Seq<bool>>, width: nat, height: nat)
    requires
        width * height <= usize::MAX,
        shaped(select, width, height),
    ensures
        forall|r: int, c: int| #[trigger]
            covers(listing(select, width, height), r, c) <==> selected(select, r, c),
        forall|k: int|
            0 <= k < listing(select, width, height).len() ==> (#[trigger] listing(
                select,
                width,
                height,
            )[k]).0 < height && listing(select, width, height)[k].1 < width,
{
    let list = listing(select, width, height);
    assert forall|r: int, c: int| #[trigger] covers(list, r, c) <==> selected(select, r, c) by {
        lemma_filtered_covers(width, height, flagged(select), r, c);
        if inside(width as int, height as int, c, r) {
            assert(height <= usize::MAX && width <= usize::MAX) by (nonlinear_arith)
                requires
                    width * height <= usize::MAX,
                    0 <= r < height,
                    0 <= c < width,
            ;
        }
    }
    assert forall|k: int| 0 <= k < list.len() implies (#[trigger] list[k]).0 < height && list[k].1
        < width by {
    }
}

/// The selected positions, row by row.
pub fn listed(select: &Vec<Vec<bool>>, width: usize, height: usize) -> (out: Vec<(usize, usize)>)
    requires
        shaped(select.deep_view(), width as nat, height as nat),
        width * height <= MAX_CELLS,
    ensures
        out@ == listing(select.deep_view(), width as nat, height as nat),
{
    broadcast use lemma_flags_view;

    let all = cells(width, height);
    let ghost test = flagged(select.deep_view());
    let mut out: Vec<(usize, usize)> = Vec::new();
    let mut k: usize = 0;
    while k < all.len()
        invariant
            k <= all.len(),
            all@ == all_cells(width as nat, height as nat),
            width * height <= MAX_CELLS,
            shaped(select.deep_view(), width as nat, height as nat),
            test == flagged(select.deep_view()),
            out@ == all@.take(k as int).filter(test),
        decreases all.len() - k,
    {
        let (row, col) = all[k];
        proof {
            lemma_cell_at(width as nat, height as nat, k as int);
            reveal(Seq::filter);
            assert(all@.take(k + 1).drop_last() =~= all@.take(k as int));
            assert(select.deep_view()[row as int].len() == width);
        }
        if select[row][col] {
            out.push((row, col));
        }
        k += 1;
    }
    assert(all@.take(k as int) =~= all@);
    out
}

/// The positions of the cells of a grid that hold `tile`, row by row.
pub fn find(map: &Vec<Vec<i32>>, tile: i32, width: usize, height: usize) -> (out: Vec<
    (usize, usize),
>)
    requires
        map.deep_view().len() == height,
        forall|r: int| 0 <= r < height ==> (#[trigger] map.deep_view()[r]).len() == width,
        width * height <= MAX_CELLS,
    ensures
        out@ == holding(map.deep_view(), tile, width as nat, height as nat),
{
    broadcast use lemma_row_view;

    let all = cells(width, height);
    let ghost test = holds(map.deep_view(), tile);
    let mut out: Vec<(usize, usize)> = Vec::new();
    let mut k: usize = 0;
    while k < all.len()
        invariant
            k <= all.len(),
            all@ == all_cells(width as nat, height as nat),
            width * height <= MAX_CELLS,
            map.deep_view().len() == height,
            forall|r: int| 0 <= r < height ==> (#[trigger] map.deep_view()[r]).len() == width,
            test == holds(map.deep_view(), tile),
            out@ == all@.take(k as int).filter(test),
        decreases all.len() - k,
    {
        let (row, col) = all[k];
        proof {
            lemma_cell_at(width as nat, height as nat, k as int);
            reveal(Seq::filter);
            assert(all@.take(k + 1).drop_last() =~= all@.take(k as int));
            assert(map.deep_view()[row as int].len() == width);
        }
        if map[row][col] == tile {
            out.push((row, col));
        }
        k += 1;
    }
    assert(all@.take(k as int) =~= all@);
    out
}

/// The number of flags of a row that are not set.
pub open spec fn blanks_in(row: Seq<bool>) -> nat
    decreases row.len(),
{
    if row.len() == 0 {
        0
    } else {
        blanks_in(row.drop_last()) + if row.last() {
            0nat
        } else {
            1nat
        }
    }
}

/// The number of flags of a selection that are not set.
pub open spec fn blanks(select: Seq<Seq<bool>>) -> nat
    decreases select.len(),
{
    if select.len() == 0 {
        0
    } else {
        blanks(select.drop_last()) + blanks_in(select.last())
    }
}

/// Setting a flag that was not set leaves one blank fewer in its row.
pub proof fn lemma_blanks_in_set(row: Seq<bool>, c: int)
    requires
        0 <= c < row.len(),
        !row[c],
    ensures
        blanks_in(row.update(c, true)) + 1 == blanks_in(row),
    decreases row.len(),
{
    if c == row.len() - 1 {
        assert(row.update(c, true).drop_last() =~= row.drop_last());
    } else {
        lemma_blanks_in_set(row.drop_last(), c);
        assert(row.update(c, true).drop_last() =~= row.drop_last().update(c, true));
    }
}

/// Setting a flag that was not set leaves one blank fewer in the selection.
pub proof fn lemma_blanks_set(select: Seq<Seq<bool>>, r: int, c: int)
    requires
        0 <= r < select.len(),
        0 <= c < select[r].len(),
        !select[r][c],
    ensures
        blanks(select.update(r, select[r].update(c, true))) + 1 == blanks(select),
    decreases select.len(),
{
    let after = select.update(r, select[r].update(c, true));
    if r == select.len() - 1 {
        assert(after.drop_last() =~= select.drop_last());
        lemma_blanks_in_set(select[r], c);
    } else {
        lemma_blanks_set(select.drop_last(), r, c);
        assert(after.drop_last() =~= select.drop_last().update(r, select[r].update(c, true)));
    }
}

} // verus!
