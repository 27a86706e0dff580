//! Copying the selected tiles and pasting them where the cursor has moved
//! to.

use crate::error::{EditError, ErrorView};
use crate::map::{at, covers, inside, lemma_row_view, sized};
use crate::palette::answer;
use crate::select::{lemma_listing, listing, selected};
use crate::state::{
    across, Clipboard, ClipboardView, committed, down, SnapshotView, State, StateView, well_formed,
};
use vstd::prelude::*;

verus! {

/// The tiles at the positions, each with its position.
pub open spec fn captured(grid: Seq<Seq<i32>>, positions: Seq<(usize, usize)>) -> Seq<
    (usize, usize, i32),
> {
    Seq::new(
        positions.len(),
        |k: int| (positions[k].0, positions[k].1, grid[positions[k].0 as int][positions[k].1 as int]),
    )
}

/// The grid with one copied tile put `dx` columns and `dy` rows from where
/// it was taken, if that is a cell of the grid.
pub open spec fn placed(grid: Seq<Seq<i32>>, entry: (usize, usize, i32), dx: int, dy: int) -> Seq<
    Seq<i32>,
> {
    let r = entry.0 + dy;
    let c = entry.1 + dx;
    if 0 <= r < grid.len() && 0 <= c < grid[r].len() {
        grid.update(r, grid[r].update(c, entry.2))
    } else {
        grid
    }
}

/// The grid with every copied tile put `dx` columns and `dy` rows from where
/// it was taken, as far as that is a cell of the grid.
pub open spec fn pasted(grid: Seq<Seq<i32>>, content: Seq<(usize, usize, i32)>, dx: int, dy: int) -> Seq<
    Seq<i32>,
>
    decreases content.len(),
{
    if content.len() == 0 {
        grid
    } else {
        placed(pasted(grid, content.drop_last(), dx, dy), content.last(), dx, dy)
    }
}

/// The state after a copy: the clipboard holds the selected tiles and where
/// the cursor stands.
pub open spec fn copied(s: StateView) -> StateView {
    StateView {
        clipboard: Some(
            ClipboardView {
                content: captured(s.map.grid, listing(s.map.select, across(s.map), down(s.map))),
                offsetx: s.cursorx,
                offsety: s.cursory,
            },
        ),
        ..s
    }
}

/// The state after a paste of the clipboard: every tile copied lies as far
/// from where it was taken as the cursor has moved since the copy.
pub open spec fn pasting(s: StateView, clipboard: ClipboardView) -> StateView {
    committed(
        s,
        SnapshotView {
            grid: pasted(
                s.map.grid,
                clipboard.content,
                s.cursorx - clipboard.offsetx,
                s.cursory - clipboard.offsety,
            ),
            ..s.map
        },
    )
}

/// Pasting keeps the shape of the grid.
pub proof fn lemma_pasted_sized(
    grid: Seq<Seq<i32>>,
    content: Seq<(usize, usize, i32)>,
    dx: int,
    dy: int,
    width: nat,
    height: nat,
)
    requires
        sized(grid, width, height),
    ensures
        sized(pasted(grid, content, dx, dy), width, height),
    decreases content.len(),
{
    if content.len() > 0 {
        lemma_pasted_sized(grid, content.drop_last(), dx, dy, width, height);
    }
}

/// Whether two entries of a clipboard that were taken from one position
/// hold one tile.
pub open spec fn agreeing(content: Seq<(usize, usize, i32)>) -> bool {
    forall|i: int, j: int|
        0 <= i < content.len() && 0 <= j < content.len() && (#[trigger] content[i]).0 == (
        #[trigger] content[j]).0 && content[i].1 == content[j].1 ==> content[i].2 == content[j].2
}

/// After a paste every tile of the clipboard lies `dx` columns and `dy` rows
/// from where it was taken, if that is a cell of the grid.
pub proof fn lemma_pasted_tile(
    grid: Seq<Seq<i32>>,
    content: Seq<(usize, usize, i32)>,
    dx: int,
    dy: int,
    k: int,
)
    requires
        agreeing(content),
        0 <= k < content.len(),
        0 <= content[k].0 + dy < grid.len(),
        0 <= content[k].1 + dx < grid[content[k].0 + dy].len(),
    ensures
        pasted(grid, content, dx, dy)[content[k].0 + dy][content[k].1 + dx] == content[k].2,
    decreases content.len(),
{
    let init = content.drop_last();
    let last = content.last();
    lemma_pasted_rows(grid, init, dx, dy);
    if k < content.len() - 1 {
        lemma_pasted_tile(grid, init, dx, dy, k);
    }
}

/// Pasting keeps the number of rows and the length of each.
pub proof fn lemma_pasted_rows(
    grid: Seq<Seq<i32>>,
    content: Seq<(usize, usize, i32)>,
    dx: int,
    dy: int,
)
    ensures
        pasted(grid, content, dx, dy).len() == grid.len(),
        forall|r: int|
            0 <= r < grid.len() ==> (#[trigger] pasted(grid, content, dx, dy)[r]).len()
                == grid[r].len(),
    decreases content.len(),
{
    if content.len() > 0 {
        lemma_pasted_rows(grid, content.drop_last(), dx, dy);
        let after = pasted(grid, content, dx, dy);
        assert forall|r: int| 0 <= r < grid.len() implies (#[trigger] after[r]).len()
            == grid[r].len() by {
        }
    }
}

/// A paste leaves alone every cell that no tile of the clipboard lands on.
pub proof fn lemma_pasted_rest(
    grid: Seq<Seq<i32>>,
    content: Seq<(usize, usize, i32)>,
    dx: int,
    dy: int,
    r: int,
    c: int,
)
    requires
        0 <= r < grid.len(),
        0 <= c < grid[r].len(),
        forall|k: int|
            0 <= k < content.len() ==> !((#[trigger] content[k]).0 + dy == r && content[k].1 + dx
                == c),
    ensures
        pasted(grid, content, dx, dy)[r][c] == grid[r][c],
    decreases content.len(),
{
    if content.len() > 0 {
        let init = content.drop_last();
        lemma_pasted_rest(grid, init, dx, dy, r, c);
        lemma_pasted_rows(grid, init, dx, dy);
    }
}

/// Copy, then paste: with the cursor moved by `dx` columns and `dy` rows
/// since the copy, every selected tile lies that far from where it was, if
/// that is a cell of the grid; and the paste is one edit, or none where it
/// changed nothing.
pub proof fn lemma_copy_paste(s: StateView, dx: int, dy: int, r: int, c: int)
    requires
        well_formed(s),
        inside(across(s.map) as int, down(s.map) as int, s.cursorx + dx, s.cursory + dy),
        selected(s.map.select, r, c),
        inside(across(s.map) as int, down(s.map) as int, c + dx, r + dy),
    ensures
        ({
            let there = StateView {
                cursorx: s.cursorx + dx,
                cursory: s.cursory + dy,
                ..copied(s)
            };
            let after = pasting(there, there.clipboard->0);
            &&& after.map.grid[r + dy][c + dx] == s.map.grid[r][c]
            &&& after.map.grid == s.map.grid ==> after.undo == s.undo
            &&& after.map.grid != s.map.grid ==> after.undo == s.undo.push(s.map)
        }),
{
    let width = across(s.map);
    let height = down(s.map);
    let positions = listing(s.map.select, width, height);
    let content = captured(s.map.grid, positions);
    lemma_listing(s.map.select, width, height);
    assert(covers(positions, r, c));
    let k = choose|k: int| 0 <= k < positions.len() && #[trigger] at(positions[k], r, c);
    lemma_pasted_tile(s.map.grid, content, dx, dy, k);
}

impl State {
    /// Copies the selected tiles, and notes where the cursor stands.
    pub fn copy(&mut self, _args: &[&str]) -> (r: Result<(), EditError>)
        requires
            old(self).wf(),
        ensures
            final(self).wf(),
            r is Ok,
            final(self)@ == copied(old(self)@),
    {
        broadcast use lemma_row_view;

        let positions = self.selected();
        let ghost grid = self@.map.grid;
        let mut content: Vec<(usize, usize, i32)> = Vec::new();
        let mut k: usize = 0;
        while k < positions.len()
            invariant
                k <= positions.len(),
                grid == self.map.map.deep_view(),
                sized(grid, across(self@.map), down(self@.map)),
                forall|i: int|
                    0 <= i < positions.len() ==> (#[trigger] positions[i]).0 < down(self@.map)
                        && positions[i].1 < across(self@.map),
                content.len() == k,
                forall|i: int| 0 <= i < k ==> #[trigger] content@[i] == captured(grid, positions@)[i],
            decreases positions.len() - k,
        {
            let (row, col) = positions[k];
            assert(grid[row as int].len() == across(self@.map));
            content.push((row, col, self.map.map[row][col]));
            k += 1;
        }
        assert(content@ =~= captured(grid, positions@));
        self.clipboard = Some(Clipboard { content, offsetx: self.cursorx, offsety: self.cursory });
        Ok(())
    }

    /// Puts every tile of the clipboard as far from where it was taken as
    /// the cursor has moved since the copy. A tile that would land outside
    /// the grid is left out. The whole paste is one edit, or none where it
    /// changed nothing.
    pub fn paste(&mut self, _args: &[&str]) -> (r: Result<(), EditError>)
        requires
            old(self).wf(),
        ensures
            final(self).wf(),
            match old(self)@.clipboard {
                Some(clipboard) => r is Ok && final(self)@ == pasting(old(self)@, clipboard),
                None => answer(r) == Err::<(), ErrorView>(ErrorView::ClipboardEmpty) && final(self)@ == old(self)@,
            },
    {
        broadcast use lemma_row_view;

        let ghost before = old(self)@;
        if self.clipboard.is_none() {
            return Err(EditError::ClipboardEmpty);
        }
        let width = self.map.map[0].len();
        let height = self.map.map.len();
        let map_clone = self.map.copy();
        let mut grid = crate::map::copy(&self.map.map);
        let ghost held = before.clipboard->0;
        let ghost dx = before.cursorx - held.offsetx;
        let ghost dy = before.cursory - held.offsety;
        match &self.clipboard {
            Some(clipboard) => {
                let mut k: usize = 0;
                while k < clipboard.content.len()
                    invariant
                        k <= clipboard.content.len(),
                        clipboard@ == held,
                        dx == self.cursorx - clipboard.offsetx,
                        dy == self.cursory - clipboard.offsety,
                        width == across(before.map),
                        height == down(before.map),
                        sized(before.map.grid, width as nat, height as nat),
                        grid.deep_view() == pasted(
                            before.map.grid,
                            held.content.take(k as int),
                            dx,
                            dy,
                        ),
                    decreases clipboard.content.len() - k,
                {
                    let (row, col, tile) = clipboard.content[k];
                    proof {
                        lemma_pasted_sized(
                            before.map.grid,
                            held.content.take(k as int),
                            dx,
                            dy,
                            width as nat,
                            height as nat,
                        );
                        assert(held.content.take(k + 1).drop_last() =~= held.content.take(k as int));
                    }
                    let r: i128 = row as i128 + self.cursory as i128 - clipboard.offsety as i128;
                    let c: i128 = col as i128 + self.cursorx as i128 - clipboard.offsetx as i128;
                    if 0 <= r && r < height as i128 && 0 <= c && c < width as i128 {
                        crate::map::dot(&mut grid, c as usize, r as usize, tile);
                    }
                    k += 1;
                }
                assert(held.content.take(k as int) =~= held.content);
            },
            None => {},
        }
        proof {
            lemma_pasted_sized(
                before.map.grid,
                held.content,
                dx,
                dy,
                width as nat,
                height as nat,
            );
        }
        self.map.map = grid;
        assert(self@ == (StateView {
            map: SnapshotView {
                grid: pasted(before.map.grid, held.content, dx, dy),
                ..before.map
            },
            ..before
        }));
        if !self.map.same(&map_clone) {
            self.push_undo(map_clone);
        }
        Ok(())
    }
}

} // verus!
