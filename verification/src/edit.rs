//! The commands that paint and select.

use crate::error::{EditError, ErrorView};
use crate::map::lemma_row_view;
use crate::movement::{number_read, parse_usize, words};
use crate::palette::{answer, parse_tile, tile_named, TileData, TileView};
use crate::select::{
    find, holding, invert, inverted, listed, listing, mark_all, marked, plain, shaped, uniform,
};
use crate::shapes::{
    box_cells, ellipse, ellipse_cells, flood, flood_cells, MAX_EXTENT, rectangle, span,
};
use crate::state::{across, Brush, brushed, committed, down, Pen, SnapshotView, State, StateView};
use crate::text::{lowercase, same_text, to_lowercase};
use vstd::prelude::*;

verus! {

/// The brush that a word names, where `lowered` is the word in lower case:
/// `add`, `subtract`, or a tile.
pub open spec fn brush_named(tiles: Seq<TileView>, lowered: Seq<char>, word: Seq<char>) -> Result<
    Brush,
    ErrorView,
> {
    if lowered == "add"@ {
        Ok(Brush::Add)
    } else if lowered == "subtract"@ {
        Ok(Brush::Subtract)
    } else {
        match tile_named(tiles, word) {
            Ok(tile) => Ok(Brush::Tile(tile)),
            Err(e) => Err(e),
        }
    }
}

/// The brush that a word names, where `lowered` is the word in lower case.
pub fn brush_of(tiles: &TileData, lowered: &str, word: &str) -> (r: Result<Brush, EditError>)
    ensures
        answer(r) == brush_named(tiles@, lowered@, word@),
{
    if same_text(lowered, "add") {
        Ok(Brush::Add)
    } else if same_text(lowered, "subtract") {
        Ok(Brush::Subtract)
    } else {
        match parse_tile(tiles, word) {
            Ok(tile) => Ok(Brush::Tile(tile)),
            Err(e) => Err(e),
        }
    }
}

/// The pen that a word in lower case names: `up` or `down`.
pub open spec fn pen_named(lowered: Seq<char>) -> Option<Pen> {
    if lowered == "up"@ {
        Some(Pen::Up)
    } else if lowered == "down"@ {
        Some(Pen::Down)
    } else {
        None
    }
}

/// The pen that a word in lower case names.
pub fn pen_of(lowered: &str) -> (r: Option<Pen>)
    ensures
        r == pen_named(lowered@),
{
    if same_text(lowered, "up") {
        Some(Pen::Up)
    } else if same_text(lowered, "down") {
        Some(Pen::Down)
    } else {
        None
    }
}

/// A way to select that does not look at the tiles.
#[derive(Clone, Copy, Debug, PartialEq, Eq, Structural)]
pub enum Choice {
    All,
    Nothing,
    Invert,
}

/// The way to select that a word in lower case names: `all`, `none` or
/// `invert`.
pub open spec fn choice_named(lowered: Seq<char>) -> Option<Choice> {
    if lowered == "all"@ {
        Some(Choice::All)
    } else if lowered == "none"@ {
        Some(Choice::Nothing)
    } else if lowered == "invert"@ {
        Some(Choice::Invert)
    } else {
        None
    }
}

/// The way to select that a word in lower case names.
pub fn choice_of(lowered: &str) -> (r: Option<Choice>)
    ensures
        r == choice_named(lowered@),
{
    if same_text(lowered, "all") {
        Some(Choice::All)
    } else if same_text(lowered, "none") {
        Some(Choice::Nothing)
    } else if same_text(lowered, "invert") {
        Some(Choice::Invert)
    } else {
        None
    }
}

/// The selection that a way to select gives: every cell, no cell, or every
/// cell that was not selected.
pub open spec fn picked(s: StateView, choice: Choice) -> Seq<Seq<bool>> {
    match choice {
        Choice::All => plain(across(s.map), down(s.map), true),
        Choice::Nothing => plain(across(s.map), down(s.map), false),
        Choice::Invert => inverted(s.map.select),
    }
}

/// The selection that a word asks for, where `lowered` is the word in lower
/// case: every cell, no cell, every cell that was not selected; or, for a
/// tile, the cells that hold it, which the brush adds to the selection or
/// takes out of it, and which make the whole selection where the brush is a
/// tile.
pub open spec fn chosen(s: StateView, lowered: Seq<char>, word: Seq<char>) -> Result<
    Seq<Seq<bool>>,
    ErrorView,
> {
    let width = across(s.map);
    let height = down(s.map);
    match choice_named(lowered) {
        Some(choice) => Ok(picked(s, choice)),
        None => match tile_named(s.tiles, word) {
            Ok(tile) => {
                let found = holding(s.map.grid, tile, width, height);
                Ok(
                    match s.brush {
                        Brush::Add => marked(s.map.select, found, true),
                        Brush::Subtract => marked(s.map.select, found, false),
                        Brush::Tile(_) => marked(plain(width, height, false), found, true),
                    },
                )
            },
            Err(_) => Err(ErrorView::Selection),
        },
    }
}

/// What the words after the name of a shape say: the columns and the rows of
/// two corners, and whether the shape is filled. The fifth word, where there
/// is one, must be `fill` or `true`.
pub open spec fn corners_read(args: Seq<Seq<char>>) -> Result<
    (usize, usize, usize, usize, bool),
    ErrorView,
> {
    match number_read(args[0]) {
        Err(e) => Err(e),
        Ok(x0) => match number_read(args[1]) {
            Err(e) => Err(e),
            Ok(y0) => match number_read(args[2]) {
                Err(e) => Err(e),
                Ok(x1) => match number_read(args[3]) {
                    Err(e) => Err(e),
                    Ok(y1) => if args.len() >= 5 {
                        if args[4] == "fill"@ || args[4] == "true"@ {
                            Ok((x0, y0, x1, y1, true))
                        } else {
                            Err(ErrorView::Fill)
                        }
                    } else {
                        Ok((x0, y0, x1, y1, false))
                    },
                },
            },
        },
    }
}

/// Reads the corners of a shape and whether it is filled.
pub fn parse_corners(args: &[&str]) -> (r: Result<(usize, usize, usize, usize, bool), EditError>)
    requires
        args@.len() >= 4,
    ensures
        answer(r) == corners_read(words(args@)),
{
    let x0 = match parse_usize(args[0]) {
        Ok(n) => n,
        Err(e) => {
            return Err(e);
        },
    };
    let y0 = match parse_usize(args[1]) {
        Ok(n) => n,
        Err(e) => {
            return Err(e);
        },
    };
    let x1 = match parse_usize(args[2]) {
        Ok(n) => n,
        Err(e) => {
            return Err(e);
        },
    };
    let y1 = match parse_usize(args[3]) {
        Ok(n) => n,
        Err(e) => {
            return Err(e);
        },
    };
    if args.len() >= 5 {
        if same_text(args[4], "fill") || same_text(args[4], "true") {
            Ok((x0, y0, x1, y1, true))
        } else {
            Err(EditError::Fill)
        }
    } else {
        Ok((x0, y0, x1, y1, false))
    }
}

/// The limit that the words after `fuzzy` give: the number in the first
/// word, or none where there is no word.
pub open spec fn limit_read(args: Seq<Seq<char>>) -> Result<Option<nat>, ErrorView> {
    if args.len() >= 1 {
        match number_read(args[0]) {
            Ok(hops) => Ok(Some(hops as nat)),
            Err(e) => Err(e),
        }
    } else {
        Ok(None)
    }
}

impl State {
    /// The positions that the selection holds, row by row.
    pub fn selected(&self) -> (out: Vec<(usize, usize)>)
        requires
            self.wf(),
        ensures
            out@ == listing(self@.map.select, across(self@.map), down(self@.map)),
    {
        broadcast use lemma_row_view;

        listed(&self.map.select, self.map.map[0].len(), self.map.map.len())
    }

    /// Applies the brush to the cell under the cursor.
    pub fn dot(&mut self, _args: &[&str]) -> (r: Result<(), EditError>)
        requires
            old(self).wf(),
        ensures
            final(self).wf(),
            r is Ok,
            final(self)@ == committed(
                old(self)@,
                brushed(
                    old(self)@.map,
                    old(self)@.brush,
                    seq![(old(self)@.cursory as usize, old(self)@.cursorx as usize)],
                ),
            ),
    {
        let mut positions: Vec<(usize, usize)> = Vec::new();
        positions.push((self.cursory, self.cursorx));
        self.draw_shape(&positions);
        Ok(())
    }

    /// Paints every selected cell with the tile of the brush. Another brush
    /// than a tile does nothing.
    pub fn bucket(&mut self, _args: &[&str]) -> (r: Result<(), EditError>)
        requires
            old(self).wf(),
        ensures
            final(self).wf(),
            r is Ok,
            final(self)@ == if old(self)@.brush is Tile {
                committed(
                    old(self)@,
                    brushed(
                        old(self)@.map,
                        old(self)@.brush,
                        listing(old(self)@.map.select, across(old(self)@.map), down(old(self)@.map)),
                    ),
                )
            } else {
                old(self)@
            },
    {
        if let Brush::Tile(_) = self.brush {
            let positions = self.selected();
            self.draw_shape(&positions);
        }
        Ok(())
    }

    /// Sets the brush to what the first word names, whatever its case:
    /// `add`, `subtract`, or a tile by its name or its number.
    pub fn brush(&mut self, args: &[&str]) -> (r: Result<(), EditError>)
        requires
            args@.len() >= 1,
        ensures
            match brush_named(old(self)@.tiles, lowercase(args@[0]@), args@[0]@) {
                Ok(brush) => r is Ok && final(self)@ == (StateView { brush, ..old(self)@ }),
                Err(e) => answer(r) == Err::<(), ErrorView>(e) && final(self)@ == old(self)@,
            },
    {
        let lowered = to_lowercase(args[0]);
        match brush_of(&self.tiles, lowered.as_str(), args[0]) {
            Ok(brush) => {
                self.brush = brush;
                Ok(())
            },
            Err(e) => Err(e),
        }
    }

    /// Sets the pen to what the first word names, whatever its case: `up`
    /// or `down`.
    pub fn pen(&mut self, args: &[&str]) -> (r: Result<(), EditError>)
        requires
            args@.len() >= 1,
        ensures
            match pen_named(lowercase(args@[0]@)) {
                Some(pen) => r is Ok && final(self)@ == (StateView { pen, ..old(self)@ }),
                None => answer(r) == Err::<(), ErrorView>(ErrorView::PenMode(args@[0]@))
                    && final(self)@ == old(self)@,
            },
    {
        let lowered = to_lowercase(args[0]);
        match pen_of(lowered.as_str()) {
            Some(pen) => {
                self.pen = pen;
                Ok(())
            },
            None => Err(EditError::PenMode(String::from_str(args[0]))),
        }
    }

    /// Sets the brush to the tile under the cursor.
    pub fn pick(&mut self, _args: &[&str]) -> (r: Result<(), EditError>)
        requires
            old(self).wf(),
        ensures
            r is Ok,
            final(self)@ == (StateView {
                brush: Brush::Tile(old(self)@.map.grid[old(self)@.cursory][old(self)@.cursorx]),
                ..old(self)@
            }),
    {
        broadcast use lemma_row_view;

        self.brush = Brush::Tile(self.map.map[self.cursory][self.cursorx]);
        Ok(())
    }

    /// The selection that a way to select gives.
    pub fn pick_by(&self, choice: Choice) -> (select: Vec<Vec<bool>>)
        requires
            self.wf(),
        ensures
            select.deep_view() == picked(self@, choice),
    {
        broadcast use lemma_row_view;

        let width = self.map.map[0].len();
        let height = self.map.map.len();
        match choice {
            Choice::All => uniform(width, height, true),
            Choice::Nothing => uniform(width, height, false),
            Choice::Invert => invert(&self.map.select),
        }
    }

    /// Replaces the selection. Where that changes it, it is one edit.
    pub fn reselect(&mut self, select: Vec<Vec<bool>>)
        requires
            old(self).wf(),
            shaped(select.deep_view(), across(old(self)@.map), down(old(self)@.map)),
        ensures
            final(self).wf(),
            final(self)@ == committed(
                old(self)@,
                SnapshotView { select: select.deep_view(), ..old(self)@.map },
            ),
    {
        let ghost before = old(self)@;
        let map_clone = self.map.copy();
        let ghost after = select.deep_view();
        self.map.select = select;
        assert(self@ == (StateView { map: SnapshotView { select: after, ..before.map }, ..before }));
        if !self.map.same(&map_clone) {
            self.push_undo(map_clone);
        }
    }

    /// Selects every cell, no cell, or every cell that was not selected.
    pub fn select_by(&mut self, choice: Choice) -> (r: Result<(), EditError>)
        requires
            old(self).wf(),
        ensures
            final(self).wf(),
            r is Ok,
            final(self)@ == committed(
                old(self)@,
                SnapshotView { select: picked(old(self)@, choice), ..old(self)@.map },
            ),
    {
        let select = self.pick_by(choice);
        proof {
            let s = old(self)@;
            assert forall|r: int| 0 <= r < down(s.map) implies (#[trigger] picked(s, choice)[r]).len()
                == across(s.map) by {
            }
        }
        self.reselect(select);
        Ok(())
    }

    /// The selection that a word asks for, where `lowered` is the word in
    /// lower case.
    pub fn pick_cells(&self, lowered: &str, word: &str) -> (r: Result<Vec<Vec<bool>>, EditError>)
        requires
            self.wf(),
        ensures
            match chosen(self@, lowered@, word@) {
                Ok(select) => r is Ok && r->Ok_0.deep_view() == select,
                Err(e) => r is Err && r->Err_0@ == e,
            },
    {
        broadcast use lemma_row_view;

        let width = self.map.map[0].len();
        let height = self.map.map.len();
        match choice_of(lowered) {
            Some(choice) => Ok(self.pick_by(choice)),
            None => match parse_tile(&self.tiles, word) {
                Ok(tile) => {
                    let found = find(&self.map.map, tile, width, height);
                    match self.brush {
                        Brush::Add => {
                            let mut select = crate::select::copy_flags(&self.map.select);
                            mark_all(&mut select, &found, true);
                            Ok(select)
                        },
                        Brush::Subtract => {
                            let mut select = crate::select::copy_flags(&self.map.select);
                            mark_all(&mut select, &found, false);
                            Ok(select)
                        },
                        Brush::Tile(_) => {
                            let mut select = uniform(width, height, false);
                            mark_all(&mut select, &found, true);
                            Ok(select)
                        },
                    }
                },
                Err(_) => Err(EditError::Selection),
            },
        }
    }

    /// Changes the selection as the first word says, whatever its case:
    /// `all`, `none`, `invert`, or a tile by its name or its number.
    pub fn select(&mut self, args: &[&str]) -> (r: Result<(), EditError>)
        requires
            old(self).wf(),
            args@.len() >= 1,
        ensures
            final(self).wf(),
            match chosen(old(self)@, lowercase(args@[0]@), args@[0]@) {
                Ok(select) => r is Ok && final(self)@ == committed(
                    old(self)@,
                    SnapshotView { select, ..old(self)@.map },
                ),
                Err(e) => answer(r) == Err::<(), ErrorView>(e) && final(self)@ == old(self)@,
            },
    {
        let lowered = to_lowercase(args[0]);
        match self.pick_cells(lowered.as_str(), args[0]) {
            Ok(select) => {
                self.reselect(select);
                Ok(())
            },
            Err(e) => Err(e),
        }
    }

    /// Applies the brush to the region of the cell under the cursor: the
    /// cells that hold its tile and are joined to it through neighbours that
    /// hold it too, as far as the number of moves in the first word reaches,
    /// or all of them where there is no word.
    pub fn fuzzy(&mut self, args: &[&str]) -> (r: Result<(), EditError>)
        requires
            old(self).wf(),
        ensures
            final(self).wf(),
            match limit_read(words(args@)) {
                Ok(limit) => r is Ok && final(self)@ == committed(
                    old(self)@,
                    brushed(
                        old(self)@.map,
                        old(self)@.brush,
                        listing(
                            flood_cells(
                                old(self)@.map.grid,
                                across(old(self)@.map),
                                down(old(self)@.map),
                                old(self)@.cursorx,
                                old(self)@.cursory,
                                limit,
                            ),
                            across(old(self)@.map),
                            down(old(self)@.map),
                        ),
                    ),
                ),
                Err(e) => answer(r) == Err::<(), ErrorView>(e) && final(self)@ == old(self)@,
            },
    {
        broadcast use lemma_row_view;

        let limit = if args.len() >= 1 {
            match parse_usize(args[0]) {
                Ok(hops) => Some(hops),
                Err(e) => {
                    return Err(e);
                },
            }
        } else {
            None
        };
        let positions = flood(
            &self.map.map,
            self.map.map[0].len(),
            self.map.map.len(),
            self.cursorx,
            self.cursory,
            limit,
        );
        self.draw_shape(&positions);
        Ok(())
    }

    /// Applies the brush to the box with the corners that the words give:
    /// to its outline, or with `fill` as fifth word to all of it.
    pub fn box_(&mut self, args: &[&str]) -> (r: Result<(), EditError>)
        requires
            old(self).wf(),
            args@.len() >= 4,
        ensures
            final(self).wf(),
            match corners_read(words(args@)) {
                Ok(c) => r is Ok && final(self)@ == committed(
                    old(self)@,
                    brushed(
                        old(self)@.map,
                        old(self)@.brush,
                        listing(
                            box_cells(
                                across(old(self)@.map),
                                down(old(self)@.map),
                                c.0 as int,
                                c.1 as int,
                                c.2 as int,
                                c.3 as int,
                                c.4,
                            ),
                            across(old(self)@.map),
                            down(old(self)@.map),
                        ),
                    ),
                ),
                Err(e) => answer(r) == Err::<(), ErrorView>(e) && final(self)@ == old(self)@,
            },
    {
        broadcast use lemma_row_view;

        match parse_corners(args) {
            Ok((x0, y0, x1, y1, fill)) => {
                let positions = rectangle(
                    self.map.map[0].len(),
                    self.map.map.len(),
                    x0,
                    y0,
                    x1,
                    y1,
                    fill,
                );
                self.draw_shape(&positions);
                Ok(())
            },
            Err(e) => Err(e),
        }
    }

    /// Applies the brush to the ellipse that fills the box with the corners
    /// that the words give: to its outline, or with `fill` as fifth word to
    /// the outline and what it encloses. A box wider or higher than the
    /// greatest extent is refused.
    pub fn ellipse(&mut self, args: &[&str]) -> (r: Result<(), EditError>)
        requires
            old(self).wf(),
            args@.len() >= 4,
        ensures
            final(self).wf(),
            match corners_read(words(args@)) {
                Ok(c) => if span(c.0 as int, c.2 as int) <= MAX_EXTENT && span(
                    c.1 as int,
                    c.3 as int,
                ) <= MAX_EXTENT {
                    r is Ok && final(self)@ == committed(
                        old(self)@,
                        brushed(
                            old(self)@.map,
                            old(self)@.brush,
                            listing(
                                ellipse_cells(
                                    across(old(self)@.map),
                                    down(old(self)@.map),
                                    c.0 as int,
                                    c.1 as int,
                                    c.2 as int,
                                    c.3 as int,
                                    c.4,
                                ),
                                across(old(self)@.map),
                                down(old(self)@.map),
                            ),
                        ),
                    )
                } else {
                    answer(r) == Err::<(), ErrorView>(ErrorView::TooLarge) && final(self)@ == old(self)@
                },
                Err(e) => answer(r) == Err::<(), ErrorView>(e) && final(self)@ == old(self)@,
            },
    {
        broadcast use lemma_row_view;

        match parse_corners(args) {
            Ok((x0, y0, x1, y1, fill)) => {
                let wide = if x0 <= x1 {
                    x1 - x0
                } else {
                    x0 - x1
                };
                let high = if y0 <= y1 {
                    y1 - y0
                } else {
                    y0 - y1
                };
                if wide > MAX_EXTENT || high > MAX_EXTENT {
                    return Err(EditError::TooLarge);
                }
                let positions = ellipse(
                    self.map.map[0].len(),
                    self.map.map.len(),
                    x0,
                    y0,
                    x1,
                    y1,
                    fill,
                );
                self.draw_shape(&positions);
                Ok(())
            },
            Err(e) => Err(e),
        }
    }
}

} // verus!
