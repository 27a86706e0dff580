//! Moving the cursor, with the pen up or down.

use crate::error::{EditError, ErrorView};
use crate::map::{in_bounds, inside, lemma_row_view};
use crate::palette::answer;
use crate::shapes::span;
use crate::state::{across, brushed, committed, down, Pen, State, StateView};
use crate::text::{lowercase, read_unsigned, same_text, to_lowercase, unsigned_of};
use vstd::prelude::*;

verus! {

/// The four ways the cursor can move.
#[derive(Clone, Copy, Debug, PartialEq, Eq, Structural)]
pub enum Direction {
    Left,
    Down,
    Up,
    Right,
}

/// The texts of a list of words.
pub open spec fn words(args: Seq<&str>) -> Seq<Seq<char>> {
    Seq::new(args.len(), |i: int| args[i]@)
}

/// The direction that a word in lower case names.
pub open spec fn direction_named(lowered: Seq<char>) -> Option<Direction> {
    if lowered == "left"@ || lowered == "h"@ {
        Some(Direction::Left)
    } else if lowered == "down"@ || lowered == "j"@ {
        Some(Direction::Down)
    } else if lowered == "up"@ || lowered == "k"@ {
        Some(Direction::Up)
    } else if lowered == "right"@ || lowered == "l"@ {
        Some(Direction::Right)
    } else {
        None
    }
}

/// The direction that a word in lower case names: `left`, `down`, `up` or
/// `right`, or one of the letters `h`, `j`, `k` and `l`.
pub fn direction_of(lowered: &str) -> (r: Option<Direction>)
    ensures
        r == direction_named(lowered@),
{
    if same_text(lowered, "left") || same_text(lowered, "h") {
        Some(Direction::Left)
    } else if same_text(lowered, "down") || same_text(lowered, "j") {
        Some(Direction::Down)
    } else if same_text(lowered, "up") || same_text(lowered, "k") {
        Some(Direction::Up)
    } else if same_text(lowered, "right") || same_text(lowered, "l") {
        Some(Direction::Right)
    } else {
        None
    }
}

/// What a word says of the direction, whatever its case.
pub open spec fn direction_read(arg: Seq<char>) -> Result<Direction, ErrorView> {
    match direction_named(lowercase(arg)) {
        Some(direction) => Ok(direction),
        None => Err(ErrorView::Direction(arg)),
    }
}

/// Reads a direction from a word, whatever its case.
pub fn parse_direction(arg: &str) -> (r: Result<Direction, EditError>)
    ensures
        answer(r) == direction_read(arg@),
{
    let lowered = to_lowercase(arg);
    match direction_of(lowered.as_str()) {
        Some(direction) => Ok(direction),
        None => Err(EditError::Direction(String::from_str(arg))),
    }
}

/// What a word says of a number.
pub open spec fn number_read(arg: Seq<char>) -> Result<usize, ErrorView> {
    match unsigned_of(arg, usize::MAX as nat) {
        Some(number) => Ok(number as usize),
        None => Err(ErrorView::Integer(arg)),
    }
}

/// Reads a number from a word: decimal digits, with or without a `+`
/// before them.
pub fn parse_usize(arg: &str) -> (r: Result<usize, EditError>)
    ensures
        answer(r) == number_read(arg@),
{
    match read_unsigned(arg) {
        Some(number) => Ok(number),
        None => Err(EditError::Integer(String::from_str(arg))),
    }
}

/// The coordinates that a move passes over on its way from `from` to `to`,
/// the last one included and the first one not, in rising order.
pub open spec fn passed(from: int, to: int) -> Seq<int> {
    Seq::new(
        span(from, to) as nat,
        |i: int|
            if to < from {
                to + i
            } else {
                from + 1 + i
            },
    )
}

/// The positions that a move along a row or along a column passes over:
/// in the row `fixed` where `along_row` holds, else in the column `fixed`.
pub open spec fn trail(from: int, to: int, fixed: int, along_row: bool) -> Seq<(usize, usize)> {
    Seq::new(
        span(from, to) as nat,
        |i: int|
            if along_row {
                (fixed as usize, passed(from, to)[i] as usize)
            } else {
                (passed(from, to)[i] as usize, fixed as usize)
            },
    )
}

/// The positions that a move from `from` to `to` passes over, where the
/// other coordinate stays `fixed`: the cells between the two and the cell
/// moved to, not the cell moved from.
pub fn traversed(from: usize, to: usize, fixed: usize, along_row: bool) -> (out: Vec<(usize, usize)>)
    ensures
        out@ == trail(from as int, to as int, fixed as int, along_row),
{
    let low: usize = if to < from {
        to
    } else {
        from
    };
    let high: usize = if to < from {
        from
    } else {
        to
    };
    let mut out: Vec<(usize, usize)> = Vec::new();
    let mut i: usize = 0;
    while i < high - low
        invariant
            low <= high,
            i <= high - low,
            low == (if to < from { to } else { from }),
            high == (if to < from { from } else { to }),
            out.len() == i,
            forall|k: int|
                0 <= k < i ==> #[trigger] out@[k] == trail(
                    from as int,
                    to as int,
                    fixed as int,
                    along_row,
                )[k],
        decreases high - low - i,
    {
        let at: usize = if to < from {
            to + i
        } else {
            from + 1 + i
        };
        if along_row {
            out.push((fixed, at));
        } else {
            out.push((at, fixed));
        }
        i += 1;
    }
    out
}

/// Where a move of `distance` cells takes the cursor: that far in the
/// direction, or as far as the grid goes.
pub open spec fn target(s: StateView, direction: Direction, distance: nat) -> (int, int) {
    match direction {
        Direction::Left => (
            if distance >= s.cursorx {
                0
            } else {
                s.cursorx - distance
            },
            s.cursory,
        ),
        Direction::Right => (
            if s.cursorx + distance >= across(s.map) {
                across(s.map) - 1
            } else {
                s.cursorx + distance
            },
            s.cursory,
        ),
        Direction::Up => (
            s.cursorx,
            if distance >= s.cursory {
                0
            } else {
                s.cursory - distance
            },
        ),
        Direction::Down => (
            s.cursorx,
            if s.cursory + distance >= down(s.map) {
                down(s.map) - 1
            } else {
                s.cursory + distance
            },
        ),
    }
}

/// The positions that a move passes over.
pub open spec fn route(s: StateView, direction: Direction, distance: nat) -> Seq<(usize, usize)> {
    let (x, y) = target(s, direction, distance);
    match direction {
        Direction::Left | Direction::Right => trail(s.cursorx, x, s.cursory, true),
        Direction::Up | Direction::Down => trail(s.cursory, y, s.cursorx, false),
    }
}

/// The state after a move: the cursor stands on the target; and with the pen
/// down the brush was applied to every cell passed over, as one edit.
pub open spec fn moved(s: StateView, direction: Direction, distance: nat) -> StateView {
    let (x, y) = target(s, direction, distance);
    let there = StateView { cursorx: x, cursory: y, ..s };
    if s.pen == Pen::Down {
        committed(there, brushed(s.map, s.brush, route(s, direction, distance)))
    } else {
        there
    }
}

/// How far the cursor stands from the edge of the grid in a direction.
pub open spec fn offset(s: StateView, direction: Direction) -> nat {
    match direction {
        Direction::Left => s.cursorx as nat,
        Direction::Right => (across(s.map) - 1 - s.cursorx) as nat,
        Direction::Up => s.cursory as nat,
        Direction::Down => (down(s.map) - 1 - s.cursory) as nat,
    }
}

impl State {
    /// Moves the cursor `distance` cells in a direction, or as far as the
    /// grid goes. With the pen down the brush is applied to every cell
    /// passed over, as one edit.
    pub fn move_cursor(&mut self, direction: Direction, distance: usize) -> (r: Result<
        (),
        EditError,
    >)
        requires
            old(self).wf(),
        ensures
            final(self).wf(),
            r is Ok,
            final(self)@ == moved(old(self)@, direction, distance as nat),
    {
        broadcast use lemma_row_view;

        let width = self.map.map[0].len();
        let height = self.map.map.len();
        let (nx, ny, positions) = match direction {
            Direction::Left => {
                let nx = if distance >= self.cursorx {
                    0
                } else {
                    self.cursorx - distance
                };
                (nx, self.cursory, traversed(self.cursorx, nx, self.cursory, true))
            },
            Direction::Down => {
                let ny = if distance >= height - self.cursory {
                    height - 1
                } else {
                    self.cursory + distance
                };
                (self.cursorx, ny, traversed(self.cursory, ny, self.cursorx, false))
            },
            Direction::Up => {
                let ny = if distance >= self.cursory {
                    0
                } else {
                    self.cursory - distance
                };
                (self.cursorx, ny, traversed(self.cursory, ny, self.cursorx, false))
            },
            Direction::Right => {
                let nx = if distance >= width - self.cursorx {
                    width - 1
                } else {
                    self.cursorx + distance
                };
                (nx, self.cursory, traversed(self.cursorx, nx, self.cursory, true))
            },
        };
        self.cursorx = nx;
        self.cursory = ny;
        if self.pen == Pen::Down {
            self.draw_shape(&positions);
        }
        Ok(())
    }

    /// Moves the cursor to the edge of the grid in a direction.
    pub fn edge_to(&mut self, direction: Direction) -> (r: Result<(), EditError>)
        requires
            old(self).wf(),
        ensures
            final(self).wf(),
            r is Ok,
            final(self)@ == moved(old(self)@, direction, offset(old(self)@, direction)),
    {
        broadcast use lemma_row_view;

        match direction {
            Direction::Left => self.move_cursor(Direction::Left, self.cursorx),
            Direction::Down => self.move_cursor(
                Direction::Down,
                self.map.map.len() - 1 - self.cursory,
            ),
            Direction::Up => self.move_cursor(Direction::Up, self.cursory),
            Direction::Right => self.move_cursor(
                Direction::Right,
                self.map.map[0].len() - 1 - self.cursorx,
            ),
        }
    }

    /// Moves the cursor to the edge of the grid in the direction that the
    /// first word names.
    pub fn edge(&mut self, args: &[&str]) -> (r: Result<(), EditError>)
        requires
            old(self).wf(),
            args@.len() >= 1,
        ensures
            final(self).wf(),
            match direction_read(args@[0]@) {
                Ok(direction) => r is Ok && final(self)@ == moved(
                    old(self)@,
                    direction,
                    offset(old(self)@, direction),
                ),
                Err(e) => answer(r) == Err::<(), ErrorView>(e) && final(self)@ == old(self)@,
            },
    {
        match parse_direction(args[0]) {
            Err(e) => Err(e),
            Ok(direction) => self.edge_to(direction),
        }
    }

    /// What the words of a move say: the direction in the first, and the
    /// distance in the second, or one where there is no second.
    pub open spec fn move_read(args: Seq<Seq<char>>) -> Result<(Direction, usize), ErrorView> {
        let distance = if args.len() >= 2 {
            number_read(args[1])
        } else {
            Ok(1usize)
        };
        match distance {
            Err(e) => Err(e),
            Ok(distance) => match direction_read(args[0]) {
                Err(e) => Err(e),
                Ok(direction) => Ok((direction, distance)),
            },
        }
    }

    /// Moves the cursor in the direction that the first word names, as far
    /// as the second word says, or by one cell where there is no second
    /// word.
    pub fn move_(&mut self, args: &[&str]) -> (r: Result<(), EditError>)
        requires
            old(self).wf(),
            args@.len() >= 1,
        ensures
            final(self).wf(),
            match Self::move_read(words(args@)) {
                Ok(how) => r is Ok && final(self)@ == moved(old(self)@, how.0, how.1 as nat),
                Err(e) => answer(r) == Err::<(), ErrorView>(e) && final(self)@ == old(self)@,
            },
    {
        let distance = if args.len() >= 2 {
            match parse_usize(args[1]) {
                Ok(distance) => distance,
                Err(e) => {
                    return Err(e);
                },
            }
        } else {
            1
        };
        match parse_direction(args[0]) {
            Ok(direction) => self.move_cursor(direction, distance),
            Err(e) => Err(e),
        }
    }

    /// What the words of a jump say: the column in the first and the row in
    /// the second.
    pub open spec fn goto_read(args: Seq<Seq<char>>) -> Result<(usize, usize), ErrorView> {
        match number_read(args[0]) {
            Err(e) => Err(e),
            Ok(x) => match number_read(args[1]) {
                Err(e) => Err(e),
                Ok(y) => Ok((x, y)),
            },
        }
    }

    /// Puts the cursor on the column that the first word gives and the row
    /// that the second word gives, if that is a cell of the grid.
    pub fn goto(&mut self, args: &[&str]) -> (r: Result<(), EditError>)
        requires
            old(self).wf(),
            args@.len() >= 2,
        ensures
            final(self).wf(),
            match Self::goto_read(words(args@)) {
                Ok(at) => if inside(
                    across(old(self)@.map) as int,
                    down(old(self)@.map) as int,
                    at.0 as int,
                    at.1 as int,
                ) {
                    r is Ok && final(self)@ == (StateView {
                        cursorx: at.0 as int,
                        cursory: at.1 as int,
                        ..old(self)@
                    })
                } else {
                    answer(r) == Err::<(), ErrorView>(ErrorView::OutOfBounds) && final(self)@
                        == old(self)@
                },
                Err(e) => answer(r) == Err::<(), ErrorView>(e) && final(self)@ == old(self)@,
            },
    {
        broadcast use lemma_row_view;

        let x = match parse_usize(args[0]) {
            Ok(x) => x,
            Err(e) => {
                return Err(e);
            },
        };
        let y = match parse_usize(args[1]) {
            Ok(y) => y,
            Err(e) => {
                return Err(e);
            },
        };
        if in_bounds(self.map.map[0].len(), self.map.map.len(), x, y) {
            self.cursorx = x;
            self.cursory = y;
            Ok(())
        } else {
            Err(EditError::OutOfBounds)
        }
    }

    /// Moves the cursor in a direction by the number typed before, or by one
    /// cell where none was typed, and forgets the number.
    pub fn move_with(&mut self, direction: Direction) -> (r: Result<(), EditError>)
        requires
            old(self).wf(),
        ensures
            final(self).wf(),
            r is Ok,
            final(self)@ == (StateView {
                argument: 0,
                ..moved(
                    old(self)@,
                    direction,
                    if old(self)@.argument >= 1 {
                        old(self)@.argument
                    } else {
                        1
                    },
                )
            }),
    {
        let distance = if self.argument >= 1 {
            self.argument
        } else {
            1
        };
        let r = self.move_cursor(direction, distance);
        self.argument = 0;
        r
    }
}

} // verus!
