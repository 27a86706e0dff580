//! What is shown of the editor: the line that tells its state, and what
//! stands at each place of the picture of the grid.

use crate::files::changed;
use crate::map::{lemma_row_view, MAX_CELLS};
use crate::palette::index_of;
use crate::parse::{tile_text, write_tile};
use crate::select::lemma_flags_view;
use crate::state::{across, down, Brush, Pen, State, StateView};
use crate::text::{decimal, number_text};
use vstd::prelude::*;

verus! {

/// How the brush is named: `add`, `subtract`, or the name of its tile, or
/// the number of its tile where the palette does not hold it.
pub open spec fn brush_text(s: StateView) -> Seq<char> {
    match s.brush {
        Brush::Add => "add"@,
        Brush::Subtract => "subtract"@,
        Brush::Tile(tile) => match index_of(s.tiles, tile as int) {
            Some(k) => s.tiles[k].name,
            None => tile_text(tile),
        },
    }
}

/// The line that tells the state: the path, marked where the grid was
/// changed since it was saved, the pen, the brush, the cursor, and the number
/// typed before a move, if any.
pub open spec fn status_text(s: StateView) -> Seq<char> {
    "Path: "@ + (match s.path {
        Some(path) => path,
        None => "[-]"@,
    }) + (if changed(s) {
        "(*)"@
    } else {
        Seq::empty()
    }) + ", Pen: "@ + (match s.pen {
        Pen::Up => "Up"@,
        Pen::Down => "Down"@,
    }) + ", Brush: "@ + brush_text(s) + ", Cursor: ("@ + decimal(s.cursorx as nat) + ","@ + decimal(
        s.cursory as nat,
    ) + "), Argument: "@ + (if s.argument > 0 {
        decimal(s.argument)
    } else {
        Seq::empty()
    })
}

/// What stands at a place of the picture of the grid.
#[derive(Clone, Copy, Debug, PartialEq, Eq, Structural)]
pub enum Pixel {
    /// A corner on the left of the frame.
    LeftCorner,
    /// A corner on the right of the frame.
    RightCorner,
    /// The top or the bottom of the frame.
    Rail,
    /// The left side of the frame.
    LeftSide,
    /// The right side of the frame.
    RightSide,
    /// A cell of the grid: its tile, whether it is selected, and whether the
    /// cursor stands on it.
    Cell { tile: i32, selected: bool, cursor: bool },
}

/// What stands in column `x` and row `y` of the picture: the grid with a
/// frame of one place around it, and nothing beyond the frame.
pub open spec fn pictured(s: StateView, x: int, y: int) -> Option<Pixel> {
    let width = across(s.map);
    let height = down(s.map);
    if 0 <= x < width + 2 && 0 <= y < height + 2 {
        Some(
            if x == 0 && (y == 0 || y == height + 1) {
                Pixel::LeftCorner
            } else if x == width + 1 && (y == 0 || y == height + 1) {
                Pixel::RightCorner
            } else if y == 0 || y == height + 1 {
                Pixel::Rail
            } else if x == 0 {
                Pixel::LeftSide
            } else if x == width + 1 {
                Pixel::RightSide
            } else {
                Pixel::Cell {
                    tile: s.map.grid[y - 1][x - 1],
                    selected: s.map.select[y - 1][x - 1],
                    cursor: x - 1 == s.cursorx && y - 1 == s.cursory,
                }
            },
        )
    } else {
        None
    }
}

/// The first column, or row, of the grid that is shown where `visible`
/// places are there to show it: the picture follows the cursor once it has
/// come within three places of the end.
pub open spec fn scrolled(cursor: int, visible: int) -> int {
    if visible >= 3 && cursor > visible - 3 {
        cursor - (visible - 3)
    } else if visible < 3 {
        cursor
    } else {
        0
    }
}

/// The first column, or row, of the grid that is shown.
pub fn scroll(cursor: usize, visible: usize) -> (first: usize)
    ensures
        first == scrolled(cursor as int, visible as int),
{
    if visible >= 3 {
        if cursor > visible - 3 {
            cursor - (visible - 3)
        } else {
            0
        }
    } else {
        cursor
    }
}

impl State {
    /// The line that tells the state.
    pub fn info_bar(&self) -> (out: String)
        requires
            self.wf(),
        ensures
            out@ == status_text(self@),
    {
        let mut out = String::from_str("Path: ");
        match &self.path {
            Some(path) => out.append(path.as_str()),
            None => out.append("[-]"),
        }
        if self.modified() {
            out.append("(*)");
        }
        out.append(", Pen: ");
        match self.pen {
            Pen::Up => out.append("Up"),
            Pen::Down => out.append("Down"),
        }
        out.append(", Brush: ");
        match self.brush {
            Brush::Add => out.append("add"),
            Brush::Subtract => out.append("subtract"),
            Brush::Tile(tile) => match self.tiles.name_of(tile) {
                Some(name) => out.append(name.as_str()),
                None => {
                    let number = write_tile(tile);
                    out.append(number.as_str());
                },
            },
        }
        out.append(", Cursor: (");
        let x = number_text(self.cursorx);
        out.append(x.as_str());
        out.append(",");
        let y = number_text(self.cursory);
        out.append(y.as_str());
        out.append("), Argument: ");
        if self.argument > 0 {
            let n = number_text(self.argument);
            out.append(n.as_str());
        }
        out
    }

    /// What stands in column `x` and row `y` of the picture of the grid.
    pub fn pixel(&self, x: usize, y: usize) -> (r: Option<Pixel>)
        requires
            self.wf(),
        ensures
            r == pictured(self@, x as int, y as int),
    {
        broadcast use lemma_row_view, lemma_flags_view;

        let width = self.map.map[0].len();
        let height = self.map.map.len();
        assert(width <= MAX_CELLS && height <= MAX_CELLS) by (nonlinear_arith)
            requires
                width * height <= MAX_CELLS,
                width >= 1,
                height >= 1,
        ;
        if x <= width + 1 && y <= height + 1 {
            Some(
                if x == 0 && (y == 0 || y == height + 1) {
                    Pixel::LeftCorner
                } else if x == width + 1 && (y == 0 || y == height + 1) {
                    Pixel::RightCorner
                } else if y == 0 || y == height + 1 {
                    Pixel::Rail
                } else if x == 0 {
                    Pixel::LeftSide
                } else if x == width + 1 {
                    Pixel::RightSide
                } else {
                    Pixel::Cell {
                        tile: self.map.map[y - 1][x - 1],
                        selected: self.map.select[y - 1][x - 1],
                        cursor: x - 1 == self.cursorx && y - 1 == self.cursory,
                    }
                },
            )
        } else {
            None
        }
    }
}

} // verus!
