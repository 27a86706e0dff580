//! What the editor answers when it cannot do what it was asked.

use crate::map::ShapeError;
use crate::text::{decimal, number_text};
use vstd::prelude::*;

verus! {

/// Why an operation failed. No failure changes the state of the editor.
#[derive(Clone, Debug, PartialEq, Eq)]
pub enum EditError {
    /// The grid was changed since it was saved, and another file was to be
    /// opened.
    UnsavedOpen,
    /// The grid was changed since it was saved, and the editor was to quit.
    UnsavedQuit,
    /// The grid was changed since it was saved, and a new one was to be
    /// made.
    UnsavedCreate,
    /// The file with this path could not be read.
    CouldNotOpen(String),
    /// The file does not hold the text form of a grid.
    CouldNotParse,
    /// The grid read is not valid.
    CouldNotValidate(ShapeError),
    /// The grid, or the shape, is larger than the editor can hold.
    TooLarge,
    /// No path was given and none is remembered.
    NoPath,
    /// The file with this path could not be written.
    CouldNotWrite(String),
    /// The word is no pen mode.
    PenMode(String),
    /// The word is no direction.
    Direction(String),
    /// The word is no unsigned number.
    Integer(String),
    /// The palette has no tile with this number.
    TileNumber(usize),
    /// The word is neither the name nor the number of a tile.
    Tile(String),
    /// The position lies outside the grid.
    OutOfBounds,
    /// The word is neither a way to select nor a tile.
    Selection,
    /// The word after the corners of a shape is not `fill`.
    Fill,
    /// There is nothing to undo.
    UndoEmpty,
    /// There is nothing to redo.
    RedoEmpty,
    /// Nothing was copied yet.
    ClipboardEmpty,
    /// No command has this name.
    CommandNotFound(String),
    /// The command `name` takes `min` to `max` arguments and was given
    /// `found`.
    Arity { name: String, min: usize, max: usize, found: usize },
}

/// A failure, with texts in place of strings.
pub enum ErrorView {
    UnsavedOpen,
    UnsavedQuit,
    UnsavedCreate,
    CouldNotOpen(Seq<char>),
    CouldNotParse,
    CouldNotValidate(ShapeError),
    TooLarge,
    NoPath,
    CouldNotWrite(Seq<char>),
    PenMode(Seq<char>),
    Direction(Seq<char>),
    Integer(Seq<char>),
    TileNumber(usize),
    Tile(Seq<char>),
    OutOfBounds,
    Selection,
    Fill,
    UndoEmpty,
    RedoEmpty,
    ClipboardEmpty,
    CommandNotFound(Seq<char>),
    Arity { name: Seq<char>, min: usize, max: usize, found: usize },
}

impl View for EditError {
    type V = ErrorView;

    open spec fn view(&self) -> ErrorView {
        match self {
            EditError::UnsavedOpen => ErrorView::UnsavedOpen,
            EditError::UnsavedQuit => ErrorView::UnsavedQuit,
            EditError::UnsavedCreate => ErrorView::UnsavedCreate,
            EditError::CouldNotOpen(path) => ErrorView::CouldNotOpen(path@),
            EditError::CouldNotParse => ErrorView::CouldNotParse,
            EditError::CouldNotValidate(why) => ErrorView::CouldNotValidate(*why),
            EditError::TooLarge => ErrorView::TooLarge,
            EditError::NoPath => ErrorView::NoPath,
            EditError::CouldNotWrite(path) => ErrorView::CouldNotWrite(path@),
            EditError::PenMode(word) => ErrorView::PenMode(word@),
            EditError::Direction(word) => ErrorView::Direction(word@),
            EditError::Integer(word) => ErrorView::Integer(word@),
            EditError::TileNumber(number) => ErrorView::TileNumber(*number),
            EditError::Tile(word) => ErrorView::Tile(word@),
            EditError::OutOfBounds => ErrorView::OutOfBounds,
            EditError::Selection => ErrorView::Selection,
            EditError::Fill => ErrorView::Fill,
            EditError::UndoEmpty => ErrorView::UndoEmpty,
            EditError::RedoEmpty => ErrorView::RedoEmpty,
            EditError::ClipboardEmpty => ErrorView::ClipboardEmpty,
            EditError::CommandNotFound(word) => ErrorView::CommandNotFound(word@),
            EditError::Arity { name, min, max, found } => ErrorView::Arity {
                name: name@,
                min: *min,
                max: *max,
                found: *found,
            },
        }
    }
}

/// What is said of a grid that is refused.
pub open spec fn shape_text(why: ShapeError) -> Seq<char> {
    match why {
        ShapeError::Empty => "Maps cannot be empty."@,
        ShapeError::Ragged => "Maps must be rectangular."@,
    }
}

/// How many arguments a command expects, in words: the number, or the least
/// and the greatest with a hyphen between them.
pub open spec fn expected_text(min: usize, max: usize) -> Seq<char> {
    if min == max {
        decimal(min as nat)
    } else {
        decimal(min as nat) + "-"@ + decimal(max as nat)
    }
}

/// What is said of a failure.
pub open spec fn message_text(e: ErrorView) -> Seq<char> {
    match e {
        ErrorView::UnsavedOpen => "Unsaved changes (use :o! to discard them and open another file or :w to save them)."@,
        ErrorView::UnsavedQuit => "Unsaved changes (use :q! to discard them and quit or :wq to save and quit)."@,
        ErrorView::UnsavedCreate => "Unsaved changes (use :n! to discard them and create a new map or :w to save them)."@,
        ErrorView::CouldNotOpen(path) => "Could not open file "@ + path + "."@,
        ErrorView::CouldNotParse => "Could not parse map."@,
        ErrorView::CouldNotValidate(why) => "Could not validate map: "@ + shape_text(why),
        ErrorView::TooLarge => "Too large."@,
        ErrorView::NoPath => "No path set (use :w <path>)."@,
        ErrorView::CouldNotWrite(path) => "Could not write to file "@ + path + "."@,
        ErrorView::PenMode(word) => "Pen mode "@ + word + " not found, options are up, down."@,
        ErrorView::Direction(word) => "Parse error: "@ + word
            + " is not a direction, options are Left, Down, Up, Right."@,
        ErrorView::Integer(word) => "Parse error: "@ + word + " is not an integer."@,
        ErrorView::TileNumber(number) => "Parse error: invalid tile number "@ + decimal(
            number as nat,
        ) + "."@,
        ErrorView::Tile(word) => "Parse error: "@ + word + " is not a valid tile."@,
        ErrorView::OutOfBounds => "Out of bounds."@,
        ErrorView::Selection => "Invalid selection argument, options are all, none, invert and <tile>."@,
        ErrorView::Fill => "Invalid argument, the only option is fill (optional)."@,
        ErrorView::UndoEmpty => "Undo stack is empty."@,
        ErrorView::RedoEmpty => "Redo stack is empty"@,
        ErrorView::ClipboardEmpty => "Clipboard is empty"@,
        ErrorView::CommandNotFound(word) => "Command "@ + word + " not found."@,
        ErrorView::Arity { name, min, max, found } => "Incorrect number of arguments for "@ + name
            + ": expected "@ + expected_text(min, max) + ", found "@ + decimal(found as nat)
            + "."@,
    }
}

impl ShapeError {
    /// What is said of a grid that is refused.
    pub fn message(&self) -> (out: String)
        ensures
            out@ == shape_text(*self),
    {
        match self {
            ShapeError::Empty => String::from_str("Maps cannot be empty."),
            ShapeError::Ragged => String::from_str("Maps must be rectangular."),
        }
    }
}

/// A text between two others.
fn framed(before: &str, word: &str, after: &str) -> (out: String)
    ensures
        out@ == before@ + word@ + after@,
{
    let mut out = String::from_str(before);
    out.append(word);
    out.append(after);
    out
}

impl EditError {
    /// What is said of the failure.
    pub fn message(&self) -> (out: String)
        ensures
            out@ == message_text(self@),
    {
        match self {
            EditError::UnsavedOpen => String::from_str(
                "Unsaved changes (use :o! to discard them and open another file or :w to save them).",
            ),
            EditError::UnsavedQuit => String::from_str(
                "Unsaved changes (use :q! to discard them and quit or :wq to save and quit).",
            ),
            EditError::UnsavedCreate => String::from_str(
                "Unsaved changes (use :n! to discard them and create a new map or :w to save them).",
            ),
            EditError::CouldNotOpen(path) => framed("Could not open file ", path.as_str(), "."),
            EditError::CouldNotParse => String::from_str("Could not parse map."),
            EditError::CouldNotValidate(why) => {
                let mut out = String::from_str("Could not validate map: ");
                let tail = why.message();
                out.append(tail.as_str());
                out
            },
            EditError::TooLarge => String::from_str("Too large."),
            EditError::NoPath => String::from_str("No path set (use :w <path>)."),
            EditError::CouldNotWrite(path) => framed("Could not write to file ", path.as_str(), "."),
            EditError::PenMode(word) => framed(
                "Pen mode ",
                word.as_str(),
                " not found, options are up, down.",
            ),
            EditError::Direction(word) => framed(
                "Parse error: ",
                word.as_str(),
                " is not a direction, options are Left, Down, Up, Right.",
            ),
            EditError::Integer(word) => framed("Parse error: ", word.as_str(), " is not an integer."),
            EditError::TileNumber(number) => {
                let digits = number_text(*number);
                framed("Parse error: invalid tile number ", digits.as_str(), ".")
            },
            EditError::Tile(word) => framed("Parse error: ", word.as_str(), " is not a valid tile."),
            EditError::OutOfBounds => String::from_str("Out of bounds."),
            EditError::Selection => String::from_str(
                "Invalid selection argument, options are all, none, invert and <tile>.",
            ),
            EditError::Fill => String::from_str(
                "Invalid argument, the only option is fill (optional).",
            ),
            EditError::UndoEmpty => String::from_str("Undo stack is empty."),
            EditError::RedoEmpty => String::from_str("Redo stack is empty"),
            EditError::ClipboardEmpty => String::from_str("Clipboard is empty"),
            EditError::CommandNotFound(word) => framed("Command ", word.as_str(), " not found."),
            EditError::Arity { name, min, max, found } => {
                let mut out = framed("Incorrect number of arguments for ", name.as_str(), ": expected ");
                let least = number_text(*min);
                out.append(least.as_str());
                if *min != *max {
                    out.append("-");
                    let most = number_text(*max);
                    out.append(most.as_str());
                }
                out.append(", found ");
                let given = number_text(*found);
                out.append(given.as_str());
                out.append(".");
                out
            },
        }
    }
}

} // verus!
