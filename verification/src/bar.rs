//! The line in which a command is typed.

use crate::text::string_of;
use vstd::prelude::*;

verus! {

/// A line of text with a cursor in it.
#[derive(Debug)]
pub struct Input {
    text: Vec<char>,
    cursor: usize,
}

/// What a line holds: its characters, and the number of characters before
/// the cursor.
pub struct InputView {
    pub text: Seq<char>,
    pub cursor: int,
}

impl View for Input {
    type V = InputView;

    closed spec fn view(&self) -> InputView {
        InputView { text: self.text@, cursor: self.cursor as int }
    }
}

/// The line with the cursor one character on, unless it stands at the end.
pub open spec fn line_right(line: InputView) -> InputView {
    InputView {
        cursor: if line.cursor < line.text.len() {
            line.cursor + 1
        } else {
            line.cursor
        },
        ..line
    }
}

/// The line with the cursor one character back, unless it stands at the
/// start.
pub open spec fn line_left(line: InputView) -> InputView {
    InputView {
        cursor: if line.cursor > 0 {
            line.cursor - 1
        } else {
            0
        },
        ..line
    }
}

/// The line with a character put in at the cursor, and the cursor past it.
pub open spec fn line_write(line: InputView, input: char) -> InputView {
    InputView { text: line.text.insert(line.cursor, input), cursor: line.cursor + 1 }
}

/// The line without the character before the cursor, if there is one.
pub open spec fn line_backspace(line: InputView) -> InputView {
    if line.cursor > 0 {
        InputView { text: line.text.remove(line.cursor - 1), cursor: line.cursor - 1 }
    } else {
        line
    }
}

/// The line without the character at the cursor, if there is one.
pub open spec fn line_delete(line: InputView) -> InputView {
    if line.cursor < line.text.len() {
        InputView { text: line.text.remove(line.cursor), ..line }
    } else {
        line
    }
}

impl Input {
    /// The cursor stands in the text or at its end.
    pub open spec fn wf(&self) -> bool {
        0 <= self@.cursor <= self@.text.len()
    }

    /// Whether the cursor stands in the text or at its end.
    pub fn check(&self) -> (r: bool)
        ensures
            r == self.wf(),
    {
        self.cursor <= self.text.len()
    }

    /// The text of the line.
    pub fn text(&self) -> (out: String)
        ensures
            out@ == self@.text,
    {
        string_of(&self.text)
    }

    /// The number of characters before the cursor.
    pub fn cursor(&self) -> (at: usize)
        ensures
            at == self@.cursor,
    {
        self.cursor
    }

    /// A line without text.
    pub fn empty() -> (line: Self)
        ensures
            line@ == (InputView { text: Seq::empty(), cursor: 0 }),
            line.wf(),
    {
        Input { text: Vec::new(), cursor: 0 }
    }

    /// Moves the cursor one character on, unless it stands at the end.
    pub fn move_right(&mut self)
        requires
            old(self).wf(),
        ensures
            final(self).wf(),
            final(self)@ == line_right(old(self)@),
    {
        if self.cursor < self.text.len() {
            self.cursor += 1;
        }
    }

    /// Moves the cursor one character back, unless it stands at the start.
    pub fn move_left(&mut self)
        requires
            old(self).wf(),
        ensures
            final(self).wf(),
            final(self)@ == line_left(old(self)@),
    {
        if self.cursor > 0 {
            self.cursor -= 1;
        }
    }

    /// Puts a character in at the cursor and moves the cursor past it.
    pub fn write(&mut self, input: char)
        requires
            old(self).wf(),
        ensures
            final(self).wf(),
            final(self)@ == line_write(old(self)@, input),
    {
        self.text.insert(self.cursor, input);
        let len = self.text.len();
        self.cursor += 1;
    }

    /// Takes out the character before the cursor, if there is one.
    pub fn backspace(&mut self)
        requires
            old(self).wf(),
        ensures
            final(self).wf(),
            final(self)@ == line_backspace(old(self)@),
    {
        if self.cursor > 0 {
            self.cursor -= 1;
            self.text.remove(self.cursor);
        }
    }

    /// Takes out the character at the cursor, if there is one.
    pub fn delete(&mut self)
        requires
            old(self).wf(),
        ensures
            final(self).wf(),
            final(self)@ == line_delete(old(self)@),
    {
        if self.cursor < self.text.len() {
            self.text.remove(self.cursor);
        }
    }
}

} // verus!
