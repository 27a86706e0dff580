//! What the keys do: the keys that are commands by themselves, and the keys
//! that edit the command line.

use crate::bar::{line_backspace, line_delete, line_left, line_right, line_write, Input, InputView};
use crate::clipboard::{copied, pasting};
use crate::dispatch::{interpreted, Outcome};
use crate::edit::{picked, Choice};
use crate::error::{message_text, EditError};
use crate::files::{Action, ActionView};
use crate::movement::{moved, offset, Direction};
use crate::select::listing;
use crate::state::{
    across, Bar, BarView, Brush, brushed, committed, down, Pen, redone, SnapshotView, State,
    StateView, undone,
};
use vstd::prelude::*;

verus! {

/// A key.
#[derive(Clone, Copy, Debug, PartialEq, Eq, Structural)]
pub enum Key {
    Char(char),
    Left,
    Right,
    Up,
    Down,
    Backspace,
    Delete,
    Esc,
    Enter,
    Other,
}

/// The state after a step in a direction: as far as the number typed
/// before, or one cell where none was typed; the number is forgotten.
pub open spec fn stepped(s: StateView, direction: Direction) -> StateView {
    StateView {
        argument: 0,
        ..moved(
            s,
            direction,
            if s.argument >= 1 {
                s.argument
            } else {
                1
            },
        )
    }
}

/// The state with one more digit taken into the number typed before a move.
pub open spec fn counted(s: StateView, digit: nat) -> StateView {
    StateView {
        argument: if s.argument * 10 + digit <= usize::MAX {
            s.argument * 10 + digit
        } else {
            usize::MAX as nat
        },
        ..s
    }
}

/// What a key does while the command line is closed.
pub open spec fn keyed(s: StateView, key: Key) -> StateView {
    match key {
        Key::Left => stepped(s, Direction::Left),
        Key::Down => stepped(s, Direction::Down),
        Key::Up => stepped(s, Direction::Up),
        Key::Right => stepped(s, Direction::Right),
        Key::Esc => StateView { argument: 0, ..s },
        Key::Char(c) => if c == ':' {
            StateView { bar: BarView::Input(InputView { text: Seq::empty(), cursor: 0 }), ..s }
        } else if c == 'h' {
            stepped(s, Direction::Left)
        } else if c == 'j' {
            stepped(s, Direction::Down)
        } else if c == 'k' {
            stepped(s, Direction::Up)
        } else if c == 'l' {
            stepped(s, Direction::Right)
        } else if c == 'H' {
            moved(s, Direction::Left, offset(s, Direction::Left))
        } else if c == 'J' {
            moved(s, Direction::Down, offset(s, Direction::Down))
        } else if c == 'K' {
            moved(s, Direction::Up, offset(s, Direction::Up))
        } else if c == 'L' {
            moved(s, Direction::Right, offset(s, Direction::Right))
        } else if c == 'd' {
            committed(s, brushed(s.map, s.brush, seq![(s.cursory as usize, s.cursorx as usize)]))
        } else if c == 'a' {
            StateView { brush: Brush::Add, ..s }
        } else if c == 's' {
            StateView { brush: Brush::Subtract, ..s }
        } else if c == 'i' {
            StateView { pen: Pen::Down, ..s }
        } else if c == 'I' {
            StateView { pen: Pen::Up, ..s }
        } else if c == 'A' {
            committed(s, SnapshotView { select: picked(s, Choice::All), ..s.map })
        } else if c == 'S' {
            committed(s, SnapshotView { select: picked(s, Choice::Nothing), ..s.map })
        } else if c == 'F' {
            committed(s, SnapshotView { select: picked(s, Choice::Invert), ..s.map })
        } else if c == 'f' {
            if s.brush is Tile {
                committed(
                    s,
                    brushed(s.map, s.brush, listing(s.map.select, across(s.map), down(s.map))),
                )
            } else {
                s
            }
        } else if c == 'p' {
            StateView { brush: Brush::Tile(s.map.grid[s.cursory][s.cursorx]), ..s }
        } else if c == 'u' {
            if s.undo.len() > 0 {
                undone(s)
            } else {
                s
            }
        } else if c == 'U' {
            if s.redo.len() > 0 {
                redone(s)
            } else {
                s
            }
        } else if c == 'o' {
            copied(s)
        } else if c == 'O' {
            match s.clipboard {
                Some(clipboard) => pasting(s, clipboard),
                None => s,
            }
        } else if '0' <= c <= '9' {
            counted(s, (c as u32 - 48) as nat)
        } else {
            s
        },
        _ => s,
    }
}

/// What a key does to the command line while it is open for typing; the two
/// keys that close it are not among these.
pub open spec fn edited(line: InputView, key: Key) -> InputView {
    match key {
        Key::Right => line_right(line),
        Key::Left => line_left(line),
        Key::Char(c) => line_write(line, c),
        Key::Backspace => line_backspace(line),
        Key::Delete => line_delete(line),
        _ => line,
    }
}

/// What a key does: the state after it, and what it asks for. While the
/// command line is open the keys edit it, `Esc` closes it, and `Enter`
/// carries out what it holds and closes it, or shows why that failed. While
/// it shows a failure, any key closes it and then does what it does while
/// the line is closed.
pub open spec fn typed(s: StateView, key: Key) -> Outcome {
    match s.bar {
        BarView::Input(line) => match key {
            Key::Enter => {
                let done = interpreted(s, line.text);
                match done.result {
                    Ok(action) => Outcome {
                        state: StateView { bar: BarView::Closed, ..done.state },
                        result: Ok(action),
                    },
                    Err(e) => Outcome {
                        state: StateView { bar: BarView::Error(message_text(e)), ..done.state },
                        result: Ok(ActionView::Done),
                    },
                }
            },
            Key::Esc => Outcome {
                state: StateView { bar: BarView::Closed, ..s },
                result: Ok(ActionView::Done),
            },
            _ => Outcome {
                state: StateView { bar: BarView::Input(edited(line, key)), ..s },
                result: Ok(ActionView::Done),
            },
        },
        BarView::Closed => Outcome { state: keyed(s, key), result: Ok(ActionView::Done) },
        BarView::Error(_) => Outcome {
            state: keyed(StateView { bar: BarView::Closed, ..s }, key),
            result: Ok(ActionView::Done),
        },
    }
}

impl State {
    /// Does what a key does while the command line is closed. A key that
    /// cannot do what it stands for does nothing.
    #[verifier::rlimit(40)]
    pub fn receive_key_closed(&mut self, key: Key)
        requires
            old(self).wf(),
        ensures
            final(self).wf(),
            final(self)@ == keyed(old(self)@, key),
    {
        let none: &[&str] = &[];
        match key {
            Key::Left => {
                let _ = self.move_with(Direction::Left);
            },
            Key::Down => {
                let _ = self.move_with(Direction::Down);
            },
            Key::Up => {
                let _ = self.move_with(Direction::Up);
            },
            Key::Right => {
                let _ = self.move_with(Direction::Right);
            },
            Key::Esc => {
                self.argument = 0;
            },
            Key::Char(c) => {
                if c == ':' {
                    self.bar = Bar::Input(Input::empty());
                } else if c == 'h' {
                    let _ = self.move_with(Direction::Left);
                } else if c == 'j' {
                    let _ = self.move_with(Direction::Down);
                } else if c == 'k' {
                    let _ = self.move_with(Direction::Up);
                } else if c == 'l' {
                    let _ = self.move_with(Direction::Right);
                } else if c == 'H' {
                    let _ = self.edge_to(Direction::Left);
                } else if c == 'J' {
                    let _ = self.edge_to(Direction::Down);
                } else if c == 'K' {
                    let _ = self.edge_to(Direction::Up);
                } else if c == 'L' {
                    let _ = self.edge_to(Direction::Right);
                } else if c == 'd' {
                    let _ = self.dot(none);
                } else if c == 'a' {
                    self.brush = Brush::Add;
                } else if c == 's' {
                    self.brush = Brush::Subtract;
                } else if c == 'i' {
                    self.pen = Pen::Down;
                } else if c == 'I' {
                    self.pen = Pen::Up;
                } else if c == 'A' {
                    let _ = self.select_by(Choice::All);
                } else if c == 'S' {
                    let _ = self.select_by(Choice::Nothing);
                } else if c == 'F' {
                    let _ = self.select_by(Choice::Invert);
                } else if c == 'f' {
                    let _ = self.bucket(none);
                } else if c == 'p' {
                    let _ = self.pick(none);
                } else if c == 'u' {
                    let _ = self.undo(none);
                } else if c == 'U' {
                    let _ = self.redo(none);
                } else if c == 'o' {
                    let _ = self.copy(none);
                } else if c == 'O' {
                    let _ = self.paste(none);
                } else if '0' <= c && c <= '9' {
                    self.append_argument((c as u32 - 48) as u8);
                }
            },
            _ => {},
        }
    }

    /// Shows why something failed in the line below the grid.
    pub fn fail(&mut self, e: &EditError)
        ensures
            final(self)@ == (StateView { bar: BarView::Error(message_text(e@)), ..old(self)@ }),
    {
        self.bar = Bar::Error(e.message());
    }

    /// Does what a key does, and says what is to be done outside the editor
    /// after it.
    #[verifier::rlimit(20)]
    pub fn receive_key(&mut self, key: Key) -> (action: Action)
        requires
            old(self).wf(),
        ensures
            final(self).wf(),
            (Outcome { state: final(self)@, result: Ok(action@) }) == typed(old(self)@, key),
    {
        let typing = match &self.bar {
            Bar::Input(_) => true,
            _ => false,
        };
        if typing {
            match key {
                Key::Enter => {
                    let text = match &self.bar {
                        Bar::Input(line) => line.text(),
                        _ => String::new(),
                    };
                    match self.parse_command(text.as_str()) {
                        Ok(action) => {
                            self.bar = Bar::Closed;
                            action
                        },
                        Err(e) => {
                            self.fail(&e);
                            Action::Done
                        },
                    }
                },
                Key::Esc => {
                    self.bar = Bar::Closed;
                    Action::Done
                },
                _ => {
                    match &mut self.bar {
                        Bar::Input(line) => match key {
                            Key::Right => line.move_right(),
                            Key::Left => line.move_left(),
                            Key::Char(c) => line.write(c),
                            Key::Backspace => line.backspace(),
                            Key::Delete => line.delete(),
                            _ => {},
                        },
                        _ => {},
                    }
                    Action::Done
                },
            }
        } else {
            self.bar = Bar::Closed;
            self.receive_key_closed(key);
            Action::Done
        }
    }
}

} // verus!
