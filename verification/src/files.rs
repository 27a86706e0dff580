//! Opening, writing, creating and quitting. The editor reads and writes no
//! file itself: it says what is to be read or written, and is told what was
//! read and that the file was written.

use crate::error::{EditError, ErrorView};
use crate::map::{create, filled, lemma_row_view, MAX_CELLS, rectangular, ShapeError, validate};
use crate::movement::{number_read, parse_usize, words};
use crate::palette::answer;
use crate::parse::{export_map, grid_of, grid_text, parse_map};
use crate::select::{lemma_flags_view, plain, uniform};
use crate::state::{committed, reclamped, Snapshot, SnapshotView, State, StateView};
use vstd::prelude::*;

verus! {

/// What is to be done outside the editor after a command.
#[derive(Clone, Debug, PartialEq, Eq)]
pub enum Action {
    /// Nothing.
    Done,
    /// The file is to be read, and its text handed to `load`.
    Read { path: String },
    /// The text is to be written to the file, and `written` called once that
    /// is done; with `quit` the editor is to end after that.
    Write { path: String, text: String, quit: bool },
}

/// What is to be done outside the editor, with texts in place of strings.
pub enum ActionView {
    Done,
    Read { path: Seq<char> },
    Write { path: Seq<char>, text: Seq<char>, quit: bool },
}

impl View for Action {
    type V = ActionView;

    open spec fn view(&self) -> ActionView {
        match self {
            Action::Done => ActionView::Done,
            Action::Read { path } => ActionView::Read { path: path@ },
            Action::Write { path, text, quit } => ActionView::Write {
                path: path@,
                text: text@,
                quit: *quit,
            },
        }
    }
}

/// What a command answers, with texts in place of strings.
pub open spec fn reply(r: Result<Action, EditError>) -> Result<ActionView, ErrorView> {
    match r {
        Ok(action) => Ok(action@),
        Err(e) => Err(e@),
    }
}

/// Whether the grid differs from what was last read or written.
pub open spec fn changed(s: StateView) -> bool {
    s.last_saved matches Some(saved) && saved != s.map.grid
}

/// What `write` answers: the text of the grid is to be written to the path
/// in the first word, or to the path remembered where there is no word.
pub open spec fn writing(s: StateView, args: Seq<Seq<char>>, quit: bool) -> Result<
    ActionView,
    ErrorView,
> {
    if args.len() >= 1 {
        Ok(ActionView::Write { path: args[0], text: grid_text(s.map.grid), quit })
    } else {
        match s.path {
            Some(path) => Ok(ActionView::Write { path, text: grid_text(s.map.grid), quit }),
            None => Err(ErrorView::NoPath),
        }
    }
}

/// The grid that a text read from a file gives, or why it gives none: it
/// must stand for a grid with rows of one length and no more cells than the
/// editor can list.
pub open spec fn grid_read(text: Seq<char>) -> Result<Seq<Seq<i32>>, ErrorView> {
    match grid_of(text) {
        None => Err(ErrorView::CouldNotParse),
        Some(grid) => if grid.len() == 0 {
            Err(ErrorView::CouldNotValidate(ShapeError::Empty))
        } else if !rectangular(grid) {
            Err(ErrorView::CouldNotValidate(ShapeError::Ragged))
        } else if grid[0].len() * grid.len() > MAX_CELLS {
            Err(ErrorView::TooLarge)
        } else {
            Ok(grid)
        },
    }
}

/// The state after the grid was read from the file with this path: nothing
/// is selected, the grid counts as saved, and the cursor is back on the
/// first cell where it stood outside the grid.
pub open spec fn loaded(s: StateView, path: Seq<char>, grid: Seq<Seq<i32>>) -> StateView {
    reclamped(
        StateView {
            map: SnapshotView {
                grid,
                select: plain(crate::map::width(grid), crate::map::height(grid), false),
            },
            path: Some(path),
            last_saved: Some(grid),
            ..s
        },
    )
}

/// The size that the words of `create` give, or why they give none: the
/// width in the first and the height in the second, neither zero, and no
/// more cells than the editor can list.
pub open spec fn size_read(args: Seq<Seq<char>>) -> Result<(usize, usize), ErrorView> {
    match number_read(args[0]) {
        Err(e) => Err(e),
        Ok(width) => match number_read(args[1]) {
            Err(e) => Err(e),
            Ok(height) => if width == 0 || height == 0 {
                Err(ErrorView::CouldNotValidate(ShapeError::Empty))
            } else if width * height > MAX_CELLS {
                Err(ErrorView::TooLarge)
            } else {
                Ok((width, height))
            },
        },
    }
}

/// The state after a grid of the given size was created: all its tiles are
/// zero and nothing is selected. Where that differs from what was there it
/// is one edit.
pub open spec fn created(s: StateView, width: nat, height: nat) -> StateView {
    reclamped(
        committed(
            s,
            SnapshotView { grid: filled(width, height, 0), select: plain(width, height, false) },
        ),
    )
}

/// Whether a grid `width` wide and `height` high has more cells than the
/// editor can list.
fn too_large(width: usize, height: usize) -> (r: bool)
    ensures
        r == (width * height > MAX_CELLS),
{
    match width.checked_mul(height) {
        Some(cells) => cells > MAX_CELLS,
        None => true,
    }
}

impl State {
    /// Asks for the file in the first word to be read, unless the grid was
    /// changed since it was saved.
    pub fn open(&self, args: &[&str]) -> (r: Result<Action, EditError>)
        requires
            args@.len() >= 1,
        ensures
            reply(r) == if changed(self@) {
                Err::<ActionView, ErrorView>(ErrorView::UnsavedOpen)
            } else {
                Ok(ActionView::Read { path: args@[0]@ })
            },
    {
        if self.modified() {
            Err(EditError::UnsavedOpen)
        } else {
            self.open_force(args)
        }
    }

    /// Asks for the file in the first word to be read, whether or not the
    /// grid was changed since it was saved.
    pub fn open_force(&self, args: &[&str]) -> (r: Result<Action, EditError>)
        requires
            args@.len() >= 1,
        ensures
            reply(r) == Ok::<ActionView, ErrorView>(ActionView::Read { path: args@[0]@ }),
    {
        Ok(Action::Read { path: String::from_str(args[0]) })
    }

    /// Takes the text read from the file with this path as the new grid.
    pub fn load(&mut self, path: &str, text: &str) -> (r: Result<(), EditError>)
        requires
            old(self).wf(),
        ensures
            final(self).wf(),
            match grid_read(text@) {
                Ok(grid) => r is Ok && final(self)@ == loaded(old(self)@, path@, grid),
                Err(e) => answer(r) == Err::<(), ErrorView>(e) && final(self)@ == old(self)@,
            },
    {
        broadcast use lemma_row_view, lemma_flags_view;

        let map = match parse_map(text) {
            Ok(map) => map,
            Err(_) => {
                return Err(EditError::CouldNotParse);
            },
        };
        match validate(&map) {
            Ok(_) => {},
            Err(why) => {
                return Err(EditError::CouldNotValidate(why));
            },
        }
        let width = map[0].len();
        let height = map.len();
        if too_large(width, height) {
            return Err(EditError::TooLarge);
        }
        let ghost grid = map.deep_view();
        let saved = crate::map::copy(&map);
        self.map = Snapshot { map, select: uniform(width, height, false) };
        self.path = Some(String::from_str(path));
        self.last_saved = Some(saved);
        self.reset_cursor();
        Ok(())
    }

    /// Asks for the grid to be written to the path in the first word, or to
    /// the path remembered where there is no word.
    pub fn write(&self, args: &[&str]) -> (r: Result<Action, EditError>)
        ensures
            reply(r) == writing(self@, words(args@), false),
    {
        self.save(args, false)
    }

    /// Asks for the grid to be written as `write` does, and for the editor
    /// to end once that is done.
    pub fn write_quit(&self, args: &[&str]) -> (r: Result<Action, EditError>)
        ensures
            reply(r) == writing(self@, words(args@), true),
    {
        self.save(args, true)
    }

    /// Asks for the grid to be written.
    pub fn save(&self, args: &[&str], quit: bool) -> (r: Result<Action, EditError>)
        ensures
            reply(r) == writing(self@, words(args@), quit),
    {
        if args.len() >= 1 {
            Ok(Action::Write { path: String::from_str(args[0]), text: export_map(&self.map.map), quit })
        } else {
            match &self.path {
                Some(path) => Ok(
                    Action::Write { path: path.clone(), text: export_map(&self.map.map), quit },
                ),
                None => Err(EditError::NoPath),
            }
        }
    }

    /// Notes that the grid was written to the file with this path: the path
    /// is remembered and the grid counts as saved. With `quit` the editor is
    /// to end.
    pub fn written(&mut self, path: &str, quit: bool)
        ensures
            final(self)@ == (StateView {
                path: Some(path@),
                last_saved: Some(old(self)@.map.grid),
                exit: old(self)@.exit || quit,
                ..old(self)@
            }),
    {
        self.path = Some(String::from_str(path));
        self.last_saved = Some(crate::map::copy(&self.map.map));
        if quit {
            self.exit = true;
        }
    }

    /// Remembers the path of a file that does not exist yet, for the grid to
    /// be written to.
    pub fn remember(&mut self, path: &str)
        ensures
            final(self)@ == (StateView { path: Some(path@), ..old(self)@ }),
    {
        self.path = Some(String::from_str(path));
    }

    /// Ends the editor, unless the grid was changed since it was saved.
    pub fn quit(&mut self, _args: &[&str]) -> (r: Result<(), EditError>)
        ensures
            if changed(old(self)@) {
                answer(r) == Err::<(), ErrorView>(ErrorView::UnsavedQuit) && final(self)@ == old(self)@
            } else {
                r is Ok && final(self)@ == (StateView { exit: true, ..old(self)@ })
            },
    {
        if self.modified() {
            Err(EditError::UnsavedQuit)
        } else {
            self.exit = true;
            Ok(())
        }
    }

    /// Ends the editor, whether or not the grid was changed since it was
    /// saved.
    pub fn quit_force(&mut self, _args: &[&str]) -> (r: Result<(), EditError>)
        ensures
            r is Ok,
            final(self)@ == (StateView { exit: true, ..old(self)@ }),
    {
        self.exit = true;
        Ok(())
    }

    /// Makes a new grid of the width in the first word and the height in the
    /// second, unless the grid was changed since it was saved.
    pub fn create(&mut self, args: &[&str]) -> (r: Result<(), EditError>)
        requires
            old(self).wf(),
            args@.len() >= 2,
        ensures
            final(self).wf(),
            if changed(old(self)@) {
                answer(r) == Err::<(), ErrorView>(ErrorView::UnsavedCreate) && final(self)@ == old(self)@
            } else {
                match size_read(words(args@)) {
                    Ok(size) => r is Ok && final(self)@ == created(
                        old(self)@,
                        size.0 as nat,
                        size.1 as nat,
                    ),
                    Err(e) => answer(r) == Err::<(), ErrorView>(e) && final(self)@ == old(self)@,
                }
            },
    {
        if self.modified() {
            Err(EditError::UnsavedCreate)
        } else {
            self.create_force(args)
        }
    }

    /// Makes a new grid of the width in the first word and the height in the
    /// second, whether or not the grid was changed since it was saved.
    pub fn create_force(&mut self, args: &[&str]) -> (r: Result<(), EditError>)
        requires
            old(self).wf(),
            args@.len() >= 2,
        ensures
            final(self).wf(),
            match size_read(words(args@)) {
                Ok(size) => r is Ok && final(self)@ == created(
                    old(self)@,
                    size.0 as nat,
                    size.1 as nat,
                ),
                Err(e) => answer(r) == Err::<(), ErrorView>(e) && final(self)@ == old(self)@,
            },
    {
        broadcast use lemma_row_view, lemma_flags_view;

        let width = match parse_usize(args[0]) {
            Ok(n) => n,
            Err(e) => {
                return Err(e);
            },
        };
        let height = match parse_usize(args[1]) {
            Ok(n) => n,
            Err(e) => {
                return Err(e);
            },
        };
        if width == 0 || height == 0 {
            return Err(EditError::CouldNotValidate(ShapeError::Empty));
        }
        if too_large(width, height) {
            return Err(EditError::TooLarge);
        }
        let new_map = Snapshot { map: create(width, height, 0), select: uniform(width, height, false) };
        if !self.map.same(&new_map) {
            let map_clone = self.map.copy();
            self.push_undo(map_clone);
            self.map = new_map;
        }
        self.reset_cursor();
        Ok(())
    }
}

} // verus!
