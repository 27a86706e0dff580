//! The state of the editor: the grid with its selection, the cursor, the
//! brush and the pen, the pending argument, the history and the clipboard.

use crate::bar::{Input, InputView};
use crate::error::EditError;
use crate::map::{
    copy, create, differs, draw_all, filled, inside, lemma_painted_differs, lemma_row_view,
    MAX_CELLS, painted, same, sized,
};
use crate::palette::{TileData, TileView};
use crate::select::{
    copy_flags, lemma_flags_view, mark_all, marked, plain, same_flags, shaped, uniform,
};
use vstd::prelude::*;

verus! {

/// Whether moving the cursor leaves a trace.
#[derive(Clone, Copy, Debug, PartialEq, Eq, Structural)]
pub enum Pen {
    Up,
    Down,
}

/// What is done to the cells that the brush is applied to: they are added to
/// the selection, taken out of it, or painted with a tile.
#[derive(Clone, Copy, Debug, PartialEq, Eq, Structural)]
pub enum Brush {
    Add,
    Subtract,
    Tile(i32),
}

/// The grid together with its selection: what one entry of the history
/// holds.
#[derive(Debug)]
pub struct Snapshot {
    pub(crate) map: Vec<Vec<i32>>,
    pub(crate) select: Vec<Vec<bool>>,
}

/// A grid and its selection, as sequences.
pub struct SnapshotView {
    pub grid: Seq<Seq<i32>>,
    pub select: Seq<Seq<bool>>,
}

impl View for Snapshot {
    type V = SnapshotView;

    open(crate) spec fn view(&self) -> SnapshotView {
        SnapshotView { grid: self.map.deep_view(), select: self.select.deep_view() }
    }
}

/// The tiles copied, each with the position it was taken from, and where the
/// cursor stood when they were copied.
#[derive(Debug)]
pub struct Clipboard {
    pub(crate) content: Vec<(usize, usize, i32)>,
    pub(crate) offsetx: usize,
    pub(crate) offsety: usize,
}

/// A clipboard: rows of `(row, column, tile)`, and the column and the row of
/// the cursor at the time of the copy.
pub struct ClipboardView {
    pub content: Seq<(usize, usize, i32)>,
    pub offsetx: int,
    pub offsety: int,
}

impl View for Clipboard {
    type V = ClipboardView;

    open(crate) spec fn view(&self) -> ClipboardView {
        ClipboardView {
            content: self.content@,
            offsetx: self.offsetx as int,
            offsety: self.offsety as int,
        }
    }
}

/// The line below the grid: closed, taking a command, or showing why the
/// last command failed.
#[derive(Debug)]
pub enum Bar {
    Closed,
    Input(Input),
    Error(String),
}

/// The line below the grid, with a text in place of a string.
pub enum BarView {
    Closed,
    Input(InputView),
    Error(Seq<char>),
}

impl View for Bar {
    type V = BarView;

    open spec fn view(&self) -> BarView {
        match self {
            Bar::Closed => BarView::Closed,
            Bar::Input(line) => BarView::Input(line@),
            Bar::Error(why) => BarView::Error(why@),
        }
    }
}

/// The editor.
pub struct State {
    pub(crate) argument: usize,
    pub(crate) bar: Bar,
    pub(crate) brush: Brush,
    pub(crate) clipboard: Option<Clipboard>,
    pub(crate) cursorx: usize,
    pub(crate) cursory: usize,
    pub(crate) exit: bool,
    pub(crate) last_saved: Option<Vec<Vec<i32>>>,
    pub(crate) map: Snapshot,
    pub(crate) path: Option<String>,
    pub(crate) pen: Pen,
    pub(crate) redo_stack: Vec<Snapshot>,
    pub(crate) undo_stack: Vec<Snapshot>,
    pub(crate) tiles: TileData,
}

/// What the editor holds.
pub struct StateView {
    /// The number typed before a move.
    pub argument: nat,
    pub bar: BarView,
    pub brush: Brush,
    pub clipboard: Option<ClipboardView>,
    /// The column of the cursor.
    pub cursorx: int,
    /// The row of the cursor.
    pub cursory: int,
    pub exit: bool,
    /// The grid as it was last read from a file or written to one.
    pub last_saved: Option<Seq<Seq<i32>>>,
    pub map: SnapshotView,
    pub path: Option<Seq<char>>,
    pub pen: Pen,
    /// What can be done again, the next one last.
    pub redo: Seq<SnapshotView>,
    /// What can be undone, the latest last.
    pub undo: Seq<SnapshotView>,
    pub tiles: Seq<TileView>,
}

/// The views of a stack of snapshots.
pub open spec fn stack_view(stack: Seq<Snapshot>) -> Seq<SnapshotView> {
    Seq::new(stack.len(), |i: int| stack[i]@)
}

impl View for State {
    type V = StateView;

    open(crate) spec fn view(&self) -> StateView {
        StateView {
            argument: self.argument as nat,
            bar: self.bar@,
            brush: self.brush,
            clipboard: match self.clipboard {
                Some(clipboard) => Some(clipboard@),
                None => None,
            },
            cursorx: self.cursorx as int,
            cursory: self.cursory as int,
            exit: self.exit,
            last_saved: match self.last_saved {
                Some(saved) => Some(saved.deep_view()),
                None => None,
            },
            map: self.map@,
            path: match self.path {
                Some(path) => Some(path@),
                None => None,
            },
            pen: self.pen,
            redo: stack_view(self.redo_stack@),
            undo: stack_view(self.undo_stack@),
            tiles: self.tiles@,
        }
    }
}

/// The width of the grid of a snapshot.
pub open spec fn across(map: SnapshotView) -> nat {
    crate::map::width(map.grid)
}

/// The height of the grid of a snapshot.
pub open spec fn down(map: SnapshotView) -> nat {
    crate::map::height(map.grid)
}

/// A snapshot that the editor can hold: the grid has a cell, all its rows
/// have one length, it has no more cells than the editor can list, and the
/// selection has the shape of the grid.
pub open spec fn fit(map: SnapshotView) -> bool {
    &&& across(map) >= 1
    &&& down(map) >= 1
    &&& sized(map.grid, across(map), down(map))
    &&& shaped(map.select, across(map), down(map))
    &&& across(map) * down(map) <= MAX_CELLS
}

/// What always holds of the editor: the grid and every entry of the history
/// are fit, the cursor stands inside the grid, and the cursor of the command
/// line stands inside its text.
pub open spec fn well_formed(s: StateView) -> bool {
    &&& fit(s.map)
    &&& inside(across(s.map) as int, down(s.map) as int, s.cursorx, s.cursory)
    &&& forall|i: int| 0 <= i < s.undo.len() ==> fit(#[trigger] s.undo[i])
    &&& forall|i: int| 0 <= i < s.redo.len() ==> fit(#[trigger] s.redo[i])
    &&& s.bar matches BarView::Input(line) ==> 0 <= line.cursor <= line.text.len()
}

/// The state after an edit that left the grid and the selection as `map`:
/// where that differs from what was there, the old grid and selection go on
/// top of what can be undone and nothing can be done again; where it does
/// not, nothing changes.
pub open spec fn committed(s: StateView, map: SnapshotView) -> StateView {
    if map == s.map {
        s
    } else {
        StateView { map, undo: s.undo.push(s.map), redo: Seq::empty(), ..s }
    }
}

/// The grid and the selection after the brush was applied to the positions:
/// a tile is painted on the cells of the grid, the other two brushes add the
/// cells to the selection or take them out of it.
pub open spec fn brushed(map: SnapshotView, brush: Brush, positions: Seq<(usize, usize)>) -> SnapshotView {
    match brush {
        Brush::Tile(tile) => SnapshotView { grid: painted(map.grid, positions, tile), ..map },
        Brush::Add => SnapshotView { select: marked(map.select, positions, true), ..map },
        Brush::Subtract => SnapshotView { select: marked(map.select, positions, false), ..map },
    }
}

/// The state with the cursor back at the first cell where it stood outside
/// the grid.
pub open spec fn reclamped(s: StateView) -> StateView {
    if inside(across(s.map) as int, down(s.map) as int, s.cursorx, s.cursory) {
        s
    } else {
        StateView { cursorx: 0, cursory: 0, ..s }
    }
}

/// The state after the latest edit was undone: the grid and the selection
/// are the latest that can be undone, and what was there can be done again.
pub open spec fn undone(s: StateView) -> StateView {
    reclamped(
        StateView {
            map: s.undo.last(),
            undo: s.undo.drop_last(),
            redo: s.redo.push(s.map),
            ..s
        },
    )
}

/// The state after the edit undone last was done again.
pub open spec fn redone(s: StateView) -> StateView {
    reclamped(
        StateView {
            map: s.redo.last(),
            redo: s.redo.drop_last(),
            undo: s.undo.push(s.map),
            ..s
        },
    )
}

/// Painting cells that hold the tile of the brush already is no edit:
/// nothing is added to what can be undone, and nothing else changes.
pub proof fn lemma_repaint(s: StateView, tile: i32, positions: Seq<(usize, usize)>)
    requires
        s.brush == Brush::Tile(tile),
        !differs(s.map.grid, positions, tile),
    ensures
        committed(s, brushed(s.map, s.brush, positions)) == s,
{
    lemma_painted_differs(s.map.grid, positions, tile);
}

/// The state after a row of edits, each of which left the grid and the
/// selection as the next snapshot of the list.
pub open spec fn edited(s: StateView, maps: Seq<SnapshotView>) -> StateView
    decreases maps.len(),
{
    if maps.len() == 0 {
        s
    } else {
        committed(edited(s, maps.drop_last()), maps.last())
    }
}

/// The state after the latest `n` edits were undone.
pub open spec fn undone_times(s: StateView, n: nat) -> StateView
    decreases n,
{
    if n == 0 {
        s
    } else {
        undone(undone_times(s, (n - 1) as nat))
    }
}

/// The state after `n` edits were done again.
pub open spec fn redone_times(s: StateView, n: nat) -> StateView
    decreases n,
{
    if n == 0 {
        s
    } else {
        redone(redone_times(s, (n - 1) as nat))
    }
}

/// Whether each snapshot of the list holds another grid than the one before
/// it, the first another than `first`.
pub open spec fn changing(first: SnapshotView, maps: Seq<SnapshotView>) -> bool {
    forall|i: int|
        0 <= i < maps.len() ==> (#[trigger] maps[i]).grid != (if i == 0 {
            first
        } else {
            maps[i - 1]
        }).grid
}

/// After a row of edits that each changed the grid, what can be undone is
/// what it was, then what was there, then all the edits but the last; and
/// the last edit is what is there.
pub proof fn lemma_edited(s: StateView, maps: Seq<SnapshotView>)
    requires
        changing(s.map, maps),
        maps.len() > 0,
    ensures
        edited(s, maps).map == maps.last(),
        edited(s, maps).undo == s.undo.push(s.map) + maps.drop_last(),
        edited(s, maps).redo == Seq::<SnapshotView>::empty(),
    decreases maps.len(),
{
    let init = maps.drop_last();
    if init.len() == 0 {
        assert(edited(s, init) == s);
        assert(maps[0].grid != s.map.grid);
        assert(s.undo.push(s.map) + init =~= s.undo.push(s.map));
    } else {
        assert(changing(s.map, init)) by {
            assert forall|i: int| 0 <= i < init.len() implies (#[trigger] init[i]).grid != (if i
                == 0 {
                s.map
            } else {
                init[i - 1]
            }).grid by {
                assert(init[i] == maps[i]);
                if i > 0 {
                    assert(init[i - 1] == maps[i - 1]);
                }
            }
        }
        lemma_edited(s, init);
        let before = edited(s, init);
        let k = maps.len() - 1;
        assert(maps[k].grid != maps[k - 1].grid);
        assert(init.last() == maps[k - 1]);
        assert(before.undo.push(before.map) =~= s.undo.push(s.map) + init);
    }
}

/// Undoing `n` edits goes back `n` entries in what can be undone, and keeps
/// what was passed over to be done again.
pub proof fn lemma_undone_times(s: StateView, n: nat)
    requires
        n <= s.undo.len(),
    ensures
        ({
            let trail = s.undo.push(s.map);
            let at = s.undo.len() - n;
            let back = undone_times(s, n);
            &&& back.map == trail[at]
            &&& back.undo == trail.take(at)
            &&& back.redo.len() == s.redo.len() + n
            &&& forall|j: int|
                0 <= j < back.redo.len() ==> #[trigger] back.redo[j] == if j < s.redo.len() {
                    s.redo[j]
                } else {
                    trail[trail.len() - 1 - (j - s.redo.len())]
                }
        }),
        forall|k: nat| k < n ==> (#[trigger] undone_times(s, k)).undo.len() > 0,
    decreases n,
{
    let trail = s.undo.push(s.map);
    if n == 0 {
        assert(trail.take(s.undo.len() as int) =~= s.undo);
    } else {
        lemma_undone_times(s, (n - 1) as nat);
        let before = undone_times(s, (n - 1) as nat);
        let at = s.undo.len() - n;
        assert(before.undo == trail.take(at + 1));
        assert(before.undo.last() == trail[at]);
        assert(before.undo.drop_last() =~= trail.take(at));
        assert forall|k: nat| k < n implies (#[trigger] undone_times(s, k)).undo.len() > 0 by {
            if k == n - 1 {
                assert(before.undo.len() == at + 1);
            }
        }
    }
}

/// Doing again `n` edits that were undone takes them back from what can be
/// done again, the one undone last first.
pub proof fn lemma_redone_times(s: StateView, n: nat)
    requires
        n <= s.redo.len(),
    ensures
        ({
            let trail = s.redo.push(s.map);
            let at = s.redo.len() - n;
            let forth = redone_times(s, n);
            &&& forth.map == trail[at]
            &&& forth.redo == trail.take(at)
            &&& forth.undo.len() == s.undo.len() + n
            &&& forall|j: int|
                0 <= j < forth.undo.len() ==> #[trigger] forth.undo[j] == if j < s.undo.len() {
                    s.undo[j]
                } else {
                    trail[trail.len() - 1 - (j - s.undo.len())]
                }
        }),
        forall|k: nat| k < n ==> (#[trigger] redone_times(s, k)).redo.len() > 0,
    decreases n,
{
    let trail = s.redo.push(s.map);
    if n == 0 {
        assert(trail.take(s.redo.len() as int) =~= s.redo);
    } else {
        lemma_redone_times(s, (n - 1) as nat);
        let before = redone_times(s, (n - 1) as nat);
        let at = s.redo.len() - n;
        assert(before.redo == trail.take(at + 1));
        assert(before.redo.last() == trail[at]);
        assert(before.redo.drop_last() =~= trail.take(at));
        assert forall|k: nat| k < n implies (#[trigger] redone_times(s, k)).redo.len() > 0 by {
            if k == n - 1 {
                assert(before.redo.len() == at + 1);
            }
        }
    }
}

/// Edits that each change the grid, then as many undos, bring back the grid
/// and the selection that were there before the edits, and what could be
/// undone then; each of the undos finds something to undo. As many redos
/// after that bring back the grid and the selection that the last edit
/// left, and what could be undone after it; each of them finds something to
/// do again.
pub proof fn lemma_undo_redo(s: StateView, maps: Seq<SnapshotView>)
    requires
        changing(s.map, maps),
    ensures
        ({
            let n = maps.len();
            let after = edited(s, maps);
            let back = undone_times(after, n);
            let forth = redone_times(back, n);
            &&& back.map == s.map
            &&& back.undo == s.undo
            &&& forth.map == after.map
            &&& forth.undo == after.undo
            &&& forall|k: nat| k < n ==> (#[trigger] undone_times(after, k)).undo.len() > 0
            &&& forall|k: nat| k < n ==> (#[trigger] redone_times(back, k)).redo.len() > 0
        }),
{
    let n = maps.len();
    if n > 0 {
        lemma_edited(s, maps);
        let after = edited(s, maps);
        lemma_undone_times(after, n);
        let back = undone_times(after, n);
        lemma_redone_times(back, n);
        let forth = redone_times(back, n);
    }
}

impl Snapshot {
    /// Whether the editor can hold the snapshot.
    pub fn check(&self) -> (r: bool)
        ensures
            r == fit(self@),
    {
        broadcast use lemma_row_view, lemma_flags_view;

        let height = self.map.len();
        if height == 0 || self.select.len() != height {
            return false;
        }
        let width = self.map[0].len();
        if width == 0 {
            return false;
        }
        let mut r: usize = 0;
        while r < height
            invariant
                r <= height,
                height == self.map.len(),
                height == self.select.len(),
                height == down(self@),
                width == across(self@),
                forall|i: int| 0 <= i < r ==> (#[trigger] self@.grid[i]).len() == width,
                forall|i: int| 0 <= i < r ==> (#[trigger] self@.select[i]).len() == width,
            decreases height - r,
        {
            if self.map[r].len() != width || self.select[r].len() != width {
                assert(self@.grid[r as int].len() != width || self@.select[r as int].len() != width);
                return false;
            }
            r += 1;
        }
        match width.checked_mul(height) {
            Some(cells) => cells <= MAX_CELLS,
            None => false,
        }
    }

    /// A copy of the grid and of the selection.
    pub fn copy(&self) -> (out: Snapshot)
        ensures
            out@ == self@,
    {
        Snapshot { map: copy(&self.map), select: copy_flags(&self.select) }
    }

    /// Whether two snapshots hold the same grid and the same selection, cell
    /// for cell.
    pub fn same(&self, other: &Snapshot) -> (r: bool)
        ensures
            r == (self@ == other@),
    {
        same(&self.map, &other.map) && same_flags(&self.select, &other.select)
    }
}

impl State {
    /// What always holds of the editor.
    pub open spec fn wf(&self) -> bool {
        well_formed(self@)
    }

    /// An editor with a grid of eleven rows of eleven tiles, all zero,
    /// nothing selected, the cursor on the first cell, the pen up and the
    /// brush set to tile zero.
    pub fn new(tiles: TileData) -> (state: State)
        ensures
            state.wf(),
            state@ == (StateView {
                argument: 0,
                bar: BarView::Closed,
                brush: Brush::Tile(0),
                clipboard: None,
                cursorx: 0,
                cursory: 0,
                exit: false,
                last_saved: None,
                map: SnapshotView { grid: filled(11, 11, 0), select: plain(11, 11, false) },
                path: None,
                pen: Pen::Up,
                redo: Seq::empty(),
                undo: Seq::empty(),
                tiles: tiles@,
            }),
    {
        let state = State {
            map: Snapshot { map: create(11, 11, 0), select: uniform(11, 11, false) },
            clipboard: None,
            last_saved: None,
            exit: false,
            path: None,
            pen: Pen::Up,
            cursorx: 0,
            cursory: 0,
            argument: 0,
            brush: Brush::Tile(0),
            bar: Bar::Closed,
            undo_stack: Vec::new(),
            redo_stack: Vec::new(),
            tiles,
        };
        assert(state@.undo =~= Seq::empty());
        state
    }

    /// Whether what always holds of the editor holds.
    pub fn check(&self) -> (r: bool)
        ensures
            r == self.wf(),
    {
        broadcast use lemma_row_view;

        if !self.map.check() {
            return false;
        }
        if !crate::map::in_bounds(
            self.map.map[0].len(),
            self.map.map.len(),
            self.cursorx,
            self.cursory,
        ) {
            return false;
        }
        let mut i: usize = 0;
        while i < self.undo_stack.len()
            invariant
                i <= self.undo_stack.len(),
                forall|k: int| 0 <= k < i ==> fit(#[trigger] self@.undo[k]),
            decreases self.undo_stack.len() - i,
        {
            if !self.undo_stack[i].check() {
                assert(!fit(self@.undo[i as int]));
                return false;
            }
            i += 1;
        }
        let mut i: usize = 0;
        while i < self.redo_stack.len()
            invariant
                i <= self.redo_stack.len(),
                forall|k: int| 0 <= k < self@.undo.len() ==> fit(#[trigger] self@.undo[k]),
                forall|k: int| 0 <= k < i ==> fit(#[trigger] self@.redo[k]),
            decreases self.redo_stack.len() - i,
        {
            if !self.redo_stack[i].check() {
                assert(!fit(self@.redo[i as int]));
                return false;
            }
            i += 1;
        }
        match &self.bar {
            Bar::Input(line) => line.check(),
            _ => true,
        }
    }

    /// Whether the editor is to end.
    pub fn exit(&self) -> (r: bool)
        ensures
            r == self@.exit,
    {
        self.exit
    }

    /// The column and the row of the cursor.
    pub fn cursor(&self) -> (at: (usize, usize))
        ensures
            at.0 == self@.cursorx,
            at.1 == self@.cursory,
    {
        (self.cursorx, self.cursory)
    }

    /// The brush.
    pub fn current_brush(&self) -> (r: Brush)
        ensures
            r == self@.brush,
    {
        self.brush
    }

    /// The pen.
    pub fn current_pen(&self) -> (r: Pen)
        ensures
            r == self@.pen,
    {
        self.pen
    }

    /// The number typed before a move.
    pub fn argument(&self) -> (r: usize)
        ensures
            r == self@.argument,
    {
        self.argument
    }

    /// The grid.
    pub fn map(&self) -> (r: &Vec<Vec<i32>>)
        ensures
            r.deep_view() == self@.map.grid,
    {
        &self.map.map
    }

    /// The selection: one row of flags for each row of the grid.
    pub fn selection(&self) -> (r: &Vec<Vec<bool>>)
        ensures
            r.deep_view() == self@.map.select,
    {
        &self.map.select
    }

    /// The line below the grid.
    pub fn bar(&self) -> (r: &Bar)
        ensures
            r@ == self@.bar,
    {
        &self.bar
    }

    /// The palette.
    pub fn tiles(&self) -> (r: &TileData)
        ensures
            r@ == self@.tiles,
    {
        &self.tiles
    }

    /// The path of the file that the grid was last read from or written to.
    pub fn path(&self) -> (r: Option<String>)
        ensures
            match self@.path {
                Some(path) => r is Some && r->0@ == path,
                None => r is None,
            },
    {
        match &self.path {
            Some(path) => Some(path.clone()),
            None => None,
        }
    }

    /// How many edits can be undone.
    pub fn undo_len(&self) -> (r: usize)
        ensures
            r == self@.undo.len(),
    {
        self.undo_stack.len()
    }

    /// How many edits can be done again.
    pub fn redo_len(&self) -> (r: usize)
        ensures
            r == self@.redo.len(),
    {
        self.redo_stack.len()
    }

    /// The tiles copied, each with the row and the column it was taken from,
    /// and the column and the row of the cursor at the time.
    pub fn clipboard(&self) -> (r: Option<(&Vec<(usize, usize, i32)>, usize, usize)>)
        ensures
            match self@.clipboard {
                Some(clipboard) => r matches Some(held) && held.0@ == clipboard.content && held.1
                    == clipboard.offsetx && held.2 == clipboard.offsety,
                None => r is None,
            },
    {
        match &self.clipboard {
            Some(clipboard) => Some((&clipboard.content, clipboard.offsetx, clipboard.offsety)),
            None => None,
        }
    }

    /// Whether the grid differs from what was last read from a file or
    /// written to one. Before either it counts as unchanged.
    pub fn modified(&self) -> (r: bool)
        ensures
            r == (self@.last_saved matches Some(saved) && saved != self@.map.grid),
    {
        match &self.last_saved {
            None => false,
            Some(saved) => !same(&self.map.map, saved),
        }
    }

    /// Puts a snapshot on top of what can be undone. Nothing can be done
    /// again after that.
    pub fn push_undo(&mut self, map_clone: Snapshot)
        requires
            old(self).wf(),
            fit(map_clone@),
        ensures
            final(self).wf(),
            final(self)@ == (StateView {
                undo: old(self)@.undo.push(map_clone@),
                redo: Seq::empty(),
                ..old(self)@
            }),
    {
        self.undo_stack.push(map_clone);
        self.redo_stack.clear();
        assert(self@.undo =~= old(self)@.undo.push(map_clone@));
        assert(self@.redo =~= Seq::empty());
    }

    /// Takes one more digit into the number typed before a move. A number
    /// too great to hold stays at the greatest that can be held.
    pub fn append_argument(&mut self, digit: u8)
        ensures
            final(self)@ == (StateView {
                argument: if old(self)@.argument * 10 + digit <= usize::MAX {
                    old(self)@.argument * 10 + digit as nat
                } else {
                    usize::MAX as nat
                },
                ..old(self)@
            }),
    {
        self.argument = match self.argument.checked_mul(10) {
            Some(tenfold) => match tenfold.checked_add(digit as usize) {
                Some(sum) => sum,
                None => usize::MAX,
            },
            None => usize::MAX,
        };
    }

    /// Puts the cursor back on the first cell where it stands outside the
    /// grid.
    pub fn reset_cursor(&mut self)
        requires
            fit(old(self)@.map),
        ensures
            final(self)@ == reclamped(old(self)@),
            inside(
                across(final(self)@.map) as int,
                down(final(self)@.map) as int,
                final(self)@.cursorx,
                final(self)@.cursory,
            ),
    {
        broadcast use lemma_row_view;

        if !crate::map::in_bounds(
            self.map.map[0].len(),
            self.map.map.len(),
            self.cursorx,
            self.cursory,
        ) {
            self.cursorx = 0;
            self.cursory = 0;
        }
    }

    /// Undoes the latest edit.
    pub fn undo(&mut self, _args: &[&str]) -> (r: Result<(), EditError>)
        requires
            old(self).wf(),
        ensures
            final(self).wf(),
            old(self)@.undo.len() == 0 ==> r == Err::<(), EditError>(EditError::UndoEmpty)
                && final(self)@ == old(self)@,
            old(self)@.undo.len() > 0 ==> r is Ok && final(self)@ == undone(old(self)@),
    {
        match self.undo_stack.pop() {
            None => {
                Err(EditError::UndoEmpty)
            },
            Some(map) => {
                let ghost before = old(self)@;
                let current = self.map.copy();
                self.redo_stack.push(current);
                self.map = map;
                assert(self@.undo =~= before.undo.drop_last());
                assert(self@.redo =~= before.redo.push(before.map));
                self.reset_cursor();
                Ok(())
            },
        }
    }

    /// Does again the edit that was undone last.
    pub fn redo(&mut self, _args: &[&str]) -> (r: Result<(), EditError>)
        requires
            old(self).wf(),
        ensures
            final(self).wf(),
            old(self)@.redo.len() == 0 ==> r == Err::<(), EditError>(EditError::RedoEmpty)
                && final(self)@ == old(self)@,
            old(self)@.redo.len() > 0 ==> r is Ok && final(self)@ == redone(old(self)@),
    {
        match self.redo_stack.pop() {
            None => {
                Err(EditError::RedoEmpty)
            },
            Some(map) => {
                let ghost before = old(self)@;
                let current = self.map.copy();
                self.undo_stack.push(current);
                self.map = map;
                assert(self@.redo =~= before.redo.drop_last());
                assert(self@.undo =~= before.undo.push(before.map));
                self.reset_cursor();
                Ok(())
            },
        }
    }

    /// Applies the brush to the positions, as far as they lie inside the
    /// grid. The edit can be undone as one, and counts as none where it
    /// changed nothing.
    pub fn draw_shape(&mut self, positions: &Vec<(usize, usize)>)
        requires
            old(self).wf(),
        ensures
            final(self).wf(),
            final(self)@ == committed(
                old(self)@,
                brushed(old(self)@.map, old(self)@.brush, positions@),
            ),
    {
        let ghost before = old(self)@;
        let map_clone = self.map.copy();
        match self.brush {
            Brush::Add => {
                mark_all(&mut self.map.select, positions, true);
            },
            Brush::Subtract => {
                mark_all(&mut self.map.select, positions, false);
            },
            Brush::Tile(tile) => {
                draw_all(&mut self.map.map, positions, tile);
            },
        }
        assert(self@ == (StateView {
            map: brushed(before.map, before.brush, positions@),
            ..before
        }));
        if !self.map.same(&map_clone) {
            self.push_undo(map_clone);
        }
    }
}

} // verus!
