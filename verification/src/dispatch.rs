//! The commands by name: what each is called, how many words it takes, and
//! what it does.

use crate::clipboard::{copied, pasting};
use crate::edit::{brush_named, chosen, corners_read, limit_read, pen_named};
use crate::error::{EditError, ErrorView};
use crate::files::{changed, created, reply, size_read, writing, Action, ActionView};
use crate::map::inside;
use crate::movement::{direction_read, moved, offset, words};
use crate::palette::answer;
use crate::select::listing;
use crate::shapes::{box_cells, ellipse_cells, flood_cells, span, MAX_EXTENT};
use crate::state::{
    across, brushed, committed, down, redone, SnapshotView, State, StateView, undone,
};
use crate::text::{chars_of, is_space, lowercase, same_text, space, string_of};
use vstd::prelude::*;

verus! {

/// What a command does.
#[derive(Clone, Copy, Debug, PartialEq, Eq, Structural)]
pub enum Operation {
    Open,
    OpenForce,
    Write,
    Quit,
    QuitForce,
    WriteQuit,
    Brush,
    Dot,
    Bucket,
    Move,
    Pick,
    Pen,
    Edge,
    Goto,
    Select,
    Undo,
    Redo,
    Create,
    CreateForce,
    Rectangle,
    Ellipse,
    Fuzzy,
    Copy,
    Paste,
}

/// A command: its name, its other names, the least and the greatest number
/// of words that may follow it, and what it does.
#[derive(Clone, Copy, Debug)]
pub struct Command {
    pub name: &'static str,
    pub aliases: &'static [&'static str],
    pub argsmin: usize,
    pub argsmax: usize,
    pub function: Operation,
}

/// A command, with texts in place of strings.
pub struct CommandView {
    pub name: Seq<char>,
    pub aliases: Seq<Seq<char>>,
    pub argsmin: usize,
    pub argsmax: usize,
    pub function: Operation,
}

impl View for Command {
    type V = CommandView;

    open spec fn view(&self) -> CommandView {
        CommandView {
            name: self.name@,
            aliases: words(self.aliases@),
            argsmin: self.argsmin,
            argsmax: self.argsmax,
            function: self.function,
        }
    }
}

impl Command {
    /// A command made of its parts.
    pub fn new(
        name: &'static str,
        aliases: &'static [&'static str],
        argsmin: usize,
        argsmax: usize,
        function: Operation,
    ) -> (command: Self)
        ensures
            command.name == name,
            command.aliases == aliases,
            command.argsmin == argsmin,
            command.argsmax == argsmax,
            command.function == function,
    {
        Command { name, aliases, argsmin, argsmax, function }
    }

    /// Whether the command goes by this name.
    pub fn answers_to(&self, name: &str) -> (r: bool)
        ensures
            r == goes_by(self@, name@),
    {
        if same_text(self.name, name) {
            return true;
        }
        let mut i: usize = 0;
        while i < self.aliases.len()
            invariant
                i <= self.aliases.len(),
                forall|k: int| 0 <= k < i ==> #[trigger] self@.aliases[k] != name@,
            decreases self.aliases.len() - i,
        {
            if same_text(self.aliases[i], name) {
                assert(self@.aliases[i as int] == name@);
                return true;
            }
            i += 1;
        }
        false
    }
}

/// One line of the table of commands.
pub open spec fn entry(
    name: Seq<char>,
    aliases: Seq<Seq<char>>,
    argsmin: usize,
    argsmax: usize,
    function: Operation,
) -> CommandView {
    CommandView { name, aliases, argsmin, argsmax, function }
}

/// The table of commands: each with its name, its other names, the least
/// and the greatest number of words after it, and what it does.
pub open spec fn registry() -> Seq<CommandView> {
    seq![
        entry("open"@, seq!["o"@], 1, 1, Operation::Open),
        entry("open!"@, seq!["o!"@], 1, 1, Operation::OpenForce),
        entry("write"@, seq!["w"@], 0, 1, Operation::Write),
        entry("quit"@, seq!["q"@], 0, 0, Operation::Quit),
        entry("quit!"@, seq!["q!"@], 0, 0, Operation::QuitForce),
        entry("write-quit"@, seq!["wq"@], 0, 1, Operation::WriteQuit),
        entry("brush"@, seq!["tile"@, "t"@], 1, 1, Operation::Brush),
        entry("dot"@, seq![], 0, 0, Operation::Dot),
        entry("bucket"@, seq![], 0, 0, Operation::Bucket),
        entry("move"@, seq![], 1, 2, Operation::Move),
        entry("pick"@, seq![], 0, 0, Operation::Pick),
        entry("pen"@, seq![], 1, 1, Operation::Pen),
        entry("edge"@, seq![], 1, 1, Operation::Edge),
        entry("goto"@, seq!["g"@], 2, 2, Operation::Goto),
        entry("select"@, seq!["s"@], 1, 1, Operation::Select),
        entry("undo"@, seq![], 0, 0, Operation::Undo),
        entry("redo"@, seq![], 0, 0, Operation::Redo),
        entry("create"@, seq!["n"@], 2, 2, Operation::Create),
        entry("create!"@, seq!["n!"@], 2, 2, Operation::CreateForce),
        entry("box"@, seq!["b"@], 4, 5, Operation::Rectangle),
        entry("ellipse"@, seq!["e"@], 4, 5, Operation::Ellipse),
        entry("fuzzy"@, seq!["f"@], 0, 1, Operation::Fuzzy),
        entry("copy"@, seq![], 0, 0, Operation::Copy),
        entry("paste"@, seq![], 0, 0, Operation::Paste),
    ]
}

/// The views of a table of commands.
pub open spec fn table_view(table: Seq<Command>) -> Seq<CommandView> {
    Seq::new(table.len(), |i: int| table[i]@)
}

/// The commands of the editor, in the order in which a name is looked up.
pub fn commands() -> (table: Vec<Command>)
    ensures
        table_view(table@) == registry(),
{
    let none: &'static [&'static str] = &[];
    let mut table: Vec<Command> = Vec::new();
    table.push(Command::new("open", &["o"], 1, 1, Operation::Open));
    table.push(Command::new("open!", &["o!"], 1, 1, Operation::OpenForce));
    table.push(Command::new("write", &["w"], 0, 1, Operation::Write));
    table.push(Command::new("quit", &["q"], 0, 0, Operation::Quit));
    table.push(Command::new("quit!", &["q!"], 0, 0, Operation::QuitForce));
    table.push(Command::new("write-quit", &["wq"], 0, 1, Operation::WriteQuit));
    table.push(Command::new("brush", &["tile", "t"], 1, 1, Operation::Brush));
    table.push(Command::new("dot", none, 0, 0, Operation::Dot));
    table.push(Command::new("bucket", none, 0, 0, Operation::Bucket));
    table.push(Command::new("move", none, 1, 2, Operation::Move));
    table.push(Command::new("pick", none, 0, 0, Operation::Pick));
    table.push(Command::new("pen", none, 1, 1, Operation::Pen));
    table.push(Command::new("edge", none, 1, 1, Operation::Edge));
    table.push(Command::new("goto", &["g"], 2, 2, Operation::Goto));
    table.push(Command::new("select", &["s"], 1, 1, Operation::Select));
    table.push(Command::new("undo", none, 0, 0, Operation::Undo));
    table.push(Command::new("redo", none, 0, 0, Operation::Redo));
    table.push(Command::new("create", &["n"], 2, 2, Operation::Create));
    table.push(Command::new("create!", &["n!"], 2, 2, Operation::CreateForce));
    table.push(Command::new("box", &["b"], 4, 5, Operation::Rectangle));
    table.push(Command::new("ellipse", &["e"], 4, 5, Operation::Ellipse));
    table.push(Command::new("fuzzy", &["f"], 0, 1, Operation::Fuzzy));
    table.push(Command::new("copy", none, 0, 0, Operation::Copy));
    table.push(Command::new("paste", none, 0, 0, Operation::Paste));
    proof {
        let views = table_view(table@);
        let wanted = registry();
        assert(views.len() == wanted.len());
        assert forall|i: int| 0 <= i < views.len() implies views[i] == wanted[i] by {
            assert(views[i].aliases =~= wanted[i].aliases);
        }
        assert(views =~= wanted);
    }
    table
}

/// The least number of words that must follow the command for an
/// operation.
pub open spec fn least_words(function: Operation) -> usize {
    match function {
        Operation::Open | Operation::OpenForce | Operation::Brush | Operation::Move
        | Operation::Pen | Operation::Edge | Operation::Select => 1,
        Operation::Goto | Operation::Create | Operation::CreateForce => 2,
        Operation::Rectangle | Operation::Ellipse => 4,
        _ => 0,
    }
}

/// Every line of the table asks for at least as many words as its operation
/// needs.
pub proof fn lemma_registry(i: int)
    requires
        0 <= i < registry().len(),
    ensures
        registry()[i].argsmin == least_words(registry()[i].function),
        registry()[i].argsmin <= registry()[i].argsmax,
{
    let table = registry();
    assert(table[0].argsmin == 1);
    assert(table[1].argsmin == 1);
    assert(table[2].argsmin == 0);
    assert(table[3].argsmin == 0);
    assert(table[4].argsmin == 0);
    assert(table[5].argsmin == 0);
    assert(table[6].argsmin == 1);
    assert(table[7].argsmin == 0);
    assert(table[8].argsmin == 0);
    assert(table[9].argsmin == 1);
    assert(table[10].argsmin == 0);
    assert(table[11].argsmin == 1);
    assert(table[12].argsmin == 1);
    assert(table[13].argsmin == 2);
    assert(table[14].argsmin == 1);
    assert(table[15].argsmin == 0);
    assert(table[16].argsmin == 0);
    assert(table[17].argsmin == 2);
    assert(table[18].argsmin == 2);
    assert(table[19].argsmin == 4);
    assert(table[20].argsmin == 4);
    assert(table[21].argsmin == 0);
    assert(table[22].argsmin == 0);
    assert(table[23].argsmin == 0);
}

/// Whether a command goes by this name: it is its name or one of its other
/// names.
pub open spec fn goes_by(command: CommandView, name: Seq<char>) -> bool {
    command.name == name || exists|i: int|
        0 <= i < command.aliases.len() && #[trigger] command.aliases[i] == name
}

/// The index of the first command of the table that goes by this name.
pub open spec fn lookup(table: Seq<CommandView>, name: Seq<char>) -> Option<int>
    decreases table.len(),
{
    if table.len() == 0 {
        None
    } else {
        match lookup(table.drop_last(), name) {
            Some(k) => Some(k),
            None => if goes_by(table.last(), name) {
                Some(table.len() - 1)
            } else {
                None
            },
        }
    }
}

/// The first command that goes by the name stands at the index given, and
/// none before it.
pub proof fn lemma_lookup(table: Seq<CommandView>, name: Seq<char>)
    ensures
        match lookup(table, name) {
            Some(k) => 0 <= k < table.len() && goes_by(table[k], name) && forall|j: int|
                0 <= j < k ==> !goes_by(#[trigger] table[j], name),
            None => forall|j: int| 0 <= j < table.len() ==> !goes_by(#[trigger] table[j], name),
        },
    decreases table.len(),
{
    if table.len() > 0 {
        lemma_lookup(table.drop_last(), name);
        assert forall|j: int| 0 <= j < table.len() - 1 implies table[j] == table.drop_last()[j] by {}
    }
}

/// The index of the first command of the table that goes by this name.
pub fn find_command(table: &Vec<Command>, name: &str) -> (r: Option<usize>)
    ensures
        match r {
            Some(k) => lookup(table_view(table@), name@) == Some(k as int) && k < table.len(),
            None => lookup(table_view(table@), name@) is None,
        },
{
    let mut i: usize = 0;
    while i < table.len()
        invariant
            i <= table.len(),
            forall|j: int| 0 <= j < i ==> !goes_by(#[trigger] table_view(table@)[j], name@),
        decreases table.len() - i,
    {
        if table[i].answers_to(name) {
            proof {
                lemma_lookup(table_view(table@), name@);
                assert(goes_by(table_view(table@)[i as int], name@));
            }
            return Some(i);
        }
        assert(!goes_by(table_view(table@)[i as int], name@));
        i += 1;
    }
    proof {
        lemma_lookup(table_view(table@), name@);
    }
    None
}

/// The words of a line: the longest runs of characters that are not white
/// space, in order.
pub open spec fn tokens(s: Seq<char>) -> Seq<Seq<char>>
    decreases s.len(),
{
    if s.len() == 0 {
        Seq::empty()
    } else {
        let before = tokens(s.drop_last());
        if is_space(s.last()) {
            before
        } else if s.len() >= 2 && !is_space(s[s.len() - 2]) {
            before.drop_last().push(before.last().push(s.last()))
        } else {
            before.push(seq![s.last()])
        }
    }
}

/// No word of a line is empty or holds white space; and a line that does
/// not end in white space has a last word.
pub proof fn lemma_tokens(s: Seq<char>)
    ensures
        forall|i: int|
            0 <= i < tokens(s).len() ==> (#[trigger] tokens(s)[i]).len() > 0 && forall|k: int|
                0 <= k < tokens(s)[i].len() ==> !is_space(#[trigger] tokens(s)[i][k]),
        s.len() > 0 && !is_space(s.last()) ==> tokens(s).len() > 0,
    decreases s.len(),
{
    if s.len() > 0 {
        let init = s.drop_last();
        lemma_tokens(init);
        let before = tokens(init);
        let after = tokens(s);
        if !is_space(s.last()) {
            if s.len() >= 2 && !is_space(s[s.len() - 2]) {
                assert(init.last() == s[s.len() - 2]);
                assert forall|i: int| 0 <= i < after.len() implies (#[trigger] after[i]).len() > 0
                    && forall|k: int| 0 <= k < after[i].len() ==> !is_space(#[trigger] after[i][k]) by {
                    if i < after.len() - 1 {
                        assert(after[i] == before[i]);
                    } else {
                        assert(after[i] == before.last().push(s.last()));
                        assert forall|k: int| 0 <= k < after[i].len() implies !is_space(
                            #[trigger] after[i][k],
                        ) by {
                            if k < before.last().len() {
                                assert(after[i][k] == before.last()[k]);
                            }
                        }
                    }
                }
            } else {
                assert forall|i: int| 0 <= i < after.len() implies (#[trigger] after[i]).len() > 0
                    && forall|k: int| 0 <= k < after[i].len() ==> !is_space(#[trigger] after[i][k]) by {
                    if i < after.len() - 1 {
                        assert(after[i] == before[i]);
                    }
                }
            }
        }
    }
}

/// The words of a line.
pub fn tokenize(text: &str) -> (out: Vec<String>)
    ensures
        out.deep_view() == tokens(text@),
{
    let chars = chars_of(text);
    let mut out: Vec<String> = Vec::new();
    let mut word: Vec<char> = Vec::new();
    let mut i: usize = 0;
    while i < chars.len()
        invariant
            i <= chars.len(),
            chars@ == text@,
            word.len() > 0 <==> i > 0 && !is_space(chars@[i - 1]),
            tokens(chars@.take(i as int)) == if word.len() > 0 {
                out.deep_view().push(word@)
            } else {
                out.deep_view()
            },
        decreases chars.len() - i,
    {
        let c = chars[i];
        proof {
            assert(chars@.take(i + 1).drop_last() =~= chars@.take(i as int));
            assert(chars@.take(i + 1).last() == c);
            if i > 0 {
                assert(chars@.take(i + 1)[i - 1] == chars@[i - 1]);
            }
        }
        let ghost done = out.deep_view();
        if space(c) {
            if word.len() > 0 {
                out.push(string_of(&word));
                word = Vec::new();
                assert(out.deep_view() =~= done.push(out@[out.len() - 1]@));
            }
        } else {
            let ghost before = word@;
            word.push(c);
            proof {
                let longer = chars@.take(i + 1);
                if before.len() > 0 {
                    assert(done.push(before).drop_last() =~= done);
                    assert(longer.len() >= 2 && !is_space(longer[longer.len() - 2]));
                    assert(tokens(longer) == done.push(before.push(c)));
                } else {
                    assert(word@ =~= seq![c]);
                    assert(!(longer.len() >= 2 && !is_space(longer[longer.len() - 2])));
                    assert(tokens(longer) == done.push(seq![c]));
                }
            }
        }
        i += 1;
    }
    assert(chars@.take(i as int) =~= chars@);
    if word.len() > 0 {
        let ghost done = out.deep_view();
        out.push(string_of(&word));
        assert(out.deep_view() =~= done.push(word@));
    }
    out
}

/// The state after a command, and what the command answers.
pub struct Outcome {
    pub state: StateView,
    pub result: Result<ActionView, ErrorView>,
}

/// A command that was carried out and asks for nothing more.
pub open spec fn carried(state: StateView) -> Outcome {
    Outcome { state, result: Ok(ActionView::Done) }
}

/// A command that failed: the state is what it was.
pub open spec fn refused(state: StateView, e: ErrorView) -> Outcome {
    Outcome { state, result: Err(e) }
}

/// A command that changes the state where its words can be read.
pub open spec fn settled<T>(s: StateView, read: Result<T, ErrorView>, then: spec_fn(T) -> StateView) -> Outcome {
    match read {
        Ok(value) => carried(then(value)),
        Err(e) => refused(s, e),
    }
}

/// What an operation makes of a state and the words that follow the name of
/// its command.
pub open spec fn effect(function: Operation, s: StateView, args: Seq<Seq<char>>) -> Outcome {
    let width = across(s.map);
    let height = down(s.map);
    match function {
        Operation::Open => Outcome {
            state: s,
            result: if changed(s) {
                Err(ErrorView::UnsavedOpen)
            } else {
                Ok(ActionView::Read { path: args[0] })
            },
        },
        Operation::OpenForce => Outcome { state: s, result: Ok(ActionView::Read { path: args[0] }) },
        Operation::Write => Outcome { state: s, result: writing(s, args, false) },
        Operation::WriteQuit => Outcome { state: s, result: writing(s, args, true) },
        Operation::Quit => if changed(s) {
            refused(s, ErrorView::UnsavedQuit)
        } else {
            carried(StateView { exit: true, ..s })
        },
        Operation::QuitForce => carried(StateView { exit: true, ..s }),
        Operation::Brush => settled(
            s,
            brush_named(s.tiles, lowercase(args[0]), args[0]),
            |brush| StateView { brush, ..s },
        ),
        Operation::Dot => carried(
            committed(s, brushed(s.map, s.brush, seq![(s.cursory as usize, s.cursorx as usize)])),
        ),
        Operation::Bucket => carried(
            if s.brush is Tile {
                committed(s, brushed(s.map, s.brush, listing(s.map.select, width, height)))
            } else {
                s
            },
        ),
        Operation::Move => settled(
            s,
            State::move_read(args),
            |how: (crate::movement::Direction, usize)| moved(s, how.0, how.1 as nat),
        ),
        Operation::Pick => carried(
            StateView { brush: crate::state::Brush::Tile(s.map.grid[s.cursory][s.cursorx]), ..s },
        ),
        Operation::Pen => match pen_named(lowercase(args[0])) {
            Some(pen) => carried(StateView { pen, ..s }),
            None => refused(s, ErrorView::PenMode(args[0])),
        },
        Operation::Edge => settled(
            s,
            direction_read(args[0]),
            |direction| moved(s, direction, offset(s, direction)),
        ),
        Operation::Goto => match State::goto_read(args) {
            Ok(at) => if inside(width as int, height as int, at.0 as int, at.1 as int) {
                carried(StateView { cursorx: at.0 as int, cursory: at.1 as int, ..s })
            } else {
                refused(s, ErrorView::OutOfBounds)
            },
            Err(e) => refused(s, e),
        },
        Operation::Select => settled(
            s,
            chosen(s, lowercase(args[0]), args[0]),
            |select| committed(s, SnapshotView { select, ..s.map }),
        ),
        Operation::Undo => if s.undo.len() > 0 {
            carried(undone(s))
        } else {
            refused(s, ErrorView::UndoEmpty)
        },
        Operation::Redo => if s.redo.len() > 0 {
            carried(redone(s))
        } else {
            refused(s, ErrorView::RedoEmpty)
        },
        Operation::Create => if changed(s) {
            refused(s, ErrorView::UnsavedCreate)
        } else {
            settled(s, size_read(args), |size: (usize, usize)| created(s, size.0 as nat, size.1 as nat))
        },
        Operation::CreateForce => settled(
            s,
            size_read(args),
            |size: (usize, usize)| created(s, size.0 as nat, size.1 as nat),
        ),
        Operation::Rectangle => settled(
            s,
            corners_read(args),
            |c: (usize, usize, usize, usize, bool)|
                committed(
                    s,
                    brushed(
                        s.map,
                        s.brush,
                        listing(
                            box_cells(width, height, c.0 as int, c.1 as int, c.2 as int, c.3 as int, c.4),
                            width,
                            height,
                        ),
                    ),
                ),
        ),
        Operation::Ellipse => match corners_read(args) {
            Ok(c) => if span(c.0 as int, c.2 as int) <= MAX_EXTENT && span(c.1 as int, c.3 as int)
                <= MAX_EXTENT {
                carried(
                    committed(
                        s,
                        brushed(
                            s.map,
                            s.brush,
                            listing(
                                ellipse_cells(
                                    width,
                                    height,
                                    c.0 as int,
                                    c.1 as int,
                                    c.2 as int,
                                    c.3 as int,
                                    c.4,
                                ),
                                width,
                                height,
                            ),
                        ),
                    ),
                )
            } else {
                refused(s, ErrorView::TooLarge)
            },
            Err(e) => refused(s, e),
        },
        Operation::Fuzzy => settled(
            s,
            limit_read(args),
            |limit: Option<nat>|
                committed(
                    s,
                    brushed(
                        s.map,
                        s.brush,
                        listing(
                            flood_cells(s.map.grid, width, height, s.cursorx, s.cursory, limit),
                            width,
                            height,
                        ),
                    ),
                ),
        ),
        Operation::Copy => carried(copied(s)),
        Operation::Paste => match s.clipboard {
            Some(clipboard) => carried(pasting(s, clipboard)),
            None => refused(s, ErrorView::ClipboardEmpty),
        },
    }
}

/// What a line of words makes of a state: nothing where it holds no word;
/// else the first word names a command, and the words after it are what the
/// command is given. A name that no command goes by, and a number of words
/// that the command does not take, are failures that change nothing.
pub open spec fn interpreted(s: StateView, line: Seq<char>) -> Outcome {
    let words = tokens(line);
    if words.len() == 0 {
        carried(s)
    } else {
        match lookup(registry(), words[0]) {
            None => refused(s, ErrorView::CommandNotFound(words[0])),
            Some(k) => {
                let command = registry()[k];
                let args = words.skip(1);
                if command.argsmin <= args.len() <= command.argsmax {
                    effect(command.function, s, args)
                } else {
                    refused(
                        s,
                        ErrorView::Arity {
                            name: command.name,
                            min: command.argsmin,
                            max: command.argsmax,
                            found: args.len() as usize,
                        },
                    )
                }
            },
        }
    }
}

/// What a command that asks for nothing more answers.
pub open spec fn finished(r: Result<(), EditError>) -> Result<ActionView, ErrorView> {
    match r {
        Ok(_) => Ok(ActionView::Done),
        Err(e) => Err(e@),
    }
}

/// Makes a command that asks for nothing more answer so.
fn finish(r: Result<(), EditError>) -> (out: Result<Action, EditError>)
    ensures
        reply(out) == finished(r),
{
    match r {
        Ok(_) => Ok(Action::Done),
        Err(e) => Err(e),
    }
}

impl State {
    /// Carries out an operation with the words given to its command.
    #[verifier::rlimit(40)]
    pub fn run(&mut self, function: Operation, args: &[&str]) -> (r: Result<Action, EditError>)
        requires
            old(self).wf(),
            args@.len() >= least_words(function),
        ensures
            final(self).wf(),
            (Outcome { state: final(self)@, result: reply(r) }) == effect(
                function,
                old(self)@,
                words(args@),
            ),
    {
        match function {
            Operation::Open => self.open(args),
            Operation::OpenForce => self.open_force(args),
            Operation::Write => self.write(args),
            Operation::WriteQuit => self.write_quit(args),
            Operation::Quit => finish(self.quit(args)),
            Operation::QuitForce => finish(self.quit_force(args)),
            Operation::Brush => finish(self.brush(args)),
            Operation::Dot => finish(self.dot(args)),
            Operation::Bucket => finish(self.bucket(args)),
            Operation::Move => finish(self.move_(args)),
            Operation::Pick => finish(self.pick(args)),
            Operation::Pen => finish(self.pen(args)),
            Operation::Edge => finish(self.edge(args)),
            Operation::Goto => finish(self.goto(args)),
            Operation::Select => finish(self.select(args)),
            Operation::Undo => finish(self.undo(args)),
            Operation::Redo => finish(self.redo(args)),
            Operation::Create => finish(self.create(args)),
            Operation::CreateForce => finish(self.create_force(args)),
            Operation::Rectangle => finish(self.box_(args)),
            Operation::Ellipse => finish(self.ellipse(args)),
            Operation::Fuzzy => finish(self.fuzzy(args)),
            Operation::Copy => finish(self.copy(args)),
            Operation::Paste => finish(self.paste(args)),
        }
    }

    /// Carries out a line of words: the command that the first word names,
    /// with the words after it. A line without a word does nothing.
    pub fn parse_command(&mut self, text: &str) -> (r: Result<Action, EditError>)
        requires
            old(self).wf(),
        ensures
            final(self).wf(),
            (Outcome { state: final(self)@, result: reply(r) }) == interpreted(old(self)@, text@),
    {
        let words = tokenize(text);
        if words.len() == 0 {
            return Ok(Action::Done);
        }
        let table = commands();
        let name = words[0].as_str();
        match find_command(&table, name) {
            None => Err(EditError::CommandNotFound(String::from_str(name))),
            Some(k) => {
                let command = table[k];
                proof {
                    lemma_registry(k as int);
                    assert(table_view(table@)[k as int] == command@);
                }
                let mut args: Vec<&str> = Vec::new();
                let mut i: usize = 1;
                while i < words.len()
                    invariant
                        1 <= i <= words.len(),
                        args.len() == i - 1,
                        forall|j: int|
                            0 <= j < i - 1 ==> (#[trigger] args@[j])@ == words.deep_view()[j + 1],
                    decreases words.len() - i,
                {
                    args.push(words[i].as_str());
                    i += 1;
                }
                assert(crate::movement::words(args@) =~= words.deep_view().skip(1));
                if args.len() >= command.argsmin && args.len() <= command.argsmax {
                    self.run(command.function, args.as_slice())
                } else {
                    Err(
                        EditError::Arity {
                            name: String::from_str(command.name),
                            min: command.argsmin,
                            max: command.argsmax,
                            found: args.len(),
                        },
                    )
                }
            },
        }
    }
}

} // verus!
