use kyutile::dispatch::{commands, find_command, Command, Operation};
use kyutile::error::EditError;
use kyutile::files::Action;
use kyutile::palette::{Tile, TileData};
use kyutile::state::{Brush, Pen, State};

fn editor() -> State {
    State::new(TileData {
        tiles: vec![
            Tile { id: 0, name: "Grass".to_string(), color: 0x00ff00 },
            Tile { id: 1, name: "Water".to_string(), color: 0x0000ff },
        ],
    })
}

#[test]
fn an_unknown_command_fails_naming_the_word() {
    let mut state = editor();
    let failure = state.parse_command("frobnicate 1 2").unwrap_err();
    assert_eq!(failure, EditError::CommandNotFound("frobnicate".to_string()));
    assert_eq!(failure.message(), "Command frobnicate not found.");
    assert_eq!(
        state.parse_command("Undo"),
        Err(EditError::CommandNotFound("Undo".to_string()))
    );
}

#[test]
fn a_wrong_number_of_words_fails_naming_what_was_expected() {
    let mut state = editor();
    let failure = state.parse_command("goto 1").unwrap_err();
    assert_eq!(
        failure,
        EditError::Arity { name: "goto".to_string(), min: 2, max: 2, found: 1 }
    );
    assert_eq!(failure.message(), "Incorrect number of arguments for goto: expected 2, found 1.");
    let failure = state.parse_command("b 1 1").unwrap_err();
    assert_eq!(
        failure,
        EditError::Arity { name: "box".to_string(), min: 4, max: 5, found: 2 }
    );
    assert_eq!(failure.message(), "Incorrect number of arguments for box: expected 4-5, found 2.");
    let failure = state.parse_command("undo now").unwrap_err();
    assert_eq!(failure.message(), "Incorrect number of arguments for undo: expected 0, found 1.");
    let failure = state.parse_command("w a b").unwrap_err();
    assert_eq!(failure.message(), "Incorrect number of arguments for write: expected 0-1, found 2.");
    assert_eq!(state.cursor(), (0, 0));
    assert_eq!(state.undo_len(), 0);
}

#[test]
fn a_command_with_the_right_words_is_carried_out_once() {
    let mut state = editor();
    assert_eq!(state.parse_command("move right 3"), Ok(Action::Done));
    assert_eq!(state.cursor(), (3, 0));
    assert_eq!(state.parse_command("  move   down  "), Ok(Action::Done));
    assert_eq!(state.cursor(), (3, 1));
    assert_eq!(state.parse_command("brush water"), Ok(Action::Done));
    assert_eq!(state.parse_command("dot"), Ok(Action::Done));
    assert_eq!(state.undo_len(), 1);
    assert_eq!(state.map()[1][3], 1);
    assert_eq!(state.parse_command("undo"), Ok(Action::Done));
    assert_eq!(state.undo_len(), 0);
    assert_eq!(state.redo_len(), 1);
    assert_eq!(state.parse_command("undo"), Err(EditError::UndoEmpty));
}

#[test]
fn a_line_without_a_word_does_nothing() {
    let mut state = editor();
    assert_eq!(state.parse_command(""), Ok(Action::Done));
    assert_eq!(state.parse_command("   \t "), Ok(Action::Done));
    assert_eq!(state.undo_len(), 0);
}

#[test]
fn every_command_goes_by_its_name_and_its_other_names() {
    let table = commands();
    let expected: Vec<(&str, Vec<&str>, usize, usize, Operation)> = vec![
        ("open", vec!["o"], 1, 1, Operation::Open),
        ("open!", vec!["o!"], 1, 1, Operation::OpenForce),
        ("write", vec!["w"], 0, 1, Operation::Write),
        ("quit", vec!["q"], 0, 0, Operation::Quit),
        ("quit!", vec!["q!"], 0, 0, Operation::QuitForce),
        ("write-quit", vec!["wq"], 0, 1, Operation::WriteQuit),
        ("brush", vec!["tile", "t"], 1, 1, Operation::Brush),
        ("dot", vec![], 0, 0, Operation::Dot),
        ("bucket", vec![], 0, 0, Operation::Bucket),
        ("move", vec![], 1, 2, Operation::Move),
        ("pick", vec![], 0, 0, Operation::Pick),
        ("pen", vec![], 1, 1, Operation::Pen),
        ("edge", vec![], 1, 1, Operation::Edge),
        ("goto", vec!["g"], 2, 2, Operation::Goto),
        ("select", vec!["s"], 1, 1, Operation::Select),
        ("undo", vec![], 0, 0, Operation::Undo),
        ("redo", vec![], 0, 0, Operation::Redo),
        ("create", vec!["n"], 2, 2, Operation::Create),
        ("create!", vec!["n!"], 2, 2, Operation::CreateForce),
        ("box", vec!["b"], 4, 5, Operation::Rectangle),
        ("ellipse", vec!["e"], 4, 5, Operation::Ellipse),
        ("fuzzy", vec!["f"], 0, 1, Operation::Fuzzy),
        ("copy", vec![], 0, 0, Operation::Copy),
        ("paste", vec![], 0, 0, Operation::Paste),
    ];
    assert_eq!(table.len(), expected.len());
    for (index, (name, aliases, argsmin, argsmax, function)) in expected.into_iter().enumerate() {
        let command = table[index];
        assert_eq!(command.name, name);
        assert_eq!(command.aliases.to_vec(), aliases);
        assert_eq!(command.argsmin, argsmin);
        assert_eq!(command.argsmax, argsmax);
        assert_eq!(command.function, function);
        assert_eq!(find_command(&table, name), Some(index));
        for alias in command.aliases {
            assert_eq!(find_command(&table, alias), Some(index));
        }
    }
    assert_eq!(find_command(&table, "tab"), None);
    assert_eq!(find_command(&table, ""), None);
}

#[test]
fn a_command_is_made_of_its_parts() {
    let command = Command::new("twist", &["tw"], 1, 3, Operation::Dot);
    assert_eq!(command.name, "twist");
    assert_eq!(command.aliases, &["tw"]);
    assert_eq!((command.argsmin, command.argsmax), (1, 3));
    assert!(command.answers_to("twist"));
    assert!(command.answers_to("tw"));
    assert!(!command.answers_to("t"));
}

#[test]
fn the_commands_reach_every_part_of_the_editor() {
    let mut state = editor();
    assert_eq!(state.parse_command("n 4 3"), Ok(Action::Done));
    assert_eq!(state.map().len(), 3);
    assert_eq!(state.parse_command("t 1"), Ok(Action::Done));
    assert_eq!(state.current_brush(), Brush::Tile(1));
    assert_eq!(state.parse_command("b 0 0 3 2"), Ok(Action::Done));
    assert_eq!(
        *state.map(),
        vec![vec![1, 1, 1, 1], vec![1, 0, 0, 1], vec![1, 1, 1, 1]]
    );
    assert_eq!(state.parse_command("g 1 1"), Ok(Action::Done));
    assert_eq!(state.parse_command("tile add"), Ok(Action::Done));
    assert_eq!(state.parse_command("f"), Ok(Action::Done));
    assert_eq!(state.selected(), vec![(1, 1), (1, 2)]);
    assert_eq!(state.parse_command("copy"), Ok(Action::Done));
    assert_eq!(state.parse_command("edge left"), Ok(Action::Done));
    assert_eq!(state.cursor(), (0, 1));
    assert_eq!(state.parse_command("paste"), Ok(Action::Done));
    assert_eq!(
        *state.map(),
        vec![vec![1, 1, 1, 1], vec![0, 0, 0, 1], vec![1, 1, 1, 1]]
    );
    assert_eq!(state.parse_command("pick"), Ok(Action::Done));
    assert_eq!(state.current_brush(), Brush::Tile(0));
    assert_eq!(state.parse_command("s invert"), Ok(Action::Done));
    assert_eq!(state.selected().len(), 10);
    assert_eq!(state.parse_command("bucket"), Ok(Action::Done));
    assert_eq!(
        *state.map(),
        vec![vec![0, 0, 0, 0], vec![0, 0, 0, 0], vec![0, 0, 0, 0]]
    );
    assert_eq!(state.parse_command("redo"), Err(EditError::RedoEmpty));
    assert_eq!(state.parse_command("pen down"), Ok(Action::Done));
    assert_eq!(state.current_pen(), Pen::Down);
    assert_eq!(state.parse_command("e 0 0 3 2 fill"), Ok(Action::Done));
    assert_eq!(state.parse_command("select 1"), Ok(Action::Done));
    assert_eq!(state.parse_command("n! 2 2"), Ok(Action::Done));
    assert_eq!(state.parse_command("create! 3 3"), Ok(Action::Done));
    assert_eq!(state.map().len(), 3);
}

#[test]
fn the_commands_for_files_ask_for_what_is_to_be_done() {
    let mut state = editor();
    assert_eq!(
        state.parse_command("o maps/a.map"),
        Ok(Action::Read { path: "maps/a.map".to_string() })
    );
    assert_eq!(
        state.parse_command("open! b.map"),
        Ok(Action::Read { path: "b.map".to_string() })
    );
    assert_eq!(state.parse_command("w"), Err(EditError::NoPath));
    assert_eq!(state.parse_command("create 1 2"), Ok(Action::Done));
    assert_eq!(
        state.parse_command("w c.map"),
        Ok(Action::Write { path: "c.map".to_string(), text: "0\n0".to_string(), quit: false })
    );
    assert_eq!(
        state.parse_command("wq c.map"),
        Ok(Action::Write { path: "c.map".to_string(), text: "0\n0".to_string(), quit: true })
    );
    assert_eq!(state.parse_command("q"), Ok(Action::Done));
    assert!(state.exit());
    let mut state = editor();
    assert_eq!(state.parse_command("quit!"), Ok(Action::Done));
    assert!(state.exit());
}

#[test]
fn every_failure_says_what_went_wrong() {
    let word = || "xyz".to_string();
    let cases: Vec<(EditError, &str)> = vec![
        (
            EditError::UnsavedOpen,
            "Unsaved changes (use :o! to discard them and open another file or :w to save them).",
        ),
        (
            EditError::UnsavedQuit,
            "Unsaved changes (use :q! to discard them and quit or :wq to save and quit).",
        ),
        (
            EditError::UnsavedCreate,
            "Unsaved changes (use :n! to discard them and create a new map or :w to save them).",
        ),
        (EditError::CouldNotOpen(word()), "Could not open file xyz."),
        (EditError::CouldNotParse, "Could not parse map."),
        (
            EditError::CouldNotValidate(kyutile::map::ShapeError::Empty),
            "Could not validate map: Maps cannot be empty.",
        ),
        (
            EditError::CouldNotValidate(kyutile::map::ShapeError::Ragged),
            "Could not validate map: Maps must be rectangular.",
        ),
        (EditError::TooLarge, "Too large."),
        (EditError::NoPath, "No path set (use :w <path>)."),
        (EditError::CouldNotWrite(word()), "Could not write to file xyz."),
        (EditError::PenMode(word()), "Pen mode xyz not found, options are up, down."),
        (
            EditError::Direction(word()),
            "Parse error: xyz is not a direction, options are Left, Down, Up, Right.",
        ),
        (EditError::Integer(word()), "Parse error: xyz is not an integer."),
        (EditError::TileNumber(42), "Parse error: invalid tile number 42."),
        (EditError::Tile(word()), "Parse error: xyz is not a valid tile."),
        (EditError::OutOfBounds, "Out of bounds."),
        (
            EditError::Selection,
            "Invalid selection argument, options are all, none, invert and <tile>.",
        ),
        (EditError::Fill, "Invalid argument, the only option is fill (optional)."),
        (EditError::UndoEmpty, "Undo stack is empty."),
        (EditError::RedoEmpty, "Redo stack is empty"),
        (EditError::ClipboardEmpty, "Clipboard is empty"),
        (EditError::CommandNotFound(word()), "Command xyz not found."),
        (
            EditError::Arity { name: word(), min: 0, max: 12, found: 345 },
            "Incorrect number of arguments for xyz: expected 0-12, found 345.",
        ),
    ];
    for (failure, message) in cases {
        assert_eq!(failure.message(), message);
    }
}
