use kyutile::error::EditError;
use kyutile::files::Action;
use kyutile::map::{create, ShapeError};
use kyutile::movement::{parse_direction, parse_usize, traversed, Direction};
use kyutile::palette::{Tile, TileData};
use kyutile::state::{Brush, Pen, State};

fn palette() -> TileData {
    TileData {
        tiles: vec![
            Tile { id: 0, name: "Grass".to_string(), color: 0x00ff00 },
            Tile { id: 1, name: "Water".to_string(), color: 0x0000ff },
            Tile { id: 2, name: "Stone".to_string(), color: 0x808080 },
        ],
    }
}

fn editor() -> State {
    State::new(palette())
}

fn loaded(text: &str) -> State {
    let mut state = editor();
    assert_eq!(state.load("test.map", text), Ok(()));
    state
}

#[test]
fn a_new_editor_holds_a_blank_grid() {
    let state = editor();
    assert_eq!(*state.map(), create(11, 11, 0));
    assert_eq!(state.selected(), Vec::new());
    assert_eq!(state.cursor(), (0, 0));
    assert_eq!(state.current_brush(), Brush::Tile(0));
    assert_eq!(state.current_pen(), Pen::Up);
    assert_eq!(state.argument(), 0);
    assert_eq!(state.undo_len(), 0);
    assert_eq!(state.redo_len(), 0);
    assert_eq!(state.path(), None);
    assert!(state.clipboard().is_none());
    assert!(!state.exit());
    assert!(!state.modified());
}

#[test]
fn the_editor_stays_in_a_state_it_can_be_in() {
    let mut state = editor();
    assert!(state.check());
    assert_eq!(state.load("a.map", "1,2,3\n4,5,6"), Ok(()));
    assert_eq!(state.goto(&["2", "1"]), Ok(()));
    assert_eq!(state.brush(&["add"]), Ok(()));
    assert_eq!(state.box_(&["0", "0", "9", "9"]), Ok(()));
    assert_eq!(state.create_force(&["2", "7"]), Ok(()));
    assert_eq!(state.undo(&[]), Ok(()));
    assert_eq!(state.undo(&[]), Ok(()));
    assert_eq!(state.redo(&[]), Ok(()));
    assert!(state.check());
    assert_eq!(state.cursor(), (0, 0));
}

#[test]
fn painting_a_cell_with_its_own_tile_is_no_edit() {
    let mut state = editor();
    assert_eq!(state.dot(&[]), Ok(()));
    assert_eq!(state.undo_len(), 0);
    assert_eq!(state.brush(&["water"]), Ok(()));
    assert_eq!(state.dot(&[]), Ok(()));
    assert_eq!(state.undo_len(), 1);
    assert_eq!(state.map()[0][0], 1);
    assert_eq!(state.dot(&[]), Ok(()));
    assert_eq!(state.undo_len(), 1);
}

#[test]
fn dot_adds_to_the_selection_and_takes_out_of_it() {
    let mut state = editor();
    assert_eq!(state.goto(&["3", "2"]), Ok(()));
    assert_eq!(state.brush(&["add"]), Ok(()));
    assert_eq!(state.dot(&[]), Ok(()));
    assert_eq!(state.selected(), vec![(2, 3)]);
    assert_eq!(state.undo_len(), 1);
    assert_eq!(state.dot(&[]), Ok(()));
    assert_eq!(state.undo_len(), 1);
    assert_eq!(state.brush(&["SUBTRACT"]), Ok(()));
    assert_eq!(state.dot(&[]), Ok(()));
    assert_eq!(state.selected(), Vec::new());
    assert_eq!(state.undo_len(), 2);
    assert_eq!(state.dot(&[]), Ok(()));
    assert_eq!(state.undo_len(), 2);
}

#[test]
fn edits_are_undone_and_done_again() {
    let mut state = editor();
    let start = state.map().clone();
    let mut grids = Vec::new();
    for (n, word) in ["1", "2", "1", "2", "1"].iter().enumerate() {
        assert_eq!(state.brush(&[word]), Ok(()));
        assert_eq!(state.goto(&[&n.to_string(), "0"]), Ok(()));
        assert_eq!(state.dot(&[]), Ok(()));
        assert_eq!(state.goto(&["5", "5"]), Ok(()));
        assert_eq!(state.dot(&[]), Ok(()));
        grids.push(state.map().clone());
    }
    assert_eq!(state.undo_len(), 10);
    let last = state.map().clone();
    for _ in 0..10 {
        assert_eq!(state.undo(&[]), Ok(()));
    }
    assert_eq!(*state.map(), start);
    assert_eq!(state.undo_len(), 0);
    assert_eq!(state.redo_len(), 10);
    assert_eq!(state.undo(&[]), Err(EditError::UndoEmpty));
    for _ in 0..10 {
        assert_eq!(state.redo(&[]), Ok(()));
    }
    assert_eq!(*state.map(), last);
    assert_eq!(state.redo(&[]), Err(EditError::RedoEmpty));
    assert_eq!(state.undo(&[]), Ok(()));
    assert_eq!(state.undo(&[]), Ok(()));
    assert_eq!(*state.map(), grids[3]);
}

#[test]
fn an_edit_after_an_undo_leaves_nothing_to_do_again() {
    let mut state = editor();
    assert_eq!(state.brush(&["1"]), Ok(()));
    assert_eq!(state.dot(&[]), Ok(()));
    assert_eq!(state.undo(&[]), Ok(()));
    assert_eq!(state.redo_len(), 1);
    assert_eq!(state.brush(&["2"]), Ok(()));
    assert_eq!(state.dot(&[]), Ok(()));
    assert_eq!(state.redo_len(), 0);
    assert_eq!(state.undo_len(), 1);
}

#[test]
fn undo_brings_the_selection_back_too() {
    let mut state = editor();
    assert_eq!(state.select(&["all"]), Ok(()));
    assert_eq!(state.selected().len(), 121);
    assert_eq!(state.select(&["none"]), Ok(()));
    assert_eq!(state.selected().len(), 0);
    assert_eq!(state.undo(&[]), Ok(()));
    assert_eq!(state.selected().len(), 121);
}

#[test]
fn undo_puts_a_cursor_outside_the_grid_back_on_the_first_cell() {
    let mut state = editor();
    assert_eq!(state.create_force(&["3", "3"]), Ok(()));
    assert_eq!(state.create_force(&["8", "8"]), Ok(()));
    assert_eq!(state.goto(&["7", "6"]), Ok(()));
    assert_eq!(state.undo(&[]), Ok(()));
    assert_eq!(state.map().len(), 3);
    assert_eq!(state.cursor(), (0, 0));
    assert_eq!(state.redo(&[]), Ok(()));
    assert_eq!(state.goto(&["2", "1"]), Ok(()));
    assert_eq!(state.undo(&[]), Ok(()));
    assert_eq!(state.cursor(), (2, 1));
}

#[test]
fn the_cursor_moves_and_stops_at_the_edge() {
    let mut state = editor();
    assert_eq!(state.move_cursor(Direction::Right, 3), Ok(()));
    assert_eq!(state.cursor(), (3, 0));
    assert_eq!(state.move_cursor(Direction::Down, 4), Ok(()));
    assert_eq!(state.cursor(), (3, 4));
    assert_eq!(state.move_cursor(Direction::Left, 1), Ok(()));
    assert_eq!(state.cursor(), (2, 4));
    assert_eq!(state.move_cursor(Direction::Up, 2), Ok(()));
    assert_eq!(state.cursor(), (2, 2));
    assert_eq!(state.move_cursor(Direction::Right, 100), Ok(()));
    assert_eq!(state.cursor(), (10, 2));
    assert_eq!(state.move_cursor(Direction::Down, usize::MAX), Ok(()));
    assert_eq!(state.cursor(), (10, 10));
    assert_eq!(state.move_cursor(Direction::Left, usize::MAX), Ok(()));
    assert_eq!(state.cursor(), (0, 10));
    assert_eq!(state.move_cursor(Direction::Up, 11), Ok(()));
    assert_eq!(state.cursor(), (0, 0));
    assert_eq!(state.move_cursor(Direction::Up, 0), Ok(()));
    assert_eq!(state.cursor(), (0, 0));
    assert_eq!(state.undo_len(), 0);
}

#[test]
fn the_move_command_reads_a_direction_and_a_distance() {
    let mut state = editor();
    assert_eq!(state.move_(&["right"]), Ok(()));
    assert_eq!(state.cursor(), (1, 0));
    assert_eq!(state.move_(&["J", "4"]), Ok(()));
    assert_eq!(state.cursor(), (1, 4));
    assert_eq!(state.move_(&["Up", "+2"]), Ok(()));
    assert_eq!(state.cursor(), (1, 2));
    assert_eq!(state.move_(&["h", "9"]), Ok(()));
    assert_eq!(state.cursor(), (0, 2));
    assert_eq!(state.move_(&["sideways"]), Err(EditError::Direction("sideways".to_string())));
    assert_eq!(state.move_(&["left", "x"]), Err(EditError::Integer("x".to_string())));
    assert_eq!(state.move_(&["sideways", "x"]), Err(EditError::Integer("x".to_string())));
    assert_eq!(state.cursor(), (0, 2));
}

#[test]
fn each_edge_is_reached_from_anywhere() {
    let mut state = loaded("1,2,3,4\n5,6,7,8\n9,10,11,12");
    assert_eq!(state.goto(&["1", "1"]), Ok(()));
    assert_eq!(state.edge(&["right"]), Ok(()));
    assert_eq!(state.cursor(), (3, 1));
    assert_eq!(state.edge(&["down"]), Ok(()));
    assert_eq!(state.cursor(), (3, 2));
    assert_eq!(state.edge(&["left"]), Ok(()));
    assert_eq!(state.cursor(), (0, 2));
    assert_eq!(state.edge(&["up"]), Ok(()));
    assert_eq!(state.cursor(), (0, 0));
    assert_eq!(state.edge(&["up"]), Ok(()));
    assert_eq!(state.cursor(), (0, 0));
    assert_eq!(state.edge(&["north"]), Err(EditError::Direction("north".to_string())));
}

#[test]
fn the_pen_paints_every_cell_passed_over_as_one_edit() {
    let mut state = editor();
    assert_eq!(state.goto(&["2", "3"]), Ok(()));
    assert_eq!(state.brush(&["stone"]), Ok(()));
    assert_eq!(state.pen(&["Down"]), Ok(()));
    assert_eq!(state.move_cursor(Direction::Right, 3), Ok(()));
    assert_eq!(state.map()[3], vec![0, 0, 0, 2, 2, 2, 0, 0, 0, 0, 0]);
    assert_eq!(state.undo_len(), 1);
    assert_eq!(state.move_cursor(Direction::Down, 2), Ok(()));
    assert_eq!(state.map()[4][5], 2);
    assert_eq!(state.map()[5][5], 2);
    assert_eq!(state.map()[6][5], 0);
    assert_eq!(state.undo_len(), 2);
    assert_eq!(state.move_cursor(Direction::Left, 2), Ok(()));
    assert_eq!(state.map()[5], vec![0, 0, 0, 2, 2, 2, 0, 0, 0, 0, 0]);
    assert_eq!(state.move_cursor(Direction::Up, 2), Ok(()));
    assert_eq!(state.undo_len(), 4);
    assert_eq!(state.map()[3][3], 2);
    assert_eq!(state.map()[4][3], 2);
    assert_eq!(state.move_cursor(Direction::Right, 2), Ok(()));
    assert_eq!(state.undo_len(), 4);
    assert_eq!(state.pen(&["up"]), Ok(()));
    assert_eq!(state.move_cursor(Direction::Right, 2), Ok(()));
    assert_eq!(state.map()[3][7], 0);
    assert_eq!(state.undo_len(), 4);
}

#[test]
fn the_pen_selects_with_the_other_brushes() {
    let mut state = editor();
    assert_eq!(state.brush(&["add"]), Ok(()));
    assert_eq!(state.pen(&["down"]), Ok(()));
    assert_eq!(state.move_cursor(Direction::Down, 2), Ok(()));
    assert_eq!(state.selected(), vec![(1, 0), (2, 0)]);
    assert_eq!(state.brush(&["subtract"]), Ok(()));
    assert_eq!(state.move_cursor(Direction::Up, 1), Ok(()));
    assert_eq!(state.selected(), vec![(2, 0)]);
    assert_eq!(state.undo_len(), 2);
    assert_eq!(state.pen(&["sideways"]), Err(EditError::PenMode("sideways".to_string())));
    assert_eq!(state.current_pen(), Pen::Down);
}

#[test]
fn the_cells_passed_over_leave_out_the_start() {
    assert_eq!(traversed(2, 5, 7, true), vec![(7, 3), (7, 4), (7, 5)]);
    assert_eq!(traversed(5, 2, 7, true), vec![(7, 2), (7, 3), (7, 4)]);
    assert_eq!(traversed(2, 5, 7, false), vec![(3, 7), (4, 7), (5, 7)]);
    assert_eq!(traversed(5, 2, 7, false), vec![(2, 7), (3, 7), (4, 7)]);
    assert_eq!(traversed(4, 4, 0, true), Vec::new());
}

#[test]
fn directions_and_numbers_are_read_from_words() {
    assert_eq!(parse_direction("left"), Ok(Direction::Left));
    assert_eq!(parse_direction("H"), Ok(Direction::Left));
    assert_eq!(parse_direction("Down"), Ok(Direction::Down));
    assert_eq!(parse_direction("j"), Ok(Direction::Down));
    assert_eq!(parse_direction("UP"), Ok(Direction::Up));
    assert_eq!(parse_direction("k"), Ok(Direction::Up));
    assert_eq!(parse_direction("rIgHt"), Ok(Direction::Right));
    assert_eq!(parse_direction("l"), Ok(Direction::Right));
    assert_eq!(parse_direction(""), Err(EditError::Direction(String::new())));
    assert_eq!(parse_direction("Lefty"), Err(EditError::Direction("Lefty".to_string())));
    assert_eq!(parse_usize("17"), Ok(17));
    assert_eq!(parse_usize("0"), Ok(0));
    assert_eq!(parse_usize("-1"), Err(EditError::Integer("-1".to_string())));
    assert_eq!(parse_usize("1e3"), Err(EditError::Integer("1e3".to_string())));
}

#[test]
fn goto_refuses_a_position_outside_the_grid() {
    let mut state = loaded("1,2,3\n4,5,6");
    assert_eq!(state.goto(&["2", "1"]), Ok(()));
    assert_eq!(state.cursor(), (2, 1));
    assert_eq!(state.goto(&["3", "0"]), Err(EditError::OutOfBounds));
    assert_eq!(state.goto(&["0", "2"]), Err(EditError::OutOfBounds));
    assert_eq!(state.goto(&["a", "2"]), Err(EditError::Integer("a".to_string())));
    assert_eq!(state.goto(&["1", "b"]), Err(EditError::Integer("b".to_string())));
    assert_eq!(state.cursor(), (2, 1));
}

#[test]
fn the_brush_is_set_by_name_or_number() {
    let mut state = editor();
    assert_eq!(state.brush(&["Water"]), Ok(()));
    assert_eq!(state.current_brush(), Brush::Tile(1));
    assert_eq!(state.brush(&["STONE"]), Ok(()));
    assert_eq!(state.current_brush(), Brush::Tile(2));
    assert_eq!(state.brush(&["0"]), Ok(()));
    assert_eq!(state.current_brush(), Brush::Tile(0));
    assert_eq!(state.brush(&["Add"]), Ok(()));
    assert_eq!(state.current_brush(), Brush::Add);
    assert_eq!(state.brush(&["subtract"]), Ok(()));
    assert_eq!(state.current_brush(), Brush::Subtract);
    assert_eq!(state.brush(&["7"]), Err(EditError::TileNumber(7)));
    assert_eq!(state.brush(&["Lava"]), Err(EditError::Tile("Lava".to_string())));
    assert_eq!(state.current_brush(), Brush::Subtract);
}

#[test]
fn pick_takes_the_tile_under_the_cursor() {
    let mut state = loaded("1,2,3\n4,5,6");
    assert_eq!(state.goto(&["2", "1"]), Ok(()));
    assert_eq!(state.pick(&[]), Ok(()));
    assert_eq!(state.current_brush(), Brush::Tile(6));
}

#[test]
fn select_takes_all_none_the_rest_or_a_tile() {
    let mut state = loaded("1,2,1\n2,2,0");
    assert_eq!(state.select(&["2"]), Ok(()));
    assert_eq!(state.selected(), vec![(0, 1), (1, 0), (1, 1)]);
    assert_eq!(state.undo_len(), 1);
    assert_eq!(state.select(&["2"]), Ok(()));
    assert_eq!(state.undo_len(), 1);
    assert_eq!(state.select(&["Invert"]), Ok(()));
    assert_eq!(state.selected(), vec![(0, 0), (0, 2), (1, 2)]);
    assert_eq!(state.select(&["grass"]), Ok(()));
    assert_eq!(state.selected(), vec![(1, 2)]);
    assert_eq!(state.brush(&["add"]), Ok(()));
    assert_eq!(state.select(&["water"]), Ok(()));
    assert_eq!(state.selected(), vec![(0, 0), (0, 2), (1, 2)]);
    assert_eq!(state.brush(&["subtract"]), Ok(()));
    assert_eq!(state.select(&["0"]), Ok(()));
    assert_eq!(state.selected(), vec![(0, 0), (0, 2)]);
    assert_eq!(state.select(&["ALL"]), Ok(()));
    assert_eq!(state.selected().len(), 6);
    assert_eq!(state.select(&["none"]), Ok(()));
    assert_eq!(state.selected(), Vec::new());
    assert_eq!(state.select(&["none"]), Ok(()));
    assert_eq!(state.undo_len(), 7);
    assert_eq!(state.select(&["lava"]), Err(EditError::Selection));
    assert_eq!(state.select(&["9"]), Err(EditError::Selection));
}

#[test]
fn bucket_paints_the_selection() {
    let mut state = loaded("1,2,1\n2,2,0");
    assert_eq!(state.select(&["2"]), Ok(()));
    assert_eq!(state.brush(&["add"]), Ok(()));
    assert_eq!(state.bucket(&[]), Ok(()));
    assert_eq!(*state.map(), vec![vec![1, 2, 1], vec![2, 2, 0]]);
    assert_eq!(state.brush(&["0"]), Ok(()));
    assert_eq!(state.bucket(&[]), Ok(()));
    assert_eq!(*state.map(), vec![vec![1, 0, 1], vec![0, 0, 0]]);
    assert_eq!(state.undo_len(), 2);
    assert_eq!(state.bucket(&[]), Ok(()));
    assert_eq!(state.undo_len(), 2);
}

#[test]
fn the_shape_commands_apply_the_brush() {
    let mut state = editor();
    assert_eq!(state.brush(&["1"]), Ok(()));
    assert_eq!(state.box_(&["1", "1", "3", "3"]), Ok(()));
    assert_eq!(state.map()[1][1..4], [1, 1, 1]);
    assert_eq!(state.map()[2][1..4], [1, 0, 1]);
    assert_eq!(state.map()[3][1..4], [1, 1, 1]);
    assert_eq!(state.undo_len(), 1);
    assert_eq!(state.box_(&["1", "1", "3", "3"]), Ok(()));
    assert_eq!(state.undo_len(), 1);
    assert_eq!(state.box_(&["1", "1", "3", "3", "fill"]), Ok(()));
    assert_eq!(state.map()[2][2], 1);
    assert_eq!(state.box_(&["1", "1", "3", "3", "true"]), Ok(()));
    assert_eq!(state.undo_len(), 2);
    assert_eq!(state.box_(&["1", "1", "3", "3", "Fill"]), Err(EditError::Fill));
    assert_eq!(state.box_(&["1", "x", "3", "y"]), Err(EditError::Integer("x".to_string())));
    assert_eq!(state.brush(&["add"]), Ok(()));
    assert_eq!(state.ellipse(&["5", "5", "9", "9"]), Ok(()));
    assert_eq!(
        state.selected(),
        vec![(5, 6), (5, 7), (5, 8), (6, 5), (6, 9), (7, 5), (7, 9), (8, 5), (8, 9), (9, 6), (9, 7), (9, 8)]
    );
    assert_eq!(state.ellipse(&["0", "0", "99999999999", "4"]), Err(EditError::TooLarge));
    assert_eq!(state.ellipse(&["0", "0", "4", "4", "no"]), Err(EditError::Fill));
    assert_eq!(state.brush(&["subtract"]), Ok(()));
    assert_eq!(state.box_(&["0", "0", "20", "20", "fill"]), Ok(()));
    assert_eq!(state.selected(), Vec::new());
}

#[test]
fn fuzzy_applies_the_brush_to_the_region_under_the_cursor() {
    let mut state = loaded("1,1,0,0\n1,0,0,1\n1,1,0,1\n0,1,1,1");
    assert_eq!(state.brush(&["add"]), Ok(()));
    assert_eq!(state.fuzzy(&["1"]), Ok(()));
    assert_eq!(state.selected(), vec![(0, 0), (0, 1), (1, 0)]);
    assert_eq!(state.fuzzy(&[]), Ok(()));
    assert_eq!(state.selected().len(), 10);
    assert_eq!(state.fuzzy(&["many"]), Err(EditError::Integer("many".to_string())));
    assert_eq!(state.goto(&["2", "1"]), Ok(()));
    assert_eq!(state.brush(&["2"]), Ok(()));
    assert_eq!(state.fuzzy(&[]), Ok(()));
    assert_eq!(
        *state.map(),
        vec![vec![1, 1, 2, 2], vec![1, 2, 2, 1], vec![1, 1, 2, 1], vec![0, 1, 1, 1]]
    );
}

#[test]
fn create_makes_a_blank_grid_as_one_edit() {
    let mut state = editor();
    assert_eq!(state.select(&["all"]), Ok(()));
    assert_eq!(state.goto(&["9", "9"]), Ok(()));
    assert_eq!(state.create(&["4", "2"]), Ok(()));
    assert_eq!(*state.map(), vec![vec![0, 0, 0, 0], vec![0, 0, 0, 0]]);
    assert_eq!(state.selected(), Vec::new());
    assert_eq!(state.cursor(), (0, 0));
    assert_eq!(state.undo_len(), 2);
    assert_eq!(state.create(&["4", "2"]), Ok(()));
    assert_eq!(state.undo_len(), 2);
    assert_eq!(state.undo(&[]), Ok(()));
    assert_eq!(state.map().len(), 11);
    assert_eq!(state.selected().len(), 121);
}

#[test]
fn create_refuses_a_grid_without_cells_or_with_too_many() {
    let mut state = editor();
    let empty = Err(EditError::CouldNotValidate(ShapeError::Empty));
    assert_eq!(state.create(&["0", "5"]), empty);
    assert_eq!(state.create(&["5", "0"]), empty);
    assert_eq!(state.create(&["x", "0"]), Err(EditError::Integer("x".to_string())));
    let huge = usize::MAX.to_string();
    assert_eq!(state.create(&[&huge, &huge]), Err(EditError::TooLarge));
    assert_eq!(state.create(&[&huge, "1"]), Err(EditError::TooLarge));
    assert_eq!(*state.map(), create(11, 11, 0));
    assert_eq!(state.undo_len(), 0);
}

#[test]
fn unsaved_changes_block_open_create_and_quit() {
    let mut state = loaded("1,2\n3,4");
    assert!(!state.modified());
    assert_eq!(state.open(&["other.map"]), Ok(Action::Read { path: "other.map".to_string() }));
    assert_eq!(state.dot(&[]), Ok(()));
    assert!(state.modified());
    assert_eq!(state.open(&["other.map"]), Err(EditError::UnsavedOpen));
    assert_eq!(state.create(&["2", "2"]), Err(EditError::UnsavedCreate));
    assert_eq!(state.quit(&[]), Err(EditError::UnsavedQuit));
    assert!(!state.exit());
    assert_eq!(
        state.open_force(&["other.map"]),
        Ok(Action::Read { path: "other.map".to_string() })
    );
    assert_eq!(state.undo(&[]), Ok(()));
    assert!(!state.modified());
    assert_eq!(state.quit(&[]), Ok(()));
    assert!(state.exit());
}

#[test]
fn the_forced_forms_pass_over_unsaved_changes() {
    let mut state = loaded("1,2\n3,4");
    assert_eq!(state.dot(&[]), Ok(()));
    assert_eq!(state.create_force(&["3", "1"]), Ok(()));
    assert_eq!(*state.map(), vec![vec![0, 0, 0]]);
    assert_eq!(state.quit_force(&[]), Ok(()));
    assert!(state.exit());
}

#[test]
fn write_asks_for_the_text_of_the_grid_to_be_written() {
    let mut state = editor();
    assert_eq!(state.write(&[]), Err(EditError::NoPath));
    assert_eq!(state.create(&["2", "2"]), Ok(()));
    assert_eq!(
        state.write(&["new.map"]),
        Ok(Action::Write { path: "new.map".to_string(), text: "0,0\n0,0".to_string(), quit: false })
    );
    assert_eq!(state.path(), None);
    state.written("new.map", false);
    assert_eq!(state.path(), Some("new.map".to_string()));
    assert!(!state.modified());
    assert_eq!(state.brush(&["2"]), Ok(()));
    assert_eq!(state.dot(&[]), Ok(()));
    assert!(state.modified());
    assert_eq!(
        state.write_quit(&[]),
        Ok(Action::Write { path: "new.map".to_string(), text: "2,0\n0,0".to_string(), quit: true })
    );
    assert!(!state.exit());
    state.written("new.map", true);
    assert!(!state.modified());
    assert!(state.exit());
}

#[test]
fn load_takes_a_text_as_the_new_grid() {
    let mut state = editor();
    assert_eq!(state.select(&["all"]), Ok(()));
    assert_eq!(state.goto(&["8", "1"]), Ok(()));
    assert_eq!(state.load("a.map", "1,2,3\n4,5,6\n"), Ok(()));
    assert_eq!(*state.map(), vec![vec![1, 2, 3], vec![4, 5, 6]]);
    assert_eq!(state.selected(), Vec::new());
    assert_eq!(state.path(), Some("a.map".to_string()));
    assert_eq!(state.cursor(), (0, 0));
    assert!(!state.modified());
    assert_eq!(state.goto(&["2", "1"]), Ok(()));
    assert_eq!(state.load("b.map", "9,9,9\n9,9,9\n9,9,9"), Ok(()));
    assert_eq!(state.cursor(), (2, 1));
}

#[test]
fn load_refuses_what_is_no_valid_grid() {
    let mut state = loaded("1,2\n3,4");
    assert_eq!(state.load("b.map", "1,2\nx"), Err(EditError::CouldNotParse));
    assert_eq!(state.load("b.map", ""), Err(EditError::CouldNotParse));
    assert_eq!(
        state.load("b.map", "1,2\n3"),
        Err(EditError::CouldNotValidate(ShapeError::Ragged))
    );
    assert_eq!(*state.map(), vec![vec![1, 2], vec![3, 4]]);
    assert_eq!(state.path(), Some("test.map".to_string()));
}

#[test]
fn the_argument_takes_digits_and_stays_at_the_greatest_number() {
    let mut state = editor();
    state.append_argument(4);
    state.append_argument(0);
    state.append_argument(2);
    assert_eq!(state.argument(), 402);
    for _ in 0..40 {
        state.append_argument(9);
    }
    assert_eq!(state.argument(), usize::MAX);
    state.append_argument(0);
    assert_eq!(state.argument(), usize::MAX);
    assert_eq!(state.move_with(Direction::Right), Ok(()));
    assert_eq!(state.cursor(), (10, 0));
    assert_eq!(state.argument(), 0);
    assert_eq!(state.move_with(Direction::Left), Ok(()));
    assert_eq!(state.cursor(), (9, 0));
}

#[test]
fn copy_and_paste_move_the_tiles_with_the_cursor() {
    let mut state = loaded("1,2,3,4\n5,6,7,8\n9,10,11,12\n13,14,15,16");
    assert_eq!(state.paste(&[]), Err(EditError::ClipboardEmpty));
    assert_eq!(state.brush(&["add"]), Ok(()));
    assert_eq!(state.box_(&["0", "0", "1", "1", "fill"]), Ok(()));
    assert_eq!(state.copy(&[]), Ok(()));
    {
        let (content, x, y) = state.clipboard().unwrap();
        assert_eq!(*content, vec![(0, 0, 1), (0, 1, 2), (1, 0, 5), (1, 1, 6)]);
        assert_eq!((x, y), (0, 0));
    }
    let before = state.undo_len();
    assert_eq!(state.paste(&[]), Ok(()));
    assert_eq!(state.undo_len(), before);
    assert_eq!(state.goto(&["2", "1"]), Ok(()));
    assert_eq!(state.paste(&[]), Ok(()));
    assert_eq!(
        *state.map(),
        vec![vec![1, 2, 3, 4], vec![5, 6, 1, 2], vec![9, 10, 5, 6], vec![13, 14, 15, 16]]
    );
    assert_eq!(state.undo_len(), before + 1);
    assert_eq!(state.goto(&["3", "3"]), Ok(()));
    assert_eq!(state.paste(&[]), Ok(()));
    assert_eq!(
        *state.map(),
        vec![vec![1, 2, 3, 4], vec![5, 6, 1, 2], vec![9, 10, 5, 6], vec![13, 14, 15, 1]]
    );
    assert_eq!(state.undo_len(), before + 2);
    assert_eq!(state.undo(&[]), Ok(()));
    assert_eq!(state.map()[3][3], 16);
}

#[test]
fn paste_moves_tiles_up_and_left_too() {
    let mut state = loaded("1,2,3\n4,5,6\n7,8,9");
    assert_eq!(state.brush(&["add"]), Ok(()));
    assert_eq!(state.box_(&["1", "1", "2", "2", "fill"]), Ok(()));
    assert_eq!(state.goto(&["2", "2"]), Ok(()));
    assert_eq!(state.copy(&[]), Ok(()));
    assert_eq!(state.goto(&["0", "1"]), Ok(()));
    assert_eq!(state.paste(&[]), Ok(()));
    assert_eq!(*state.map(), vec![vec![6, 2, 3], vec![9, 5, 6], vec![7, 8, 9]]);
}
