use kyutile::bar::Input;
use kyutile::files::Action;
use kyutile::keys::Key;
use kyutile::palette::{parse_tile, parse_tile_data, tile_data, Entry, Field, Section, Tile, TileData};
use kyutile::error::EditError;
use kyutile::screen::{scroll, Pixel};
use kyutile::state::{Bar, Brush, Pen, State};

fn palette() -> TileData {
    TileData {
        tiles: vec![
            Tile { id: 0, name: "Grass".to_string(), color: 0x00ff00 },
            Tile { id: 1, name: "Water".to_string(), color: 0x0000ff },
            Tile { id: 1, name: "Sea".to_string(), color: 0x000080 },
            Tile { id: 7, name: "Élan".to_string(), color: 0xffffff },
        ],
    }
}

fn editor() -> State {
    State::new(palette())
}

fn press(state: &mut State, keys: &str) {
    for c in keys.chars() {
        assert_eq!(state.receive_key(Key::Char(c)), Action::Done);
    }
}

#[test]
fn a_line_is_edited_at_its_cursor() {
    let mut line = Input::empty();
    assert_eq!(line.text(), "");
    assert_eq!(line.cursor(), 0);
    line.write('a');
    line.write('c');
    line.move_left();
    line.write('b');
    assert_eq!(line.text(), "abc");
    assert_eq!(line.cursor(), 2);
    line.move_right();
    line.move_right();
    assert_eq!(line.cursor(), 3);
    line.delete();
    assert_eq!(line.text(), "abc");
    line.backspace();
    assert_eq!(line.text(), "ab");
    assert_eq!(line.cursor(), 2);
    line.move_left();
    line.move_left();
    line.move_left();
    assert_eq!(line.cursor(), 0);
    line.backspace();
    assert_eq!(line.text(), "ab");
    line.delete();
    assert_eq!(line.text(), "b");
    line.write('é');
    assert_eq!(line.text(), "éb");
    assert_eq!(line.cursor(), 1);
}

#[test]
fn the_keys_move_the_cursor_by_the_number_typed() {
    let mut state = editor();
    press(&mut state, "l");
    assert_eq!(state.cursor(), (1, 0));
    press(&mut state, "3j");
    assert_eq!(state.cursor(), (1, 3));
    assert_eq!(state.argument(), 0);
    press(&mut state, "12");
    assert_eq!(state.argument(), 12);
    assert_eq!(state.receive_key(Key::Esc), Action::Done);
    assert_eq!(state.argument(), 0);
    press(&mut state, "k");
    assert_eq!(state.cursor(), (1, 2));
    press(&mut state, "40l2h");
    assert_eq!(state.cursor(), (8, 2));
    assert_eq!(state.receive_key(Key::Left), Action::Done);
    assert_eq!(state.receive_key(Key::Down), Action::Done);
    assert_eq!(state.cursor(), (7, 3));
    assert_eq!(state.receive_key(Key::Right), Action::Done);
    assert_eq!(state.receive_key(Key::Up), Action::Done);
    assert_eq!(state.cursor(), (8, 2));
    press(&mut state, "L");
    assert_eq!(state.cursor(), (10, 2));
    press(&mut state, "J");
    assert_eq!(state.cursor(), (10, 10));
    press(&mut state, "H");
    assert_eq!(state.cursor(), (0, 10));
    press(&mut state, "K");
    assert_eq!(state.cursor(), (0, 0));
}

#[test]
fn the_keys_set_brush_and_pen_and_edit() {
    let mut state = editor();
    press(&mut state, "a");
    assert_eq!(state.current_brush(), Brush::Add);
    press(&mut state, "d");
    assert_eq!(state.selected(), vec![(0, 0)]);
    press(&mut state, "i2l");
    assert_eq!(state.current_pen(), Pen::Down);
    assert_eq!(state.selected(), vec![(0, 0), (0, 1), (0, 2)]);
    press(&mut state, "I");
    assert_eq!(state.current_pen(), Pen::Up);
    press(&mut state, "s");
    assert_eq!(state.current_brush(), Brush::Subtract);
    press(&mut state, "d");
    assert_eq!(state.selected(), vec![(0, 0), (0, 1)]);
    press(&mut state, "F");
    assert_eq!(state.selected().len(), 119);
    press(&mut state, "S");
    assert_eq!(state.selected().len(), 0);
    press(&mut state, "A");
    assert_eq!(state.selected().len(), 121);
    press(&mut state, "u");
    assert_eq!(state.selected().len(), 0);
    press(&mut state, "U");
    assert_eq!(state.selected().len(), 121);
    press(&mut state, "f");
    assert_eq!(state.map()[5][5], 0);
    press(&mut state, "p");
    assert_eq!(state.current_brush(), Brush::Tile(0));
    press(&mut state, "UUUzx?");
    assert_eq!(state.receive_key(Key::Other), Action::Done);
    assert_eq!(state.receive_key(Key::Enter), Action::Done);
    assert_eq!(state.selected().len(), 121);
}

#[test]
fn the_keys_copy_and_paste() {
    let mut state = editor();
    assert_eq!(state.load("a.map", "1,2\n3,4"), Ok(()));
    press(&mut state, "O");
    assert_eq!(*state.map(), vec![vec![1, 2], vec![3, 4]]);
    press(&mut state, "adolO");
    assert_eq!(*state.map(), vec![vec![1, 1], vec![3, 4]]);
    assert_eq!(state.undo_len(), 2);
}

#[test]
fn the_command_line_is_typed_and_carried_out() {
    let mut state = editor();
    press(&mut state, ":");
    assert!(matches!(state.bar(), Bar::Input(_)));
    press(&mut state, "goto 4 5");
    assert_eq!(state.cursor(), (0, 0));
    match state.bar() {
        Bar::Input(line) => {
            assert_eq!(line.text(), "goto 4 5");
            assert_eq!(line.cursor(), 8);
        }
        _ => panic!("the line is not open"),
    }
    assert_eq!(state.receive_key(Key::Backspace), Action::Done);
    assert_eq!(state.receive_key(Key::Left), Action::Done);
    assert_eq!(state.receive_key(Key::Left), Action::Done);
    assert_eq!(state.receive_key(Key::Delete), Action::Done);
    assert_eq!(state.receive_key(Key::Char('7')), Action::Done);
    assert_eq!(state.receive_key(Key::Right), Action::Done);
    assert_eq!(state.receive_key(Key::Char('2')), Action::Done);
    assert_eq!(state.receive_key(Key::Enter), Action::Done);
    assert!(matches!(state.bar(), Bar::Closed));
    assert_eq!(state.cursor(), (7, 2));
}

#[test]
fn a_command_that_fails_shows_why() {
    let mut state = editor();
    press(&mut state, ":fly");
    assert_eq!(state.receive_key(Key::Enter), Action::Done);
    match state.bar() {
        Bar::Error(why) => assert_eq!(why, "Command fly not found."),
        _ => panic!("no failure is shown"),
    }
    press(&mut state, "l");
    assert!(matches!(state.bar(), Bar::Closed));
    assert_eq!(state.cursor(), (1, 0));
    press(&mut state, ":q");
    assert_eq!(state.receive_key(Key::Esc), Action::Done);
    assert!(matches!(state.bar(), Bar::Closed));
    assert!(!state.exit());
    state.fail(&EditError::CouldNotOpen("a.map".to_string()));
    match state.bar() {
        Bar::Error(why) => assert_eq!(why, "Could not open file a.map."),
        _ => panic!("no failure is shown"),
    }
}

#[test]
fn the_command_line_asks_for_files() {
    let mut state = editor();
    press(&mut state, ":o a.map");
    assert_eq!(state.receive_key(Key::Enter), Action::Read { path: "a.map".to_string() });
    assert!(matches!(state.bar(), Bar::Closed));
    press(&mut state, ":n 1 1");
    assert_eq!(state.receive_key(Key::Enter), Action::Done);
    press(&mut state, ":wq b.map");
    assert_eq!(
        state.receive_key(Key::Enter),
        Action::Write { path: "b.map".to_string(), text: "0".to_string(), quit: true }
    );
}

#[test]
fn the_line_below_the_grid_tells_the_state() {
    let mut state = editor();
    assert_eq!(state.info_bar(), "Path: [-], Pen: Up, Brush: Grass, Cursor: (0,0), Argument: ");
    assert_eq!(state.load("dir/a.map", "1,2,3\n4,5,6"), Ok(()));
    press(&mut state, "l");
    press(&mut state, "j");
    press(&mut state, "i");
    press(&mut state, "42");
    assert_eq!(
        state.info_bar(),
        "Path: dir/a.map, Pen: Down, Brush: Grass, Cursor: (1,1), Argument: 42"
    );
    assert_eq!(state.receive_key(Key::Esc), Action::Done);
    press(&mut state, "d");
    assert_eq!(
        state.info_bar(),
        "Path: dir/a.map(*), Pen: Down, Brush: Grass, Cursor: (1,1), Argument: "
    );
    press(&mut state, "a");
    assert!(state.info_bar().contains("Brush: add,"));
    press(&mut state, "s");
    assert!(state.info_bar().contains("Brush: subtract,"));
    assert_eq!(state.brush(&["1"]), Ok(()));
    assert!(state.info_bar().contains("Brush: Water,"));
    press(&mut state, "Ilp");
    assert_eq!(state.current_brush(), Brush::Tile(6));
    assert!(state.info_bar().contains("Brush: 6,"));
}

#[test]
fn the_picture_shows_the_grid_in_a_frame() {
    let mut state = editor();
    assert_eq!(state.load("a.map", "1,2,3\n4,5,6"), Ok(()));
    press(&mut state, "ljad");
    assert_eq!(state.pixel(0, 0), Some(Pixel::LeftCorner));
    assert_eq!(state.pixel(0, 3), Some(Pixel::LeftCorner));
    assert_eq!(state.pixel(4, 0), Some(Pixel::RightCorner));
    assert_eq!(state.pixel(4, 3), Some(Pixel::RightCorner));
    assert_eq!(state.pixel(2, 0), Some(Pixel::Rail));
    assert_eq!(state.pixel(3, 3), Some(Pixel::Rail));
    assert_eq!(state.pixel(0, 1), Some(Pixel::LeftSide));
    assert_eq!(state.pixel(4, 2), Some(Pixel::RightSide));
    assert_eq!(state.pixel(1, 1), Some(Pixel::Cell { tile: 1, selected: false, cursor: false }));
    assert_eq!(state.pixel(3, 1), Some(Pixel::Cell { tile: 3, selected: false, cursor: false }));
    assert_eq!(state.pixel(2, 2), Some(Pixel::Cell { tile: 5, selected: true, cursor: true }));
    assert_eq!(state.pixel(5, 0), None);
    assert_eq!(state.pixel(0, 4), None);
    assert_eq!(state.pixel(usize::MAX, usize::MAX), None);
}

#[test]
fn the_picture_follows_the_cursor() {
    assert_eq!(scroll(0, 10), 0);
    assert_eq!(scroll(7, 10), 0);
    assert_eq!(scroll(8, 10), 1);
    assert_eq!(scroll(20, 10), 13);
    assert_eq!(scroll(5, 3), 5);
    assert_eq!(scroll(5, 2), 5);
    assert_eq!(scroll(0, 0), 0);
}

#[test]
fn a_tile_is_found_by_name_whatever_the_case() {
    let tiles = palette();
    assert_eq!(parse_tile(&tiles, "grass"), Ok(0));
    assert_eq!(parse_tile(&tiles, "WATER"), Ok(1));
    assert_eq!(parse_tile(&tiles, "sEa"), Ok(1));
    assert_eq!(parse_tile(&tiles, "élan"), Ok(7));
    assert_eq!(parse_tile(&tiles, "ÉLAN"), Ok(7));
    assert_eq!(parse_tile(&tiles, "7"), Ok(7));
    assert_eq!(parse_tile(&tiles, "+1"), Ok(1));
    assert_eq!(parse_tile(&tiles, "2"), Err(EditError::TileNumber(2)));
    assert_eq!(parse_tile(&tiles, "4294967296"), Err(EditError::TileNumber(4294967296)));
    assert_eq!(parse_tile(&tiles, "-1"), Err(EditError::Tile("-1".to_string())));
    assert_eq!(parse_tile(&tiles, "Lava"), Err(EditError::Tile("Lava".to_string())));
    assert_eq!(parse_tile(&tiles, ""), Err(EditError::Tile(String::new())));
    assert_eq!(tiles.find(1), Some(1));
    assert_eq!(tiles.find(3), None);
    assert_eq!(tiles.name_of(1), Some("Water".to_string()));
    assert_eq!(tiles.color_of(7), Some(0xffffff));
    assert_eq!(tiles.color_of(8), None);
}

#[test]
fn a_palette_is_read_from_a_document() {
    let document = "[names]\n0 = \"Grass\"\n1 = \"Water\"\n10 = \"Stone\"\n\n[colors]\n0 = 0x00ff00\n1 = 255\n10 = 8421504\n";
    let tiles = parse_tile_data(document).unwrap();
    let mut found = tiles.tiles.clone();
    found.sort_by_key(|tile| tile.id);
    assert_eq!(
        found,
        vec![
            Tile { id: 0, name: "Grass".to_string(), color: 0x00ff00 },
            Tile { id: 1, name: "Water".to_string(), color: 255 },
            Tile { id: 10, name: "Stone".to_string(), color: 0x808080 },
        ]
    );
    assert_eq!(parse_tile(&tiles, "stone"), Ok(10));
}

#[test]
fn a_palette_document_must_be_whole() {
    assert_eq!(parse_tile_data("[names"), None);
    assert_eq!(parse_tile_data(""), None);
    assert_eq!(parse_tile_data("[names]\n0 = \"Grass\"\n"), None);
    assert_eq!(parse_tile_data("[colors]\n0 = 1\n"), None);
    assert_eq!(parse_tile_data("names = 3\n[colors]\n0 = 1\n"), None);
    assert_eq!(parse_tile_data("[names]\n0 = \"Grass\"\n[colors]\n1 = 5\n"), None);
    assert_eq!(parse_tile_data("[names]\n0 = 5\n[colors]\n0 = 5\n"), None);
    assert_eq!(parse_tile_data("[names]\n0 = \"Grass\"\n[colors]\n0 = \"green\"\n"), None);
    assert_eq!(parse_tile_data("[names]\ngrass = \"Grass\"\n[colors]\ngrass = 5\n"), None);
    assert_eq!(parse_tile_data("[names]\n0 = \"Grass\"\n[colors]\n0 = -1\n"), None);
    assert_eq!(parse_tile_data("[names]\n0 = \"Grass\"\n[colors]\n0 = 4294967296\n"), None);
    assert_eq!(parse_tile_data("[names]\n[colors]\n"), Some(TileData { tiles: Vec::new() }));
    assert_eq!(
        parse_tile_data("[names]\n0 = \"Grass\"\n[colors]\n0 = 4294967295\n3 = 1\n[other]\nx = 1.5\n"),
        Some(TileData {
            tiles: vec![Tile { id: 0, name: "Grass".to_string(), color: u32::MAX }]
        })
    );
}

#[test]
fn a_palette_is_made_from_what_a_document_holds() {
    let line = |key: &str, value: Field| Entry { key: key.to_string(), value };
    let names = Section {
        name: "names".to_string(),
        entries: Some(vec![
            line("2", Field::Text("Stone".to_string())),
            line("1", Field::Text("Water".to_string())),
        ]),
    };
    let colors = Section {
        name: "colors".to_string(),
        entries: Some(vec![
            line("1", Field::Integer(10)),
            line("2", Field::Integer(20)),
            line("+1", Field::Integer(30)),
        ]),
    };
    let other = Section { name: "title".to_string(), entries: None };
    assert_eq!(
        tile_data(&vec![other.clone(), colors.clone(), names.clone()]),
        Some(TileData {
            tiles: vec![
                Tile { id: 2, name: "Stone".to_string(), color: 20 },
                Tile { id: 1, name: "Water".to_string(), color: 10 },
            ]
        })
    );
    assert_eq!(tile_data(&vec![names.clone(), other.clone()]), None);
    let broken = Section {
        name: "colors".to_string(),
        entries: Some(vec![line("1", Field::Integer(10)), line("2", Field::Other)]),
    };
    assert_eq!(tile_data(&vec![names.clone(), broken]), None);
    let unnamed = Section { name: "names".to_string(), entries: None };
    assert_eq!(tile_data(&vec![unnamed, names, colors]), None);
}
