use kyutile::dispatch::tokenize;
use kyutile::parse::{export_map, parse_map, write_tile, ParseError};
use kyutile::text::{
    chars_of, find_text, number_text, read_digits, read_unsigned, same_text, space, split_at,
    trimmed,
};

fn text(s: &str) -> Vec<char> {
    s.chars().collect()
}

#[test]
fn chars_of_gives_the_characters_in_order() {
    assert_eq!(chars_of("aé7"), vec!['a', 'é', '7']);
    assert_eq!(chars_of(""), Vec::<char>::new());
}

#[test]
fn numbers_are_written_in_decimal() {
    assert_eq!(number_text(0), "0");
    assert_eq!(number_text(7), "7");
    assert_eq!(number_text(10), "10");
    assert_eq!(number_text(1234567890), "1234567890");
    assert_eq!(number_text(usize::MAX), usize::MAX.to_string());
    assert_eq!(write_tile(0), "0");
    assert_eq!(write_tile(-5), "-5");
    assert_eq!(write_tile(i32::MAX), "2147483647");
    assert_eq!(write_tile(i32::MIN), "-2147483648");
}

#[test]
fn digits_are_read_up_to_a_limit() {
    assert_eq!(read_digits(&text("123"), 0, 1000), Some(123));
    assert_eq!(read_digits(&text("x123"), 1, 123), Some(123));
    assert_eq!(read_digits(&text("124"), 0, 123), None);
    assert_eq!(read_digits(&text("007"), 0, 10), Some(7));
    assert_eq!(read_digits(&text(""), 0, 10), None);
    assert_eq!(read_digits(&text("12a"), 0, 1000), None);
    assert_eq!(read_digits(&text("99999999999999999999999"), 0, u64::MAX), None);
    assert_eq!(read_digits(&text("18446744073709551615"), 0, u64::MAX), Some(u64::MAX));
}

#[test]
fn unsigned_numbers_may_start_with_a_plus() {
    assert_eq!(read_unsigned("42"), Some(42));
    assert_eq!(read_unsigned("+42"), Some(42));
    assert_eq!(read_unsigned("-42"), None);
    assert_eq!(read_unsigned("+"), None);
    assert_eq!(read_unsigned(""), None);
    assert_eq!(read_unsigned("4 2"), None);
    assert_eq!(read_unsigned("١٢"), None);
    assert_eq!(read_unsigned(&usize::MAX.to_string()), Some(usize::MAX));
    assert_eq!(read_unsigned("340282366920938463463374607431768211456"), None);
}

#[test]
fn white_space_is_what_unicode_says() {
    for c in [' ', '\t', '\n', '\r', '\u{b}', '\u{c}', '\u{85}', '\u{a0}', '\u{1680}', '\u{2003}', '\u{2028}', '\u{3000}'] {
        assert!(space(c));
        assert!(c.is_whitespace());
    }
    for c in ['a', '0', ',', '\u{200b}', '\u{feff}', '\u{1f}'] {
        assert!(!space(c));
        assert!(!c.is_whitespace());
    }
}

#[test]
fn trimmed_drops_the_white_space_at_both_ends() {
    assert_eq!(trimmed(&text("  a b \n")), text("a b"));
    assert_eq!(trimmed(&text("ab")), text("ab"));
    assert_eq!(trimmed(&text(" \t ")), text(""));
    assert_eq!(trimmed(&text("")), text(""));
}

#[test]
fn split_at_cuts_at_every_separator() {
    assert_eq!(split_at(&text("a,b,,c"), ','), vec![text("a"), text("b"), text(""), text("c")]);
    assert_eq!(split_at(&text(""), ','), vec![text("")]);
    assert_eq!(split_at(&text(","), ','), vec![text(""), text("")]);
    assert_eq!(split_at(&text("abc"), ','), vec![text("abc")]);
}

#[test]
fn texts_are_compared_and_found() {
    assert!(same_text("abc", "abc"));
    assert!(!same_text("abc", "abd"));
    assert!(!same_text("abc", "ab"));
    let list = vec!["x".to_string(), "y".to_string(), "x".to_string()];
    assert_eq!(find_text(&list, "x"), Some(0));
    assert_eq!(find_text(&list, "y"), Some(1));
    assert_eq!(find_text(&list, "z"), None);
}

#[test]
fn a_line_is_cut_into_words_at_white_space() {
    assert_eq!(tokenize("  move   left 3 "), vec!["move", "left", "3"]);
    assert_eq!(tokenize("a\tb\nc"), vec!["a", "b", "c"]);
    assert_eq!(tokenize("word"), vec!["word"]);
    assert_eq!(tokenize("   "), Vec::<String>::new());
    assert_eq!(tokenize(""), Vec::<String>::new());
}

#[test]
fn export_map_writes_rows_as_lines_of_numbers() {
    assert_eq!(export_map(&vec![vec![1, 2, 3], vec![4, 5, 6]]), "1,2,3\n4,5,6");
    assert_eq!(export_map(&vec![vec![-1, 0]]), "-1,0");
    assert_eq!(export_map(&vec![vec![12]]), "12");
    assert_eq!(export_map(&Vec::new()), "");
    assert_eq!(export_map(&vec![vec![], vec![]]), "\n");
}

#[test]
fn parse_map_reads_rows_from_lines() {
    assert_eq!(parse_map("1,2\n3,4"), Ok(vec![vec![1, 2], vec![3, 4]]));
    assert_eq!(parse_map("1,2\n3,4\n"), Ok(vec![vec![1, 2], vec![3, 4]]));
    assert_eq!(parse_map("  7 \n"), Ok(vec![vec![7]]));
    assert_eq!(parse_map("+7,-3"), Ok(vec![vec![7, -3]]));
    assert_eq!(parse_map("007"), Ok(vec![vec![7]]));
    assert_eq!(parse_map("1,2\n3"), Ok(vec![vec![1, 2], vec![3]]));
    assert_eq!(parse_map("2147483647,-2147483648"), Ok(vec![vec![i32::MAX, i32::MIN]]));
}

#[test]
fn parse_map_refuses_what_is_no_grid() {
    assert_eq!(parse_map(""), Err(ParseError));
    assert_eq!(parse_map("   "), Err(ParseError));
    assert_eq!(parse_map("a"), Err(ParseError));
    assert_eq!(parse_map("1,,2"), Err(ParseError));
    assert_eq!(parse_map("1,2,"), Err(ParseError));
    assert_eq!(parse_map("1\n\n2"), Err(ParseError));
    assert_eq!(parse_map("1, 2"), Err(ParseError));
    assert_eq!(parse_map("1,2\r\n3,4"), Err(ParseError));
    assert_eq!(parse_map("2147483648"), Err(ParseError));
    assert_eq!(parse_map("-2147483649"), Err(ParseError));
    assert_eq!(parse_map("-"), Err(ParseError));
    assert_eq!(parse_map("1.5"), Err(ParseError));
}

#[test]
fn what_was_written_reads_back_as_the_same_grid() {
    let grids = vec![
        vec![vec![0]],
        vec![vec![1, 2, 3], vec![4, 5, 6]],
        vec![vec![-7, 100, 0], vec![i32::MAX, i32::MIN, 42]],
        vec![vec![5], vec![6], vec![7]],
        create_ramp(11, 9),
    ];
    for grid in grids {
        assert_eq!(parse_map(&export_map(&grid)), Ok(grid));
    }
}

fn create_ramp(width: usize, height: usize) -> Vec<Vec<i32>> {
    (0..height).map(|r| (0..width).map(|c| (r * width + c) as i32 - 20).collect()).collect()
}

#[test]
fn a_grid_without_cells_does_not_read_back() {
    assert_eq!(parse_map(&export_map(&vec![vec![]])), Err(ParseError));
}
