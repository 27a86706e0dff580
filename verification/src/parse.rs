//! The text form of a grid: one line for each row, the tiles of a row
//! written in decimal and parted by commas.

use crate::map::lemma_row_view;
use crate::text::{
    all_chars, chars_of, decimal, free_of, is_digit, is_space, joined, lemma_joined_chars,
    lemma_signed_decimal, lemma_split_joined, push_decimal, read_digits, signed_decimal, signed_of,
    split, split_at, string_of, texts, trim, trimmed,
};
use itertools::Itertools;
use vstd::prelude::*;

verus! {

/// A text that is not the text form of a grid.
#[derive(Clone, Copy, Debug, PartialEq, Eq, Structural)]
pub struct ParseError;

/// `Itertools::join` on an iterator over the strings: the strings in order,
/// with `sep` between each two of them, and nothing where there is none.
#[verifier::external_body]
pub(crate) fn join(parts: &Vec<String>, sep: &str) -> (out: String)
    requires
        sep@.len() <= 1,
    ensures
        out@ == joined(parts.deep_view(), sep@),
{
    parts.iter().join(sep)
}

/// The text of a tile.
pub open spec fn tile_text(tile: i32) -> Seq<char> {
    signed_decimal(tile as int)
}

/// The text of a row: its tiles with a comma between each two.
pub open spec fn row_text(row: Seq<i32>) -> Seq<char> {
    joined(Seq::new(row.len(), |i: int| tile_text(row[i])), seq![','])
}

/// The text of a grid: its rows with a line feed between each two.
pub open spec fn grid_text(grid: Seq<Seq<i32>>) -> Seq<char> {
    joined(Seq::new(grid.len(), |i: int| row_text(grid[i])), seq!['\n'])
}

/// The tile that a text stands for: a decimal number, with or without a
/// sign, that a tile can hold.
pub open spec fn tile_of(s: Seq<char>) -> Option<i32> {
    match signed_of(s, 0x8000_0000, 0x7fff_ffff) {
        Some(i) => Some(i as i32),
        None => None,
    }
}

/// The row that a line stands for: one tile for each piece between commas,
/// if every piece stands for a tile.
pub open spec fn row_of(line: Seq<char>) -> Option<Seq<i32>> {
    let pieces = split(line, ',');
    if forall|i: int| 0 <= i < pieces.len() ==> (#[trigger] tile_of(pieces[i])) is Some {
        Some(Seq::new(pieces.len(), |i: int| tile_of(pieces[i])->0))
    } else {
        None
    }
}

/// The grid that a text stands for: one row for each line of the text
/// without the white space at its ends, if every line stands for a row.
pub open spec fn grid_of(text: Seq<char>) -> Option<Seq<Seq<i32>>> {
    let lines = split(trim(text), '\n');
    if forall|i: int| 0 <= i < lines.len() ==> (#[trigger] row_of(lines[i])) is Some {
        Some(Seq::new(lines.len(), |i: int| row_of(lines[i])->0))
    } else {
        None
    }
}

/// Writes a tile in decimal.
pub fn write_tile(tile: i32) -> (out: String)
    ensures
        out@ == tile_text(tile),
{
    let mut chars: Vec<char> = Vec::new();
    if tile < 0 {
        chars.push('-');
        let size: u64 = (-(tile as i64)) as u64;
        push_decimal(&mut chars, size);
    } else {
        push_decimal(&mut chars, tile as u64);
    }
    string_of(&chars)
}

/// The text form of a grid.
pub fn export_map(map: &Vec<Vec<i32>>) -> (out: String)
    ensures
        out@ == grid_text(map.deep_view()),
{
    broadcast use lemma_row_view;

    proof {
        reveal_strlit(",");
        reveal_strlit("\n");
        assert("\n"@ =~= seq!['\n']);
    }
    let mut lines: Vec<String> = Vec::new();
    let mut r: usize = 0;
    while r < map.len()
        invariant
            r <= map.len(),
            ","@ == seq![','],
            lines.len() == r,
            forall|i: int| 0 <= i < r ==> (#[trigger] lines@[i])@ == row_text(map.deep_view()[i]),
        decreases map.len() - r,
    {
        let mut words: Vec<String> = Vec::new();
        let mut c: usize = 0;
        while c < map[r].len()
            invariant
                r < map.len(),
                c <= map[r as int].len(),
                words.len() == c,
                forall|i: int| 0 <= i < c ==> (#[trigger] words@[i])@ == tile_text(map@[r as int]@[i]),
            decreases map[r as int].len() - c,
        {
            words.push(write_tile(map[r][c]));
            c += 1;
        }
        let line = join(&words, ",");
        assert(words.deep_view() =~= Seq::new(
            map.deep_view()[r as int].len(),
            |i: int| tile_text(map.deep_view()[r as int][i]),
        ));
        lines.push(line);
        r += 1;
    }
    assert(lines.deep_view() =~= Seq::new(
        map.deep_view().len(),
        |i: int| row_text(map.deep_view()[i]),
    ));
    join(&lines, "\n")
}

/// Reads a tile.
fn read_tile(s: &Vec<char>) -> (r: Option<i32>)
    ensures
        r == tile_of(s@),
{
    if s.len() > 0 && s[0] == '-' {
        match read_digits(s, 1, 0x8000_0000) {
            Some(size) => Some((-(size as i64)) as i32),
            None => None,
        }
    } else if s.len() > 0 && s[0] == '+' {
        match read_digits(s, 1, 0x7fff_ffff) {
            Some(size) => Some(size as i32),
            None => None,
        }
    } else {
        assert(s@ =~= s@.subrange(0, s.len() as int));
        match read_digits(s, 0, 0x7fff_ffff) {
            Some(size) => Some(size as i32),
            None => None,
        }
    }
}

/// Reads a row.
fn read_row(line: &Vec<char>) -> (r: Option<Vec<i32>>)
    ensures
        match row_of(line@) {
            Some(row) => r is Some && r->0@ == row,
            None => r is None,
        },
        r is Some ==> r->0.len() >= 1,
{
    let pieces = split_at(line, ',');
    let mut row: Vec<i32> = Vec::new();
    let mut i: usize = 0;
    while i < pieces.len()
        invariant
            i <= pieces.len(),
            texts(pieces@) == split(line@, ','),
            row.len() == i,
            forall|k: int| 0 <= k < i ==> tile_of(#[trigger] split(line@, ',')[k]) == Some(row@[k]),
        decreases pieces.len() - i,
    {
        assert(texts(pieces@)[i as int] == pieces@[i as int]@);
        match read_tile(&pieces[i]) {
            Some(tile) => {
                row.push(tile);
            },
            None => {
                return None;
            },
        }
        i += 1;
    }
    Some(row)
}

/// Reads the text form of a grid. The white space at the ends of the text
/// is passed over; every line must hold at least one tile, and nothing but
/// tiles and the commas between them.
pub fn parse_map(input: &str) -> (r: Result<Vec<Vec<i32>>, ParseError>)
    ensures
        match grid_of(input@) {
            Some(grid) => r is Ok && r->Ok_0.deep_view() == grid,
            None => r is Err,
        },
        r is Ok ==> r->Ok_0.len() >= 1 && forall|i: int|
            0 <= i < r->Ok_0.len() ==> (#[trigger] r->Ok_0.deep_view()[i]).len() >= 1,
{
    broadcast use lemma_row_view;

    let chars = chars_of(input);
    let body = trimmed(&chars);
    let lines = split_at(&body, '\n');
    let mut map: Vec<Vec<i32>> = Vec::new();
    let mut i: usize = 0;
    while i < lines.len()
        invariant
            i <= lines.len(),
            body@ == trim(input@),
            texts(lines@) == split(body@, '\n'),
            map.len() == i,
            forall|k: int|
                0 <= k < i ==> row_of(#[trigger] split(body@, '\n')[k]) == Some(map@[k]@)
                    && map@[k]@.len() >= 1,
        decreases lines.len() - i,
    {
        assert(texts(lines@)[i as int] == lines@[i as int]@);
        match read_row(&lines[i]) {
            Some(row) => {
                map.push(row);
            },
            None => {
                return Err(ParseError);
            },
        }
        i += 1;
    }
    Ok(map)
}

/// A character that the text of a row is made of.
pub open spec fn row_char(c: char) -> bool {
    is_digit(c) || c == '-' || c == ','
}

/// The text of a row that is not empty reads back as the row; it holds no
/// line feed, and neither starts nor ends with white space.
pub proof fn lemma_row_round_trip(row: Seq<i32>)
    requires
        row.len() > 0,
    ensures
        row_of(row_text(row)) == Some(row),
        row_text(row).len() > 0,
        all_chars(row_text(row), |c: char| row_char(c)),
        !is_space(row_text(row).first()),
        !is_space(row_text(row).last()),
{
    let words = Seq::new(row.len(), |i: int| tile_text(row[i]));
    let test = |c: char| row_char(c);
    assert forall|i: int| 0 <= i < words.len() implies free_of(#[trigger] words[i], ',')
        && words[i].len() > 0 && all_chars(words[i], test) && tile_of(words[i]) == Some(row[i])
        && !is_space(words[i].first()) && !is_space(words[i].last()) by {
        lemma_signed_decimal(row[i] as int, 0x8000_0000, 0x7fff_ffff);
        let w = words[i];
        assert forall|k: int| 0 <= k < w.len() implies #[trigger] w[k] != ',' && test(w[k])
            && !is_space(w[k]) by {
        }
    }
    lemma_split_joined(words, ',');
    lemma_joined_chars(words, seq![','], test);
    let text = row_text(row);
}

/// Reading what was written gives the grid back: the text form of a grid
/// with at least one row and no empty row stands for that grid.
pub proof fn lemma_round_trip(grid: Seq<Seq<i32>>)
    requires
        grid.len() > 0,
        forall|r: int| 0 <= r < grid.len() ==> (#[trigger] grid[r]).len() > 0,
    ensures
        grid_of(grid_text(grid)) == Some(grid),
{
    let lines = Seq::new(grid.len(), |i: int| row_text(grid[i]));
    let test = |c: char| row_char(c) || c == '\n';
    assert forall|i: int| 0 <= i < lines.len() implies free_of(#[trigger] lines[i], '\n')
        && lines[i].len() > 0 && all_chars(lines[i], test) && row_of(lines[i]) == Some(grid[i])
        by {
        lemma_row_round_trip(grid[i]);
    }
    lemma_split_joined(lines, '\n');
    lemma_joined_chars(lines, seq!['\n'], test);
}

} // verus!
