//! The palette: the tiles that can be painted, each with its number, its
//! name and its colour.

use crate::error::{EditError, ErrorView};
use crate::text::{
    chars_of, find_text, lowercase, position, read_digits, read_unsigned, to_lowercase,
    unsigned_of,
};
use vstd::prelude::*;

verus! {

/// A tile of the palette.
#[derive(Clone, Debug, PartialEq, Eq)]
pub struct Tile {
    pub id: i32,
    pub name: String,
    pub color: u32,
}

/// A tile of the palette, with a text in place of a string.
pub struct TileView {
    pub id: i32,
    pub name: Seq<char>,
    pub color: u32,
}

impl View for Tile {
    type V = TileView;

    open spec fn view(&self) -> TileView {
        TileView { id: self.id, name: self.name@, color: self.color }
    }
}

/// The palette.
#[derive(Clone, Debug, PartialEq, Eq)]
pub struct TileData {
    pub tiles: Vec<Tile>,
}

impl View for TileData {
    type V = Seq<TileView>;

    open spec fn view(&self) -> Seq<TileView> {
        Seq::new(self.tiles@.len(), |i: int| self.tiles@[i]@)
    }
}

/// The index of the first tile with the number `id`.
pub open spec fn index_of(tiles: Seq<TileView>, id: int) -> Option<int>
    decreases tiles.len(),
{
    if tiles.len() == 0 {
        None
    } else {
        match index_of(tiles.drop_last(), id) {
            Some(k) => Some(k),
            None => if tiles.last().id == id {
                Some(tiles.len() - 1)
            } else {
                None
            },
        }
    }
}

/// The first tile with the number `id` stands at the index given, and none
/// before it.
pub proof fn lemma_index_of(tiles: Seq<TileView>, id: int)
    ensures
        match index_of(tiles, id) {
            Some(k) => 0 <= k < tiles.len() && tiles[k].id == id && forall|j: int|
                0 <= j < k ==> tiles[j].id != id,
            None => forall|j: int| 0 <= j < tiles.len() ==> tiles[j].id != id,
        },
    decreases tiles.len(),
{
    if tiles.len() > 0 {
        lemma_index_of(tiles.drop_last(), id);
        assert forall|j: int| 0 <= j < tiles.len() - 1 implies tiles[j] == tiles.drop_last()[j] by {}
    }
}

/// The names of the tiles in lower case.
pub open spec fn lowered_names(tiles: Seq<TileView>) -> Seq<Seq<char>> {
    Seq::new(tiles.len(), |i: int| lowercase(tiles[i].name))
}

/// The tile that a word stands for, where `names` holds the names of the
/// tiles and `lowered` the word, both in lower case: the first tile with that
/// name; or else the tile with the number that the word writes.
pub open spec fn resolved(
    tiles: Seq<TileView>,
    names: Seq<Seq<char>>,
    lowered: Seq<char>,
    word: Seq<char>,
) -> Result<i32, ErrorView> {
    match position(names, lowered) {
        Some(k) => Ok(tiles[k].id),
        None => match unsigned_of(word, usize::MAX as nat) {
            Some(number) => if index_of(tiles, number as int) is Some {
                Ok(number as i32)
            } else {
                Err(ErrorView::TileNumber(number as usize))
            },
            None => Err(ErrorView::Tile(word)),
        },
    }
}

/// The tile that a word stands for: the first tile whose name is the word,
/// whatever the case of either; or else the tile with the number that the
/// word writes.
pub open spec fn tile_named(tiles: Seq<TileView>, word: Seq<char>) -> Result<i32, ErrorView> {
    resolved(tiles, lowered_names(tiles), lowercase(word), word)
}

/// What a result says, with texts in place of strings.
pub open spec fn answer<T>(r: Result<T, EditError>) -> Result<T, ErrorView> {
    match r {
        Ok(value) => Ok(value),
        Err(e) => Err(e@),
    }
}

impl TileData {
    /// The index of the first tile with the number `id`.
    pub fn find(&self, id: i32) -> (r: Option<usize>)
        ensures
            match r {
                Some(k) => index_of(self@, id as int) == Some(k as int) && k < self@.len(),
                None => index_of(self@, id as int) is None,
            },
    {
        let mut i: usize = 0;
        while i < self.tiles.len()
            invariant
                i <= self.tiles.len(),
                forall|j: int| 0 <= j < i ==> self@[j].id != id,
            decreases self.tiles.len() - i,
        {
            if self.tiles[i].id == id {
                proof {
                    lemma_index_of(self@, id as int);
                    assert(self@[i as int].id == id);
                }
                return Some(i);
            }
            i += 1;
        }
        proof {
            lemma_index_of(self@, id as int);
        }
        None
    }

    /// The name of the first tile with the number `id`.
    pub fn name_of(&self, id: i32) -> (r: Option<String>)
        ensures
            match index_of(self@, id as int) {
                Some(k) => r is Some && r->0@ == self@[k].name,
                None => r is None,
            },
    {
        match self.find(id) {
            Some(k) => {
                Some(self.tiles[k].name.clone())
            },
            None => None,
        }
    }

    /// The colour of the first tile with the number `id`.
    pub fn color_of(&self, id: i32) -> (r: Option<u32>)
        ensures
            match index_of(self@, id as int) {
                Some(k) => r == Some(self@[k].color),
                None => r is None,
            },
    {
        match self.find(id) {
            Some(k) => {
                Some(self.tiles[k].color)
            },
            None => None,
        }
    }
}

/// The tile that a word stands for, given the names of the tiles and the
/// word in lower case.
pub fn resolve(tiles: &TileData, names: &Vec<String>, lowered: &str, word: &str) -> (r: Result<
    i32,
    EditError,
>)
    requires
        names.len() == tiles@.len(),
    ensures
        answer(r) == resolved(tiles@, names.deep_view(), lowered@, word@),
{
    match find_text(names, lowered) {
        Some(k) => {
            Ok(tiles.tiles[k].id)
        },
        None => match read_unsigned(word) {
            Some(number) => {
                if number <= 0x7fff_ffff {
                    match tiles.find(number as i32) {
                        Some(_) => Ok(number as i32),
                        None => Err(EditError::TileNumber(number)),
                    }
                } else {
                    proof {
                        lemma_index_of(tiles@, number as int);
                    }
                    Err(EditError::TileNumber(number))
                }
            },
            None => Err(EditError::Tile(String::from_str(word))),
        },
    }
}

/// The tile that a word stands for: the first tile whose name is the word,
/// whatever the case of either; or else the tile with the number that the
/// word writes.
pub fn parse_tile(tiles: &TileData, tile: &str) -> (r: Result<i32, EditError>)
    ensures
        answer(r) == tile_named(tiles@, tile@),
{
    let lowered = to_lowercase(tile);
    let mut names: Vec<String> = Vec::new();
    let mut i: usize = 0;
    while i < tiles.tiles.len()
        invariant
            i <= tiles.tiles.len(),
            names.len() == i,
            forall|j: int| 0 <= j < i ==> (#[trigger] names@[j])@ == lowercase(tiles@[j].name),
        decreases tiles.tiles.len() - i,
    {
        names.push(to_lowercase(tiles.tiles[i].name.as_str()));
        i += 1;
    }
    assert(names.deep_view() =~= lowered_names(tiles@));
    resolve(tiles, &names, lowered.as_str(), tile)
}

/// What stands on the right of a line of a palette document.
#[derive(Clone, Debug, PartialEq, Eq)]
pub enum Field {
    /// A string.
    Text(String),
    /// A whole number.
    Integer(i64),
    /// Anything else.
    Other,
}

/// A line of a table of a palette document.
#[derive(Clone, Debug, PartialEq, Eq)]
pub struct Entry {
    pub key: String,
    pub value: Field,
}

/// What a palette document holds under a name at its top: the lines of a
/// table, or none where it is no table.
#[derive(Clone, Debug, PartialEq, Eq)]
pub struct Section {
    pub name: String,
    pub entries: Option<Vec<Entry>>,
}

/// What stands on the right of a line, with a text in place of a string.
pub enum FieldView {
    Text(Seq<char>),
    Integer(i64),
    Other,
}

/// A line of a table, with texts in place of strings.
pub struct EntryView {
    pub key: Seq<char>,
    pub value: FieldView,
}

/// What a document holds under a name, with texts in place of strings.
pub struct SectionView {
    pub name: Seq<char>,
    pub entries: Option<Seq<EntryView>>,
}

impl View for Field {
    type V = FieldView;

    open spec fn view(&self) -> FieldView {
        match self {
            Field::Text(text) => FieldView::Text(text@),
            Field::Integer(number) => FieldView::Integer(*number),
            Field::Other => FieldView::Other,
        }
    }
}

impl View for Entry {
    type V = EntryView;

    open spec fn view(&self) -> EntryView {
        EntryView { key: self.key@, value: self.value@ }
    }
}

/// The views of the lines of a table.
pub open spec fn entries_view(entries: Seq<Entry>) -> Seq<EntryView> {
    Seq::new(entries.len(), |i: int| entries[i]@)
}

impl View for Section {
    type V = SectionView;

    open spec fn view(&self) -> SectionView {
        SectionView {
            name: self.name@,
            entries: match self.entries {
                Some(entries) => Some(entries_view(entries@)),
                None => None,
            },
        }
    }
}

/// The views of what a document holds.
pub open spec fn document_view(doc: Option<Vec<Section>>) -> Option<Seq<SectionView>> {
    match doc {
        Some(sections) => Some(Seq::new(sections@.len(), |i: int| sections@[i]@)),
        None => None,
    }
}

/// What `toml::Table::from_str` makes of a text: nothing where the text is
/// no TOML document; else what the document holds under each name at its
/// top, in the order in which the table hands its entries out, a table with
/// its lines in that order too.
pub uninterp spec fn toml_sections(input: Seq<char>) -> Option<Seq<SectionView>>;

/// `toml::Table::from_str`, and the entries of the table and of the tables
/// in it handed out by `into_iter`: a string and a whole number are kept as
/// they are, any other value only as being there.
#[verifier::external_body]
pub(crate) fn read_document(input: &str) -> (doc: Option<Vec<Section>>)
    ensures
        document_view(doc) == toml_sections(input@),
{
    let table = input.parse::<toml::Table>().ok()?;
    Some(table.into_iter().map(|(name, value)| Section { name, entries: match value {
        toml::Value::Table(lines) => Some(lines.into_iter().map(|(key, value)| Entry { key, value: match value {
            toml::Value::String(text) => Field::Text(text),
            toml::Value::Integer(number) => Field::Integer(number),
            _ => Field::Other,
        } }).collect()),
        _ => None,
    } }).collect())
}

/// The names under which a document holds something.
pub open spec fn section_names(doc: Seq<SectionView>) -> Seq<Seq<char>> {
    Seq::new(doc.len(), |i: int| doc[i].name)
}

/// The lines of the first table that a document holds under a name.
pub open spec fn section_named(doc: Seq<SectionView>, name: Seq<char>) -> Option<Seq<EntryView>> {
    match position(section_names(doc), name) {
        Some(k) => doc[k].entries,
        None => None,
    }
}

/// The number of a tile that the left of a line writes.
pub open spec fn tile_number(key: Seq<char>) -> Option<i32> {
    match unsigned_of(key, 0x7fff_ffff) {
        Some(number) => Some(number as i32),
        None => None,
    }
}

/// The tile and the name that a line of the table of names gives.
pub open spec fn named(line: EntryView) -> Option<(i32, Seq<char>)> {
    match (tile_number(line.key), line.value) {
        (Some(id), FieldView::Text(name)) => Some((id, name)),
        _ => None,
    }
}

/// The tile and the colour that a line of the table of colours gives.
pub open spec fn colored(line: EntryView) -> Option<(i32, u32)> {
    match (tile_number(line.key), line.value) {
        (Some(id), FieldView::Integer(color)) => if 0 <= color <= u32::MAX {
            Some((id, color as u32))
        } else {
            None
        },
        _ => None,
    }
}

/// The colour that a line of the table of colours gives.
pub open spec fn color_at(line: EntryView) -> u32 {
    match colored(line) {
        Some(pair) => pair.1,
        None => 0,
    }
}

/// The index of the first line of the table of colours that gives a colour
/// to the tile.
pub open spec fn color_index(lines: Seq<EntryView>, id: i32) -> Option<int>
    decreases lines.len(),
{
    if lines.len() == 0 {
        None
    } else {
        match color_index(lines.drop_last(), id) {
            Some(k) => Some(k),
            None => if colored(lines.last()) matches Some(pair) && pair.0 == id {
                Some(lines.len() - 1)
            } else {
                None
            },
        }
    }
}

/// The first line that gives a colour to the tile stands at the index
/// given, and none before it.
pub proof fn lemma_color_index(lines: Seq<EntryView>, id: i32)
    ensures
        match color_index(lines, id) {
            Some(k) => 0 <= k < lines.len() && (colored(lines[k]) matches Some(pair) && pair.0
                == id) && forall|j: int|
                0 <= j < k ==> !(colored(#[trigger] lines[j]) matches Some(pair) && pair.0 == id),
            None => forall|j: int|
                0 <= j < lines.len() ==> !(colored(#[trigger] lines[j]) matches Some(pair) && pair.0
                    == id),
        },
    decreases lines.len(),
{
    if lines.len() > 0 {
        lemma_color_index(lines.drop_last(), id);
        assert forall|j: int| 0 <= j < lines.len() - 1 implies lines[j] == lines.drop_last()[j] by {}
    }
}

/// The tile that a line of the table of names and the table of colours
/// give together.
pub open spec fn tile_from(line: EntryView, colors: Seq<EntryView>) -> Option<TileView> {
    match named(line) {
        Some(pair) => match color_index(colors, pair.0) {
            Some(k) => Some(TileView { id: pair.0, name: pair.1, color: color_at(colors[k]) }),
            None => None,
        },
        None => None,
    }
}

/// The palette that a document holds: it must hold a table `names` and a
/// table `colors`; the left of every line of both must write the number of
/// a tile; the right must be a string in the first and a colour in the
/// second; and every tile named must have a colour. The tiles stand in the
/// order of the table of names.
pub open spec fn palette_of(doc: Seq<SectionView>) -> Option<Seq<TileView>> {
    match (section_named(doc, "names"@), section_named(doc, "colors"@)) {
        (Some(names), Some(colors)) => if (forall|i: int|
            0 <= i < colors.len() ==> colored(#[trigger] colors[i]) is Some) && (forall|i: int|
            0 <= i < names.len() ==> tile_from(#[trigger] names[i], colors) is Some) {
            Some(Seq::new(names.len(), |i: int| tile_from(names[i], colors)->0))
        } else {
            None
        },
        _ => None,
    }
}

/// The number of a tile that the left of a line writes.
fn read_number(key: &str) -> (r: Option<i32>)
    ensures
        r == tile_number(key@),
{
    let chars = chars_of(key);
    let from: usize = if chars.len() > 0 && chars[0] == '+' {
        1
    } else {
        0
    };
    proof {
        if from == 0 {
            assert(key@ =~= chars@.subrange(0, chars.len() as int));
        }
    }
    match read_digits(&chars, from, 0x7fff_ffff) {
        Some(n) => Some(n as i32),
        None => None,
    }
}

/// The tile and the colour that a line of the table of colours gives.
fn read_color(line: &Entry) -> (r: Option<(i32, u32)>)
    ensures
        r == colored(line@),
{
    match read_number(line.key.as_str()) {
        Some(id) => match &line.value {
            Field::Integer(color) => if 0 <= *color && *color <= 0xffff_ffff {
                Some((id, *color as u32))
            } else {
                None
            },
            _ => None,
        },
        None => None,
    }
}

/// The lines of the first table that a document holds under a name.
fn section<'a>(doc: &'a Vec<Section>, name: &str) -> (r: Option<&'a Vec<Entry>>)
    ensures
        match section_named(document_view(Some(*doc))->0, name@) {
            Some(lines) => r is Some && entries_view(r->0@) == lines,
            None => r is None,
        },
{
    let ghost view = document_view(Some(*doc))->0;
    let mut names: Vec<String> = Vec::new();
    let mut i: usize = 0;
    while i < doc.len()
        invariant
            i <= doc.len(),
            names.len() == i,
            forall|j: int| 0 <= j < i ==> (#[trigger] names@[j])@ == doc@[j]@.name,
        decreases doc.len() - i,
    {
        names.push(doc[i].name.clone());
        i += 1;
    }
    assert(names.deep_view() =~= section_names(view));
    match find_text(&names, name) {
        Some(k) => match &doc[k].entries {
            Some(lines) => Some(lines),
            None => None,
        },
        None => None,
    }
}

/// The palette that a document holds.
pub fn tile_data(doc: &Vec<Section>) -> (r: Option<TileData>)
    ensures
        match palette_of(document_view(Some(*doc))->0) {
            Some(tiles) => r is Some && r->0@ == tiles,
            None => r is None,
        },
{
    let ghost view = document_view(Some(*doc))->0;
    let names = match section(doc, "names") {
        Some(lines) => lines,
        None => {
            return None;
        },
    };
    let colors = match section(doc, "colors") {
        Some(lines) => lines,
        None => {
            return None;
        },
    };
    let ghost name_lines = entries_view(names@);
    let ghost color_lines = entries_view(colors@);
    let mut pairs: Vec<(i32, u32)> = Vec::new();
    let mut i: usize = 0;
    while i < colors.len()
        invariant
            i <= colors.len(),
            view == document_view(Some(*doc))->0,
            section_named(view, "names"@) == Some(name_lines),
            section_named(view, "colors"@) == Some(color_lines),
            color_lines == entries_view(colors@),
            pairs.len() == i,
            forall|j: int| 0 <= j < i ==> colored(#[trigger] color_lines[j]) == Some(pairs@[j]),
        decreases colors.len() - i,
    {
        assert(color_lines[i as int] == colors@[i as int]@);
        match read_color(&colors[i]) {
            Some(pair) => pairs.push(pair),
            None => {
                return None;
            },
        }
        i += 1;
    }
    let mut tiles: Vec<Tile> = Vec::new();
    let mut i: usize = 0;
    while i < names.len()
        invariant
            i <= names.len(),
            view == document_view(Some(*doc))->0,
            section_named(view, "names"@) == Some(name_lines),
            section_named(view, "colors"@) == Some(color_lines),
            name_lines == entries_view(names@),
            color_lines == entries_view(colors@),
            pairs.len() == colors.len(),
            forall|j: int|
                0 <= j < colors.len() ==> colored(#[trigger] color_lines[j]) == Some(pairs@[j]),
            tiles.len() == i,
            forall|j: int|
                0 <= j < i ==> tile_from(#[trigger] name_lines[j], color_lines) == Some(tiles@[j]@),
        decreases names.len() - i,
    {
        let line = &names[i];
        assert(name_lines[i as int] == line@);
        let id = match read_number(line.key.as_str()) {
            Some(id) => id,
            None => {
                return None;
            },
        };
        let name = match &line.value {
            Field::Text(name) => name.clone(),
            _ => {
                return None;
            },
        };
        let mut k: usize = 0;
        let mut color: Option<u32> = None;
        while k < pairs.len() && color.is_none()
            invariant
                k <= pairs.len(),
                pairs.len() == colors.len(),
                color_lines == entries_view(colors@),
                forall|j: int|
                    0 <= j < colors.len() ==> colored(#[trigger] color_lines[j]) == Some(pairs@[j]),
                color is None ==> forall|j: int| 0 <= j < k ==> (#[trigger] pairs@[j]).0 != id,
                color is Some ==> 0 < k && pairs@[k - 1].0 == id && color->0 == pairs@[k - 1].1
                    && forall|j: int| 0 <= j < k - 1 ==> (#[trigger] pairs@[j]).0 != id,
            decreases pairs.len() - k,
        {
            if pairs[k].0 == id {
                color = Some(pairs[k].1);
            }
            k += 1;
        }
        proof {
            lemma_color_index(color_lines, id);
            if color is Some {
                assert(colored(color_lines[k - 1]) == Some(pairs@[k - 1]));
            }
        }
        match color {
            Some(color) => tiles.push(Tile { id, name, color }),
            None => {
                return None;
            },
        }
        i += 1;
    }
    let out = TileData { tiles };
    Some(out)
}

/// The palette that a palette document holds: a TOML document with a table
/// `names`, which gives each tile its name, and a table `colors`, which gives
/// each tile its colour.
pub fn parse_tile_data(input: &str) -> (r: Option<TileData>)
    ensures
        match toml_sections(input@) {
            Some(doc) => match palette_of(doc) {
                Some(tiles) => r is Some && r->0@ == tiles,
                None => r is None,
            },
            None => r is None,
        },
{
    match read_document(input) {
        Some(doc) => tile_data(&doc),
        None => None,
    }
}

} // verus!
