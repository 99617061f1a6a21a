//! The symbol level format: one character for each tile, one line for each
//! row. Blank lines and lines that begin with `//` are not part of the grid.

use vstd::prelude::*;
use crate::constants::EMPTY_TILE;
use crate::error::LevelError;
use crate::level::{reads_as, LevelData, LevelView};
use crate::symbol_map::{
    default_mappings, forward_of, lemma_reverse_of_complete, lemma_reverse_of_consistent, reverse_of,
    symbol_map_of, LevelSymbolMap,
};
use crate::text::{
    chars_of, is_plain_line, lemma_lines_of_unlines, lemma_unlines_push, lines_of, lines_of_chars,
    trim_range, trimmed, unlines,
};

verus! {

// ---------------------------------------------------------------------------
// What a text says
// ---------------------------------------------------------------------------

/// Whether a line is no part of the grid: without the white space around it,
/// it is empty or begins with `//`.
pub open spec fn is_ignored_line(line: Seq<char>) -> bool {
    let t = trimmed(line);
    t.len() == 0 || (t.len() >= 2 && t[0] == '/' && t[1] == '/')
}

/// The lines that are part of the grid, in order.
pub open spec fn kept_lines(lines: Seq<Seq<char>>) -> Seq<Seq<char>>
    decreases lines.len(),
{
    if lines.len() == 0 {
        Seq::empty()
    } else {
        let rest = kept_lines(lines.drop_last());
        if is_ignored_line(lines.last()) {
            rest
        } else {
            rest.push(lines.last())
        }
    }
}

/// The length, in characters, of the longest of `lines`.
pub open spec fn max_len(lines: Seq<Seq<char>>) -> nat
    decreases lines.len(),
{
    if lines.len() == 0 {
        0
    } else {
        let rest = max_len(lines.drop_last());
        if lines.last().len() > rest {
            lines.last().len()
        } else {
            rest
        }
    }
}

/// The tile that `symbol` stands for; a character that stands for none
/// gives the empty tile.
pub open spec fn symbol_tile(forward: Map<char, u32>, symbol: char) -> u32 {
    if forward.contains_key(symbol) {
        forward[symbol]
    } else {
        EMPTY_TILE
    }
}

/// The row of `width` tiles that a line says: the cells to the right of the
/// line's last character are empty.
pub open spec fn symbol_row(line: Seq<char>, width: nat, forward: Map<char, u32>) -> Seq<u32> {
    Seq::new(
        width,
        |x: int|
            if x < line.len() {
                symbol_tile(forward, line[x])
            } else {
                EMPTY_TILE
            },
    )
}

/// What a symbol text says: a level as high as there are lines in the grid
/// and as wide as the longest of them, or `EmptyInput` when no line is part of
/// the grid. A grid with more than `u32::MAX` rows or columns is refused as a
/// `ShapeMismatch` that tells that limit and the count found.
pub open spec fn parse_symbols(text: Seq<char>, forward: Map<char, u32>) -> Result<
    LevelView,
    LevelError,
> {
    let lines = kept_lines(lines_of(text));
    let width = max_len(lines);
    if lines.len() == 0 {
        Err(LevelError::EmptyInput)
    } else if lines.len() > u32::MAX {
        Err(LevelError::ShapeMismatch { expected: u32::MAX as u64, got: lines.len() as u64, line: 0 })
    } else if width > u32::MAX {
        Err(LevelError::ShapeMismatch { expected: u32::MAX as u64, got: width as u64, line: 0 })
    } else {
        Ok(
            LevelView {
                width,
                height: lines.len(),
                rows: lines.map_values(|line: Seq<char>| symbol_row(line, width, forward)),
            },
        )
    }
}

/// The position of the first character of `line` that stands for no tile,
/// or the length of `line` when each stands for one.
pub open spec fn first_unknown_symbol(line: Seq<char>, forward: Map<char, u32>) -> int
    decreases line.len(),
{
    if line.len() == 0 || !forward.contains_key(line[0]) {
        0
    } else {
        1 + first_unknown_symbol(line.drop_first(), forward)
    }
}

/// The first thing wrong with one line of the grid: a length other than
/// `expected`, else a character that stands for no tile.
pub open spec fn symbol_line_error(
    line: Seq<char>,
    expected: nat,
    line_no: u64,
    forward: Map<char, u32>,
) -> Option<LevelError> {
    let bad = first_unknown_symbol(line, forward);
    if line.len() != expected {
        Some(
            LevelError::ShapeMismatch {
                expected: expected as u64,
                got: line.len() as u64,
                line: line_no,
            },
        )
    } else if bad < line.len() {
        Some(LevelError::UnknownSymbol { ch: line[bad], line: line_no, col: (bad + 1) as u64 })
    } else {
        None
    }
}

/// The first thing wrong with the first `count` lines of the grid, taken
/// from the top; each line must be as long as the first.
pub open spec fn symbol_lines_error(lines: Seq<Seq<char>>, count: nat, forward: Map<char, u32>) -> Option<
    LevelError,
>
    decreases count,
{
    if count == 0 {
        None
    } else {
        match symbol_lines_error(lines, (count - 1) as nat, forward) {
            Some(e) => Some(e),
            None => symbol_line_error(lines[count - 1], lines[0].len(), count as u64, forward),
        }
    }
}

/// Whether a symbol text is a rectangle of known characters: `EmptyInput`
/// when no line is part of the grid, else the first thing wrong with the
/// lines of the grid. Lines are numbered within the grid, from one.
pub open spec fn validate_symbols(text: Seq<char>, forward: Map<char, u32>) -> Result<(), LevelError> {
    let lines = kept_lines(lines_of(text));
    if lines.len() == 0 {
        Err(LevelError::EmptyInput)
    } else {
        match symbol_lines_error(lines, lines.len(), forward) {
            Some(e) => Err(e),
            None => Ok(()),
        }
    }
}

/// The character that is written for `tile`: `'?'` for a tile that has none.
pub open spec fn symbol_char(reverse: Map<u32, char>, tile: u32) -> char {
    if reverse.contains_key(tile) {
        reverse[tile]
    } else {
        '?'
    }
}

/// One row as a line of characters.
pub open spec fn symbol_line(row: Seq<u32>, reverse: Map<u32, char>) -> Seq<char> {
    row.map_values(|tile: u32| symbol_char(reverse, tile))
}

/// The lines of a level's symbol text.
pub open spec fn symbol_lines(level: LevelView, reverse: Map<u32, char>) -> Seq<Seq<char>> {
    level.rows.map_values(|row: Seq<u32>| symbol_line(row, reverse))
}

/// A level as symbol text: one line for each row, each ended by a line feed.
pub open spec fn symbols_text(level: LevelView, reverse: Map<u32, char>) -> Seq<char> {
    unlines(symbol_lines(level, reverse))
}

// ---------------------------------------------------------------------------
// Reading
// ---------------------------------------------------------------------------

/// Whether a line is no part of the grid.
fn line_is_ignored(line: &Vec<char>) -> (ignored: bool)
    ensures
        ignored == is_ignored_line(line@),
{
    let (a, b) = trim_range(line, 0, line.len());
    assert(line@.subrange(0, line@.len() as int) =~= line@);
    let ghost t = trimmed(line@);
    if a == b {
        true
    } else if b - a >= 2 {
        assert(t[0] == line@[a as int]);
        assert(t[1] == line@[a + 1]);
        line[a] == '/' && line[a + 1] == '/'
    } else {
        false
    }
}

/// A copy of `line`.
fn copy_line(line: &Vec<char>) -> (copy: Vec<char>)
    ensures
        copy@ == line@,
{
    let mut copy: Vec<char> = Vec::new();
    let mut i: usize = 0;
    while i < line.len()
        invariant
            i <= line@.len(),
            copy@ == line@.take(i as int),
        decreases line@.len() - i,
    {
        copy.push(line[i]);
        i = i + 1;
        assert(copy@ =~= line@.take(i as int));
    }
    assert(line@.take(line@.len() as int) =~= line@);
    copy
}

/// The lines of `text` that are part of the grid.
fn grid_lines(text: &str) -> (kept: Vec<Vec<char>>)
    ensures
        kept@.map_values(|l: Vec<char>| l@) == kept_lines(lines_of(text@)),
{
    let chars = chars_of(text);
    let lines = lines_of_chars(&chars);
    let ghost all = lines_of(text@);
    let mut kept: Vec<Vec<char>> = Vec::new();
    let mut i: usize = 0;
    assert(kept@.map_values(|l: Vec<char>| l@) =~= kept_lines(all.take(0)));
    while i < lines.len()
        invariant
            i <= lines@.len(),
            all == lines@.map_values(|l: Vec<char>| l@),
            kept@.map_values(|l: Vec<char>| l@) == kept_lines(all.take(i as int)),
        decreases lines@.len() - i,
    {
        let ghost before = kept@.map_values(|l: Vec<char>| l@);
        proof {
            assert(all.take(i + 1).drop_last() =~= all.take(i as int));
            assert(all.take(i + 1).last() == lines@[i as int]@);
        }
        if !line_is_ignored(&lines[i]) {
            let line = copy_line(&lines[i]);
            proof {
                assert(kept@.push(line).map_values(|l: Vec<char>| l@) =~= before.push(line@));
            }
            kept.push(line);
        }
        i = i + 1;
    }
    assert(all.take(lines@.len() as int) =~= all);
    kept
}

/// The length of the longest of `lines`.
fn longest(lines: &Vec<Vec<char>>) -> (width: usize)
    ensures
        width == max_len(lines@.map_values(|l: Vec<char>| l@)),
{
    let ghost texts = lines@.map_values(|l: Vec<char>| l@);
    let mut width: usize = 0;
    let mut i: usize = 0;
    assert(texts.take(0) =~= Seq::<Seq<char>>::empty());
    while i < lines.len()
        invariant
            i <= lines@.len(),
            texts == lines@.map_values(|l: Vec<char>| l@),
            width == max_len(texts.take(i as int)),
        decreases lines@.len() - i,
    {
        proof {
            assert(texts.take(i + 1).drop_last() =~= texts.take(i as int));
            assert(texts.take(i + 1).last() == lines@[i as int]@);
        }
        if lines[i].len() > width {
            width = lines[i].len();
        }
        i = i + 1;
    }
    assert(texts.take(lines@.len() as int) =~= texts);
    width
}

/// The row of `width` tiles that `line` says.
fn read_symbol_row(line: &Vec<char>, width: u32, symbol_map: &LevelSymbolMap) -> (row: Vec<u32>)
    ensures
        row@ == symbol_row(line@, width as nat, symbol_map@.forward),
{
    let mut row: Vec<u32> = Vec::new();
    let mut x: u32 = 0;
    while x < width
        invariant
            x <= width,
            row@ == symbol_row(line@, x as nat, symbol_map@.forward),
        decreases width - x,
    {
        let tile = if (x as usize) < line.len() {
            match symbol_map.get_tile(line[x as usize]) {
                Some(tile) => tile,
                None => EMPTY_TILE,
            }
        } else {
            EMPTY_TILE
        };
        row.push(tile);
        x = x + 1;
        assert(row@ =~= symbol_row(line@, x as nat, symbol_map@.forward));
    }
    row
}

/// Reads a level from symbol text, with the alphabet `symbol_map`. The level
/// is the one the text says; a character that stands for no tile reads as
/// the empty tile.
pub fn parse_level_from_symbols_with_map(text: &str, symbol_map: &LevelSymbolMap) -> (level: Result<
    LevelData,
    LevelError,
>)
    ensures
        reads_as(level, parse_symbols(text@, symbol_map@.forward)),
{
    let lines = grid_lines(text);
    let ghost texts = kept_lines(lines_of(text@));
    if lines.len() == 0 {
        return Err(LevelError::EmptyInput);
    }
    if lines.len() as u64 > u32::MAX as u64 {
        return Err(
            LevelError::ShapeMismatch { expected: u32::MAX as u64, got: lines.len() as u64, line: 0 },
        );
    }
    let longest_line = longest(&lines);
    if longest_line as u64 > u32::MAX as u64 {
        return Err(
            LevelError::ShapeMismatch { expected: u32::MAX as u64, got: longest_line as u64, line: 0 },
        );
    }
    let height: u32 = lines.len() as u32;
    let width: u32 = longest_line as u32;
    let ghost forward = symbol_map@.forward;
    let mut tiles: Vec<Vec<u32>> = Vec::new();
    let mut y: usize = 0;
    while y < lines.len()
        invariant
            y <= lines@.len(),
            texts == lines@.map_values(|l: Vec<char>| l@),
            forward == symbol_map@.forward,
            tiles@.len() == y,
            forall|i: int| 0 <= i < y ==> (#[trigger] tiles@[i])@ == symbol_row(texts[i], width as nat, forward),
        decreases lines@.len() - y,
    {
        assert(texts[y as int] == lines@[y as int]@);
        let row = read_symbol_row(&lines[y], width, symbol_map);
        tiles.push(row);
        y = y + 1;
    }
    let level = LevelData { width, height, tiles };
    proof {
        let rows = texts.map_values(|line: Seq<char>| symbol_row(line, width as nat, forward));
        assert forall|i: int| 0 <= i < rows.len() implies level@.rows[i] == rows[i] by {
            assert(level@.rows[i] == level.tiles@[i]@);
        }
        assert(level@.rows =~= rows);
    }
    Ok(level)
}

/// Reads a level from symbol text, with the default alphabet.
pub fn parse_level_from_symbols(text: &str) -> (level: Result<LevelData, LevelError>)
    ensures
        reads_as(level, parse_symbols(text@, symbol_map_of(default_mappings()).forward)),
{
    let symbol_map = LevelSymbolMap::new();
    parse_level_from_symbols_with_map(text, &symbol_map)
}

/// `first_unknown_symbol` finds exactly the first character that stands for
/// no tile.
proof fn lemma_first_unknown_symbol(line: Seq<char>, forward: Map<char, u32>, k: int)
    requires
        0 <= k <= line.len(),
        forall|i: int| 0 <= i < k ==> forward.contains_key(#[trigger] line[i]),
        k < line.len() ==> !forward.contains_key(line[k]),
    ensures
        first_unknown_symbol(line, forward) == k,
    decreases k,
{
    if k > 0 {
        let rest = line.drop_first();
        assert(forward.contains_key(line[0]));
        assert forall|i: int| 0 <= i < k - 1 implies forward.contains_key(#[trigger] rest[i]) by {
            assert(rest[i] == line[i + 1]);
        }
        lemma_first_unknown_symbol(rest, forward, k - 1);
    }
}

/// Checks one line of the grid.
fn check_symbol_line(line: &Vec<char>, expected: usize, line_no: u64, symbol_map: &LevelSymbolMap) -> (error: Option<
    LevelError,
>)
    ensures
        error == symbol_line_error(line@, expected as nat, line_no, symbol_map@.forward),
{
    if line.len() != expected {
        return Some(
            LevelError::ShapeMismatch {
                expected: expected as u64,
                got: line.len() as u64,
                line: line_no,
            },
        );
    }
    let ghost forward = symbol_map@.forward;
    let mut j: usize = 0;
    while j < line.len()
        invariant
            j <= line@.len(),
            line@.len() == expected,
            forward == symbol_map@.forward,
            forall|i: int| 0 <= i < j ==> forward.contains_key(#[trigger] line@[i]),
        decreases line@.len() - j,
    {
        let ch = line[j];
        if symbol_map.get_tile(ch).is_none() {
            proof {
                lemma_first_unknown_symbol(line@, forward, j as int);
            }
            return Some(LevelError::UnknownSymbol { ch, line: line_no, col: (j + 1) as u64 });
        }
        j = j + 1;
    }
    proof {
        lemma_first_unknown_symbol(line@, forward, line@.len() as int);
    }
    None
}

/// Once a line is wrong, checking more lines reports the same error.
proof fn lemma_symbol_lines_error_stays(lines: Seq<Seq<char>>, k: nat, n: nat, forward: Map<char, u32>)
    requires
        k <= n,
        symbol_lines_error(lines, k, forward) is Some,
    ensures
        symbol_lines_error(lines, n, forward) == symbol_lines_error(lines, k, forward),
    decreases n,
{
    if k < n {
        lemma_symbol_lines_error_stays(lines, k, (n - 1) as nat, forward);
    }
}

/// Checks that a symbol text is a rectangle of characters of the alphabet
/// `symbol_map`. It is accepted when at least one line is part of the grid,
/// each such line is as long as the first, and each of their characters
/// stands for a tile; otherwise the first thing wrong is reported.
pub fn validate_symbol_level_with_map(text: &str, symbol_map: &LevelSymbolMap) -> (checked: Result<
    (),
    LevelError,
>)
    ensures
        checked == validate_symbols(text@, symbol_map@.forward),
{
    let lines = grid_lines(text);
    let ghost texts = kept_lines(lines_of(text@));
    let ghost forward = symbol_map@.forward;
    if lines.len() == 0 {
        return Err(LevelError::EmptyInput);
    }
    let expected = lines[0].len();
    assert(texts[0] == lines@[0]@);
    let mut i: usize = 0;
    while i < lines.len()
        invariant
            i <= lines@.len(),
            lines@.len() >= 1,
            texts == kept_lines(lines_of(text@)),
            texts == lines@.map_values(|l: Vec<char>| l@),
            forward == symbol_map@.forward,
            expected == texts[0].len(),
            symbol_lines_error(texts, i as nat, forward) is None,
        decreases lines@.len() - i,
    {
        assert(texts[i as int] == lines@[i as int]@);
        match check_symbol_line(&lines[i], expected, i as u64 + 1, symbol_map) {
            Some(e) => {
                proof {
                    assert(symbol_lines_error(texts, (i + 1) as nat, forward) == Some(e));
                    lemma_symbol_lines_error_stays(texts, (i + 1) as nat, texts.len(), forward);
                }
                return Err(e);
            },
            None => {},
        }
        i = i + 1;
    }
    Ok(())
}

/// Checks that a symbol text is a rectangle of characters of the default
/// alphabet.
pub fn validate_symbol_level(text: &str) -> (checked: Result<(), LevelError>)
    ensures
        checked == validate_symbols(text@, symbol_map_of(default_mappings()).forward),
{
    let symbol_map = LevelSymbolMap::new();
    validate_symbol_level_with_map(text, &symbol_map)
}

// ---------------------------------------------------------------------------
// Writing
// ---------------------------------------------------------------------------

/// Writes a level as symbol text, with the alphabet `symbol_map`: one
/// character for each tile, `'?'` for a tile that has none, and a line feed
/// after each row.
pub fn level_to_symbols_with_map(level_data: &LevelData, symbol_map: &LevelSymbolMap) -> (text: String)
    ensures
        text@ == symbols_text(level_data@, symbol_map@.reverse),
{
    let ghost reverse = symbol_map@.reverse;
    let ghost lines = symbol_lines(level_data@, reverse);
    let mut text = String::new();
    let mut y: usize = 0;
    proof {
        assert(lines.take(0) =~= Seq::<Seq<char>>::empty());
        assert(text@ =~= unlines(lines.take(0)));
    }
    while y < level_data.tiles.len()
        invariant
            y <= level_data.tiles@.len(),
            reverse == symbol_map@.reverse,
            lines == symbol_lines(level_data@, reverse),
            text@ == unlines(lines.take(y as int)),
        decreases level_data.tiles@.len() - y,
    {
        let row = &level_data.tiles[y];
        let ghost line = symbol_line(row@, reverse);
        let ghost start = text@;
        let mut x: usize = 0;
        while x < row.len()
            invariant
                x <= row@.len(),
                reverse == symbol_map@.reverse,
                line == symbol_line(row@, reverse),
                text@ == start + line.take(x as int),
            decreases row@.len() - x,
        {
            let symbol = match symbol_map.get_symbol(row[x]) {
                Some(symbol) => symbol,
                None => '?',
            };
            text.push(symbol);
            x = x + 1;
            assert(text@ =~= start + line.take(x as int));
        }
        text.push('\n');
        proof {
            assert(line.take(row@.len() as int) =~= line);
            assert(level_data@.rows[y as int] == row@);
            assert(lines[y as int] == line);
            lemma_unlines_push(lines.take(y as int), line);
            assert(lines.take(y as int).push(line) =~= lines.take(y + 1));
            assert(text@ =~= unlines(lines.take(y as int)) + line + seq!['\n']);
        }
        y = y + 1;
    }
    assert(lines.take(level_data.tiles@.len() as int) =~= lines);
    text
}

/// Writes a level as symbol text, with the default alphabet.
pub fn level_to_symbols(level_data: &LevelData) -> (text: String)
    ensures
        text@ == symbols_text(level_data@, symbol_map_of(default_mappings()).reverse),
{
    let symbol_map = LevelSymbolMap::new();
    level_to_symbols_with_map(level_data, &symbol_map)
}

// ---------------------------------------------------------------------------
// Writing, then reading
// ---------------------------------------------------------------------------

/// Whether the characters written for the tiles of `level` read back as
/// those tiles.
pub open spec fn reads_back(level: LevelView, forward: Map<char, u32>, reverse: Map<u32, char>) -> bool {
    forall|x: int, y: int|
        0 <= y < level.rows.len() && 0 <= x < level.rows[y].len() ==> {
            let tile = #[trigger] level.rows[y][x];
            &&& reverse.contains_key(tile)
            &&& forward.contains_key(reverse[tile])
            &&& forward[reverse[tile]] == tile
        }
}

/// Whether every written row stays a line of the grid when read: it holds no
/// line feed, does not end with a carriage return, and is not ignored.
pub open spec fn rows_stay_lines(level: LevelView, reverse: Map<u32, char>) -> bool {
    forall|y: int|
        0 <= y < level.rows.len() ==> {
            let line = #[trigger] symbol_lines(level, reverse)[y];
            is_plain_line(line) && !is_ignored_line(line)
        }
}

/// An alphabet that was made from a list of pairs writes, for every tile
/// that one of its characters stands for, a character that reads back as
/// that tile. So a level whose tiles each have a character in such an
/// alphabet reads back tile by tile.
pub proof fn lemma_made_map_reads_back(level: LevelView, pairs: Seq<(char, u32)>)
    requires
        forall|x: int, y: int|
            0 <= y < level.rows.len() && 0 <= x < level.rows[y].len() ==> exists|symbol: char|
                forward_of(pairs).contains_key(symbol) && forward_of(pairs)[symbol]
                    == #[trigger] level.rows[y][x],
    ensures
        reads_back(level, forward_of(pairs), reverse_of(pairs, forward_of(pairs))),
{
    let forward = forward_of(pairs);
    let reverse = reverse_of(pairs, forward);
    lemma_reverse_of_consistent(pairs, forward);
    assert forall|x: int, y: int| 0 <= y < level.rows.len() && 0 <= x < level.rows[y].len() implies {
        let tile = #[trigger] level.rows[y][x];
        &&& reverse.contains_key(tile)
        &&& forward.contains_key(reverse[tile])
        &&& forward[reverse[tile]] == tile
    } by {
        let tile = level.rows[y][x];
        let symbol = choose|symbol: char| forward.contains_key(symbol) && forward[symbol] == tile;
        lemma_reverse_of_complete(pairs, symbol);
    }
}

/// Lines of which none is ignored are all kept.
proof fn lemma_kept_all(lines: Seq<Seq<char>>)
    requires
        forall|i: int| 0 <= i < lines.len() ==> !is_ignored_line(#[trigger] lines[i]),
    ensures
        kept_lines(lines) == lines,
    decreases lines.len(),
{
    if lines.len() > 0 {
        let rest = lines.drop_last();
        assert forall|i: int| 0 <= i < rest.len() implies !is_ignored_line(#[trigger] rest[i]) by {
            assert(rest[i] == lines[i]);
        }
        lemma_kept_all(rest);
        assert(rest.push(lines.last()) =~= lines);
    }
}

/// Lines that are all `width` long have `width` as their greatest length.
proof fn lemma_max_len_uniform(lines: Seq<Seq<char>>, width: nat)
    requires
        lines.len() >= 1,
        forall|i: int| 0 <= i < lines.len() ==> (#[trigger] lines[i]).len() == width,
    ensures
        max_len(lines) == width,
    decreases lines.len(),
{
    if lines.len() > 1 {
        let rest = lines.drop_last();
        assert forall|i: int| 0 <= i < rest.len() implies (#[trigger] rest[i]).len() == width by {
            assert(rest[i] == lines[i]);
        }
        lemma_max_len_uniform(rest, width);
    } else {
        assert(max_len(lines.drop_last()) == 0);
    }
}

/// Writing a level as symbol text and reading the text gives the level back,
/// when the level has the grid shape and at least one row and one column,
/// every character written for one of its tiles stands for that tile, and
/// every written row stays a line of the grid.
pub proof fn lemma_symbols_round_trip(level: LevelData, forward: Map<char, u32>, reverse: Map<u32, char>)
    requires
        level.well_formed(),
        level.width >= 1,
        level.height >= 1,
        reads_back(level@, forward, reverse),
        rows_stay_lines(level@, reverse),
    ensures
        parse_symbols(symbols_text(level@, reverse), forward) == Ok::<LevelView, LevelError>(level@),
{
    let view = level@;
    level.lemma_well_formed_view();
    let lines = symbol_lines(view, reverse);
    assert forall|i: int| 0 <= i < lines.len() implies is_plain_line(#[trigger] lines[i]) by {}
    lemma_lines_of_unlines(lines);
    assert forall|i: int| 0 <= i < lines.len() implies !is_ignored_line(#[trigger] lines[i]) by {}
    lemma_kept_all(lines);
    assert forall|i: int| 0 <= i < lines.len() implies (#[trigger] lines[i]).len() == view.width by {
        assert(lines[i] == symbol_line(view.rows[i], reverse));
        assert(view.rows[i].len() == view.width);
    }
    lemma_max_len_uniform(lines, view.width);
    let rows = lines.map_values(|line: Seq<char>| symbol_row(line, view.width, forward));
    assert forall|y: int| 0 <= y < rows.len() implies rows[y] == view.rows[y] by {
        let line = lines[y];
        let row = view.rows[y];
        assert(line == symbol_line(row, reverse));
        assert(row.len() == view.width);
        assert forall|x: int| 0 <= x < row.len() implies rows[y][x] == row[x] by {
            let tile = view.rows[y][x];
            assert(line[x] == symbol_char(reverse, tile));
        }
        assert(rows[y] =~= row);
    }
    assert(rows =~= view.rows);
}

// ---------------------------------------------------------------------------
// Checking, then reading
// ---------------------------------------------------------------------------

/// When the first `count` lines of the grid have nothing wrong, each of them
/// is as long as the first and holds only characters that stand for a tile.
proof fn lemma_checked_lines(lines: Seq<Seq<char>>, count: nat, forward: Map<char, u32>, k: int)
    requires
        count <= lines.len(),
        symbol_lines_error(lines, count, forward) is None,
        0 <= k < count,
    ensures
        lines[k].len() == lines[0].len(),
        first_unknown_symbol(lines[k], forward) == lines[k].len(),
    decreases count,
{
    if k < count - 1 {
        lemma_checked_lines(lines, (count - 1) as nat, forward, k);
    } else {
        assert(symbol_lines_error(lines, (count - 1) as nat, forward) is None);
        assert(symbol_line_error(lines[k], lines[0].len(), count as u64, forward) is None);
        lemma_first_unknown_bound(lines[k], forward);
    }
}

/// The first character that stands for no tile lies within the line, or
/// there is none.
proof fn lemma_first_unknown_bound(line: Seq<char>, forward: Map<char, u32>)
    ensures
        0 <= first_unknown_symbol(line, forward) <= line.len(),
    decreases line.len(),
{
    if line.len() > 0 && forward.contains_key(line[0]) {
        lemma_first_unknown_bound(line.drop_first(), forward);
    }
}

/// A text that passes the check is read without loss: it says a level as
/// wide as its first grid line, unless the grid has more than `u32::MAX` rows
/// or columns.
pub proof fn lemma_checked_text_reads(text: Seq<char>, forward: Map<char, u32>)
    requires
        validate_symbols(text, forward) is Ok,
        kept_lines(lines_of(text)).len() <= u32::MAX,
        kept_lines(lines_of(text))[0].len() <= u32::MAX,
    ensures
        parse_symbols(text, forward) is Ok,
        parse_symbols(text, forward)->Ok_0.height == kept_lines(lines_of(text)).len(),
        parse_symbols(text, forward)->Ok_0.width == kept_lines(lines_of(text))[0].len(),
{
    let lines = kept_lines(lines_of(text));
    assert forall|i: int| 0 <= i < lines.len() implies (#[trigger] lines[i]).len() == lines[0].len() by {
        lemma_checked_lines(lines, lines.len(), forward, i);
    }
    lemma_max_len_uniform(lines, lines[0].len());
}

} // verus!
