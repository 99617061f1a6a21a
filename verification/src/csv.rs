//! The CSV level format: a first line `width,height`, then `height` lines of
//! `width` decimal tile ids separated by commas.

use vstd::prelude::*;
use crate::error::LevelError;
use crate::level::{reads_as, LevelData, LevelView};
use crate::text::{
    chars_of, decimal, free_of, is_plain_line, join, lemma_decimal, lemma_digits_plain,
    lemma_join_push, lemma_lines_of_unlines, lemma_parse_decimal, lemma_split_join,
    lemma_unlines_push, lines_of, lines_of_chars, parse_u32, parse_u32_range, push_decimal,
    split_chars, split_on, trim_range, trimmed, unlines,
};

verus! {

// ---------------------------------------------------------------------------
// Writing
// ---------------------------------------------------------------------------

/// The numerals of a row's tile ids.
pub open spec fn row_numerals(row: Seq<u32>) -> Seq<Seq<char>> {
    row.map_values(|tile: u32| decimal(tile as nat))
}

/// One row as text: its tile ids with commas between them.
pub open spec fn csv_row_text(row: Seq<u32>) -> Seq<char> {
    join(row_numerals(row), ',')
}

/// The first line of a level's text: its width, a comma, its height.
pub open spec fn csv_header_text(width: nat, height: nat) -> Seq<char> {
    decimal(width) + seq![','] + decimal(height)
}

/// The lines of a level's text: the header, then one line for each row.
pub open spec fn csv_lines(level: LevelView) -> Seq<Seq<char>> {
    seq![csv_header_text(level.width, level.height)] + level.rows.map_values(
        |row: Seq<u32>| csv_row_text(row),
    )
}

/// A level as CSV text: every line ended by a line feed.
pub open spec fn csv_text(level: LevelView) -> Seq<char> {
    unlines(csv_lines(level))
}

/// Appends one row as text to `out`.
fn push_csv_row(out: &mut String, row: &Vec<u32>)
    ensures
        final(out)@ == old(out)@ + csv_row_text(row@),
{
    let ghost numerals = row_numerals(row@);
    let mut x: usize = 0;
    while x < row.len()
        invariant
            x <= row@.len(),
            numerals == row_numerals(row@),
            out@ == old(out)@ + join(numerals.take(x as int), ','),
        decreases row@.len() - x,
    {
        let ghost before = numerals.take(x as int);
        if x > 0 {
            out.push(',');
        }
        push_decimal(out, row[x] as u64);
        proof {
            let numeral = decimal(row@[x as int] as nat);
            assert(numerals[x as int] == numeral);
            assert(numerals.take(x + 1) =~= before.push(numeral));
            if x > 0 {
                lemma_join_push(before, ',', numeral);
                assert(out@ =~= old(out)@ + join(numerals.take(x + 1), ','));
            } else {
                assert(before =~= Seq::<Seq<char>>::empty());
                assert(join(before.push(numeral), ',') == numeral);
                assert(out@ =~= old(out)@ + join(numerals.take(x + 1), ','));
            }
        }
        x = x + 1;
    }
    assert(numerals.take(row@.len() as int) =~= numerals);
}

/// The CSV text of a level: what a level file holds.
pub fn level_to_csv(level_data: &LevelData) -> (text: String)
    ensures
        text@ == csv_text(level_data@),
{
    let mut text = String::new();
    push_decimal(&mut text, level_data.width as u64);
    text.push(',');
    push_decimal(&mut text, level_data.height as u64);
    text.push('\n');
    let ghost header = csv_header_text(level_data.width as nat, level_data.height as nat);
    let ghost rows = level_data@.rows;
    let ghost row_lines = rows.map_values(|row: Seq<u32>| csv_row_text(row));
    proof {
        assert(text@ =~= header + seq!['\n']);
        lemma_unlines_push(Seq::<Seq<char>>::empty(), header);
        assert(Seq::<Seq<char>>::empty().push(header) =~= seq![header]);
        assert(seq![header] + row_lines.take(0) =~= seq![header]);
        assert(unlines(Seq::<Seq<char>>::empty()) =~= Seq::<char>::empty());
        assert(text@ =~= unlines(seq![header] + row_lines.take(0)));
    }
    let mut y: usize = 0;
    while y < level_data.tiles.len()
        invariant
            y <= level_data.tiles@.len(),
            rows == level_data@.rows,
            row_lines == rows.map_values(|row: Seq<u32>| csv_row_text(row)),
            header == csv_header_text(level_data.width as nat, level_data.height as nat),
            text@ == unlines(seq![header] + row_lines.take(y as int)),
        decreases level_data.tiles@.len() - y,
    {
        let ghost before = seq![header] + row_lines.take(y as int);
        push_csv_row(&mut text, &level_data.tiles[y]);
        text.push('\n');
        proof {
            let line = csv_row_text(level_data.tiles@[y as int]@);
            assert(rows[y as int] == level_data.tiles@[y as int]@);
            assert(row_lines[y as int] == line);
            lemma_unlines_push(before, line);
            assert(before.push(line) =~= seq![header] + row_lines.take(y + 1));
            assert(text@ =~= unlines(before) + line + seq!['\n']);
        }
        y = y + 1;
    }
    assert(row_lines.take(level_data.tiles@.len() as int) =~= row_lines);
    text
}

// ---------------------------------------------------------------------------
// Reading
// ---------------------------------------------------------------------------

/// The number that an entry writes, once the white space around it is gone.
pub open spec fn entry_value(entry: Seq<char>) -> Option<u32> {
    parse_u32(trimmed(entry))
}

/// The position of the first entry that writes no number, or the number of
/// entries when each writes one.
pub open spec fn first_bad_entry(entries: Seq<Seq<char>>) -> int
    decreases entries.len(),
{
    if entries.len() == 0 || entry_value(entries[0]) is None {
        0
    } else {
        1 + first_bad_entry(entries.drop_first())
    }
}

/// What line number `line_no` says as one row of `width` tiles: its tile
/// ids, or the first thing wrong with it. A wrong number of entries is
/// reported before an entry that is no number; `col` is the position of that
/// entry in its row.
pub open spec fn parse_csv_row(line: Seq<char>, width: u32, line_no: u64) -> Result<
    Seq<u32>,
    LevelError,
> {
    let entries = split_on(line, ',');
    let bad = first_bad_entry(entries);
    if entries.len() != width {
        Err(LevelError::ShapeMismatch { expected: width as u64, got: entries.len() as u64, line: line_no })
    } else if bad < entries.len() {
        Err(LevelError::NumberParse { line: line_no, col: (bad + 1) as u64 })
    } else {
        Ok(entries.map_values(|entry: Seq<char>| entry_value(entry)->0))
    }
}

/// What the lines after the header say as the first `count` rows: the rows,
/// or the first thing wrong, taking the rows from the top.
pub open spec fn parse_csv_rows(lines: Seq<Seq<char>>, width: u32, count: nat) -> Result<
    Seq<Seq<u32>>,
    LevelError,
>
    decreases count,
{
    if count == 0 {
        Ok(Seq::empty())
    } else {
        match parse_csv_rows(lines, width, (count - 1) as nat) {
            Err(e) => Err(e),
            Ok(rows) => if count >= lines.len() {
                Err(LevelError::MissingData)
            } else {
                match parse_csv_row(lines[count as int], width, (count + 1) as u64) {
                    Err(e) => Err(e),
                    Ok(row) => Ok(rows.push(row)),
                }
            },
        }
    }
}

/// What a header line says: the width and the height, when the line is two
/// numbers with one comma between them.
pub open spec fn parse_csv_header(line: Seq<char>) -> Option<(u32, u32)> {
    let entries = split_on(line, ',');
    if entries.len() == 2 && entry_value(entries[0]) is Some && entry_value(entries[1]) is Some {
        Some((entry_value(entries[0])->0, entry_value(entries[1])->0))
    } else {
        None
    }
}

/// What a CSV text says: the level it describes, or the first thing wrong
/// with it.
///
/// - No line at all: `EmptyInput`.
/// - A first line that is not `width,height`: `MalformedHeader`.
/// - Then, row by row from the top: a row that is missing (`MissingData`), a
///   row without exactly `width` entries (`ShapeMismatch`), an entry that is
///   no number (`NumberParse`).
/// - Lines left over after the last row: `ShapeMismatch`, with the number of
///   rows announced and the number of lines found after the header.
pub open spec fn parse_csv(text: Seq<char>) -> Result<LevelView, LevelError> {
    let lines = lines_of(text);
    if lines.len() == 0 {
        Err(LevelError::EmptyInput)
    } else {
        match parse_csv_header(lines[0]) {
            None => Err(LevelError::MalformedHeader),
            Some((width, height)) => match parse_csv_rows(lines, width, height as nat) {
                Err(e) => Err(e),
                Ok(rows) => if lines.len() - 1 > height {
                    Err(
                        LevelError::ShapeMismatch {
                            expected: height as u64,
                            got: (lines.len() - 1) as u64,
                            line: (height + 2) as u64,
                        },
                    )
                } else {
                    Ok(LevelView { width: width as nat, height: height as nat, rows })
                },
            },
        }
    }
}

/// The number that `entry` writes, once the white space around it is gone.
fn parse_entry(entry: &Vec<char>) -> (value: Option<u32>)
    ensures
        value == entry_value(entry@),
{
    let (a, b) = trim_range(entry, 0, entry.len());
    assert(entry@.subrange(0, entry@.len() as int) =~= entry@);
    parse_u32_range(entry, a, b)
}

/// `first_bad_entry` finds exactly the first entry that writes no number.
proof fn lemma_first_bad_entry(entries: Seq<Seq<char>>, k: int)
    requires
        0 <= k <= entries.len(),
        forall|i: int| 0 <= i < k ==> entry_value(#[trigger] entries[i]) is Some,
        k < entries.len() ==> entry_value(entries[k]) is None,
    ensures
        first_bad_entry(entries) == k,
    decreases k,
{
    if k > 0 {
        let rest = entries.drop_first();
        assert(entry_value(entries[0]) is Some);
        assert forall|i: int| 0 <= i < k - 1 implies entry_value(#[trigger] rest[i]) is Some by {
            assert(rest[i] == entries[i + 1]);
        }
        lemma_first_bad_entry(rest, k - 1);
    }
}

/// Reads one line as a row of `width` tiles.
fn read_csv_row(line: &Vec<char>, width: u32, line_no: u64) -> (row: Result<Vec<u32>, LevelError>)
    ensures
        match parse_csv_row(line@, width, line_no) {
            Ok(tiles) => row is Ok && row->Ok_0@ == tiles,
            Err(e) => row == Err::<Vec<u32>, LevelError>(e),
        },
{
    let entries = split_chars(line, ',');
    let ghost texts = split_on(line@, ',');
    let n = entries.len();
    if n as u64 != width as u64 {
        return Err(LevelError::ShapeMismatch { expected: width as u64, got: n as u64, line: line_no });
    }
    let mut tiles: Vec<u32> = Vec::new();
    let mut x: usize = 0;
    while x < n
        invariant
            n == entries@.len(),
            n == width,
            texts == split_on(line@, ','),
            texts == entries@.map_values(|p: Vec<char>| p@),
            x <= n,
            tiles@.len() == x,
            forall|i: int| 0 <= i < x ==> entry_value(#[trigger] texts[i]) == Some(tiles@[i]),
        decreases n - x,
    {
        assert(texts[x as int] == entries@[x as int]@);
        match parse_entry(&entries[x]) {
            Some(tile) => {
                tiles.push(tile);
            },
            None => {
                proof {
                    lemma_first_bad_entry(texts, x as int);
                }
                return Err(LevelError::NumberParse { line: line_no, col: (x + 1) as u64 });
            },
        }
        x = x + 1;
    }
    proof {
        lemma_first_bad_entry(texts, n as int);
        assert(tiles@ =~= texts.map_values(|entry: Seq<char>| entry_value(entry)->0));
    }
    Ok(tiles)
}

/// Once a row is wrong, reading more rows reports the same error.
proof fn lemma_csv_rows_error_stays(lines: Seq<Seq<char>>, width: u32, k: nat, n: nat)
    requires
        k <= n,
        parse_csv_rows(lines, width, k) is Err,
    ensures
        parse_csv_rows(lines, width, n) == parse_csv_rows(lines, width, k),
    decreases n,
{
    if k < n {
        lemma_csv_rows_error_stays(lines, width, k, (n - 1) as nat);
    }
}

/// Reads a level from CSV text. The level is the one the text describes; a
/// text that describes none is refused with the first thing wrong with it.
pub fn parse_level_text(text: &str) -> (level: Result<LevelData, LevelError>)
    ensures
        reads_as(level, parse_csv(text@)),
{
    let chars = chars_of(text);
    let lines = lines_of_chars(&chars);
    let ghost line_texts = lines_of(text@);
    if lines.len() == 0 {
        return Err(LevelError::EmptyInput);
    }
    assert(line_texts[0] == lines@[0]@);
    let header = split_chars(&lines[0], ',');
    if header.len() != 2 {
        return Err(LevelError::MalformedHeader);
    }
    let ghost header_texts = split_on(line_texts[0], ',');
    assert(header_texts[0] == header@[0]@);
    assert(header_texts[1] == header@[1]@);
    let width = match parse_entry(&header[0]) {
        Some(w) => w,
        None => {
            return Err(LevelError::MalformedHeader);
        },
    };
    let height = match parse_entry(&header[1]) {
        Some(h) => h,
        None => {
            return Err(LevelError::MalformedHeader);
        },
    };
    let mut tiles: Vec<Vec<u32>> = Vec::new();
    let mut y: u32 = 0;
    assert(tiles@.map_values(|row: Vec<u32>| row@) =~= Seq::<Seq<u32>>::empty());
    while y < height
        invariant
            y <= height,
            line_texts == lines_of(text@),
            line_texts == lines@.map_values(|l: Vec<char>| l@),
            line_texts.len() >= 1,
            parse_csv_header(line_texts[0]) == Some((width, height)),
            tiles@.len() == y,
            parse_csv_rows(line_texts, width, y as nat) == Ok::<Seq<Seq<u32>>, LevelError>(
                tiles@.map_values(|row: Vec<u32>| row@),
            ),
            forall|i: int| 0 <= i < y ==> (#[trigger] tiles@[i])@.len() == width,
        decreases height - y,
    {
        let ghost done = tiles@.map_values(|row: Vec<u32>| row@);
        if y as u64 + 1 >= lines.len() as u64 {
            proof {
                lemma_csv_rows_error_stays(line_texts, width, y as nat + 1, height as nat);
            }
            return Err(LevelError::MissingData);
        }
        let line_index: usize = y as usize + 1;
        assert(line_texts[line_index as int] == lines@[line_index as int]@);
        match read_csv_row(&lines[line_index], width, y as u64 + 2) {
            Ok(row) => {
                proof {
                    assert(row@.len() == width);
                    assert(tiles@.push(row).map_values(|r: Vec<u32>| r@) =~= done.push(row@));
                }
                tiles.push(row);
            },
            Err(e) => {
                proof {
                    lemma_csv_rows_error_stays(line_texts, width, y as nat + 1, height as nat);
                }
                return Err(e);
            },
        }
        y = y + 1;
    }
    if lines.len() as u64 - 1 > height as u64 {
        return Err(
            LevelError::ShapeMismatch {
                expected: height as u64,
                got: lines.len() as u64 - 1,
                line: height as u64 + 2,
            },
        );
    }
    Ok(LevelData { width, height, tiles })
}

// ---------------------------------------------------------------------------
// Writing, then reading
// ---------------------------------------------------------------------------

/// A written row reads back as the row, when it holds at least one tile.
pub proof fn lemma_csv_row_round_trip(row: Seq<u32>, line_no: u64)
    requires
        1 <= row.len() <= u32::MAX,
    ensures
        parse_csv_row(csv_row_text(row), row.len() as u32, line_no) == Ok::<Seq<u32>, LevelError>(row),
        is_plain_line(csv_row_text(row)),
{
    let numerals = row_numerals(row);
    assert forall|i: int| 0 <= i < numerals.len() implies free_of(#[trigger] numerals[i], ',')
        && crate::text::all_digits(numerals[i]) && numerals[i].len() >= 1 by {
        lemma_decimal(row[i] as nat);
        lemma_digits_plain(numerals[i]);
    }
    lemma_split_join(numerals, ',');
    assert forall|i: int| 0 <= i < numerals.len() implies entry_value(#[trigger] numerals[i]) == Some(
        row[i],
    ) by {
        lemma_parse_decimal(row[i]);
    }
    lemma_first_bad_entry(numerals, numerals.len() as int);
    assert(numerals.map_values(|entry: Seq<char>| entry_value(entry)->0) =~= row);
    lemma_join_plain(numerals);
}

/// Numerals joined by commas read back as one line.
proof fn lemma_join_plain(numerals: Seq<Seq<char>>)
    requires
        forall|i: int| 0 <= i < numerals.len() ==> crate::text::all_digits(#[trigger] numerals[i])
            && numerals[i].len() >= 1,
    ensures
        is_plain_line(join(numerals, ',')),
        join(numerals, ',').len() > 0 ==> join(numerals, ',').last() != '\r',
    decreases numerals.len(),
{
    if numerals.len() == 0 {
    } else if numerals.len() == 1 {
        lemma_digits_plain(numerals[0]);
    } else {
        let rest = numerals.drop_first();
        assert forall|i: int| 0 <= i < rest.len() implies crate::text::all_digits(#[trigger] rest[i])
            && rest[i].len() >= 1 by {
            assert(rest[i] == numerals[i + 1]);
        }
        lemma_join_plain(rest);
        lemma_digits_plain(numerals[0]);
        let head = numerals[0] + seq![','];
        let whole = head + join(rest, ',');
        assert(join(numerals, ',') =~= whole);
        assert(rest[0].len() >= 1);
        lemma_join_len(rest);
        assert forall|i: int| 0 <= i < whole.len() implies #[trigger] whole[i] != '\n' by {
            if i < numerals[0].len() {
                assert(whole[i] == numerals[0][i]);
            } else if i == numerals[0].len() {
            } else {
                assert(whole[i] == join(rest, ',')[i - head.len()]);
            }
        }
        assert(whole.last() == join(rest, ',').last());
    }
}

/// Joined pieces are at least as long as the first of them.
proof fn lemma_join_len(pieces: Seq<Seq<char>>)
    requires
        pieces.len() >= 1,
    ensures
        join(pieces, ',').len() >= pieces[0].len(),
{
}

/// Writing a level as CSV and reading the text gives the level back, for
/// every level of the grid shape that is at least one tile wide.
pub proof fn lemma_csv_round_trip(level: LevelData)
    requires
        level.well_formed(),
        level.width >= 1,
    ensures
        parse_csv(csv_text(level@)) == Ok::<LevelView, LevelError>(level@),
{
    let view = level@;
    level.lemma_well_formed_view();
    let header = csv_header_text(view.width, view.height);
    let row_lines = view.rows.map_values(|row: Seq<u32>| csv_row_text(row));
    let lines = csv_lines(view);
    // The header reads back as the two dimensions.
    let w_text = decimal(view.width);
    let h_text = decimal(view.height);
    lemma_decimal(view.width);
    lemma_decimal(view.height);
    lemma_digits_plain(w_text);
    lemma_digits_plain(h_text);
    lemma_parse_decimal(level.width);
    lemma_parse_decimal(level.height);
    let dims = seq![w_text, h_text];
    assert(dims.drop_first() =~= seq![h_text]);
    assert(join(dims.drop_first(), ',') == h_text);
    assert(join(dims, ',') =~= header);
    lemma_split_join(dims, ',');
    assert(parse_csv_header(header) == Some((level.width, level.height)));
    lemma_join_plain(dims);
    // Every line reads back as one line.
    assert forall|i: int| 0 <= i < lines.len() implies is_plain_line(#[trigger] lines[i]) by {
        if i > 0 {
            assert(lines[i] == row_lines[i - 1]);
            assert(view.rows[i - 1].len() == view.width);
            lemma_csv_row_round_trip(view.rows[i - 1], 0);
        }
    }
    lemma_lines_of_unlines(lines);
    assert(lines_of(csv_text(view)) == lines);
    assert(lines[0] == header);
    lemma_csv_rows_round_trip(level, view.height);
    assert(view.rows.take(view.height as int) =~= view.rows);
}

/// The first `count` written rows read back as those rows.
proof fn lemma_csv_rows_round_trip(level: LevelData, count: nat)
    requires
        level@.well_formed(),
        level.width >= 1,
        count <= level.height,
    ensures
        parse_csv_rows(csv_lines(level@), level.width, count) == Ok::<Seq<Seq<u32>>, LevelError>(
            level@.rows.take(count as int),
        ),
    decreases count,
{
    let view = level@;
    let lines = csv_lines(view);
    if count == 0 {
        assert(view.rows.take(0) =~= Seq::<Seq<u32>>::empty());
    } else {
        lemma_csv_rows_round_trip(level, (count - 1) as nat);
        let row = view.rows[count - 1];
        assert(row.len() == view.width);
        assert(lines[count as int] == csv_row_text(row));
        lemma_csv_row_round_trip(row, (count + 1) as u64);
        assert(view.rows.take(count - 1).push(row) =~= view.rows.take(count as int));
    }
}

} // verus!
