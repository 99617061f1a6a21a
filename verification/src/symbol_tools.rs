//! Helpers for writing levels as symbol text by hand: a sample level, a list
//! of the default symbols, blank levels, and replacing and counting symbols.

use std::collections::HashMap;
use vstd::prelude::*;
use vstd::std_specs::hash::group_hash_axioms;
use vstd::string::StringExecFns;
use crate::symbol_map::{default_mappings, forward_of, LevelSymbolMap};
use crate::text::{
    char_code, chars_of, decimal, free_of, index_of, lemma_char_range, lemma_index_of_first,
    lemma_split_on_cons, lemma_split_on_single, lemma_unlines_push, lines_of, push_chars,
    push_decimal, split_on, strip_cr, unlines,
};

verus! {

broadcast use group_hash_axioms;

// ---------------------------------------------------------------------------
// A sample level
// ---------------------------------------------------------------------------

/// A sample level in symbol text, with a comment that explains the symbols.
pub const SAMPLE_SYMBOL_LEVEL: &'static str =
    "// Sample Level - Lines starting with // are comments\n// Symbols:\n// . = Empty space\n// G = Grass\n// S = Stone\n// P = Platform\n// F = Flower\n// T = Tree\n// # = Wall\n// = = Horizontal platform\n\n.....T.........T.....\n.....................\n...................F.\n..........===........\n.....................\n...#.................\n...#.....P...........\n...#.................\nGGGGGGGGGGGGGGGGGGGGG\nSSSSSSSSSSSSSSSSSSSSS";

/// A sample level in symbol text.
pub fn create_sample_symbol_level() -> (text: String)
    ensures
        text@ == SAMPLE_SYMBOL_LEVEL@,
{
    SAMPLE_SYMBOL_LEVEL.to_owned()
}

// ---------------------------------------------------------------------------
// The default symbols in words
// ---------------------------------------------------------------------------

/// The symbols of the default alphabet, in the order of their code points.
pub open spec fn listed_symbols() -> Seq<char> {
    seq![
        '#', '*', '+', '.', '=', 'B', 'C', 'F', 'G', 'L', 'M', 'P', 'R', 'S', 'T', 'W', '^', '|',
        '~',
    ]
}

/// What a symbol of the default alphabet means, in words.
pub open spec fn symbol_meaning(symbol: char) -> Seq<char> {
    if symbol == '.' {
        "Empty space"@
    } else if symbol == 'G' {
        "Grass"@
    } else if symbol == 'S' {
        "Stone"@
    } else if symbol == 'B' {
        "Brick"@
    } else if symbol == 'R' {
        "Rock"@
    } else if symbol == 'P' {
        "Platform"@
    } else if symbol == 'W' {
        "Wood platform"@
    } else if symbol == 'M' {
        "Metal platform"@
    } else if symbol == 'F' {
        "Flower"@
    } else if symbol == 'T' {
        "Tree"@
    } else if symbol == 'C' {
        "Crystal"@
    } else if symbol == '^' {
        "Spikes"@
    } else if symbol == '~' {
        "Water"@
    } else if symbol == 'L' {
        "Lava"@
    } else if symbol == '#' {
        "Solid wall"@
    } else if symbol == '=' {
        "Horizontal platform"@
    } else if symbol == '|' {
        "Vertical wall"@
    } else if symbol == '+' {
        "Brick wall"@
    } else if symbol == '*' {
        "Special block"@
    } else {
        "Unknown"@
    }
}

/// The line that describes one symbol and the tile it stands for.
pub open spec fn symbol_info_line(symbol: char, tile: u32) -> Seq<char> {
    "  '"@.push(symbol) + "' - "@ + symbol_meaning(symbol) + " (tile "@ + decimal(tile as nat)
        + ")\n"@
}

/// The lines that describe the first `count` of `symbols`: one line for each
/// that stands for a tile.
pub open spec fn symbol_info_lines(symbols: Seq<char>, forward: Map<char, u32>, count: nat) -> Seq<char>
    decreases count,
{
    if count == 0 {
        Seq::empty()
    } else {
        let rest = symbol_info_lines(symbols, forward, (count - 1) as nat);
        let symbol = symbols[count - 1];
        if forward.contains_key(symbol) {
            rest + symbol_info_line(symbol, forward[symbol])
        } else {
            rest
        }
    }
}

/// The list of the default symbols in words: a heading, then the symbols in
/// the order of their code points.
pub open spec fn symbol_info_text() -> Seq<char> {
    "Available symbols:\n"@ + symbol_info_lines(
        listed_symbols(),
        forward_of(default_mappings()),
        listed_symbols().len(),
    )
}

/// What a symbol of the default alphabet means, in words.
fn meaning_of(symbol: char) -> (meaning: &'static str)
    ensures
        meaning@ == symbol_meaning(symbol),
{
    if symbol == '.' {
        "Empty space"
    } else if symbol == 'G' {
        "Grass"
    } else if symbol == 'S' {
        "Stone"
    } else if symbol == 'B' {
        "Brick"
    } else if symbol == 'R' {
        "Rock"
    } else if symbol == 'P' {
        "Platform"
    } else if symbol == 'W' {
        "Wood platform"
    } else if symbol == 'M' {
        "Metal platform"
    } else if symbol == 'F' {
        "Flower"
    } else if symbol == 'T' {
        "Tree"
    } else if symbol == 'C' {
        "Crystal"
    } else if symbol == '^' {
        "Spikes"
    } else if symbol == '~' {
        "Water"
    } else if symbol == 'L' {
        "Lava"
    } else if symbol == '#' {
        "Solid wall"
    } else if symbol == '=' {
        "Horizontal platform"
    } else if symbol == '|' {
        "Vertical wall"
    } else if symbol == '+' {
        "Brick wall"
    } else if symbol == '*' {
        "Special block"
    } else {
        "Unknown"
    }
}

/// The list of the symbols of the default alphabet: for each symbol, in the
/// order of the code points, what it means and the tile it stands for.
pub fn get_symbol_info() -> (info: String)
    ensures
        info@ == symbol_info_text(),
{
    let symbol_map = LevelSymbolMap::new();
    let symbols: Vec<char> = vec![
        '#', '*', '+', '.', '=', 'B', 'C', 'F', 'G', 'L', 'M', 'P', 'R', 'S', 'T', 'W', '^', '|',
        '~',
    ];
    assert(symbols@ =~= listed_symbols());
    let ghost forward = forward_of(default_mappings());
    let mut info = "Available symbols:\n".to_owned();
    let ghost heading = info@;
    let mut i: usize = 0;
    assert(info@ =~= heading + symbol_info_lines(symbols@, forward, 0));
    while i < symbols.len()
        invariant
            i <= symbols@.len(),
            forward == symbol_map@.forward,
            info@ == heading + symbol_info_lines(symbols@, forward, i as nat),
        decreases symbols@.len() - i,
    {
        let symbol = symbols[i];
        let ghost before = info@;
        match symbol_map.get_tile(symbol) {
            Some(tile) => {
                info.append("  '");
                info.push(symbol);
                info.append("' - ");
                info.append(meaning_of(symbol));
                info.append(" (tile ");
                push_decimal(&mut info, tile as u64);
                info.append(")\n");
                assert(info@ =~= before + symbol_info_line(symbol, tile));
            },
            None => {},
        }
        i = i + 1;
        assert(info@ =~= heading + symbol_info_lines(symbols@, forward, i as nat));
    }
    info
}

/// The reference sheet: the list of symbols, then the sample level.
pub open spec fn symbol_reference_text() -> Seq<char> {
    "Symbol Reference for Level Editor:\n"@ + symbol_info_text() + "\n\nExample level:\n"@
        + SAMPLE_SYMBOL_LEVEL@
}

/// A reference sheet for writing levels by hand: the list of the default
/// symbols, then the sample level.
pub fn create_symbol_reference() -> (text: String)
    ensures
        text@ == symbol_reference_text(),
{
    let mut text = "Symbol Reference for Level Editor:\n".to_owned();
    let info = get_symbol_info();
    text.append(info.as_str());
    text.append("\n\nExample level:\n");
    text.append(SAMPLE_SYMBOL_LEVEL);
    text
}

// ---------------------------------------------------------------------------
// Blank levels
// ---------------------------------------------------------------------------

/// The text of an empty level: `height` lines of `width` dots.
pub open spec fn blank_symbol_text(width: nat, height: nat) -> Seq<char> {
    unlines(Seq::new(height, |y: int| Seq::new(width, |x: int| '.')))
}

/// An empty level of the given size as symbol text: `height` lines of
/// `width` dots, each ended by a line feed.
pub fn create_blank_symbol_level(width: u32, height: u32) -> (text: String)
    ensures
        text@ == blank_symbol_text(width as nat, height as nat),
{
    let ghost line = Seq::new(width as nat, |x: int| '.');
    let ghost lines = Seq::new(height as nat, |y: int| line);
    let mut text = String::new();
    let mut y: u32 = 0;
    proof {
        assert(lines.take(0) =~= Seq::<Seq<char>>::empty());
        assert(text@ =~= unlines(lines.take(0)));
    }
    while y < height
        invariant
            y <= height,
            line == Seq::new(width as nat, |x: int| '.'),
            lines == Seq::new(height as nat, |y: int| line),
            text@ == unlines(lines.take(y as int)),
        decreases height - y,
    {
        let ghost start = text@;
        let mut x: u32 = 0;
        while x < width
            invariant
                x <= width,
                line == Seq::new(width as nat, |x: int| '.'),
                text@ == start + line.take(x as int),
            decreases width - x,
        {
            text.push('.');
            x = x + 1;
            assert(text@ =~= start + line.take(x as int));
        }
        text.push('\n');
        proof {
            assert(line.take(width as int) =~= line);
            lemma_unlines_push(lines.take(y as int), line);
            assert(lines.take(y as int).push(line) =~= lines.take(y + 1));
            assert(text@ =~= unlines(lines.take(y + 1)));
        }
        y = y + 1;
    }
    assert(lines.take(height as int) =~= lines);
    assert(lines =~= Seq::new(height as nat, |y: int| Seq::new(width as nat, |x: int| '.')));
    text
}

// ---------------------------------------------------------------------------
// Replacing symbols
// ---------------------------------------------------------------------------

/// The text with every `from` replaced by `to`.
pub open spec fn replaced(text: Seq<char>, from: char, to: char) -> Seq<char> {
    text.map_values(
        |c: char|
            if c == from {
                to
            } else {
                c
            },
    )
}

/// The text after each of `replacements` was made in turn, each on what the
/// ones before it left.
pub open spec fn replaced_all(text: Seq<char>, replacements: Seq<(char, char)>) -> Seq<char>
    decreases replacements.len(),
{
    if replacements.len() == 0 {
        text
    } else {
        replaced(
            replaced_all(text, replacements.drop_last()),
            replacements.last().0,
            replacements.last().1,
        )
    }
}

/// Replaces symbols in a level text: each pair `(from, to)` of
/// `replacements` in turn replaces every `from` by `to`, in the text that the
/// pairs before it left.
pub fn replace_symbols_in_level(text: &str, replacements: &[(char, char)]) -> (result: String)
    ensures
        result@ == replaced_all(text@, replacements@),
{
    let mut chars = chars_of(text);
    let mut i: usize = 0;
    assert(replacements@.take(0) =~= Seq::<(char, char)>::empty());
    while i < replacements.len()
        invariant
            i <= replacements@.len(),
            chars@ == replaced_all(text@, replacements@.take(i as int)),
        decreases replacements@.len() - i,
    {
        let (from, to) = replacements[i];
        let ghost before = chars@;
        let mut k: usize = 0;
        while k < chars.len()
            invariant
                k <= chars@.len(),
                chars@.len() == before.len(),
                forall|j: int| 0 <= j < k ==> #[trigger] chars@[j] == replaced(before, from, to)[j],
                forall|j: int| k <= j < chars@.len() ==> #[trigger] chars@[j] == before[j],
            decreases chars@.len() - k,
        {
            if chars[k] == from {
                chars.set(k, to);
            }
            k = k + 1;
        }
        proof {
            assert(chars@ =~= replaced(before, from, to));
            assert(replacements@.take(i + 1).drop_last() =~= replacements@.take(i as int));
            assert(replacements@.take(i + 1).last() == (from, to));
        }
        i = i + 1;
    }
    assert(replacements@.take(replacements@.len() as int) =~= replacements@);
    let mut result = String::new();
    push_chars(&mut result, &chars);
    assert(result@ =~= chars@);
    result
}

// ---------------------------------------------------------------------------
// Counting symbols
// ---------------------------------------------------------------------------

/// Whether the character at position `i` of `text` belongs to a line: it is
/// no line feed, and no carriage return with a line feed right after it.
pub open spec fn in_a_line(text: Seq<char>, i: int) -> bool {
    text[i] != '\n' && !(text[i] == '\r' && i + 1 < text.len() && text[i + 1] == '\n')
}

/// How often the character with the code point `code` occurs in the lines of
/// `text`, among the first `upto` characters of `text`.
pub open spec fn symbol_count(text: Seq<char>, code: u32, upto: nat) -> nat
    decreases upto,
{
    if upto == 0 {
        0
    } else {
        let rest = symbol_count(text, code, (upto - 1) as nat);
        if text[upto - 1] as u32 == code && in_a_line(text, upto - 1) {
            rest + 1
        } else {
            rest
        }
    }
}

/// A character occurs at most as often as there are characters.
proof fn lemma_symbol_count_bound(text: Seq<char>, code: u32, upto: nat)
    ensures
        symbol_count(text, code, upto) <= upto,
    decreases upto,
{
    if upto > 0 {
        lemma_symbol_count_bound(text, code, (upto - 1) as nat);
    }
}

/// Counts the symbols of a level text: how often each character occurs in the
/// lines of the text. Line ends are not counted. The characters are given
/// by their code points, and only those that occur are listed.
pub fn count_symbols_in_level(text: &str) -> (counts: HashMap<u32, usize>)
    ensures
        forall|code: u32| #[trigger]
            counts@.contains_key(code) <==> occurrences_in_lines(lines_of(text@), code) > 0,
        forall|code: u32| #[trigger]
            counts@.contains_key(code) ==> counts@[code] == occurrences_in_lines(
                lines_of(text@),
                code,
            ),
{
    let chars = chars_of(text);
    let mut counts: HashMap<u32, usize> = HashMap::new();
    let mut i: usize = 0;
    while i < chars.len()
        invariant
            i <= chars@.len(),
            chars@ == text@,
            forall|code: u32|
                counts@.contains_key(code) <==> symbol_count(text@, code, i as nat) > 0,
            forall|code: u32| #[trigger]
                counts@.contains_key(code) ==> counts@[code] == symbol_count(text@, code, i as nat),
        decreases chars@.len() - i,
    {
        let c = chars[i];
        let line_end = c == '\n' || (c == '\r' && i + 1 < chars.len() && chars[i + 1] == '\n');
        if !line_end {
            let code = char_code(c);
            proof {
                lemma_char_range(c);
                lemma_symbol_count_bound(text@, code, i as nat);
            }
            let seen: usize = match counts.get(&code) {
                Some(n) => *n,
                None => 0,
            };
            counts.insert(code, seen + 1);
        }
        i = i + 1;
    }
    proof {
        assert forall|code: u32|
            symbol_count(text@, code, text@.len()) == #[trigger] occurrences_in_lines(
                lines_of(text@),
                code,
            ) by {
            lemma_count_is_per_line(text@, code);
        }
    }
    counts
}

// ---------------------------------------------------------------------------
// Counting, line by line
// ---------------------------------------------------------------------------

/// How often the character with the code point `code` occurs in `s`.
pub open spec fn occurrences(s: Seq<char>, code: u32) -> nat
    decreases s.len(),
{
    if s.len() == 0 {
        0
    } else {
        occurrences(s.drop_last(), code) + if s.last() as u32 == code {
            1nat
        } else {
            0nat
        }
    }
}

/// How often the character with the code point `code` occurs in `lines`.
pub open spec fn occurrences_in_lines(lines: Seq<Seq<char>>, code: u32) -> nat
    decreases lines.len(),
{
    if lines.len() == 0 {
        0
    } else {
        occurrences_in_lines(lines.drop_last(), code) + occurrences(lines.last(), code)
    }
}

/// The occurrences in a line and in the lines after it add up.
proof fn lemma_occurrences_cons(first: Seq<char>, rest: Seq<Seq<char>>, code: u32)
    ensures
        occurrences_in_lines(seq![first] + rest, code) == occurrences(first, code)
            + occurrences_in_lines(rest, code),
    decreases rest.len(),
{
    let whole = seq![first] + rest;
    if rest.len() == 0 {
        assert(whole =~= seq![first]);
        assert(whole.drop_last() =~= Seq::<Seq<char>>::empty());
        assert(occurrences_in_lines(whole.drop_last(), code) == 0);
    } else {
        assert(whole.drop_last() =~= seq![first] + rest.drop_last());
        assert(whole.last() == rest.last());
        lemma_occurrences_cons(first, rest.drop_last(), code);
    }
}

/// In a text without line feed every character belongs to a line.
proof fn lemma_count_without_line_feed(s: Seq<char>, code: u32, upto: nat)
    requires
        free_of(s, '\n'),
        upto <= s.len(),
    ensures
        symbol_count(s, code, upto) == occurrences(s.take(upto as int), code),
    decreases upto,
{
    if upto > 0 {
        lemma_count_without_line_feed(s, code, (upto - 1) as nat);
        assert(s.take(upto as int).drop_last() =~= s.take(upto - 1));
        assert(s.take(upto as int).last() == s[upto - 1]);
        assert(s[upto - 1] != '\n');
        if upto < s.len() {
            assert(s[upto as int] != '\n');
        }
    } else {
        assert(s.take(0) =~= Seq::<char>::empty());
    }
}

/// In a line that a line feed ends, every character belongs to the line but
/// a carriage return at its end.
proof fn lemma_count_in_ended_line(s: Seq<char>, head: Seq<char>, tail: Seq<char>, code: u32, upto: nat)
    requires
        s == head + seq!['\n'] + tail,
        free_of(head, '\n'),
        upto <= head.len(),
    ensures
        symbol_count(s, code, upto) == if upto == head.len() {
            occurrences(strip_cr(head), code)
        } else {
            occurrences(head.take(upto as int), code)
        },
    decreases upto,
{
    if upto == 0 {
        assert(head.take(0) =~= Seq::<char>::empty());
        if head.len() == 0 {
            assert(strip_cr(head) =~= Seq::<char>::empty());
        }
    } else {
        lemma_count_in_ended_line(s, head, tail, code, (upto - 1) as nat);
        let i = upto - 1;
        assert(s[i] == head[i]);
        assert(head[i] != '\n');
        assert(head.take(upto as int).drop_last() =~= head.take(i));
        assert(head.take(upto as int).last() == head[i]);
        if upto == head.len() {
            assert(s[i + 1] == '\n');
            assert(head.take(upto as int) =~= head);
            assert(head.drop_last() =~= head.take(i));
            if head[i] == '\r' {
                assert(!in_a_line(s, i));
                assert(strip_cr(head) =~= head.take(i));
            } else {
                assert(in_a_line(s, i));
                assert(strip_cr(head) =~= head);
            }
        } else {
            assert(s[i + 1] == head[i + 1]);
            assert(head[i + 1] != '\n');
            assert(in_a_line(s, i));
        }
    }
}

/// After a line that a line feed ends, counting goes on as in the rest of
/// the text alone.
proof fn lemma_count_after_ended_line(s: Seq<char>, head: Seq<char>, tail: Seq<char>, code: u32, upto: nat)
    requires
        s == head + seq!['\n'] + tail,
        free_of(head, '\n'),
        upto <= tail.len(),
    ensures
        symbol_count(s, code, head.len() + 1 + upto) == occurrences(strip_cr(head), code)
            + symbol_count(tail, code, upto),
    decreases upto,
{
    let start = head.len() + 1;
    if upto == 0 {
        lemma_count_in_ended_line(s, head, tail, code, head.len());
        assert(s[head.len() as int] == '\n');
        assert(!in_a_line(s, head.len() as int));
    } else {
        lemma_count_after_ended_line(s, head, tail, code, (upto - 1) as nat);
        let j = upto - 1;
        assert(s[start + j] == tail[j]);
        if j + 1 < tail.len() {
            assert(s[start + j + 1] == tail[j + 1]);
        }
        assert(in_a_line(s, start + j) == in_a_line(tail, j));
    }
}

/// The lines of a text that begins with a line and a line feed are that
/// line, without a carriage return at its end, and the lines of the rest.
proof fn lemma_lines_of_cons(head: Seq<char>, tail: Seq<char>)
    requires
        free_of(head, '\n'),
    ensures
        lines_of(head + seq!['\n'] + tail) == seq![strip_cr(head)] + lines_of(tail),
{
    let s = head + seq!['\n'] + tail;
    lemma_split_on_cons(head, tail, '\n');
    let rest = split_on(tail, '\n');
    let pieces = split_on(s, '\n');
    assert(pieces == seq![head] + rest);
    assert(rest.len() >= 1) by {
        lemma_index_of_first(tail, '\n');
    }
    let ended = Seq::new((pieces.len() - 1) as nat, |i: int| strip_cr(pieces[i]));
    let ended_rest = Seq::new((rest.len() - 1) as nat, |i: int| strip_cr(rest[i]));
    assert(ended =~= seq![strip_cr(head)] + ended_rest) by {
        assert forall|i: int| 0 <= i < ended.len() implies ended[i] == (seq![strip_cr(head)]
            + ended_rest)[i] by {
            if i > 0 {
                assert(pieces[i] == rest[i - 1]);
            }
        }
    }
    assert(pieces.last() == rest.last());
    if rest.last().len() == 0 {
    } else {
        assert(ended.push(pieces.last()) =~= seq![strip_cr(head)] + ended_rest.push(rest.last()));
    }
}

/// Counting over the text counts the characters of its lines: what
/// `count_symbols_in_level` tells for a character is how often the character
/// occurs in the lines of the text.
pub proof fn lemma_count_is_per_line(text: Seq<char>, code: u32)
    ensures
        symbol_count(text, code, text.len()) == occurrences_in_lines(lines_of(text), code),
    decreases text.len(),
{
    lemma_index_of_first(text, '\n');
    let i = index_of(text, '\n');
    if i < text.len() {
        let head = text.subrange(0, i);
        let tail = text.subrange(i + 1, text.len() as int);
        assert(text =~= head + seq!['\n'] + tail);
        assert(free_of(head, '\n')) by {
            assert forall|k: int| 0 <= k < head.len() implies #[trigger] head[k] != '\n' by {
                assert(head[k] == text[k]);
            }
        }
        lemma_count_after_ended_line(text, head, tail, code, tail.len());
        lemma_count_is_per_line(tail, code);
        lemma_lines_of_cons(head, tail);
        lemma_occurrences_cons(strip_cr(head), lines_of(tail), code);
    } else {
        assert(free_of(text, '\n'));
        lemma_count_without_line_feed(text, code, text.len());
        assert(text.take(text.len() as int) =~= text);
        lemma_split_on_single(text, '\n');
        let pieces = split_on(text, '\n');
        let ended = Seq::new((pieces.len() - 1) as nat, |k: int| strip_cr(pieces[k]));
        assert(ended =~= Seq::<Seq<char>>::empty());
        if text.len() == 0 {
            assert(lines_of(text) =~= Seq::<Seq<char>>::empty());
        } else {
            assert(lines_of(text) =~= seq![text]);
            lemma_occurrences_cons(text, Seq::<Seq<char>>::empty(), code);
            assert(seq![text] + Seq::<Seq<char>>::empty() =~= seq![text]);
        }
    }
}

} // verus!
