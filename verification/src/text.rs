//! Characters and text: reading a string's characters, building strings,
//! decimal numbers, white space, and cutting text into pieces and lines.

use vstd::prelude::*;

verus! {

/// `String::push` appends one character to the end of the string.
pub assume_specification[ String::push ](s: &mut String, ch: char)
    ensures
        final(s)@ == old(s)@.push(ch),
;

/// The characters of `s`, in order.
pub fn chars_of(s: &str) -> (chars: Vec<char>)
    ensures
        chars@ == s@,
{
    let mut chars: Vec<char> = Vec::new();
    for c in it: s.chars()
        invariant
            chars@ == it.seq().take(it.index() as int),
            it.seq() == s@,
    {
        chars.push(c);
    }
    chars
}

/// A character's code point is at most `0x10FFFF` and no surrogate, so it
/// fits in 32 bits.
pub proof fn lemma_char_range(c: char)
    ensures
        0 <= c as int <= 0xD7FF || 0xE000 <= c as int <= 0x10FFFF,
        (c as u32) as int == c as int,
{
}

/// The code point of `c`.
pub fn char_code(c: char) -> (code: u32)
    ensures
        code as int == c as int,
        code == c as u32,
{
    c as u32
}

/// Appends the characters of `chars` to `out`.
pub fn push_chars(out: &mut String, chars: &Vec<char>)
    ensures
        final(out)@ == old(out)@ + chars@,
{
    let mut i: usize = 0;
    while i < chars.len()
        invariant
            i <= chars@.len(),
            out@ == old(out)@ + chars@.take(i as int),
        decreases chars@.len() - i,
    {
        out.push(chars[i]);
        i = i + 1;
        assert(out@ =~= old(out)@ + chars@.take(i as int));
    }
    assert(chars@.take(chars@.len() as int) =~= chars@);
}

// ---------------------------------------------------------------------------
// Decimal numbers
// ---------------------------------------------------------------------------

/// The character of the decimal digit `d`.
pub open spec fn digit_char(d: nat) -> char {
    ((48 + d) as u8) as char
}

/// Whether `c` is one of the ten decimal digits.
pub open spec fn is_digit(c: char) -> bool {
    48 <= c as int <= 57
}

/// The value of the decimal digit `c`.
pub open spec fn digit_value(c: char) -> nat {
    (c as int - 48) as nat
}

/// The decimal numeral of `n`: no sign, no leading zero but for zero itself.
pub open spec fn decimal(n: nat) -> Seq<char>
    decreases n,
{
    if n < 10 {
        seq![digit_char(n)]
    } else {
        decimal(n / 10).push(digit_char(n % 10))
    }
}

/// Whether every character of `s` is a decimal digit.
pub open spec fn all_digits(s: Seq<char>) -> bool {
    forall|i: int| 0 <= i < s.len() ==> is_digit(#[trigger] s[i])
}

/// The number that the digits of `s` write, read from the left.
pub open spec fn digits_value(s: Seq<char>) -> nat
    decreases s.len(),
{
    if s.len() == 0 {
        0
    } else {
        digits_value(s.drop_last()) * 10 + digit_value(s.last())
    }
}

/// The digits of a numeral: what follows an optional leading plus sign.
pub open spec fn numeral_digits(s: Seq<char>) -> Seq<char> {
    if s.len() > 0 && s[0] == '+' {
        s.subrange(1, s.len() as int)
    } else {
        s
    }
}

/// The number that `s` writes as an unsigned 32-bit decimal numeral: an
/// optional plus sign, then one or more digits whose value fits in 32 bits.
/// Anything else writes no number.
pub open spec fn parse_u32(s: Seq<char>) -> Option<u32> {
    let digits = numeral_digits(s);
    if digits.len() > 0 && all_digits(digits) && digits_value(digits) <= u32::MAX {
        Some(digits_value(digits) as u32)
    } else {
        None
    }
}

/// Appends the decimal numeral of `n` to `out`.
pub fn push_decimal(out: &mut String, n: u64)
    ensures
        final(out)@ == old(out)@ + decimal(n as nat),
    decreases n,
{
    if n >= 10 {
        push_decimal(out, n / 10);
    }
    let d: u8 = (n % 10) as u8;
    out.push((48u8 + d) as char);
    proof {
        if n >= 10 {
            assert(out@ =~= old(out)@ + decimal(n as nat));
        } else {
            assert(out@ =~= old(out)@ + decimal(n as nat));
        }
    }
}

/// A numeral's value never shrinks when more digits follow.
pub proof fn lemma_digits_value_prefix(s: Seq<char>, k: int)
    requires
        0 <= k <= s.len(),
    ensures
        digits_value(s.take(k)) <= digits_value(s),
    decreases s.len(),
{
    if k < s.len() {
        lemma_digits_value_prefix(s.drop_last(), k);
        assert(s.drop_last().take(k) =~= s.take(k));
    } else {
        assert(s.take(k) =~= s);
    }
}

/// The number written by `chars[from..to]`, if it writes one.
pub fn parse_u32_range(chars: &Vec<char>, from: usize, to: usize) -> (value: Option<u32>)
    requires
        from <= to <= chars@.len(),
    ensures
        value == parse_u32(chars@.subrange(from as int, to as int)),
{
    let ghost s = chars@.subrange(from as int, to as int);
    let mut i: usize = from;
    if from < to && chars[from] == '+' {
        i = from + 1;
    }
    let ghost digits = numeral_digits(s);
    let start: usize = i;
    assert(digits =~= chars@.subrange(start as int, to as int));
    if start == to {
        return None;
    }
    let mut acc: u64 = 0;
    while i < to
        invariant
            start <= i <= to <= chars@.len(),
            s == chars@.subrange(from as int, to as int),
            digits == numeral_digits(s),
            digits == chars@.subrange(start as int, to as int),
            all_digits(digits.take(i - start)),
            acc == digits_value(digits.take(i - start)),
            acc <= u32::MAX,
        decreases to - i,
    {
        let c = chars[i];
        let code: u32 = char_code(c);
        proof {
            assert(digits[i - start] == c);
            assert(digits.take(i - start + 1).drop_last() =~= digits.take(i - start));
            assert(digits.take(i - start + 1).last() == c);
        }
        if code < 48 || code > 57 {
            assert(!is_digit(digits[i - start]));
            return None;
        }
        let next: u64 = acc * 10 + (code - 48) as u64;
        if next > 0xFFFF_FFFF {
            proof {
                lemma_digits_value_prefix(digits, i - start + 1);
            }
            return None;
        }
        proof {
            let t = digits.take(i - start + 1);
            let shorter = digits.take(i - start);
            assert forall|j: int| 0 <= j < t.len() implies is_digit(#[trigger] t[j]) by {
                if j < t.len() - 1 {
                    assert(t[j] == shorter[j]);
                } else {
                    assert(t[j] == c);
                }
            }
        }
        acc = next;
        i = i + 1;
    }
    assert(digits.take(to - start) =~= digits);
    Some(acc as u32)
}

// ---------------------------------------------------------------------------
// White space
// ---------------------------------------------------------------------------

/// Whether `c` is white space: the characters of Unicode's `White_Space`
/// property.
pub open spec fn is_space(c: char) -> bool {
    let code = c as int;
    ||| 9 <= code <= 13
    ||| code == 0x20
    ||| code == 0x85
    ||| code == 0xA0
    ||| code == 0x1680
    ||| 0x2000 <= code <= 0x200A
    ||| code == 0x2028
    ||| code == 0x2029
    ||| code == 0x202F
    ||| code == 0x205F
    ||| code == 0x3000
}

/// Whether `c` is white space.
pub fn is_whitespace(c: char) -> (space: bool)
    ensures
        space == is_space(c),
{
    let code: u32 = c as u32;
    (9 <= code && code <= 13) || code == 0x20 || code == 0x85 || code == 0xA0 || code == 0x1680
        || (0x2000 <= code && code <= 0x200A) || code == 0x2028 || code == 0x2029 || code
        == 0x202F || code == 0x205F || code == 0x3000
}

/// How many white-space characters `s` begins with.
pub open spec fn leading_spaces(s: Seq<char>) -> nat
    decreases s.len(),
{
    if s.len() > 0 && is_space(s[0]) {
        1 + leading_spaces(s.drop_first())
    } else {
        0
    }
}

/// How many white-space characters `s` ends with.
pub open spec fn trailing_spaces(s: Seq<char>) -> nat
    decreases s.len(),
{
    if s.len() > 0 && is_space(s.last()) {
        1 + trailing_spaces(s.drop_last())
    } else {
        0
    }
}

/// `s` without the white space at its start.
pub open spec fn trimmed_start(s: Seq<char>) -> Seq<char> {
    s.subrange(leading_spaces(s) as int, s.len() as int)
}

/// `s` without the white space at its start and at its end.
pub open spec fn trimmed(s: Seq<char>) -> Seq<char> {
    let rest = trimmed_start(s);
    rest.subrange(0, rest.len() - trailing_spaces(rest))
}

/// `leading_spaces` counts exactly the white space before the first other
/// character.
pub proof fn lemma_leading_spaces(s: Seq<char>, k: int)
    requires
        0 <= k <= s.len(),
        forall|i: int| 0 <= i < k ==> is_space(#[trigger] s[i]),
        k < s.len() ==> !is_space(s[k]),
    ensures
        leading_spaces(s) == k,
    decreases k,
{
    if k > 0 {
        let rest = s.drop_first();
        assert forall|i: int| 0 <= i < k - 1 implies is_space(#[trigger] rest[i]) by {
            assert(rest[i] == s[i + 1]);
        }
        lemma_leading_spaces(rest, k - 1);
    }
}

/// `trailing_spaces` counts exactly the white space after the last other
/// character.
pub proof fn lemma_trailing_spaces(s: Seq<char>, k: int)
    requires
        0 <= k <= s.len(),
        forall|i: int| s.len() - k <= i < s.len() ==> is_space(#[trigger] s[i]),
        k < s.len() ==> !is_space(s[s.len() - k - 1]),
    ensures
        trailing_spaces(s) == k,
    decreases k,
{
    if k > 0 {
        let rest = s.drop_last();
        assert forall|i: int| rest.len() - (k - 1) <= i < rest.len() implies is_space(
            #[trigger] rest[i],
        ) by {
            assert(rest[i] == s[i]);
        }
        lemma_trailing_spaces(rest, k - 1);
    }
}

/// The bounds of `chars[from..to]` without the white space at its two ends.
pub fn trim_range(chars: &Vec<char>, from: usize, to: usize) -> (bounds: (usize, usize))
    requires
        from <= to <= chars@.len(),
    ensures
        from <= bounds.0 <= bounds.1 <= to,
        chars@.subrange(bounds.0 as int, bounds.1 as int) == trimmed(
            chars@.subrange(from as int, to as int),
        ),
{
    let ghost s = chars@.subrange(from as int, to as int);
    let mut a: usize = from;
    while a < to && is_whitespace(chars[a])
        invariant
            from <= a <= to <= chars@.len(),
            forall|i: int| from <= i < a ==> is_space(#[trigger] chars@[i]),
        decreases to - a,
    {
        a = a + 1;
    }
    proof {
        assert forall|i: int| 0 <= i < a - from implies is_space(#[trigger] s[i]) by {
            assert(s[i] == chars@[from + i]);
        }
        lemma_leading_spaces(s, a - from);
    }
    let ghost rest = trimmed_start(s);
    assert(rest =~= chars@.subrange(a as int, to as int));
    let mut b: usize = to;
    while b > a && is_whitespace(chars[b - 1])
        invariant
            a <= b <= to <= chars@.len(),
            forall|i: int| b <= i < to ==> is_space(#[trigger] chars@[i]),
        decreases b - a,
    {
        b = b - 1;
    }
    proof {
        assert forall|i: int| rest.len() - (to - b) <= i < rest.len() implies is_space(
            #[trigger] rest[i],
        ) by {
            assert(rest[i] == chars@[a + i]);
        }
        lemma_trailing_spaces(rest, to - b);
        assert(chars@.subrange(a as int, b as int) =~= rest.subrange(0, rest.len() - (to - b)));
    }
    (a, b)
}

// ---------------------------------------------------------------------------
// Pieces and lines
// ---------------------------------------------------------------------------

/// The position of the first `sep` in `s`, or the length of `s` when it
/// holds none.
pub open spec fn index_of(s: Seq<char>, sep: char) -> int
    decreases s.len(),
{
    if s.len() == 0 || s[0] == sep {
        0
    } else {
        1 + index_of(s.drop_first(), sep)
    }
}

/// The pieces of `s` between its separators `sep`, in order: one more piece
/// than there are separators, so always at least one.
pub open spec fn split_on(s: Seq<char>, sep: char) -> Seq<Seq<char>>
    decreases s.len(),
{
    let i = index_of(s, sep);
    if 0 <= i < s.len() {
        seq![s.subrange(0, i)] + split_on(s.subrange(i + 1, s.len() as int), sep)
    } else {
        seq![s]
    }
}

/// `s` without one carriage return at its end, if it ends with one.
pub open spec fn strip_cr(s: Seq<char>) -> Seq<char> {
    if s.len() > 0 && s.last() == '\r' {
        s.drop_last()
    } else {
        s
    }
}

/// The lines of `s`. A line ends at a line feed; the line feed, and a
/// carriage return just before it, are not part of the line. Text after the
/// last line feed is a line of its own unless it is empty.
pub open spec fn lines_of(s: Seq<char>) -> Seq<Seq<char>> {
    let pieces = split_on(s, '\n');
    let ended = Seq::new((pieces.len() - 1) as nat, |i: int| strip_cr(pieces[i]));
    if pieces.last().len() == 0 {
        ended
    } else {
        ended.push(pieces.last())
    }
}

/// `index_of` finds exactly the first separator.
pub proof fn lemma_index_of(s: Seq<char>, sep: char, k: int)
    requires
        0 <= k <= s.len(),
        forall|i: int| 0 <= i < k ==> #[trigger] s[i] != sep,
        k < s.len() ==> s[k] == sep,
    ensures
        index_of(s, sep) == k,
    decreases k,
{
    if k > 0 {
        let rest = s.drop_first();
        assert forall|i: int| 0 <= i < k - 1 implies #[trigger] rest[i] != sep by {
            assert(rest[i] == s[i + 1]);
        }
        lemma_index_of(rest, sep, k - 1);
    }
}

/// `index_of` is the position of the first separator: no separator comes
/// before it, and one stands at it unless it is the length of the text.
pub proof fn lemma_index_of_first(s: Seq<char>, sep: char)
    ensures
        0 <= index_of(s, sep) <= s.len(),
        forall|i: int| 0 <= i < index_of(s, sep) ==> #[trigger] s[i] != sep,
        index_of(s, sep) < s.len() ==> s[index_of(s, sep)] == sep,
    decreases s.len(),
{
    if s.len() > 0 && s[0] != sep {
        let rest = s.drop_first();
        lemma_index_of_first(rest, sep);
        assert forall|i: int| 0 <= i < index_of(s, sep) implies #[trigger] s[i] != sep by {
            if i > 0 {
                assert(s[i] == rest[i - 1]);
            }
        }
    }
}

/// The pieces of `chars` between its separators `sep`.
pub fn split_chars(chars: &Vec<char>, sep: char) -> (pieces: Vec<Vec<char>>)
    ensures
        pieces@.map_values(|p: Vec<char>| p@) == split_on(chars@, sep),
        pieces@.len() >= 1,
{
    let ghost s = chars@;
    let mut pieces: Vec<Vec<char>> = Vec::new();
    let mut piece: Vec<char> = Vec::new();
    let mut start: usize = 0;
    let mut i: usize = 0;
    proof {
        assert(s.subrange(0, s.len() as int) =~= s);
        assert(pieces@.map_values(|p: Vec<char>| p@) + split_on(s, sep) =~= split_on(s, sep));
    }
    while i < chars.len()
        invariant
            s == chars@,
            start <= i <= s.len(),
            piece@ == s.subrange(start as int, i as int),
            forall|j: int| start <= j < i ==> #[trigger] s[j] != sep,
            split_on(s, sep) == pieces@.map_values(|p: Vec<char>| p@) + split_on(
                s.subrange(start as int, s.len() as int),
                sep,
            ),
        decreases s.len() - i,
    {
        let c = chars[i];
        if c == sep {
            proof {
                let tail = s.subrange(start as int, s.len() as int);
                assert forall|j: int| 0 <= j < i - start implies #[trigger] tail[j] != sep by {
                    assert(tail[j] == s[start + j]);
                }
                lemma_index_of(tail, sep, i - start);
                assert(tail.subrange(0, i - start) =~= piece@);
                assert(tail.subrange(i - start + 1, tail.len() as int) =~= s.subrange(
                    i + 1,
                    s.len() as int,
                ));
                let done = pieces@.map_values(|p: Vec<char>| p@);
                assert(done.push(piece@) =~= done + seq![piece@]);
                assert(pieces@.push(piece).map_values(|p: Vec<char>| p@) =~= done.push(piece@));
            }
            pieces.push(piece);
            piece = Vec::new();
            start = i + 1;
            i = i + 1;
            assert(piece@ =~= s.subrange(start as int, i as int));
        } else {
            piece.push(c);
            i = i + 1;
            assert(piece@ =~= s.subrange(start as int, i as int));
        }
    }
    proof {
        let tail = s.subrange(start as int, s.len() as int);
        assert forall|j: int| 0 <= j < tail.len() implies #[trigger] tail[j] != sep by {
            assert(tail[j] == s[start + j]);
        }
        lemma_index_of(tail, sep, tail.len() as int);
        assert(piece@ =~= tail);
        let done = pieces@.map_values(|p: Vec<char>| p@);
        assert(done.push(piece@) =~= done + seq![piece@]);
        assert(pieces@.push(piece).map_values(|p: Vec<char>| p@) =~= done.push(piece@));
    }
    pieces.push(piece);
    pieces
}

/// The lines of `chars`.
pub fn lines_of_chars(chars: &Vec<char>) -> (lines: Vec<Vec<char>>)
    ensures
        lines@.map_values(|l: Vec<char>| l@) == lines_of(chars@),
{
    let mut pieces = split_chars(chars, '\n');
    let ghost all = split_on(chars@, '\n');
    let last = pieces.pop().unwrap();
    assert(last@ == all.last());
    assert(pieces@.map_values(|p: Vec<char>| p@) =~= all.drop_last());
    let mut lines: Vec<Vec<char>> = Vec::new();
    let n = pieces.len();
    let mut i: usize = 0;
    while i < n
        invariant
            n == pieces@.len(),
            n == all.len() - 1,
            i <= n,
            forall|j: int| 0 <= j < n ==> (#[trigger] pieces@[j])@ == all[j],
            lines@.len() == i,
            forall|j: int| 0 <= j < i ==> (#[trigger] lines@[j])@ == strip_cr(all[j]),
        decreases n - i,
    {
        let mut line: Vec<char> = Vec::new();
        let piece = &pieces[i];
        let m = piece.len();
        let keep: usize = if m > 0 && piece[m - 1] == '\r' { m - 1 } else { m };
        let mut k: usize = 0;
        while k < keep
            invariant
                k <= keep <= piece@.len(),
                line@ == piece@.take(k as int),
            decreases keep - k,
        {
            line.push(piece[k]);
            k = k + 1;
            assert(line@ =~= piece@.take(k as int));
        }
        assert(line@ =~= strip_cr(all[i as int])) by {
            assert(piece@ == all[i as int]);
            assert(piece@.take(piece@.len() as int) =~= piece@);
            assert(piece@.take(piece@.len() - 1) =~= piece@.drop_last());
        }
        lines.push(line);
        i = i + 1;
    }
    let ghost ended = Seq::new((all.len() - 1) as nat, |j: int| strip_cr(all[j]));
    assert(lines@.map_values(|l: Vec<char>| l@) =~= ended);
    if last.len() > 0 {
        proof {
            assert(lines@.push(last).map_values(|l: Vec<char>| l@) =~= ended.push(last@));
        }
        lines.push(last);
    }
    lines
}

// ---------------------------------------------------------------------------
// Joining pieces and lines
// ---------------------------------------------------------------------------

/// The pieces written one after another with `sep` between neighbours.
pub open spec fn join(pieces: Seq<Seq<char>>, sep: char) -> Seq<char>
    decreases pieces.len(),
{
    if pieces.len() == 0 {
        Seq::empty()
    } else if pieces.len() == 1 {
        pieces[0]
    } else {
        pieces[0] + seq![sep] + join(pieces.drop_first(), sep)
    }
}

/// The lines written one after another, each ended by a line feed.
pub open spec fn unlines(lines: Seq<Seq<char>>) -> Seq<char>
    decreases lines.len(),
{
    if lines.len() == 0 {
        Seq::empty()
    } else {
        lines[0] + seq!['\n'] + unlines(lines.drop_first())
    }
}

/// Whether `s` holds the character `c` nowhere.
pub open spec fn free_of(s: Seq<char>, c: char) -> bool {
    forall|i: int| 0 <= i < s.len() ==> #[trigger] s[i] != c
}

/// Whether `s` reads back as one line: it holds no line feed and does not
/// end with a carriage return.
pub open spec fn is_plain_line(s: Seq<char>) -> bool {
    free_of(s, '\n') && strip_cr(s) == s
}

/// Joining one more piece appends the separator and the piece.
pub proof fn lemma_join_push(pieces: Seq<Seq<char>>, sep: char, piece: Seq<char>)
    requires
        pieces.len() >= 1,
    ensures
        join(pieces.push(piece), sep) == join(pieces, sep) + seq![sep] + piece,
    decreases pieces.len(),
{
    let longer = pieces.push(piece);
    assert(longer.drop_first() =~= pieces.drop_first().push(piece));
    if pieces.len() == 1 {
        assert(longer.drop_first() =~= seq![piece]);
        assert(join(longer.drop_first(), sep) == piece);
        assert(join(longer, sep) =~= pieces[0] + seq![sep] + piece);
    } else {
        lemma_join_push(pieces.drop_first(), sep, piece);
        assert(join(longer, sep) =~= join(pieces, sep) + seq![sep] + piece);
    }
}

/// Writing one more line appends the line and a line feed.
pub proof fn lemma_unlines_push(lines: Seq<Seq<char>>, line: Seq<char>)
    ensures
        unlines(lines.push(line)) == unlines(lines) + line + seq!['\n'],
    decreases lines.len(),
{
    let longer = lines.push(line);
    if lines.len() == 0 {
        assert(longer.drop_first() =~= Seq::<Seq<char>>::empty());
        assert(unlines(longer.drop_first()) =~= Seq::<char>::empty());
        assert(longer[0] == line);
        assert(unlines(longer) =~= line + seq!['\n']);
        assert(unlines(lines) + line + seq!['\n'] =~= line + seq!['\n']);
    } else {
        assert(longer.drop_first() =~= lines.drop_first().push(line));
        lemma_unlines_push(lines.drop_first(), line);
        assert(unlines(longer) =~= unlines(lines) + line + seq!['\n']);
    }
}

/// Splitting `head`, a separator and `tail` gives `head`, then the pieces of
/// `tail`, when `head` holds no separator.
pub proof fn lemma_split_on_cons(head: Seq<char>, tail: Seq<char>, sep: char)
    requires
        free_of(head, sep),
    ensures
        split_on(head + seq![sep] + tail, sep) == seq![head] + split_on(tail, sep),
{
    let s = head + seq![sep] + tail;
    let k = head.len() as int;
    assert forall|i: int| 0 <= i < k implies #[trigger] s[i] != sep by {
        assert(s[i] == head[i]);
    }
    assert(s[k] == sep);
    lemma_index_of(s, sep, k);
    assert(s.subrange(0, k) =~= head);
    assert(s.subrange(k + 1, s.len() as int) =~= tail);
}

/// A text without separator is its own single piece.
pub proof fn lemma_split_on_single(s: Seq<char>, sep: char)
    requires
        free_of(s, sep),
    ensures
        split_on(s, sep) == seq![s],
{
    lemma_index_of(s, sep, s.len() as int);
}

/// Splitting what was joined gives the pieces back, when there is at least
/// one piece and none holds the separator.
pub proof fn lemma_split_join(pieces: Seq<Seq<char>>, sep: char)
    requires
        pieces.len() >= 1,
        forall|i: int| 0 <= i < pieces.len() ==> free_of(#[trigger] pieces[i], sep),
    ensures
        split_on(join(pieces, sep), sep) == pieces,
    decreases pieces.len(),
{
    if pieces.len() == 1 {
        lemma_split_on_single(pieces[0], sep);
        assert(pieces =~= seq![pieces[0]]);
    } else {
        let rest = pieces.drop_first();
        assert forall|i: int| 0 <= i < rest.len() implies free_of(#[trigger] rest[i], sep) by {
            assert(rest[i] == pieces[i + 1]);
        }
        lemma_split_join(rest, sep);
        lemma_split_on_cons(pieces[0], join(rest, sep), sep);
        assert(seq![pieces[0]] + rest =~= pieces);
    }
}

/// Splitting written lines at the line feeds gives the lines, then one empty
/// piece.
pub proof fn lemma_split_unlines(lines: Seq<Seq<char>>)
    requires
        forall|i: int| 0 <= i < lines.len() ==> free_of(#[trigger] lines[i], '\n'),
    ensures
        split_on(unlines(lines), '\n') == lines.push(Seq::empty()),
    decreases lines.len(),
{
    if lines.len() == 0 {
        lemma_split_on_single(Seq::<char>::empty(), '\n');
        assert(lines.push(Seq::empty()) =~= seq![Seq::<char>::empty()]);
    } else {
        let rest = lines.drop_first();
        assert forall|i: int| 0 <= i < rest.len() implies free_of(#[trigger] rest[i], '\n') by {
            assert(rest[i] == lines[i + 1]);
        }
        lemma_split_unlines(rest);
        lemma_split_on_cons(lines[0], unlines(rest), '\n');
        assert(seq![lines[0]] + rest.push(Seq::empty()) =~= lines.push(Seq::empty()));
    }
}

/// Reading the lines of what was written gives the lines back, when each
/// reads back as one line.
pub proof fn lemma_lines_of_unlines(lines: Seq<Seq<char>>)
    requires
        forall|i: int| 0 <= i < lines.len() ==> is_plain_line(#[trigger] lines[i]),
    ensures
        lines_of(unlines(lines)) == lines,
{
    lemma_split_unlines(lines);
    let pieces = split_on(unlines(lines), '\n');
    assert(pieces.last().len() == 0);
    let ended = Seq::new((pieces.len() - 1) as nat, |i: int| strip_cr(pieces[i]));
    assert forall|i: int| 0 <= i < lines.len() implies ended[i] == lines[i] by {
        assert(pieces[i] == lines[i]);
    }
    assert(ended =~= lines);
}

/// A decimal numeral is made of digits: it is not empty, and its value is
/// the number it was written for.
pub proof fn lemma_decimal(n: nat)
    ensures
        decimal(n).len() >= 1,
        all_digits(decimal(n)),
        digits_value(decimal(n)) == n,
    decreases n,
{
    if n < 10 {
        let s = decimal(n);
        assert(s.drop_last() =~= Seq::<char>::empty());
        assert(digits_value(s.drop_last()) == 0);
        assert(digit_char(n) as int == 48 + n);
    } else {
        lemma_decimal(n / 10);
        let shorter = decimal(n / 10);
        let s = decimal(n);
        assert(s.drop_last() =~= shorter);
        assert(digit_char(n % 10) as int == 48 + n % 10);
        assert forall|i: int| 0 <= i < s.len() implies is_digit(#[trigger] s[i]) by {
            if i < shorter.len() {
                assert(s[i] == shorter[i]);
            }
        }
    }
}

/// Digits are neither white space nor a sign, a comma or a line end.
pub proof fn lemma_digits_plain(s: Seq<char>)
    requires
        all_digits(s),
    ensures
        free_of(s, ','),
        free_of(s, '\n'),
        is_plain_line(s),
        trimmed(s) == s,
        numeral_digits(s) == s,
{
    assert forall|i: int| 0 <= i < s.len() implies #[trigger] s[i] != ',' by {
        assert(is_digit(s[i]));
    }
    assert forall|i: int| 0 <= i < s.len() implies #[trigger] s[i] != '\n' by {
        assert(is_digit(s[i]));
    }
    if s.len() > 0 {
        assert(is_digit(s[0]));
        assert(is_digit(s[s.len() - 1]));
    }
    lemma_leading_spaces(s, 0);
    assert(trimmed_start(s) =~= s);
    lemma_trailing_spaces(s, 0);
    assert(trimmed(s) =~= s);
}

/// Reading a written number gives the number back.
pub proof fn lemma_parse_decimal(n: u32)
    ensures
        parse_u32(trimmed(decimal(n as nat))) == Some(n),
{
    lemma_decimal(n as nat);
    lemma_digits_plain(decimal(n as nat));
}

} // verus!
