//! The text form of an elevation tile: lines of comma-separated tokens.
//!
//! Lines end at line feeds. White space around a line and around a token does
//! not count, and a line of white space only is no line at all. Every other
//! line holds one token more than it holds commas, so a token may be empty.

use crate::error::push_char;
use crate::field::{field_offset, FIELD_LEN, FIELD_SIDE};
use vstd::prelude::*;

verus! {

/// Characters that count as white space: the Unicode `White_Space` set.
pub open spec fn is_space(c: char) -> bool {
    let code = c as u32;
    ||| 0x09 <= code <= 0x0d
    ||| code == 0x20
    ||| code == 0x85
    ||| code == 0xa0
    ||| code == 0x1680
    ||| 0x2000 <= code <= 0x200a
    ||| code == 0x2028
    ||| code == 0x2029
    ||| code == 0x202f
    ||| code == 0x205f
    ||| code == 0x3000
}

/// `s` without its leading white space.
pub open spec fn trim_start(s: Seq<char>) -> Seq<char>
    decreases s.len(),
{
    if s.len() > 0 && is_space(s.first()) {
        trim_start(s.drop_first())
    } else {
        s
    }
}

/// `s` without its trailing white space.
pub open spec fn trim_end(s: Seq<char>) -> Seq<char>
    decreases s.len(),
{
    if s.len() > 0 && is_space(s.last()) {
        trim_end(s.drop_last())
    } else {
        s
    }
}

/// `s` without the white space at either end.
pub open spec fn trim(s: Seq<char>) -> Seq<char> {
    trim_end(trim_start(s))
}

/// The pieces of `s` between occurrences of `sep`, in order. There is always
/// one piece more than there are separators; pieces may be empty.
pub open spec fn split(s: Seq<char>, sep: char) -> Seq<Seq<char>>
    decreases s.len(),
{
    if s.len() == 0 {
        seq![Seq::<char>::empty()]
    } else {
        let before = split(s.drop_last(), sep);
        if s.last() == sep {
            before.push(Seq::<char>::empty())
        } else {
            before.drop_last().push(before.last().push(s.last()))
        }
    }
}

/// The tokens on one line: none if the line is blank, else the trimmed pieces
/// between the commas of the trimmed line.
pub open spec fn line_tokens(line: Seq<char>) -> Seq<Seq<char>> {
    if trim(line).len() == 0 {
        Seq::<Seq<char>>::empty()
    } else {
        split(trim(line), ',').map_values(|piece: Seq<char>| trim(piece))
    }
}

/// All tokens of a text, line by line.
pub open spec fn text_tokens(text: Seq<char>) -> Seq<Seq<char>> {
    split(text, '\n').map_values(|line: Seq<char>| line_tokens(line)).flatten()
}

/// The character sequences of a list of strings.
pub open spec fn token_texts(tokens: Seq<String>) -> Seq<Seq<char>> {
    tokens.map_values(|token: String| token@)
}

/// Tells whether a character is white space.
pub fn is_whitespace(c: char) -> (space: bool)
    ensures
        space == is_space(c),
{
    let code: u32 = c as u32;
    (0x09 <= code && code <= 0x0d) || code == 0x20 || code == 0x85 || code == 0xa0 || code
        == 0x1680 || (0x2000 <= code && code <= 0x200a) || code == 0x2028 || code == 0x2029
        || code == 0x202f || code == 0x205f || code == 0x3000
}

/// The characters of a string.
pub fn to_chars(data: &str) -> (chars: Vec<char>)
    ensures
        chars@ == data@,
{
    let mut chars: Vec<char> = Vec::new();
    for c in it: data.chars()
        invariant
            chars@ == it.seq().take(it.index() as int),
            it.seq() == data@,
    {
        chars.push(c);
    }
    chars
}

/// Finds the part of `chars[start..end]` that is left after trimming.
fn trim_bounds(chars: &[char], start: usize, end: usize) -> (bounds: (usize, usize))
    requires
        start <= end <= chars@.len(),
    ensures
        start <= bounds.0 <= bounds.1 <= end,
        chars@.subrange(bounds.0 as int, bounds.1 as int) == trim(
            chars@.subrange(start as int, end as int),
        ),
{
    let mut a: usize = start;
    while a < end && is_whitespace(chars[a])
        invariant
            start <= a <= end <= chars@.len(),
            trim_start(chars@.subrange(start as int, end as int)) == trim_start(
                chars@.subrange(a as int, end as int),
            ),
        decreases end - a,
    {
        assert(chars@.subrange(a as int, end as int).drop_first() == chars@.subrange(
            a + 1,
            end as int,
        ));
        a += 1;
    }
    assert(trim_start(chars@.subrange(a as int, end as int)) == chars@.subrange(
        a as int,
        end as int,
    ));
    let mut b: usize = end;
    while a < b && is_whitespace(chars[b - 1])
        invariant
            a <= b <= end <= chars@.len(),
            trim_end(chars@.subrange(a as int, end as int)) == trim_end(
                chars@.subrange(a as int, b as int),
            ),
        decreases b - a,
    {
        assert(chars@.subrange(a as int, b as int).drop_last() == chars@.subrange(
            a as int,
            b - 1,
        ));
        b -= 1;
    }
    assert(trim_end(chars@.subrange(a as int, b as int)) == chars@.subrange(a as int, b as int));
    (a, b)
}

/// Appends the trimmed text of `chars[start..end]` to `tokens` as one token.
fn push_token(chars: &[char], start: usize, end: usize, tokens: &mut Vec<String>)
    requires
        start <= end <= chars@.len(),
    ensures
        token_texts(final(tokens)@) == token_texts(old(tokens)@).push(
            trim(chars@.subrange(start as int, end as int)),
        ),
{
    let (a, b) = trim_bounds(chars, start, end);
    let mut text: String = String::new();
    let mut i: usize = a;
    while i < b
        invariant
            a <= i <= b <= chars@.len(),
            text@ == chars@.subrange(a as int, i as int),
        decreases b - i,
    {
        push_char(&mut text, chars[i]);
        assert(chars@.subrange(a as int, i + 1) == chars@.subrange(a as int, i as int).push(
            chars@[i as int],
        ));
        i += 1;
    }
    tokens.push(text);
    assert(token_texts(tokens@) == token_texts(old(tokens)@).push(
        trim(chars@.subrange(start as int, end as int)),
    ));
}

/// One more character read while splitting: either it closes the last piece
/// and opens an empty one, or it joins the last piece.
proof fn lemma_split_step(s: Seq<char>, sep: char, done: Seq<Seq<char>>, piece: Seq<char>)
    requires
        s.len() > 0,
        split(s.drop_last(), sep) == done.push(piece),
    ensures
        s.last() == sep ==> split(s, sep) == done.push(piece).push(Seq::<char>::empty()),
        s.last() != sep ==> split(s, sep) == done.push(piece.push(s.last())),
{
    assert(done.push(piece).drop_last() == done);
}

/// Appends the tokens of the line `chars[start..end]` to `tokens`.
fn push_line_tokens(chars: &[char], start: usize, end: usize, tokens: &mut Vec<String>)
    requires
        start <= end <= chars@.len(),
    ensures
        token_texts(final(tokens)@) == token_texts(old(tokens)@) + line_tokens(
            chars@.subrange(start as int, end as int),
        ),
{
    let (a, b) = trim_bounds(chars, start, end);
    if a == b {
        assert(token_texts(tokens@) + Seq::<Seq<char>>::empty() == token_texts(tokens@));
        return ;
    }
    let ghost line = chars@.subrange(a as int, b as int);
    let ghost trimmed = |piece: Seq<char>| trim(piece);
    let ghost mut done: Seq<Seq<char>> = Seq::empty();
    let mut piece_start: usize = a;
    let mut i: usize = a;
    assert(chars@.subrange(a as int, a as int) == Seq::<char>::empty());
    assert(split(Seq::<char>::empty(), ',') == Seq::<Seq<char>>::empty().push(
        Seq::<char>::empty(),
    ));
    assert(token_texts(tokens@) + done.map_values(trimmed) == token_texts(tokens@));
    while i < b
        invariant
            a <= piece_start <= i <= b <= chars@.len(),
            trimmed == |piece: Seq<char>| trim(piece),
            split(chars@.subrange(a as int, i as int), ',') == done.push(
                chars@.subrange(piece_start as int, i as int),
            ),
            token_texts(tokens@) == token_texts(old(tokens)@) + done.map_values(trimmed),
        decreases b - i,
    {
        let ghost piece = chars@.subrange(piece_start as int, i as int);
        proof {
            let s = chars@.subrange(a as int, i + 1);
            assert(s.drop_last() == chars@.subrange(a as int, i as int));
            lemma_split_step(s, ',', done, piece);
        }
        if chars[i] == ',' {
            push_token(chars, piece_start, i, tokens);
            proof {
                assert(done.push(piece).map_values(trimmed) == done.map_values(trimmed).push(
                    trim(piece),
                ));
                assert(token_texts(tokens@) == token_texts(old(tokens)@) + done.push(
                    piece,
                ).map_values(trimmed));
                done = done.push(piece);
                assert(chars@.subrange(i + 1, i + 1) == Seq::<char>::empty());
            }
            piece_start = i + 1;
        } else {
            assert(chars@.subrange(piece_start as int, i + 1) == piece.push(chars@[i as int]));
        }
        i += 1;
    }
    push_token(chars, piece_start, b, tokens);
    proof {
        let piece = chars@.subrange(piece_start as int, b as int);
        assert(done.push(piece).map_values(trimmed) == done.map_values(trimmed).push(trim(piece)));
        assert(token_texts(tokens@) == token_texts(old(tokens)@) + done.push(piece).map_values(
            trimmed,
        ));
    }
}

/// Splits a text into its tokens.
pub fn tokenize(data: &str) -> (tokens: Vec<String>)
    ensures
        token_texts(tokens@) == text_tokens(data@),
{
    let chars: Vec<char> = to_chars(data);
    let n: usize = chars.len();
    let mut tokens: Vec<String> = Vec::new();
    let ghost per_line = |line: Seq<char>| line_tokens(line);
    let ghost mut done: Seq<Seq<char>> = Seq::empty();
    let mut line_start: usize = 0;
    let mut i: usize = 0;
    assert(chars@.subrange(0, 0) == Seq::<char>::empty());
    assert(split(Seq::<char>::empty(), '\n') == Seq::<Seq<char>>::empty().push(
        Seq::<char>::empty(),
    ));
    assert(token_texts(tokens@) == done.map_values(per_line).flatten());
    while i < n
        invariant
            n == chars@.len(),
            line_start <= i <= n,
            per_line == |line: Seq<char>| line_tokens(line),
            split(chars@.subrange(0, i as int), '\n') == done.push(
                chars@.subrange(line_start as int, i as int),
            ),
            token_texts(tokens@) == done.map_values(per_line).flatten(),
        decreases n - i,
    {
        let ghost line = chars@.subrange(line_start as int, i as int);
        proof {
            let s = chars@.subrange(0, i + 1);
            assert(s.drop_last() == chars@.subrange(0, i as int));
            lemma_split_step(s, '\n', done, line);
        }
        if chars[i] == '\n' {
            push_line_tokens(&chars, line_start, i, &mut tokens);
            proof {
                assert(done.push(line).map_values(per_line) == done.map_values(per_line).push(
                    line_tokens(line),
                ));
                done.map_values(per_line).lemma_flatten_push(line_tokens(line));
                done = done.push(line);
                assert(chars@.subrange(i + 1, i + 1) == Seq::<char>::empty());
            }
            line_start = i + 1;
        } else {
            assert(chars@.subrange(line_start as int, i + 1) == line.push(chars@[i as int]));
        }
        i += 1;
    }
    push_line_tokens(&chars, line_start, n, &mut tokens);
    proof {
        let line = chars@.subrange(line_start as int, n as int);
        assert(done.push(line).map_values(per_line) == done.map_values(per_line).push(
            line_tokens(line),
        ));
        done.map_values(per_line).lemma_flatten_push(line_tokens(line));
        assert(chars@.subrange(0, n as int) == chars@);
    }
    tokens
}

/// `pieces` written one after another with `sep` between neighbours.
pub open spec fn join(pieces: Seq<Seq<char>>, sep: char) -> Seq<char>
    decreases pieces.len(),
{
    if pieces.len() == 0 {
        Seq::<char>::empty()
    } else if pieces.len() == 1 {
        pieces[0]
    } else {
        join(pieces.drop_last(), sep).push(sep) + pieces.last()
    }
}

/// A token that survives being written into a text and read back: it is not
/// empty, holds neither a comma nor a line feed, and neither starts nor ends
/// with white space.
pub open spec fn is_plain_token(token: Seq<char>) -> bool {
    &&& token.len() > 0
    &&& !is_space(token.first())
    &&& !is_space(token.last())
    &&& forall|i: int| 0 <= i < token.len() ==> token[i] != ',' && token[i] != '\n'
}

/// The text that holds one line per row, the tokens of a row separated by
/// commas and the lines by line feeds.
pub open spec fn render(rows: Seq<Seq<Seq<char>>>) -> Seq<char> {
    join(rows.map_values(|row: Seq<Seq<char>>| join(row, ',')), '\n')
}

/// Splitting always yields at least one piece.
pub proof fn lemma_split_len(s: Seq<char>, sep: char)
    ensures
        split(s, sep).len() >= 1,
    decreases s.len(),
{
    if s.len() > 0 {
        lemma_split_len(s.drop_last(), sep);
    }
}

/// Text without a separator that follows `s` extends the last piece of `s`.
proof fn lemma_split_append(s: Seq<char>, t: Seq<char>, sep: char)
    requires
        forall|i: int| 0 <= i < t.len() ==> t[i] != sep,
    ensures
        split(s + t, sep) == split(s, sep).drop_last().push(split(s, sep).last() + t),
    decreases t.len(),
{
    lemma_split_len(s, sep);
    let pieces = split(s, sep);
    if t.len() == 0 {
        assert(s + t == s);
        assert(pieces.last() + t == pieces.last());
        assert(pieces.drop_last().push(pieces.last()) == pieces);
    } else {
        let shorter = t.drop_last();
        lemma_split_append(s, shorter, sep);
        let before = split(s + shorter, sep);
        assert((s + t).drop_last() == s + shorter);
        assert((s + t).last() == t.last());
        assert(before.drop_last() == pieces.drop_last());
        assert((pieces.last() + shorter).push(t.last()) == pieces.last() + t);
    }
}

/// Splitting what was joined gives the pieces back, as long as no piece holds
/// the separator.
pub proof fn lemma_split_join(pieces: Seq<Seq<char>>, sep: char)
    requires
        pieces.len() >= 1,
        forall|p: int, i: int|
            0 <= p < pieces.len() && 0 <= i < pieces[p].len() ==> #[trigger] pieces[p][i] != sep,
    ensures
        split(join(pieces, sep), sep) == pieces,
    decreases pieces.len(),
{
    let none = Seq::<char>::empty();
    if pieces.len() == 1 {
        lemma_split_append(none, pieces[0], sep);
        assert(none + pieces[0] == pieces[0]);
        assert(split(none, sep) == seq![none]);
        assert(seq![none].drop_last().push(none + pieces[0]) == pieces);
    } else {
        let init = pieces.drop_last();
        assert forall|p: int, i: int| 0 <= p < init.len() && 0 <= i < init[p].len() implies
            #[trigger] init[p][i] != sep by {
            assert(init[p] == pieces[p]);
        }
        lemma_split_join(init, sep);
        let head = join(init, sep).push(sep);
        assert(head.drop_last() == join(init, sep));
        assert(split(head, sep) == init.push(none));
        lemma_split_append(head, pieces.last(), sep);
        assert(init.push(none).drop_last() == init);
        assert(none + pieces.last() == pieces.last());
        assert(init.push(pieces.last()) == pieces);
    }
}

/// Text that neither starts nor ends with white space is left alone by
/// trimming.
pub proof fn lemma_trim_plain(s: Seq<char>)
    requires
        s.len() > 0 ==> !is_space(s.first()) && !is_space(s.last()),
    ensures
        trim(s) == s,
{
}

/// The line written from a row of plain tokens starts with the first token's
/// first character, ends with the last token's last character, and holds no
/// line feed.
proof fn lemma_join_plain(row: Seq<Seq<char>>)
    requires
        row.len() >= 1,
        forall|t: int| 0 <= t < row.len() ==> is_plain_token(#[trigger] row[t]),
    ensures
        join(row, ',').len() > 0,
        join(row, ',').first() == row.first().first(),
        join(row, ',').last() == row.last().last(),
        forall|i: int| 0 <= i < join(row, ',').len() ==> join(row, ',')[i] != '\n',
    decreases row.len(),
{
    assert(is_plain_token(row[0]));
    assert(is_plain_token(row[row.len() - 1]));
    if row.len() > 1 {
        let init = row.drop_last();
        assert forall|t: int| 0 <= t < init.len() implies is_plain_token(#[trigger] init[t]) by {
            assert(init[t] == row[t]);
        }
        lemma_join_plain(init);
        assert(init.first() == row.first());
    }
}

/// Reading back the line written from a row of plain tokens gives the row.
pub proof fn lemma_line_tokens_of_row(row: Seq<Seq<char>>)
    requires
        forall|t: int| 0 <= t < row.len() ==> is_plain_token(#[trigger] row[t]),
    ensures
        line_tokens(join(row, ',')) == row,
{
    let line = join(row, ',');
    if row.len() == 0 {
        assert(line_tokens(line) == row);
    } else {
        lemma_join_plain(row);
        assert(is_plain_token(row[0]));
        assert(is_plain_token(row[row.len() - 1]));
        lemma_trim_plain(line);
        assert forall|p: int, i: int| 0 <= p < row.len() && 0 <= i < row[p].len() implies
            #[trigger] row[p][i] != ',' by {
            assert(is_plain_token(row[p]));
        }
        lemma_split_join(row, ',');
        let trimmed = row.map_values(|piece: Seq<char>| trim(piece));
        assert forall|t: int| 0 <= t < row.len() implies trimmed[t] == row[t] by {
            assert(is_plain_token(row[t]));
            lemma_trim_plain(row[t]);
        }
        assert(trimmed == row);
    }
}

/// Writing rows of plain tokens as a text and reading the text back gives the
/// tokens again, row after row.
pub proof fn lemma_tokens_of_rendered_rows(rows: Seq<Seq<Seq<char>>>)
    requires
        forall|r: int, t: int|
            0 <= r < rows.len() && 0 <= t < rows[r].len() ==> is_plain_token(#[trigger] rows[r][t]),
    ensures
        text_tokens(render(rows)) == rows.flatten(),
{
    let lines = rows.map_values(|row: Seq<Seq<char>>| join(row, ','));
    let per_line = |line: Seq<char>| line_tokens(line);
    if rows.len() == 0 {
        let none = Seq::<char>::empty();
        assert(render(rows) == none);
        assert(split(none, '\n') == seq![none]);
        assert(trim(none) == none);
        assert(seq![none].map_values(per_line) == seq![Seq::<Seq<char>>::empty()]);
        seq![Seq::<Seq<char>>::empty()].lemma_flatten_one_element();
        assert(rows.flatten() == Seq::<Seq<char>>::empty());
    } else {
        assert forall|p: int, i: int| 0 <= p < lines.len() && 0 <= i < lines[p].len() implies
            #[trigger] lines[p][i] != '\n' by {
            let row = rows[p];
            if row.len() >= 1 {
                assert forall|t: int| 0 <= t < row.len() implies is_plain_token(
                    #[trigger] row[t],
                ) by {
                    assert(is_plain_token(rows[p][t]));
                }
                lemma_join_plain(row);
            }
        }
        lemma_split_join(lines, '\n');
        assert forall|r: int| 0 <= r < rows.len() implies lines.map_values(per_line)[r]
            == rows[r] by {
            let row = rows[r];
            assert forall|t: int| 0 <= t < row.len() implies is_plain_token(#[trigger] row[t]) by {
                assert(is_plain_token(rows[r][t]));
            }
            lemma_line_tokens_of_row(row);
        }
        assert(lines.map_values(per_line) == rows);
    }
}

/// Rows of equally many tokens hold that many tokens per row in all: 256 rows
/// of 256 tokens make up a field, and nothing else of that shape does.
pub proof fn lemma_uniform_rows_len<A>(rows: Seq<Seq<A>>, per_row: nat)
    requires
        forall|r: int| 0 <= r < rows.len() ==> (#[trigger] rows[r]).len() == per_row,
    ensures
        rows.flatten().len() == rows.len() * per_row,
    decreases rows.len(),
{
    if rows.len() > 0 {
        let init = rows.drop_last();
        lemma_uniform_rows_len(init, per_row);
        init.lemma_flatten_push(rows.last());
        assert(init.push(rows.last()) == rows);
        assert(rows.len() * per_row == init.len() * per_row + per_row) by (nonlinear_arith)
            requires
                rows.len() == init.len() + 1,
        ;
    }
}

/// In rows of equally many tokens, read row after row, the token at place
/// `column` of row `row` comes after `row` whole rows and `column` tokens.
pub proof fn lemma_uniform_rows_index<A>(rows: Seq<Seq<A>>, per_row: nat, row: int, column: int)
    requires
        forall|r: int| 0 <= r < rows.len() ==> (#[trigger] rows[r]).len() == per_row,
        0 <= row < rows.len(),
        0 <= column < per_row,
    ensures
        0 <= row * per_row + column < rows.flatten().len(),
        rows.flatten()[row * per_row + column] == rows[row][column],
    decreases rows.len(),
{
    let init = rows.drop_last();
    lemma_uniform_rows_len(rows, per_row);
    lemma_uniform_rows_len(init, per_row);
    init.lemma_flatten_push(rows.last());
    assert(init.push(rows.last()) == rows);
    assert(rows.flatten() == init.flatten() + rows.last());
    if row < init.len() {
        lemma_uniform_rows_index(init, per_row, row, column);
        assert(init[row] == rows[row]);
    } else {
        assert(row * per_row == init.len() * per_row) by (nonlinear_arith)
            requires
                row == init.len(),
        ;
    }
    assert(0 <= row * per_row + column < rows.len() * per_row) by (nonlinear_arith)
        requires
            0 <= row < rows.len(),
            0 <= column < per_row,
    ;
}

/// A text written from as many rows of as many plain tokens as a field has
/// rows and columns holds one token per cell of the field, in the field's own
/// order: the token written at (`row`, `column`) is read back at that cell's
/// offset.
pub proof fn lemma_field_text(rows: Seq<Seq<Seq<char>>>, row: int, column: int)
    requires
        rows.len() == FIELD_SIDE,
        forall|r: int| 0 <= r < rows.len() ==> (#[trigger] rows[r]).len() == FIELD_SIDE,
        forall|r: int, t: int|
            0 <= r < rows.len() && 0 <= t < rows[r].len() ==> is_plain_token(#[trigger] rows[r][t]),
        0 <= row < FIELD_SIDE,
        0 <= column < FIELD_SIDE,
    ensures
        text_tokens(render(rows)).len() == FIELD_LEN,
        text_tokens(render(rows))[field_offset(row, column)] == rows[row][column],
{
    lemma_tokens_of_rendered_rows(rows);
    lemma_uniform_rows_len(rows, 256);
    lemma_uniform_rows_index(rows, 256, row, column);
}

} // verus!
