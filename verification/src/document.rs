//! The text of a task file as a whole: its lines, the line that a key leads
//! to, and edits that change one line and keep every other character.

use crate::chars::{
    append_chars, chars_of, copy_of, first_where, has_at, is_space, is_space_char,
    lemma_first_where_is, matches_at, slice_of,
};
use crate::record::{KeyView, TodoKey};
use vstd::prelude::*;

verus! {

/// The texts of `lines`.
pub open spec fn texts(lines: Seq<Vec<char>>) -> Seq<Seq<char>> {
    lines.map_values(|l: Vec<char>| l@)
}

/// The texts of `lines`.
pub open spec fn string_texts(lines: Seq<String>) -> Seq<Seq<char>> {
    lines.map_values(|l: String| l@)
}

/// The pieces of `text` between its line feeds: one more than it has line
/// feeds, the last of them empty where `text` ends in one.
pub open spec fn split_lines(text: Seq<char>) -> Seq<Seq<char>>
    decreases text.len(),
{
    if text.len() == 0 {
        seq![Seq::<char>::empty()]
    } else {
        let before = split_lines(text.drop_last());
        if text.last() == '\n' {
            before.push(Seq::<char>::empty())
        } else {
            before.update(before.len() - 1, before.last().push(text.last()))
        }
    }
}

/// The pieces of `pieces` with a line feed between each two.
pub open spec fn join_lines(pieces: Seq<Seq<char>>) -> Seq<char>
    decreases pieces.len(),
{
    if pieces.len() == 0 {
        Seq::<char>::empty()
    } else if pieces.len() == 1 {
        pieces[0]
    } else {
        join_lines(pieces.drop_last()) + seq!['\n'] + pieces.last()
    }
}

/// Whether piece `i` of `pieces` ends in a carriage return that belongs to
/// its line ending: it is not the last piece and its last character is one.
pub open spec fn has_return(pieces: Seq<Seq<char>>, i: int) -> bool {
    0 <= i < pieces.len() - 1 && pieces[i].len() > 0 && pieces[i].last() == '\r'
}

/// Line `i` of the text with the pieces `pieces`: the piece without the
/// carriage return of its line ending.
pub open spec fn line_of(pieces: Seq<Seq<char>>, i: int) -> Seq<char> {
    if has_return(pieces, i) {
        pieces[i].drop_last()
    } else {
        pieces[i]
    }
}

/// The number of lines of the text with the pieces `pieces`: an empty last
/// piece is no line.
pub open spec fn line_count(pieces: Seq<Seq<char>>) -> int {
    if pieces.len() > 0 && pieces.last().len() == 0 {
        pieces.len() - 1
    } else {
        pieces.len() as int
    }
}

/// The lines of `text`, without their line endings.
pub open spec fn lines_of(text: Seq<char>) -> Seq<Seq<char>> {
    Seq::new(line_count(split_lines(text)) as nat, |i: int| line_of(split_lines(text), i))
}

/// `line` as piece `i` of `pieces`: with the carriage return of the line
/// ending where the piece had one.
pub open spec fn piece_for(pieces: Seq<Seq<char>>, i: int, line: Seq<char>) -> Seq<char> {
    if has_return(pieces, i) {
        line.push('\r')
    } else {
        line
    }
}

/// `text` with line `i` replaced by `line` and no other character changed.
pub open spec fn with_line(text: Seq<char>, i: int, line: Seq<char>) -> Seq<char> {
    let pieces = split_lines(text);
    join_lines(pieces.update(i, piece_for(pieces, i, line)))
}

/// Whether `needle` stands in `line` at `a` as a whole token: with white
/// space or the line's edge on either side.
pub open spec fn token_at(line: Seq<char>, needle: Seq<char>, a: int) -> bool {
    &&& has_at(line, needle, a)
    &&& (a == 0 || is_space(line[a - 1]))
    &&& (a + needle.len() == line.len() || is_space(line[a + needle.len()]))
}

/// Whether `needle` can be a token: it is not empty and holds no white space.
pub open spec fn is_token(needle: Seq<char>) -> bool {
    needle.len() > 0 && forall|i: int| 0 <= i < needle.len() ==> !is_space(#[trigger] needle[i])
}

/// Whether one of the tokens of `line`, which white space separates, is
/// `needle`.
pub open spec fn has_token(line: Seq<char>, needle: Seq<char>) -> bool {
    is_token(needle) && first_where(|a: int| token_at(line, needle, a), 0, line.len() as int)
        < line.len()
}

/// The token that carries `marker`: `^` and the marker.
pub open spec fn marker_token(marker: Seq<char>) -> Seq<char> {
    seq!['^'] + marker
}

/// The index of the first of `lines` that holds the token of `marker`, or
/// their number.
pub open spec fn line_with_marker(lines: Seq<Seq<char>>, marker: Seq<char>) -> int {
    first_where(|i: int| has_token(lines[i], marker_token(marker)), 0, lines.len() as int)
}

/// The line that `key` leads to: the first that holds its marker as a
/// token; where it has no marker or no line holds it, the line at its index;
/// none where that lies behind the last line.
pub open spec fn located(key: KeyView, lines: Seq<Seq<char>>) -> Option<int> {
    let by_marker = match key.marker {
        Some(m) => line_with_marker(lines, m),
        None => lines.len() as int,
    };
    if by_marker < lines.len() {
        Some(by_marker)
    } else if key.line_index < lines.len() {
        Some(key.line_index as int)
    } else {
        None
    }
}

/// Computes `split_lines`.
pub fn split_chars(text: &Vec<char>) -> (pieces: Vec<Vec<char>>)
    ensures
        texts(pieces@) == split_lines(text@),
        pieces.len() >= 1,
{
    let mut done: Vec<Vec<char>> = Vec::new();
    let mut current: Vec<char> = Vec::new();
    let mut i: usize = 0;
    assert(text@.take(0) =~= Seq::<char>::empty());
    assert(texts(done@).push(current@) =~= split_lines(text@.take(0)));
    while i < text.len()
        invariant
            i <= text.len(),
            texts(done@).push(current@) == split_lines(text@.take(i as int)),
        decreases text.len() - i,
    {
        let c = text[i];
        proof {
            let next = text@.take(i + 1);
            assert(next.drop_last() =~= text@.take(i as int));
            assert(next.last() == c);
        }
        let ghost before = texts(done@).push(current@);
        if c == '\n' {
            done.push(current);
            current = Vec::new();
            assert(texts(done@).push(current@) =~= before.push(Seq::<char>::empty()));
        } else {
            current.push(c);
            assert(texts(done@).push(current@) =~= before.update(
                before.len() - 1,
                before.last().push(c),
            ));
        }
        i += 1;
    }
    assert(text@.take(text.len() as int) =~= text@);
    let ghost before = texts(done@).push(current@);
    done.push(current);
    assert(texts(done@) =~= before);
    done
}

/// Computes `join_lines`.
pub fn join_chars(pieces: &Vec<Vec<char>>) -> (text: Vec<char>)
    ensures
        text@ == join_lines(texts(pieces@)),
{
    let mut text: Vec<char> = Vec::new();
    let mut i: usize = 0;
    assert(texts(pieces@).take(0) =~= Seq::<Seq<char>>::empty());
    while i < pieces.len()
        invariant
            i <= pieces.len(),
            text@ == join_lines(texts(pieces@).take(i as int)),
        decreases pieces.len() - i,
    {
        proof {
            let next = texts(pieces@).take(i + 1);
            assert(next.drop_last() =~= texts(pieces@).take(i as int));
            assert(next.last() == pieces@[i as int]@);
            if i == 0 {
                assert(join_lines(next) == next[0]);
            } else {
                assert(join_lines(next) == join_lines(next.drop_last()) + seq!['\n'] + next.last());
            }
        }
        if i > 0 {
            text.push('\n');
        }
        append_chars(&mut text, &pieces[i]);
        proof {
            let next = texts(pieces@).take(i + 1);
            assert(text@ =~= join_lines(next));
        }
        i += 1;
    }
    assert(texts(pieces@).take(pieces.len() as int) =~= texts(pieces@));
    text
}

/// Computes the lines of the text with the pieces `pieces`.
pub fn lines_from(pieces: &Vec<Vec<char>>) -> (lines: Vec<Vec<char>>)
    ensures
        lines.len() == line_count(texts(pieces@)),
        forall|i: int| 0 <= i < lines.len() ==> (#[trigger] lines@[i])@ == line_of(texts(pieces@), i),
{
    let n = pieces.len();
    let count = if n > 0 && pieces[n - 1].len() == 0 {
        n - 1
    } else {
        n
    };
    let mut lines: Vec<Vec<char>> = Vec::new();
    let mut i: usize = 0;
    while i < count
        invariant
            i <= count <= n,
            n == pieces.len(),
            lines.len() == i,
            forall|j: int| 0 <= j < i ==> (#[trigger] lines@[j])@ == line_of(texts(pieces@), j),
        decreases count - i,
    {
        let piece = &pieces[i];
        let line = if i < n - 1 && piece.len() > 0 && piece[piece.len() - 1] == '\r' {
            let l = slice_of(piece, 0, piece.len() - 1);
            assert(l@ =~= piece@.drop_last());
            l
        } else {
            copy_of(piece)
        };
        lines.push(line);
        i += 1;
    }
    lines
}

/// Decides `has_token`.
pub fn line_has_token(line: &Vec<char>, needle: &Vec<char>) -> (r: bool)
    ensures
        r == has_token(line@, needle@),
{
    if needle.len() == 0 {
        return false;
    }
    let mut k: usize = 0;
    while k < needle.len()
        invariant
            k <= needle.len(),
            forall|j: int| 0 <= j < k ==> !is_space(#[trigger] needle@[j]),
        decreases needle.len() - k,
    {
        if is_space_char(needle[k]) {
            return false;
        }
        k += 1;
    }
    let mut a: usize = 0;
    while a < line.len() && !(matches_at(line, a, needle) && (a == 0 || is_space_char(line[a - 1]))
        && (a + needle.len() == line.len() || is_space_char(line[a + needle.len()])))
        invariant
            a <= line.len(),
            forall|j: int| 0 <= j < a ==> !token_at(line@, needle@, j),
        decreases line.len() - a,
    {
        a += 1;
    }
    proof {
        lemma_first_where_is(
            |j: int| token_at(line@, needle@, j),
            0,
            line.len() as int,
            a as int,
        );
    }
    a < line.len()
}

/// The characters of the token that carries `marker`.
pub fn marker_token_chars(marker: &Vec<char>) -> (r: Vec<char>)
    ensures
        r@ == marker_token(marker@),
{
    let mut r: Vec<char> = Vec::new();
    r.push('^');
    append_chars(&mut r, marker);
    assert(r@ =~= marker_token(marker@));
    r
}

/// Computes `line_with_marker`.
pub fn find_marked_line(lines: &Vec<Vec<char>>, marker: &Vec<char>) -> (r: usize)
    ensures
        r == line_with_marker(texts(lines@), marker@),
        r <= lines.len(),
{
    let needle = marker_token_chars(marker);
    let mut i: usize = 0;
    while i < lines.len() && !line_has_token(&lines[i], &needle)
        invariant
            i <= lines.len(),
            needle@ == marker_token(marker@),
            forall|j: int|
                0 <= j < i ==> !has_token(#[trigger] texts(lines@)[j], marker_token(marker@)),
        decreases lines.len() - i,
    {
        i += 1;
    }
    proof {
        lemma_first_where_is(
            |j: int| has_token(texts(lines@)[j], marker_token(marker@)),
            0,
            lines.len() as int,
            i as int,
        );
    }
    i
}

/// Computes `located`.
pub fn locate_chars(key: &TodoKey, lines: &Vec<Vec<char>>) -> (r: Option<usize>)
    ensures
        match located(key@, texts(lines@)) {
            Some(i) => r == Some(i as usize) && 0 <= i < lines.len(),
            None => r.is_none(),
        },
{
    let by_marker = match &key.marker {
        Some(m) => find_marked_line(lines, &chars_of(m.as_str())),
        None => lines.len(),
    };
    if by_marker < lines.len() {
        Some(by_marker)
    } else if key.line_index < lines.len() {
        Some(key.line_index)
    } else {
        None
    }
}

/// The characters of each of `lines`.
pub fn chars_of_lines(lines: &[String]) -> (r: Vec<Vec<char>>)
    ensures
        texts(r@) == string_texts(lines@),
{
    let mut r: Vec<Vec<char>> = Vec::new();
    let mut i: usize = 0;
    while i < lines.len()
        invariant
            i <= lines.len(),
            r.len() == i,
            forall|j: int| 0 <= j < i ==> (#[trigger] r@[j])@ == lines@[j]@,
        decreases lines.len() - i,
    {
        r.push(chars_of(lines[i].as_str()));
        i += 1;
    }
    assert(texts(r@) =~= string_texts(lines@));
    r
}

/// The index of the first of `lines` that holds `^` and `marker` as one of
/// its tokens, which white space separates.
pub fn find_line_by_marker(lines: &[String], marker: &str) -> (r: Option<usize>)
    ensures
        r == if line_with_marker(string_texts(lines@), marker@) < lines@.len() {
            Some(line_with_marker(string_texts(lines@), marker@) as usize)
        } else {
            None
        },
{
    let all = chars_of_lines(lines);
    let i = find_marked_line(&all, &chars_of(marker));
    assert(texts(all@).len() == all.len());
    assert(string_texts(lines@).len() == lines@.len());
    if i < all.len() {
        Some(i)
    } else {
        None
    }
}

/// The index of the line that `key` leads to: the first of `lines` that
/// holds its marker as a token; else the line at its index, if there is
/// one.
pub fn locate(key: &TodoKey, lines: &[String]) -> (r: Option<usize>)
    ensures
        match located(key@, string_texts(lines@)) {
            Some(i) => r == Some(i as usize) && 0 <= i < lines@.len(),
            None => r.is_none(),
        },
{
    let all = chars_of_lines(lines);
    assert(texts(all@).len() == all.len());
    assert(string_texts(lines@).len() == lines@.len());
    locate_chars(key, &all)
}

} // verus!
