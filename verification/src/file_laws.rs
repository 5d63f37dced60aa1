//! What holds of an edit that is made twice, or made and taken back, on
//! the text of a whole file.

use crate::chars::{
    contains, first_match, first_where, has_at, is_space, lemma_first_where, lemma_first_where_is,
};
use crate::date::Date;
use crate::document::{
    has_return, has_token, is_token, line_of, line_with_marker, lines_of, located, marker_token,
    piece_for, split_lines, token_at, with_line,
};
use crate::edits::{LineEditView, updated};
use crate::laws::{
    box_with, is_date_char, law_edit_keeps_other_lines, law_reschedule_is_idempotent,
    law_toggle_round_trip, lemma_box_chars, lemma_check_box, lemma_completion_chars,
    lemma_completion_text, lemma_due_at_chars, lemma_due_at_moves, lemma_due_segment,
    lemma_first_match, lemma_lines_hold_no_line_feed, lemma_located_in_range, lemma_no_completion,
    lemma_rescheduled_is_line, lemma_slot_behind_box, lemma_split_lines, lemma_toggled_is_line,
    lemma_trailing_alnum_start, no_line_feed,
};
use crate::line::{
    checked_box, checked_upper_box, completion_slot, completion_text, due_segment, due_slot,
    flipped, has_completion, rescheduled, spaced_intro_at, toggled, unchecked_box,
};
use crate::record::KeyView;
use crate::roundtrip::is_marker;
use crate::tags::{due_at, first_due, is_alnum};
use vstd::prelude::*;

verus! {

/// Whether `line` ends in a carriage return.
pub open spec fn ends_in_return(line: Seq<char>) -> bool {
    line.len() > 0 && line.last() == '\r'
}

/// After line `i` of a text is replaced by `line`, the lines of the text
/// are what they were, with `line` at `i`; and replacing line `i` once more
/// is replacing it in the text that was. This wants a line that is not
/// empty and holds no line feed, and that ends in a carriage return only
/// where the line before it did.
pub proof fn lemma_lines_after_edit(text: Seq<char>, i: int, line: Seq<char>, next: Seq<char>)
    requires
        0 <= i < lines_of(text).len(),
        no_line_feed(line),
        line.len() > 0,
        ends_in_return(line) ==> ends_in_return(lines_of(text)[i]),
    ensures
        lines_of(with_line(text, i, line)) == lines_of(text).update(i, line),
        with_line(with_line(text, i, line), i, next) == with_line(text, i, next),
        with_line(text, i, lines_of(text)[i]) == text,
{
    law_edit_keeps_other_lines(text, i, line);
    lemma_split_lines(text);
    let pieces = split_lines(text);
    let changed = pieces.update(i, piece_for(pieces, i, line));
    let new_text = with_line(text, i, line);
    assert(split_lines(new_text) == changed);
    // a carriage return that ends `line` where the piece had no line ending
    // of its own would be taken for one
    assert(has_return(changed, i) == has_return(pieces, i)) by {
        if !has_return(pieces, i) && i < pieces.len() - 1 {
            assert(lines_of(text)[i] == pieces[i]);
        }
    }
    assert(line_of(changed, i) == line) by {
        if has_return(pieces, i) {
            assert(line.push('\r').drop_last() =~= line);
        }
    }
    assert(lines_of(new_text) =~= lines_of(text).update(i, line));
    assert(changed.update(i, piece_for(changed, i, next)) =~= pieces.update(
        i,
        piece_for(pieces, i, next),
    ));
    assert(pieces.update(i, piece_for(pieces, i, lines_of(text)[i])) =~= pieces) by {
        if has_return(pieces, i) {
            assert(pieces[i].drop_last().push('\r') =~= pieces[i]);
        }
    }
}

/// A key leads to the same line after line `i` is replaced by a line that
/// bears the key's marker exactly if the line before it did.
pub proof fn lemma_located_after_edit(
    key: KeyView,
    lines: Seq<Seq<char>>,
    i: int,
    line: Seq<char>,
)
    requires
        0 <= i < lines.len(),
        key.marker matches Some(m) ==> has_token(line, marker_token(m)) == has_token(
            lines[i],
            marker_token(m),
        ),
    ensures
        located(key, lines.update(i, line)) == located(key, lines),
{
    match key.marker {
        Some(m) => {
            let needle = marker_token(m);
            let changed = lines.update(i, line);
            let bears = |j: int| has_token(lines[j], needle);
            lemma_first_where(bears, 0, lines.len() as int);
            let first = line_with_marker(lines, m);
            assert forall|j: int| 0 <= j < first implies !has_token(changed[j], needle) by {
                assert(!bears(j));
            }
            if first < lines.len() {
                assert(bears(first));
                assert(has_token(changed[first], needle));
            }
            lemma_first_where_is(
                |j: int| has_token(changed[j], needle),
                0,
                changed.len() as int,
                first,
            );
        },
        None => {},
    }
}

/// The token of a marker is a token: it is not empty and holds no white
/// space.
pub proof fn lemma_marker_token(m: Seq<char>)
    requires
        is_marker(m),
    ensures
        is_token(marker_token(m)),
        marker_token(m).len() == m.len() + 1,
        marker_token(m)[0] == '^',
        forall|q: int| 1 <= q <= m.len() ==> is_alnum(#[trigger] marker_token(m)[q]),
{
    let needle = marker_token(m);
    assert forall|q: int| 1 <= q <= m.len() implies is_alnum(#[trigger] needle[q]) by {
        assert(needle[q] == m[q - 1]);
    }
    assert forall|q: int| 0 <= q < needle.len() implies !is_space(#[trigger] needle[q]) by {
        if q > 0 {
            assert(is_alnum(needle[q]));
        }
    }
}

/// A line that holds a needle as a token at some index has it as a token.
pub proof fn lemma_token_found(line: Seq<char>, needle: Seq<char>, a: int)
    requires
        is_token(needle),
        token_at(line, needle, a),
    ensures
        has_token(line, needle),
{
    let holds = |j: int| token_at(line, needle, j);
    lemma_first_where(holds, 0, line.len() as int);
    if first_where(holds, 0, line.len() as int) >= line.len() {
        assert(!holds(a));
    }
}

/// A line that has a needle as a token holds it as one at some index.
pub proof fn lemma_token_place(line: Seq<char>, needle: Seq<char>) -> (a: int)
    requires
        has_token(line, needle),
    ensures
        token_at(line, needle, a),
{
    let holds = |j: int| token_at(line, needle, j);
    lemma_first_where(holds, 0, line.len() as int);
    let a = first_where(holds, 0, line.len() as int);
    assert(holds(a));
    a
}

/// The characters of a marker's token where it stands in a line: `^` and
/// then letters and digits.
proof fn lemma_token_chars(line: Seq<char>, m: Seq<char>, a: int)
    requires
        is_marker(m),
        has_at(line, marker_token(m), a),
    ensures
        0 <= a,
        a + m.len() + 1 <= line.len(),
        line[a] == '^',
        forall|p: int| a < p <= a + m.len() ==> is_alnum(#[trigger] line[p]),
{
    lemma_marker_token(m);
    let needle = marker_token(m);
    let cut = line.subrange(a, a + needle.len());
    assert(cut[0] == line[a]);
    assert forall|p: int| a < p <= a + m.len() implies is_alnum(#[trigger] line[p]) by {
        assert(cut[p - a] == line[p]);
        assert(is_alnum(needle[p - a]));
    }
}

/// A token of `s` at `a` is a token of `t` at `b`, where `t` holds there
/// the same characters and has white space or its edge on either side.
proof fn lemma_token_moves(s: Seq<char>, a: int, t: Seq<char>, b: int, needle: Seq<char>)
    requires
        has_at(s, needle, a),
        0 <= b,
        b + needle.len() <= t.len(),
        forall|p: int| b <= p < b + needle.len() ==> #[trigger] t[p] == s[p - b + a],
        b == 0 || is_space(t[b - 1]),
        b + needle.len() == t.len() || is_space(t[b + needle.len()]),
    ensures
        token_at(t, needle, b),
{
    let x = s.subrange(a, a + needle.len());
    let y = t.subrange(b, b + needle.len());
    assert forall|q: int| 0 <= q < needle.len() implies x[q] == y[q] by {
        assert(t[b + q] == s[b + q - b + a]);
    }
    assert(x =~= y);
}

/// Putting a block into a line keeps the tokens of a marker as they are,
/// where the block holds no `^`, white space or an edge of the line
/// separates it from what stands before it, and what stands behind it is
/// nothing or starts with white space.
pub proof fn lemma_token_kept_by_insert(line: Seq<char>, k: int, block: Seq<char>, m: Seq<char>)
    requires
        is_marker(m),
        0 <= k <= line.len(),
        k < line.len() ==> is_space(line[k]),
        block.len() > 0,
        forall|q: int| 0 <= q < block.len() ==> #[trigger] block[q] != '^',
        is_space(block[0]) || k == 0 || is_space(line[k - 1]),
    ensures
        has_token(
            line.subrange(0, k) + block + line.subrange(k, line.len() as int),
            marker_token(m),
        ) == has_token(line, marker_token(m)),
{
    lemma_marker_token(m);
    let needle = marker_token(m);
    let n = needle.len() as int;
    let out = line.subrange(0, k) + block + line.subrange(k, line.len() as int);
    let by = block.len() as int;
    assert(forall|p: int| 0 <= p < k ==> out[p] == line[p]);
    assert(forall|p: int| k <= p < k + by ==> out[p] == block[p - k]);
    assert(forall|p: int| k + by <= p < out.len() ==> out[p] == line[p - by]);
    if has_token(line, needle) {
        let a = lemma_token_place(line, needle);
        lemma_token_chars(line, m, a);
        if a < k {
            if a + n > k {
                assert(is_alnum(line[k]));
            }
            if a + n == k {
                assert(is_alnum(line[k - 1]));
            }
            lemma_token_moves(line, a, out, a, needle);
            lemma_token_found(out, needle, a);
        } else {
            assert(a > k);
            assert(out[a + by - 1] == line[a - 1]);
            if a + n < line.len() {
                assert(out[a + by + n] == line[a + n]);
            }
            assert forall|p: int| a + by <= p < a + by + n implies #[trigger] out[p] == line[p
                - (a + by) + a] by {}
            lemma_token_moves(line, a, out, a + by, needle);
            lemma_token_found(out, needle, a + by);
        }
    }
    if has_token(out, needle) {
        let b = lemma_token_place(out, needle);
        lemma_token_chars(out, m, b);
        if b < k {
            if b + n > k {
                // the token would run into the block over a letter or digit
                assert(is_alnum(out[k]));
                assert(out[k] == block[0]);
                assert(is_alnum(out[k - 1]) || out[k - 1] == '^');
                assert(out[k - 1] == line[k - 1]);
            }
            assert(b + n <= k);
            lemma_token_moves(out, b, line, b, needle);
            lemma_token_found(line, needle, b);
        } else {
            assert(out[b] == '^');
            assert(b >= k + by);
            if b == k + by {
                assert(out[b] == line[k]);
            }
            assert(out[b - 1] == line[b - by - 1]);
            if b + n < out.len() {
                assert(out[b + n] == line[b - by + n]);
            }
            assert forall|p: int| b - by <= p < b - by + n implies #[trigger] line[p] == out[p
                - (b - by) + b] by {
                assert(out[p + by] == line[p]);
            }
            lemma_token_moves(out, b, line, b - by, needle);
            lemma_token_found(line, needle, b - by);
        }
    }
}

/// Two lines of one length have the same tokens of a marker, where they
/// differ only from `lo` up to `hi` and no token of the marker in either
/// line touches that stretch or a character next to it.
proof fn lemma_token_kept_outside(s: Seq<char>, t: Seq<char>, lo: int, hi: int, m: Seq<char>)
    requires
        is_marker(m),
        s.len() == t.len(),
        forall|p: int| 0 <= p < s.len() && !(lo <= p < hi) ==> #[trigger] s[p] == t[p],
        forall|a: int|
            token_at(s, marker_token(m), a) ==> a + m.len() + 1 < lo || a - 1 >= hi,
        forall|a: int|
            token_at(t, marker_token(m), a) ==> a + m.len() + 1 < lo || a - 1 >= hi,
    ensures
        has_token(s, marker_token(m)) == has_token(t, marker_token(m)),
{
    lemma_marker_token(m);
    let needle = marker_token(m);
    if has_token(s, needle) {
        let a = lemma_token_place(s, needle);
        lemma_token_chars(s, m, a);
        assert forall|p: int| a <= p < a + needle.len() implies #[trigger] t[p] == s[p - a + a] by {
            assert(s[p] == t[p]);
        }
        if a > 0 {
            assert(s[a - 1] == t[a - 1]);
        }
        if a + needle.len() < s.len() {
            assert(s[a + needle.len()] == t[a + needle.len()]);
        }
        lemma_token_moves(s, a, t, a, needle);
        lemma_token_found(t, needle, a);
    }
    if has_token(t, needle) {
        let a = lemma_token_place(t, needle);
        lemma_token_chars(t, m, a);
        assert forall|p: int| a <= p < a + needle.len() implies #[trigger] s[p] == t[p - a + a] by {}
        if a > 0 {
            assert(s[a - 1] == t[a - 1]);
        }
        if a + needle.len() < s.len() {
            assert(s[a + needle.len()] == t[a + needle.len()]);
        }
        lemma_token_moves(t, a, s, a, needle);
        lemma_token_found(s, needle, a);
    }
}

/// No token of a marker touches a due tag or a character next to it.
proof fn lemma_token_clear_of_due(s: Seq<char>, i: int, m: Seq<char>, a: int)
    requires
        is_marker(m),
        due_at(s, i),
        token_at(s, marker_token(m), a),
    ensures
        a + m.len() + 1 < i || a - 1 >= i + 14,
{
    lemma_marker_token(m);
    lemma_due_at_chars(s, i);
    lemma_token_chars(s, m, a);
    let e = a + m.len() + 1;
    if i <= a < i + 14 {
        assert(a < i + 4 || is_date_char(s[a]));
    } else if a >= i + 14 {
        if a == i + 14 {
            assert(is_date_char(s[a - 1]));
        }
    } else {
        if e > i + 3 {
            assert(is_alnum(s[i + 3]));
        }
        if e >= i {
            assert(!is_space(s[e]));
        }
    }
}

/// Setting the due date of a line keeps the tokens of a marker as they
/// are.
pub proof fn lemma_token_kept_by_reschedule(line: Seq<char>, date: Date, m: Seq<char>)
    requires
        is_marker(m),
        date.well_formed(),
    ensures
        has_token(rescheduled(line, date), marker_token(m)) == has_token(line, marker_token(m)),
        ends_in_return(rescheduled(line, date)) ==> ends_in_return(line),
{
    let seg = due_segment(date);
    lemma_due_segment(date);
    lemma_due_at_chars(seg, 0);
    let n = line.len() as int;
    let i = first_due(line);
    let is_due = |j: int| due_at(line, j);
    lemma_first_where(is_due, 0, n);
    let out = rescheduled(line, date);
    if i < n {
        assert(is_due(i));
        lemma_due_at_chars(line, i);
        assert forall|p: int| i <= p < i + 14 implies #[trigger] out[p] == seg[p - i + 0] by {}
        lemma_due_at_moves(seg, 0, out, i);
        assert forall|a: int| token_at(line, marker_token(m), a) implies a + m.len() + 1 < i || a
            - 1 >= i + 14 by {
            lemma_token_clear_of_due(line, i, m, a);
        }
        assert forall|a: int| token_at(out, marker_token(m), a) implies a + m.len() + 1 < i || a
            - 1 >= i + 14 by {
            lemma_token_clear_of_due(out, i, m, a);
        }
        lemma_token_kept_outside(line, out, i, i + 14, m);
        if ends_in_return(out) {
            if i + 14 == n {
                assert(out.last() == seg[13]);
                assert(is_date_char(seg[13]));
            } else {
                assert(out.last() == line.last());
            }
        }
    } else {
        let spaced = |j: int| spaced_intro_at(line, j);
        lemma_first_where(spaced, 0, n);
        let k = due_slot(line);
        if k < n {
            assert(spaced(k));
        }
        let block = if k > 0 && line[k - 1] != ' ' {
            seq![' '] + seg
        } else {
            seg
        };
        assert(out =~= line.subrange(0, k) + block + line.subrange(k, n));
        assert forall|q: int| 0 <= q < block.len() implies #[trigger] block[q] != '^' by {
            let r = if block.len() == 15 {
                q - 1
            } else {
                q
            };
            if r >= 0 {
                assert(block[q] == seg[r]);
                assert(r < 4 || is_date_char(seg[r]));
            }
        }
        lemma_token_kept_by_insert(line, k, block, m);
        if ends_in_return(out) {
            if k == n {
                assert(out.last() == block.last());
                assert(block.last() == seg[13]);
                assert(is_date_char(seg[13]));
            } else {
                assert(out.last() == line.last());
            }
        }
    }
}

/// No token of a marker touches the character between the brackets of a
/// checkbox or a character next to it.
proof fn lemma_token_clear_of_box(s: Seq<char>, c: char, p: int, m: Seq<char>, a: int)
    requires
        is_marker(m),
        has_at(s, box_with(c), p),
        c == ' ' || c == 'x',
        token_at(s, marker_token(m), a),
    ensures
        a + m.len() + 1 < p + 3 || a - 1 >= p + 4,
{
    lemma_marker_token(m);
    lemma_box_chars(s, c, p);
    lemma_token_chars(s, m, a);
    let e = a + m.len() + 1;
    if a <= p + 2 {
        if e > p + 2 {
            if a == p + 2 {
            } else {
                assert(is_alnum(s[p + 2]));
            }
        }
    } else if a == p + 3 {
        assert(e > p + 4);
        assert(is_alnum(s[p + 4]));
    }
}

/// Marking an open task done keeps the tokens of a marker as they are,
/// where the line held no checked box and no completion marker.
pub proof fn lemma_token_kept_by_marking_done(line: Seq<char>, today: Date, m: Seq<char>)
    requires
        is_marker(m),
        today.well_formed(),
        contains(line, unchecked_box()),
        !contains(line, checked_box()),
        !contains(line, checked_upper_box()),
        !has_completion(line),
    ensures
        toggled(line, true, today) is Some,
        has_token(toggled(line, true, today)->0, marker_token(m)) == has_token(
            line,
            marker_token(m),
        ),
        ends_in_return(toggled(line, true, today)->0) ==> ends_in_return(line),
{
    let n = line.len() as int;
    assert(unchecked_box() =~= box_with(' '));
    assert(checked_box() =~= box_with('x'));
    assert(checked_upper_box() =~= box_with('X'));
    let p = first_match(line, box_with(' '));
    lemma_first_match(line, box_with(' '));
    lemma_no_completion(line);
    lemma_check_box(line, p);
    let u = line.update(p + 3, 'x');
    assert(flipped(line, true) == Some(u));
    lemma_slot_behind_box(u, 'x', p);
    let k = completion_slot(u);
    let ct = completion_text(today);
    lemma_completion_text(today);
    lemma_completion_chars(ct, 0);
    let d = u.subrange(0, k) + ct + u.subrange(k, n);
    assert(toggled(line, true, today) == Some(d));
    // the flip
    assert forall|a: int| token_at(line, marker_token(m), a) implies a + m.len() + 1 < p + 3 || a
        - 1 >= p + 4 by {
        lemma_token_clear_of_box(line, ' ', p, m, a);
    }
    assert forall|a: int| token_at(u, marker_token(m), a) implies a + m.len() + 1 < p + 3 || a - 1
        >= p + 4 by {
        lemma_token_clear_of_box(u, 'x', p, m, a);
    }
    lemma_token_kept_outside(line, u, p + 3, p + 4, m);
    // the completion marker
    lemma_trailing_alnum_start(u);
    assert forall|q: int| 0 <= q < ct.len() implies #[trigger] ct[q] != '^' by {
        assert(q < 3 || is_date_char(ct[q]));
    }
    lemma_token_kept_by_insert(u, k, ct, m);
    if ends_in_return(d) {
        if k == n {
            assert(d.last() == ct[12]);
            assert(is_date_char(ct[12]));
        } else {
            assert(d.last() == u.last());
            assert(u.last() == line.last());
        }
    }
}

/// Setting the same due date twice, through the same key, gives the text
/// that setting it once gives. The marker of the key, if it has one, is
/// letters and digits.
pub proof fn law_reschedule_twice(text: Seq<char>, key: KeyView, date: Date)
    requires
        date.well_formed(),
        key.marker matches Some(m) ==> is_marker(m),
        updated(text, key, LineEditView::Reschedule { date }) is Ok,
    ensures
        updated(
            updated(text, key, LineEditView::Reschedule { date })->Ok_0,
            key,
            LineEditView::Reschedule { date },
        ) == updated(text, key, LineEditView::Reschedule { date }),
{
    let lines = lines_of(text);
    lemma_located_in_range(key, lines);
    let i = located(key, lines)->0;
    let line = lines[i];
    let once = rescheduled(line, date);
    lemma_lines_hold_no_line_feed(text, i);
    lemma_rescheduled_is_line(line, date);
    law_reschedule_is_idempotent(line, date);
    match key.marker {
        Some(m) => {
            lemma_token_kept_by_reschedule(line, date, m);
        },
        None => {
            lemma_token_kept_by_reschedule(line, date, seq!['x']);
        },
    }
    lemma_lines_after_edit(text, i, once, once);
    lemma_located_after_edit(key, lines, i, once);
}

/// Marking a task done and reopening it, through the same key, gives the
/// text that was, where the task was open and bore no completion marker.
/// The marker of the key, if it has one, is letters and digits.
pub proof fn law_toggle_and_back(text: Seq<char>, key: KeyView, today: Date, later: Date)
    requires
        today.well_formed(),
        key.marker matches Some(m) ==> is_marker(m),
        located(key, lines_of(text)) is Some,
        contains(lines_of(text)[located(key, lines_of(text))->0], unchecked_box()),
        !contains(lines_of(text)[located(key, lines_of(text))->0], checked_box()),
        !contains(lines_of(text)[located(key, lines_of(text))->0], checked_upper_box()),
        !has_completion(lines_of(text)[located(key, lines_of(text))->0]),
    ensures
        updated(text, key, LineEditView::Toggle { done: true, today }) is Ok,
        updated(
            updated(text, key, LineEditView::Toggle { done: true, today })->Ok_0,
            key,
            LineEditView::Toggle { done: false, today: later },
        ) == Ok::<Seq<char>, crate::record::TodoError>(text),
{
    let lines = lines_of(text);
    lemma_located_in_range(key, lines);
    let i = located(key, lines)->0;
    let line = lines[i];
    lemma_lines_hold_no_line_feed(text, i);
    law_toggle_round_trip(line, today, later);
    let done = toggled(line, true, today)->0;
    lemma_toggled_is_line(line, true, today);
    match key.marker {
        Some(m) => {
            lemma_token_kept_by_marking_done(line, today, m);
        },
        None => {
            lemma_token_kept_by_marking_done(line, today, seq!['x']);
        },
    }
    lemma_lines_after_edit(text, i, done, line);
    lemma_located_after_edit(key, lines, i, done);
}

} // verus!
