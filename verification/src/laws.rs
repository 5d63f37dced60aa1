//! What holds of the rewrites of a line and of a file, whatever the text.

use crate::chars::{
    contains, first_match, has_at, is_space, lemma_first_where, lemma_first_where_is,
    replace_first,
};
use crate::date::{date_text, is_digit, lemma_date_text_reads_back, Date};
use crate::document::{
    has_token, join_lines, line_count, line_of, line_with_marker, lines_of, located, marker_token,
    piece_for, split_lines, with_line,
};
use crate::edits::{edited, updated, LineEditView};
use crate::record::KeyView;
use crate::line::{
    checked_box, checked_upper_box, completion_at, completion_slot, completion_text, due_segment,
    due_slot, first_completion, flipped, has_completion, rescheduled, spaced_intro_at, toggled,
    trailing_alnum_start, unchecked_box, without_completion,
};
use crate::tags::{due_at, due_prefix, first_due, is_alnum, CHECK_MARK};
use vstd::prelude::*;

verus! {

/// A character that can stand in a date: a digit or a hyphen.
pub open spec fn is_date_char(c: char) -> bool {
    is_digit(c) || c == '-'
}

/// A due tag at `j` is `due:` and ten characters of a date.
pub proof fn lemma_due_at_chars(s: Seq<char>, j: int)
    requires
        due_at(s, j),
    ensures
        0 <= j,
        j + 14 <= s.len(),
        s[j] == 'd',
        s[j + 1] == 'u',
        s[j + 2] == 'e',
        s[j + 3] == ':',
        forall|p: int| j + 4 <= p < j + 14 ==> is_date_char(#[trigger] s[p]),
{
    let cut = s.subrange(j, j + 4);
    assert(cut[0] == s[j] && cut[1] == s[j + 1] && cut[2] == s[j + 2] && cut[3] == s[j + 3]);
    assert forall|p: int| j + 4 <= p < j + 14 implies is_date_char(#[trigger] s[p]) by {
        let m = p - (j + 4);
        assert(m == 0 || m == 1 || m == 2 || m == 3 || m == 4 || m == 5 || m == 6 || m == 7 || m
            == 8 || m == 9);
    }
}

/// Where `t` holds at `k` the fourteen characters that `s` holds at `j`,
/// a due tag of `s` at `j` is one of `t` at `k`.
pub proof fn lemma_due_at_moves(s: Seq<char>, j: int, t: Seq<char>, k: int)
    requires
        due_at(s, j),
        0 <= k,
        k + 14 <= t.len(),
        forall|p: int| k <= p < k + 14 ==> #[trigger] t[p] == s[p - k + j],
    ensures
        due_at(t, k),
{
    lemma_due_at_chars(s, j);
    let a = s.subrange(j, j + 4);
    let b = t.subrange(k, k + 4);
    assert forall|m: int| 0 <= m < 4 implies a[m] == b[m] by {
        assert(t[k + m] == s[j + m]);
    }
    assert(a =~= b);
    assert(t[k + 4] == s[j + 4]);
    assert(t[k + 5] == s[j + 5]);
    assert(t[k + 6] == s[j + 6]);
    assert(t[k + 7] == s[j + 7]);
    assert(t[k + 8] == s[j + 8]);
    assert(t[k + 9] == s[j + 9]);
    assert(t[k + 10] == s[j + 10]);
    assert(t[k + 11] == s[j + 11]);
    assert(t[k + 12] == s[j + 12]);
    assert(t[k + 13] == s[j + 13]);
}

/// The due tag for a date of the calendar is a due tag.
pub proof fn lemma_due_segment(date: Date)
    requires
        date.well_formed(),
    ensures
        due_segment(date).len() == 14,
        due_at(due_segment(date), 0),
{
    lemma_date_text_reads_back(date);
    let seg = due_segment(date);
    let text = date_text(date);
    assert(seg.subrange(0, 4) =~= due_prefix());
    assert(seg[4] == text[0]);
    assert(seg[5] == text[1]);
    assert(seg[6] == text[2]);
    assert(seg[7] == text[3]);
    assert(seg[8] == text[4]);
    assert(seg[9] == text[5]);
    assert(seg[10] == text[6]);
    assert(seg[11] == text[7]);
    assert(seg[12] == text[8]);
    assert(seg[13] == text[9]);
}

/// In a text without a due tag before `limit`, none stands before `q`
/// either once fourteen or more characters are put in at `k`, where what is
/// put in starts neither with a character of a date nor with one of `u`,
/// `e`, `:`, and `q` is `k` or, where it starts with a space, behind that.
proof fn lemma_no_due_before(s: Seq<char>, r: Seq<char>, k: int, q: int)
    requires
        0 <= k <= s.len(),
        k <= q <= k + 1,
        q + 14 <= r.len(),
        forall|p: int| 0 <= p < k ==> #[trigger] r[p] == s[p],
        forall|j: int| 0 <= j < k ==> !due_at(s, j),
        r[q] == 'd',
        q == k + 1 ==> r[k] == ' ',
    ensures
        forall|j: int| 0 <= j < q ==> !due_at(r, j),
{
    assert forall|j: int| 0 <= j < q implies !due_at(r, j) by {
        if due_at(r, j) {
            lemma_due_at_chars(r, j);
            if j + 14 <= k {
                assert forall|p: int| j <= p < j + 14 implies #[trigger] s[p] == r[p - j + j] by {
                    assert(r[p] == s[p]);
                }
                lemma_due_at_moves(r, j, s, j);
                assert(false);
            } else if j == k {
                assert(r[j] == 'd');
                assert(false);
            } else {
                // the character at `k` lies in the tag, behind its first
                assert(j < k < j + 14);
                if k == j + 1 || k == j + 2 || k == j + 3 {
                } else {
                    assert(is_date_char(r[k]));
                }
                if q == k + 1 {
                    assert(r[k] == ' ');
                } else {
                    assert(r[k] == 'd');
                }
                assert(false);
            }
        }
    }
}

/// Setting the same due date twice gives the line that setting it once
/// gives.
pub proof fn law_reschedule_is_idempotent(line: Seq<char>, date: Date)
    requires
        date.well_formed(),
    ensures
        rescheduled(rescheduled(line, date), date) == rescheduled(line, date),
{
    let seg = due_segment(date);
    lemma_due_segment(date);
    lemma_due_at_chars(seg, 0);
    let n = line.len() as int;
    let i = first_due(line);
    let is_due = |j: int| due_at(line, j);
    lemma_first_where(is_due, 0, n);
    assert forall|j: int| 0 <= j < i implies !due_at(line, j) by {
        assert(!is_due(j));
    }
    lemma_first_where(|j: int| spaced_intro_at(line, j), 0, n);
    let r = rescheduled(line, date);
    // where the text changes, and where the tag starts in `r`
    let k = if i < n {
        i
    } else {
        due_slot(line)
    };
    let q = if i >= n && k > 0 && line[k - 1] != ' ' {
        k + 1
    } else {
        k
    };
    if i < n {
        assert(is_due(i));
        lemma_due_at_chars(line, i);
    }
    assert(0 <= q && q + 14 <= r.len());
    assert forall|p: int| q <= p < q + 14 implies #[trigger] r[p] == seg[p - q + 0] by {}
    lemma_due_at_moves(seg, 0, r, q);
    assert(r[q] == seg[0]);
    lemma_no_due_before(line, r, k, q);
    lemma_first_where_is(|j: int| due_at(r, j), 0, r.len() as int, q);
    assert(first_due(r) == q);
    assert(rescheduled(r, date) =~= r);
}

/// The first occurrence of `pat` in `s` is one, and none stands before it.
pub proof fn lemma_first_match(s: Seq<char>, pat: Seq<char>)
    ensures
        0 <= first_match(s, pat) <= s.len(),
        first_match(s, pat) < s.len() ==> has_at(s, pat, first_match(s, pat)),
        forall|j: int| 0 <= j < first_match(s, pat) ==> !has_at(s, pat, j),
{
    let p = |j: int| has_at(s, pat, j);
    lemma_first_where(p, 0, s.len() as int);
    assert forall|j: int| 0 <= j < first_match(s, pat) implies !has_at(s, pat, j) by {
        assert(!p(j));
    }
    if first_match(s, pat) < s.len() {
        assert(p(first_match(s, pat)));
    }
}

/// An occurrence of `pat` with none before it is the first.
pub proof fn lemma_first_match_is(s: Seq<char>, pat: Seq<char>, i: int)
    requires
        0 <= i < s.len(),
        has_at(s, pat, i),
        forall|j: int| 0 <= j < i ==> !has_at(s, pat, j),
    ensures
        first_match(s, pat) == i,
        contains(s, pat),
{
    lemma_first_where_is(|j: int| has_at(s, pat, j), 0, s.len() as int, i);
}

/// The checkbox with `c` between its brackets.
pub open spec fn box_with(c: char) -> Seq<char> {
    seq!['-', ' ', '[', c, ']']
}

/// A checkbox at `i` is its five characters.
pub proof fn lemma_box_chars(s: Seq<char>, c: char, i: int)
    requires
        has_at(s, box_with(c), i),
    ensures
        0 <= i,
        i + 5 <= s.len(),
        s[i] == '-',
        s[i + 1] == ' ',
        s[i + 2] == '[',
        s[i + 3] == c,
        s[i + 4] == ']',
{
    let cut = s.subrange(i, i + 5);
    assert(cut[0] == s[i] && cut[1] == s[i + 1] && cut[2] == s[i + 2] && cut[3] == s[i + 3]
        && cut[4] == s[i + 4]);
}

/// Five characters of a checkbox at `i` are a checkbox.
pub proof fn lemma_box_from_chars(s: Seq<char>, c: char, i: int)
    requires
        0 <= i,
        i + 5 <= s.len(),
        s[i] == '-',
        s[i + 1] == ' ',
        s[i + 2] == '[',
        s[i + 3] == c,
        s[i + 4] == ']',
    ensures
        has_at(s, box_with(c), i),
{
    assert(s.subrange(i, i + 5) =~= box_with(c));
}

/// A completion marker at `j` is a white space, the check mark, a white
/// space, and ten characters of a date of which the last two are digits.
pub proof fn lemma_completion_chars(s: Seq<char>, j: int)
    requires
        completion_at(s, j),
    ensures
        0 <= j,
        j + 13 <= s.len(),
        is_space(s[j]),
        s[j + 1] == CHECK_MARK,
        is_space(s[j + 2]),
        forall|p: int| j + 3 <= p < j + 13 ==> is_date_char(#[trigger] s[p]),
        is_digit(s[j + 3]),
        is_digit(s[j + 11]),
        is_digit(s[j + 12]),
{
    assert forall|p: int| j + 3 <= p < j + 13 implies is_date_char(#[trigger] s[p]) by {
        let m = p - (j + 3);
        assert(m == 0 || m == 1 || m == 2 || m == 3 || m == 4 || m == 5 || m == 6 || m == 7 || m
            == 8 || m == 9);
    }
}

/// Where `t` holds at `k` the thirteen characters that `s` holds at `j`, a
/// completion marker of `s` at `j` is one of `t` at `k`.
proof fn lemma_completion_moves(s: Seq<char>, j: int, t: Seq<char>, k: int)
    requires
        completion_at(s, j),
        0 <= k,
        k + 13 <= t.len(),
        forall|p: int| k <= p < k + 13 ==> #[trigger] t[p] == s[p - k + j],
    ensures
        completion_at(t, k),
{
    assert(t[k] == s[j]);
    assert(t[k + 1] == s[j + 1]);
    assert(t[k + 2] == s[j + 2]);
    assert(t[k + 3] == s[j + 3]);
    assert(t[k + 4] == s[j + 4]);
    assert(t[k + 5] == s[j + 5]);
    assert(t[k + 6] == s[j + 6]);
    assert(t[k + 7] == s[j + 7]);
    assert(t[k + 8] == s[j + 8]);
    assert(t[k + 9] == s[j + 9]);
    assert(t[k + 10] == s[j + 10]);
    assert(t[k + 11] == s[j + 11]);
    assert(t[k + 12] == s[j + 12]);
}

/// The completion marker for a date of the calendar is a completion marker.
pub proof fn lemma_completion_text(today: Date)
    requires
        today.well_formed(),
    ensures
        completion_text(today).len() == 13,
        completion_at(completion_text(today), 0),
{
    lemma_date_text_reads_back(today);
    let ct = completion_text(today);
    let text = date_text(today);
    assert(ct[0] == ' ' && ct[1] == CHECK_MARK && ct[2] == ' ');
    assert(ct[3] == text[0]);
    assert(ct[4] == text[1]);
    assert(ct[5] == text[2]);
    assert(ct[6] == text[3]);
    assert(ct[7] == text[4]);
    assert(ct[8] == text[5]);
    assert(ct[9] == text[6]);
    assert(ct[10] == text[7]);
    assert(ct[11] == text[8]);
    assert(ct[12] == text[9]);
}

/// From `trailing_alnum_start` on, a text holds letters and digits only.
pub proof fn lemma_trailing_alnum_start(s: Seq<char>)
    ensures
        0 <= trailing_alnum_start(s) <= s.len(),
        forall|j: int| trailing_alnum_start(s) <= j < s.len() ==> is_alnum(#[trigger] s[j]),
    decreases s.len(),
{
    if s.len() > 0 && is_alnum(s.last()) {
        let t = s.drop_last();
        lemma_trailing_alnum_start(t);
        assert forall|j: int| trailing_alnum_start(s) <= j < s.len() implies is_alnum(
            #[trigger] s[j],
        ) by {
            if j < t.len() {
                assert(t[j] == s[j]);
            }
        }
    }
}

/// A text that holds no completion marker has none at any index.
pub proof fn lemma_no_completion(s: Seq<char>)
    requires
        !has_completion(s),
    ensures
        forall|j: int| 0 <= j < s.len() ==> !completion_at(s, j),
{
    let p = |j: int| completion_at(s, j);
    lemma_first_where(p, 0, s.len() as int);
    assert forall|j: int| 0 <= j < s.len() implies !completion_at(s, j) by {
        assert(!p(j));
    }
}

/// A text that does not contain `pat` has it at no index.
pub proof fn lemma_not_contained(s: Seq<char>, pat: Seq<char>)
    requires
        !contains(s, pat),
    ensures
        forall|j: int| 0 <= j < s.len() ==> !has_at(s, pat, j),
{
    lemma_first_match(s, pat);
}

/// Checking the first open box of a line that holds no checked box and no
/// completion marker changes the one character between its brackets, and
/// the line still holds no completion marker.
pub proof fn lemma_check_box(s: Seq<char>, p: int)
    requires
        p == first_match(s, box_with(' ')),
        p < s.len(),
        forall|j: int| 0 <= j < s.len() ==> !completion_at(s, j),
    ensures
        0 <= p,
        p + 5 <= s.len(),
        replace_first(s, box_with(' '), box_with('x')) == s.update(p + 3, 'x'),
        has_at(s.update(p + 3, 'x'), box_with('x'), p),
        !has_completion(s.update(p + 3, 'x')),
{
    let n = s.len() as int;
    lemma_first_match(s, box_with(' '));
    lemma_box_chars(s, ' ', p);
    let u = s.update(p + 3, 'x');
    assert(replace_first(s, box_with(' '), box_with('x')) =~= u);
    lemma_box_from_chars(u, 'x', p);
    assert forall|j: int| 0 <= j < n implies !completion_at(u, j) by {
        if completion_at(u, j) {
            lemma_completion_chars(u, j);
            if j <= p + 3 < j + 13 {
                assert(is_space(u[p + 3]) || u[p + 3] == CHECK_MARK || is_date_char(u[p + 3]));
            } else {
                assert forall|q: int| j <= q < j + 13 implies #[trigger] s[q] == u[q - j + j] by {}
                lemma_completion_moves(u, j, s, j);
            }
        }
    }
    lemma_first_where_is(|j: int| completion_at(u, j), 0, n, n);
}

/// The completion marker goes in behind a checkbox.
pub proof fn lemma_slot_behind_box(u: Seq<char>, c: char, p: int)
    requires
        has_at(u, box_with(c), p),
        !is_space(c),
    ensures
        p + 5 <= completion_slot(u) <= u.len(),
{
    lemma_box_chars(u, c, p);
    lemma_trailing_alnum_start(u);
    let a = trailing_alnum_start(u);
    let k = completion_slot(u);
    if k != u.len() {
        assert(k == a - 2);
        assert(!is_alnum(u[p]) && !is_alnum(u[p + 1]) && !is_alnum(u[p + 2]) && !is_alnum(
            u[p + 4],
        ));
        assert(a > p + 4);
        assert(!is_space(u[p + 3]) && !is_space(u[p + 4]));
    }
}

/// Reopening the first checked box of a line gives back the open box, where
/// the line held no checked box before it was checked at `p` and the
/// completion marker was put in behind the box.
proof fn lemma_uncheck_box(s: Seq<char>, p: int, k: int, ct: Seq<char>)
    requires
        has_at(s, box_with(' '), p),
        forall|j: int| 0 <= j < s.len() ==> !has_at(s, box_with('x'), j),
        p + 5 <= k <= s.len(),
    ensures
        replace_first(
            s.update(p + 3, 'x').subrange(0, k) + ct + s.update(p + 3, 'x').subrange(
                k,
                s.len() as int,
            ),
            box_with('x'),
            box_with(' '),
        ) == s.subrange(0, k) + ct + s.subrange(k, s.len() as int),
        contains(
            s.update(p + 3, 'x').subrange(0, k) + ct + s.update(p + 3, 'x').subrange(
                k,
                s.len() as int,
            ),
            box_with('x'),
        ),
{
    let n = s.len() as int;
    let u = s.update(p + 3, 'x');
    let d = u.subrange(0, k) + ct + u.subrange(k, n);
    lemma_box_chars(s, ' ', p);
    lemma_box_from_chars(d, 'x', p);
    assert forall|j: int| 0 <= j < p implies !has_at(d, box_with('x'), j) by {
        if has_at(d, box_with('x'), j) {
            lemma_box_chars(d, 'x', j);
            if j + 4 == p + 3 {
                assert(d[j + 4] == u[p + 3]);
            } else {
                lemma_box_from_chars(s, 'x', j);
            }
        }
    }
    lemma_first_match_is(d, box_with('x'), p);
    assert(replace_first(d, box_with('x'), box_with(' ')) =~= s.subrange(0, k) + ct + s.subrange(
        k,
        n,
    ));
}

/// A line without a box `- [X]` has none once a completion marker is put
/// into it.
proof fn lemma_no_upper_box(s: Seq<char>, k: int, ct: Seq<char>)
    requires
        0 <= k <= s.len(),
        forall|j: int| 0 <= j < s.len() ==> !has_at(s, box_with('X'), j),
        ct.len() == 13,
        completion_at(ct, 0),
        ct[0] == ' ',
    ensures
        !contains(s.subrange(0, k) + ct + s.subrange(k, s.len() as int), box_with('X')),
        replace_first(
            s.subrange(0, k) + ct + s.subrange(k, s.len() as int),
            box_with('X'),
            box_with(' '),
        ) == s.subrange(0, k) + ct + s.subrange(k, s.len() as int),
{
    let n = s.len() as int;
    let e = s.subrange(0, k) + ct + s.subrange(k, n);
    lemma_completion_chars(ct, 0);
    assert forall|j: int| 0 <= j < e.len() implies !has_at(e, box_with('X'), j) by {
        if has_at(e, box_with('X'), j) {
            lemma_box_chars(e, 'X', j);
            if j + 4 < k {
                lemma_box_from_chars(s, 'X', j);
            } else if j >= k + 13 {
                lemma_box_from_chars(s, 'X', j - 13);
            } else {
                // one of the five characters lies in the completion marker
                if k <= j + 2 < k + 13 {
                    assert(e[j + 2] == ct[j + 2 - k]);
                    assert(j + 2 - k < 3 || is_date_char(ct[j + 2 - k]));
                } else if k <= j + 3 < k + 13 {
                    assert(e[j + 3] == ct[j + 3 - k]);
                    assert(j + 3 - k < 3 || is_date_char(ct[j + 3 - k]));
                } else if k <= j + 4 < k + 13 {
                    assert(e[j + 4] == ct[j + 4 - k]);
                    assert(j + 4 - k < 3 || is_date_char(ct[j + 4 - k]));
                } else {
                    assert(j == k + 11 || j == k + 12);
                    assert(e[j] == ct[j - k]);
                }
            }
        }
    }
    lemma_first_where_is(|j: int| has_at(e, box_with('X'), j), 0, e.len() as int, e.len() as int);
}

/// Taking the first completion marker out of a line that held none before
/// one was put into it gives the line that was.
proof fn lemma_completion_comes_out(s: Seq<char>, k: int, ct: Seq<char>)
    requires
        0 <= k <= s.len(),
        forall|j: int| 0 <= j < s.len() ==> !completion_at(s, j),
        ct.len() == 13,
        completion_at(ct, 0),
        ct[0] == ' ',
    ensures
        without_completion(s.subrange(0, k) + ct + s.subrange(k, s.len() as int)) == s,
{
    let n = s.len() as int;
    let e = s.subrange(0, k) + ct + s.subrange(k, n);
    lemma_completion_chars(ct, 0);
    assert forall|q: int| k <= q < k + 13 implies #[trigger] e[q] == ct[q - k + 0] by {}
    lemma_completion_moves(ct, 0, e, k);
    assert forall|j: int| 0 <= j < k implies !completion_at(e, j) by {
        if completion_at(e, j) {
            lemma_completion_chars(e, j);
            if j + 13 <= k {
                assert forall|q: int| j <= q < j + 13 implies #[trigger] s[q] == e[q - j + j] by {}
                lemma_completion_moves(e, j, s, j);
            } else {
                assert(e[k] == ct[0]);
                assert(e[k + 1] == ct[1]);
                if k == j + 1 {
                } else if k == j + 2 {
                    assert(is_digit(e[j + 3]));
                } else {
                    assert(is_date_char(e[k]));
                }
            }
        }
    }
    lemma_first_where_is(|j: int| completion_at(e, j), 0, e.len() as int, k);
    assert(without_completion(e) =~= s);
}

/// A task that is open and bears no completion marker is, once marked done
/// and then reopened, the line it was: the checkbox is flipped back and the
/// completion marker that was put in is gone, with every other character in
/// its place.
pub proof fn law_toggle_round_trip(line: Seq<char>, today: Date, later: Date)
    requires
        today.well_formed(),
        contains(line, unchecked_box()),
        !contains(line, checked_box()),
        !contains(line, checked_upper_box()),
        !has_completion(line),
    ensures
        toggled(line, true, today) is Some,
        toggled(toggled(line, true, today)->0, false, later) == Some(line),
{
    let n = line.len() as int;
    assert(unchecked_box() =~= box_with(' '));
    assert(checked_box() =~= box_with('x'));
    assert(checked_upper_box() =~= box_with('X'));
    let p = first_match(line, box_with(' '));
    lemma_first_match(line, box_with(' '));
    lemma_not_contained(line, box_with('x'));
    lemma_not_contained(line, box_with('X'));
    lemma_no_completion(line);
    lemma_check_box(line, p);
    let u = line.update(p + 3, 'x');
    assert(flipped(line, true) == Some(u));
    lemma_slot_behind_box(u, 'x', p);
    let k = completion_slot(u);
    let ct = completion_text(today);
    lemma_completion_text(today);
    let d = u.subrange(0, k) + ct + u.subrange(k, n);
    assert(toggled(line, true, today) == Some(d));
    let e = line.subrange(0, k) + ct + line.subrange(k, n);
    lemma_uncheck_box(line, p, k, ct);
    lemma_no_upper_box(line, k, ct);
    assert(flipped(d, false) == Some(e));
    lemma_completion_comes_out(line, k, ct);
}

/// Whether `s` holds no line feed.
pub open spec fn no_line_feed(s: Seq<char>) -> bool {
    forall|i: int| 0 <= i < s.len() ==> #[trigger] s[i] != '\n'
}

/// Whether `text` ends in a line feed.
pub open spec fn ends_in_line_feed(text: Seq<char>) -> bool {
    text.len() > 0 && text.last() == '\n'
}

/// A text has at least one piece, no piece holds a line feed, the last
/// piece is empty and not the only one exactly where the text ends in a
/// line feed, and the pieces joined are the text.
pub proof fn lemma_split_lines(text: Seq<char>)
    ensures
        split_lines(text).len() >= 1,
        forall|i: int| 0 <= i < split_lines(text).len() ==> no_line_feed(#[trigger] split_lines(text)[i]),
        ends_in_line_feed(text) <==> split_lines(text).len() >= 2 && split_lines(text).last().len()
            == 0,
        text.len() == 0 <==> split_lines(text).len() == 1 && split_lines(text).last().len() == 0,
        join_lines(split_lines(text)) == text,
    decreases text.len(),
{
    if text.len() > 0 {
        let t = text.drop_last();
        let c = text.last();
        lemma_split_lines(t);
        let before = split_lines(t);
        let now = split_lines(text);
        if c == '\n' {
            assert(now.drop_last() =~= before);
            assert(join_lines(now) =~= text);
        } else {
            let last = before.last().push(c);
            assert forall|i: int| 0 <= i < now.len() implies no_line_feed(#[trigger] now[i]) by {
                if i == before.len() - 1 {
                    assert forall|m: int| 0 <= m < last.len() implies #[trigger] last[m] != '\n' by {
                        if m < before.last().len() {
                            assert(before.last()[m] != '\n');
                        }
                    }
                } else {
                    assert(now[i] == before[i]);
                }
            }
            if before.len() == 1 {
                assert(join_lines(before) == before[0]);
                assert(join_lines(now) == now[0]);
                assert(join_lines(now) =~= text);
            } else {
                assert(now.drop_last() =~= before.drop_last());
                assert(join_lines(before) == join_lines(before.drop_last()) + seq!['\n']
                    + before.last());
                assert(join_lines(now) == join_lines(now.drop_last()) + seq!['\n'] + now.last());
                assert(now.last() == last);
                assert(join_lines(now) =~= t.push(c));
                assert(t.push(c) =~= text);
            }
        }
    }
}

/// Characters without a line feed, put behind a text, lengthen its last
/// piece.
proof fn lemma_split_append(text: Seq<char>, more: Seq<char>)
    requires
        no_line_feed(more),
    ensures
        split_lines(text).len() >= 1,
        split_lines(text + more) == split_lines(text).update(
            split_lines(text).len() - 1,
            split_lines(text).last() + more,
        ),
    decreases more.len(),
{
    lemma_split_lines(text);
    let pieces = split_lines(text);
    if more.len() == 0 {
        assert(text + more =~= text);
        assert(pieces.last() + more =~= pieces.last());
        assert(pieces.update(pieces.len() - 1, pieces.last()) =~= pieces);
    } else {
        let shorter = more.drop_last();
        assert(no_line_feed(shorter)) by {
            assert forall|i: int| 0 <= i < shorter.len() implies #[trigger] shorter[i] != '\n' by {
                assert(more[i] != '\n');
            }
        }
        lemma_split_append(text, shorter);
        assert((text + more).drop_last() =~= text + shorter);
        assert(more.last() != '\n');
        assert((text + more).last() == more.last());
        let before = split_lines(text + shorter);
        assert((pieces.last() + shorter).push(more.last()) =~= pieces.last() + more);
        assert(split_lines(text + more) =~= pieces.update(
            pieces.len() - 1,
            pieces.last() + more,
        ));
    }
}

/// Pieces without line feeds, joined and split again, are the pieces.
pub proof fn lemma_split_join(pieces: Seq<Seq<char>>)
    requires
        pieces.len() >= 1,
        forall|i: int| 0 <= i < pieces.len() ==> no_line_feed(#[trigger] pieces[i]),
    ensures
        split_lines(join_lines(pieces)) == pieces,
    decreases pieces.len(),
{
    let empty = Seq::<char>::empty();
    if pieces.len() == 1 {
        lemma_split_append(empty, pieces[0]);
        assert(empty + pieces[0] =~= pieces[0]);
        assert(split_lines(empty) =~= seq![empty]);
        assert(split_lines(pieces[0]) =~= pieces);
    } else {
        let front = pieces.drop_last();
        assert forall|i: int| 0 <= i < front.len() implies no_line_feed(#[trigger] front[i]) by {
            assert(front[i] == pieces[i]);
        }
        lemma_split_join(front);
        let head = join_lines(front) + seq!['\n'];
        assert(head.drop_last() =~= join_lines(front));
        assert(split_lines(head) == front.push(empty));
        lemma_split_append(head, pieces.last());
        assert(empty + pieces.last() =~= pieces.last());
        assert(front.push(empty).update(front.len() as int, pieces.last()) =~= pieces);
    }
}

/// Putting `line`, which is not empty and holds no line feed, in the place
/// of line `i` of `text` keeps every other piece of the text as it is,
/// character for character, and with it every other line, the number of
/// lines, and whether the text ends in a line feed.
pub proof fn law_edit_keeps_other_lines(text: Seq<char>, i: int, line: Seq<char>)
    requires
        0 <= i < lines_of(text).len(),
        no_line_feed(line),
        line.len() > 0,
    ensures
        join_lines(split_lines(text)) == text,
        split_lines(with_line(text, i, line)) == split_lines(text).update(
            i,
            piece_for(split_lines(text), i, line),
        ),
        lines_of(with_line(text, i, line)).len() == lines_of(text).len(),
        forall|j: int|
            0 <= j < lines_of(text).len() && j != i ==> #[trigger] lines_of(
                with_line(text, i, line),
            )[j] == lines_of(text)[j],
        ends_in_line_feed(with_line(text, i, line)) == ends_in_line_feed(text),
{
    lemma_split_lines(text);
    let pieces = split_lines(text);
    let piece = piece_for(pieces, i, line);
    let changed = pieces.update(i, piece);
    assert(no_line_feed(piece)) by {
        assert forall|m: int| 0 <= m < piece.len() implies #[trigger] piece[m] != '\n' by {
            if m < line.len() {
                assert(line[m] != '\n');
            }
        }
    }
    assert forall|j: int| 0 <= j < changed.len() implies no_line_feed(#[trigger] changed[j]) by {
        if j != i {
            assert(changed[j] == pieces[j]);
        }
    }
    lemma_split_join(changed);
    let new_text = with_line(text, i, line);
    lemma_split_lines(new_text);
    assert(line_count(changed) == line_count(pieces));
    assert forall|j: int| 0 <= j < lines_of(text).len() && j != i implies #[trigger] lines_of(
        new_text,
    )[j] == lines_of(text)[j] by {
        assert(line_of(changed, j) == line_of(pieces, j));
    }
}

/// The line that a key leads to is one of the lines.
pub proof fn lemma_located_in_range(key: KeyView, lines: Seq<Seq<char>>)
    ensures
        located(key, lines) matches Some(i) ==> 0 <= i < lines.len(),
        located(key, lines) is None ==> key.line_index >= lines.len(),
{
    match key.marker {
        Some(m) => {
            lemma_first_where(
                |i: int| has_token(lines[i], marker_token(m)),
                0,
                lines.len() as int,
            );
        },
        None => {},
    }
}

/// No line of a text holds a line feed.
pub proof fn lemma_lines_hold_no_line_feed(text: Seq<char>, i: int)
    requires
        0 <= i < lines_of(text).len(),
    ensures
        no_line_feed(lines_of(text)[i]),
{
    lemma_split_lines(text);
    let pieces = split_lines(text);
    let line = lines_of(text)[i];
    assert(no_line_feed(pieces[i]));
    assert forall|m: int| 0 <= m < line.len() implies #[trigger] line[m] != '\n' by {
        assert(pieces[i][m] != '\n');
    }
}

/// Replacing the first box with `from` between its brackets by the box
/// with `to` changes at most that one character.
proof fn lemma_replace_box(s: Seq<char>, from: char, to: char)
    ensures
        replace_first(s, box_with(from), box_with(to)).len() == s.len(),
        contains(s, box_with(from)) ==> has_at(
            replace_first(s, box_with(from), box_with(to)),
            box_with(to),
            first_match(s, box_with(from)),
        ) && replace_first(s, box_with(from), box_with(to)) == s.update(
            first_match(s, box_with(from)) + 3,
            to,
        ) && s[first_match(s, box_with(from)) + 3] == from,
        !contains(s, box_with(from)) ==> replace_first(s, box_with(from), box_with(to)) == s,
{
    lemma_first_match(s, box_with(from));
    let p = first_match(s, box_with(from));
    if p < s.len() {
        lemma_box_chars(s, from, p);
        let u = s.update(p + 3, to);
        assert(replace_first(s, box_with(from), box_with(to)) =~= u);
        lemma_box_from_chars(u, to, p);
    }
}

/// A line with its checkbox flipped is as long as it was, holds an opening
/// bracket, and holds no line feed where it held none.
proof fn lemma_flipped_is_line(s: Seq<char>, done: bool)
    requires
        flipped(s, done) is Some,
    ensures
        flipped(s, done)->0.len() == s.len(),
        exists|m: int| 0 <= m < s.len() && #[trigger] flipped(s, done)->0[m] == '[',
        no_line_feed(s) ==> no_line_feed(flipped(s, done)->0),
{
    assert(unchecked_box() =~= box_with(' '));
    assert(checked_box() =~= box_with('x'));
    assert(checked_upper_box() =~= box_with('X'));
    let u = flipped(s, done)->0;
    lemma_first_match(s, box_with(' '));
    lemma_first_match(s, box_with('x'));
    lemma_first_match(s, box_with('X'));
    let has_checked = contains(s, box_with('x')) || contains(s, box_with('X'));
    if done {
        if has_checked {
            lemma_replace_box(s, 'X', 'x');
            if contains(s, box_with('X')) {
                let p = first_match(s, box_with('X'));
                lemma_box_chars(u, 'x', p);
                assert(u[p + 2] == '[');
            } else {
                let p = first_match(s, box_with('x'));
                lemma_box_chars(s, 'x', p);
                assert(u[p + 2] == '[');
            }
        } else {
            lemma_replace_box(s, ' ', 'x');
            let p = first_match(s, box_with(' '));
            lemma_box_chars(u, 'x', p);
            assert(u[p + 2] == '[');
        }
    } else if has_checked {
        let once = replace_first(s, box_with('x'), box_with(' '));
        lemma_replace_box(s, 'x', ' ');
        lemma_replace_box(once, 'X', ' ');
        lemma_first_match(once, box_with('X'));
        if contains(once, box_with('X')) {
            let p = first_match(once, box_with('X'));
            lemma_box_chars(u, ' ', p);
            assert(u[p + 2] == '[');
        } else if contains(s, box_with('x')) {
            let p = first_match(s, box_with('x'));
            lemma_box_chars(once, ' ', p);
            assert(u[p + 2] == '[');
        } else {
            let p = first_match(s, box_with('X'));
            lemma_box_chars(s, 'X', p);
            assert(false);
        }
    } else {
        let p = first_match(s, box_with(' '));
        lemma_box_chars(s, ' ', p);
        assert(u[p + 2] == '[');
    }
    if no_line_feed(s) {
        assert forall|m: int| 0 <= m < u.len() implies #[trigger] u[m] != '\n' by {
            assert(s[m] != '\n');
        }
    }
}

/// A line that holds no line feed holds none once toggled, and is not
/// empty.
pub proof fn lemma_toggled_is_line(s: Seq<char>, done: bool, today: Date)
    requires
        done ==> today.well_formed(),
        toggled(s, done, today) is Some,
        no_line_feed(s),
    ensures
        no_line_feed(toggled(s, done, today)->0),
        toggled(s, done, today)->0.len() > 0,
{
    lemma_flipped_is_line(s, done);
    let u = flipped(s, done)->0;
    let t = toggled(s, done, today)->0;
    let m = choose|m: int| 0 <= m < s.len() && #[trigger] u[m] == '[';
    let n = u.len() as int;
    if done {
        if !has_completion(u) {
            lemma_completion_text(today);
            let ct = completion_text(today);
            lemma_completion_chars(ct, 0);
            let k = completion_slot(u);
            lemma_trailing_alnum_start(u);
            assert forall|q: int| 0 <= q < t.len() implies #[trigger] t[q] != '\n' by {
                if q < k {
                    assert(u[q] != '\n');
                } else if q < k + 13 {
                    assert(t[q] == ct[q - k]);
                    assert(q - k < 3 || is_date_char(ct[q - k]));
                } else {
                    assert(u[q - 13] != '\n');
                }
            }
        }
    } else {
        let j = first_completion(u);
        lemma_first_where(|j: int| completion_at(u, j), 0, n);
        if j < n {
            let is_marker = |j: int| completion_at(u, j);
            assert(is_marker(j));
            lemma_completion_chars(u, j);
            assert forall|q: int| 0 <= q < t.len() implies #[trigger] t[q] != '\n' by {
                if q < j {
                    assert(u[q] != '\n');
                } else {
                    assert(u[q + 13] != '\n');
                }
            }
            if j <= m < j + 13 {
                assert(m < j + 3 || is_date_char(u[m]));
                assert(false);
            }
        }
    }
}

/// A line that holds no line feed holds none once its due date is set, and
/// is not empty.
pub proof fn lemma_rescheduled_is_line(s: Seq<char>, date: Date)
    requires
        date.well_formed(),
        no_line_feed(s),
    ensures
        no_line_feed(rescheduled(s, date)),
        rescheduled(s, date).len() > 0,
{
    let seg = due_segment(date);
    lemma_due_segment(date);
    lemma_due_at_chars(seg, 0);
    let n = s.len() as int;
    let i = first_due(s);
    let is_due = |j: int| due_at(s, j);
    lemma_first_where(is_due, 0, n);
    lemma_first_where(|j: int| spaced_intro_at(s, j), 0, n);
    let r = rescheduled(s, date);
    assert(no_line_feed(seg)) by {
        assert forall|q: int| 0 <= q < seg.len() implies #[trigger] seg[q] != '\n' by {
            assert(q < 4 || is_date_char(seg[q]));
        }
    }
    if i < n {
        assert(is_due(i));
        lemma_due_at_chars(s, i);
        assert forall|q: int| 0 <= q < r.len() implies #[trigger] r[q] != '\n' by {
            if q < i {
                assert(s[q] != '\n');
            } else if q < i + 14 {
                assert(seg[q - i] != '\n');
            } else {
                assert(s[q] != '\n');
            }
        }
    } else {
        let k = due_slot(s);
        let q0 = if k > 0 && s[k - 1] != ' ' {
            k + 1
        } else {
            k
        };
        assert forall|q: int| 0 <= q < r.len() implies #[trigger] r[q] != '\n' by {
            if q < k {
                assert(s[q] != '\n');
            } else if q < q0 {
            } else if q < q0 + 14 {
                assert(r[q] == seg[q - q0]);
                assert(seg[q - q0] != '\n');
            } else {
                assert(r[q] == s[q - (q0 - k) - 14]);
                assert(s[q - (q0 - k) - 14] != '\n');
            }
        }
    }
}

/// The index of the line of `text` that `key` leads to.
pub open spec fn target_index(text: Seq<char>, key: KeyView) -> int {
    located(key, lines_of(text))->0
}

/// The line that `edit` makes of the line of `text` that `key` leads to.
pub open spec fn target_line(text: Seq<char>, key: KeyView, edit: LineEditView) -> Seq<char> {
    edited(edit, lines_of(text)[target_index(text, key)])->0
}

/// An edit of the file changes the line that the key leads to and nothing
/// else: every other piece of the text stays as it is, character for
/// character, and with it every other line, the number of lines, and
/// whether the text ends in a line feed. A line that is put in as it is
/// must hold no line feed and not be empty.
pub proof fn law_update_keeps_other_lines(text: Seq<char>, key: KeyView, edit: LineEditView)
    requires
        edit.well_formed(),
        updated(text, key, edit) is Ok,
        edit matches LineEditView::Replace { line } ==> no_line_feed(line) && line.len() > 0,
    ensures
        0 <= target_index(text, key) < lines_of(text).len(),
        split_lines(updated(text, key, edit)->Ok_0) == split_lines(text).update(
            target_index(text, key),
            piece_for(split_lines(text), target_index(text, key), target_line(text, key, edit)),
        ),
        lines_of(updated(text, key, edit)->Ok_0).len() == lines_of(text).len(),
        forall|j: int|
            0 <= j < lines_of(text).len() && j != target_index(text, key) ==> #[trigger] lines_of(
                updated(text, key, edit)->Ok_0,
            )[j] == lines_of(text)[j],
        ends_in_line_feed(updated(text, key, edit)->Ok_0) == ends_in_line_feed(text),
{
    let lines = lines_of(text);
    lemma_located_in_range(key, lines);
    let i = located(key, lines)->0;
    lemma_lines_hold_no_line_feed(text, i);
    let line = edited(edit, lines[i])->0;
    match edit {
        LineEditView::Toggle { done, today } => {
            lemma_toggled_is_line(lines[i], done, today);
        },
        LineEditView::Reschedule { date } => {
            lemma_rescheduled_is_line(lines[i], date);
        },
        LineEditView::Replace { line } => {},
    }
    law_edit_keeps_other_lines(text, i, line);
}

/// `lines` with the lines `above` put in before line `at`.
pub open spec fn with_lines_above(lines: Seq<Seq<char>>, above: Seq<Seq<char>>, at: int) -> Seq<
    Seq<char>,
> {
    lines.subrange(0, at) + above + lines.subrange(at, lines.len() as int)
}

/// A key with a marker still leads to its task after lines are put in
/// above it, whatever their number, as long as none of them bears the
/// marker: it leads to the line that the task has moved to.
pub proof fn law_marker_follows_insertion(
    lines: Seq<Seq<char>>,
    above: Seq<Seq<char>>,
    at: int,
    key: KeyView,
)
    requires
        key.marker is Some,
        line_with_marker(lines, key.marker->0) < lines.len(),
        0 <= at <= line_with_marker(lines, key.marker->0),
        forall|k: int|
            0 <= k < above.len() ==> !has_token(#[trigger] above[k], marker_token(key.marker->0)),
    ensures
        located(key, lines) == Some(line_with_marker(lines, key.marker->0)),
        located(key, with_lines_above(lines, above, at)) == Some(
            line_with_marker(lines, key.marker->0) + above.len(),
        ),
        with_lines_above(lines, above, at)[line_with_marker(lines, key.marker->0) + above.len()]
            == lines[line_with_marker(lines, key.marker->0)],
{
    let m = key.marker->0;
    let needle = marker_token(m);
    let i = line_with_marker(lines, m);
    let bears = |j: int| has_token(lines[j], needle);
    lemma_first_where(bears, 0, lines.len() as int);
    assert(bears(i));
    let moved = with_lines_above(lines, above, at);
    let target = i + above.len();
    assert forall|j: int| 0 <= j < target implies !has_token(moved[j], needle) by {
        if j < at {
            assert(!bears(j));
        } else if j < at + above.len() {
            assert(moved[j] == above[j - at]);
        } else {
            assert(moved[j] == lines[j - above.len()]);
            assert(!bears(j - above.len()));
        }
    }
    assert(moved[target] == lines[i]);
    lemma_first_where_is(|j: int| has_token(moved[j], needle), 0, moved.len() as int, target);
}

/// A key without a marker does not follow its task: after lines are put in
/// above it, the key still leads to the line at its index, while the task
/// stands further down by the number of lines put in.
pub proof fn law_index_stays_behind(
    lines: Seq<Seq<char>>,
    above: Seq<Seq<char>>,
    at: int,
    key: KeyView,
)
    requires
        key.marker is None,
        0 <= at <= key.line_index < lines.len(),
    ensures
        located(key, lines) == Some(key.line_index as int),
        located(key, with_lines_above(lines, above, at)) == Some(key.line_index as int),
        with_lines_above(lines, above, at)[key.line_index + above.len()]
            == lines[key.line_index as int],
{
}

/// A key leads to the line at its own index where no other line bears its
/// marker: the marker finds that line, or finds none and the index does.
pub proof fn law_key_leads_to_its_line(key: KeyView, lines: Seq<Seq<char>>)
    requires
        key.line_index < lines.len(),
        key.marker matches Some(m) ==> forall|j: int|
            0 <= j < lines.len() && j != key.line_index ==> !has_token(
                #[trigger] lines[j],
                marker_token(m),
            ),
    ensures
        located(key, lines) == Some(key.line_index as int),
{
    match key.marker {
        Some(m) => {
            let i = key.line_index as int;
            let bears = |j: int| has_token(lines[j], marker_token(m));
            lemma_first_where(bears, 0, lines.len() as int);
            let first = line_with_marker(lines, m);
            if first < lines.len() && first != i {
                assert(bears(first));
                assert(!has_token(lines[first], marker_token(m)));
            }
        },
        None => {},
    }
}

} // verus!
