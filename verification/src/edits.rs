//! The edits of a task file: each finds the line that a key leads to,
//! rewrites that line alone and hands back the new text of the file.

use crate::chars::{
    append_chars, chars_of, first_where, lemma_first_where_is, matches_at, string_of, trim,
    trim_chars,
};
use crate::date::{day_after, Date};
use crate::document::{
    join_chars, join_lines, lines_from, lines_of, locate_chars, located, piece_for, split_chars,
    split_lines, texts, with_line,
};
use crate::line::{
    due_segment, rendered, render_line, rescheduled, reschedule_chars, rewrite_chars, toggled,
    unchecked_box, unchecked_box_chars,
};
use crate::record::{ItemView, KeyView, LineError, TodoError, TodoItem, TodoKey};
use crate::tags::due_prefix_chars;
use vstd::prelude::*;

verus! {

/// What an edit does to the line it is made on.
#[derive(Clone, Debug, PartialEq, Eq)]
pub enum LineEdit {
    /// Sets the checkbox and the completion marker.
    Toggle { done: bool, today: Date },
    /// Sets the due date.
    Reschedule { date: Date },
    /// Puts another line in its place.
    Replace { line: String },
}

/// A `LineEdit` with its line as text.
pub ghost enum LineEditView {
    Toggle { done: bool, today: Date },
    Reschedule { date: Date },
    Replace { line: Seq<char> },
}

impl View for LineEdit {
    type V = LineEditView;

    open spec fn view(&self) -> LineEditView {
        match self {
            LineEdit::Toggle { done, today } => LineEditView::Toggle { done: *done, today: *today },
            LineEdit::Reschedule { date } => LineEditView::Reschedule { date: *date },
            LineEdit::Replace { line } => LineEditView::Replace { line: line@ },
        }
    }
}

impl LineEditView {
    /// The dates that the edit writes out are dates of the calendar.
    pub open spec fn well_formed(&self) -> bool {
        match self {
            LineEditView::Toggle { done, today } => *done ==> today.well_formed(),
            LineEditView::Reschedule { date } => date.well_formed(),
            LineEditView::Replace { line } => true,
        }
    }
}

/// `line` after `edit`; none where the edit needs a checkbox and the line
/// has none.
pub open spec fn edited(edit: LineEditView, line: Seq<char>) -> Option<Seq<char>> {
    match edit {
        LineEditView::Toggle { done, today } => toggled(line, done, today),
        LineEditView::Reschedule { date } => Some(rescheduled(line, date)),
        LineEditView::Replace { line: new_line } => Some(new_line),
    }
}

/// The text of the file after `edit` is made on the line that `key` leads
/// to, every other character kept; or why it cannot be made.
pub open spec fn updated(text: Seq<char>, key: KeyView, edit: LineEditView) -> Result<
    Seq<char>,
    TodoError,
> {
    match located(key, lines_of(text)) {
        None => Err(TodoError::NotFound),
        Some(i) => match edited(edit, lines_of(text)[i]) {
            None => Err(TodoError::MissingCheckbox { line_number: (i + 1) as usize }),
            Some(line) => Ok(with_line(text, i, line)),
        },
    }
}

/// Whether `r` is the result that `expected` describes.
pub open spec fn is_result(r: Result<String, TodoError>, expected: Result<Seq<char>, TodoError>) -> bool {
    match expected {
        Ok(text) => r matches Ok(s) && s@ == text,
        Err(e) => r matches Err(f) && f == e,
    }
}

/// The text of the file with the due date of the task that `key` leads to
/// set to `date`, and that date; or why it cannot be set.
pub open spec fn due_set(text: Seq<char>, key: KeyView, date: Date) -> Result<
    (Seq<char>, Date),
    TodoError,
> {
    match updated(text, key, LineEditView::Reschedule { date }) {
        Ok(new_text) => Ok((new_text, date)),
        Err(e) => Err(e),
    }
}

/// The text of the file with the due date of the task that `key` leads to
/// set to the day after `today`, and that day; or why it cannot be set.
pub open spec fn postponed(text: Seq<char>, key: KeyView, today: Date) -> Result<
    (Seq<char>, Date),
    TodoError,
> {
    if day_after(today).year > 9999 {
        Err(TodoError::DateOutOfRange)
    } else {
        due_set(text, key, day_after(today))
    }
}

/// Whether `r` is the result that `expected` describes.
pub open spec fn is_dated_result(
    r: Result<(String, Date), TodoError>,
    expected: Result<(Seq<char>, Date), TodoError>,
) -> bool {
    match expected {
        Ok(pair) => r matches Ok(p) && p.0@ == pair.0 && p.1 == pair.1,
        Err(e) => r matches Err(f) && f == e,
    }
}

/// Computes `edited`.
pub fn apply_edit(edit: &LineEdit, line: &Vec<char>) -> (r: Result<Vec<char>, LineError>)
    requires
        edit@.well_formed(),
    ensures
        match edited(edit@, line@) {
            Some(t) => r matches Ok(w) && w@ == t,
            None => r matches Err(e) && e == LineError::MissingCheckbox,
        },
{
    match edit {
        LineEdit::Toggle { done, today } => rewrite_chars(line, *done, today),
        LineEdit::Reschedule { date } => Ok(reschedule_chars(line, date)),
        LineEdit::Replace { line: new_line } => Ok(chars_of(new_line.as_str())),
    }
}

/// Makes `edit` on the line of `content` that `key` leads to and returns
/// the new text: that line rewritten, every other character as it was.
/// Fails where the key leads to no line, or the edit needs a checkbox that
/// the line does not have.
pub fn update_line(content: &str, key: &TodoKey, edit: &LineEdit) -> (r: Result<String, TodoError>)
    requires
        edit@.well_formed(),
    ensures
        is_result(r, updated(content@, key@, edit@)),
{
    let text = chars_of(content);
    let mut pieces = split_chars(&text);
    let lines = lines_from(&pieces);
    assert(texts(lines@) =~= lines_of(content@));
    let index = match locate_chars(key, &lines) {
        Some(index) => index,
        None => {
            return Err(TodoError::NotFound);
        },
    };
    let mut line = match apply_edit(edit, &lines[index]) {
        Ok(line) => line,
        Err(_) => {
            return Err(TodoError::MissingCheckbox { line_number: index + 1 });
        },
    };
    let ghost new_line = line@;
    let ghost old_pieces = texts(pieces@);
    let piece = &pieces[index];
    if index < pieces.len() - 1 && piece.len() > 0 && piece[piece.len() - 1] == '\r' {
        line.push('\r');
    }
    pieces.set(index, line);
    assert(texts(pieces@) =~= old_pieces.update(
        index as int,
        piece_for(old_pieces, index as int, new_line),
    ));
    Ok(string_of(&join_chars(&pieces)))
}

/// Sets the task that `key` leads to in `content` to `done` and returns the
/// new text. The checkbox is flipped and the completion marker brought in
/// line, with `today` as the day of completion.
pub fn toggle_todo(content: &str, key: &TodoKey, done: bool, today: &Date) -> (r: Result<
    String,
    TodoError,
>)
    requires
        done ==> today.well_formed(),
    ensures
        is_result(r, updated(content@, key@, LineEditView::Toggle { done, today: *today })),
{
    update_line(content, key, &LineEdit::Toggle { done, today: *today })
}

/// Sets the due date of the task that `key` leads to in `content` to `date`
/// and returns the new text.
pub fn reschedule(content: &str, key: &TodoKey, date: &Date) -> (r: Result<String, TodoError>)
    requires
        date.well_formed(),
    ensures
        is_result(r, updated(content@, key@, LineEditView::Reschedule { date: *date })),
{
    update_line(content, key, &LineEdit::Reschedule { date: *date })
}

/// Sets the due date of the task that `key` leads to in `content` to
/// `today` and returns the new text and that date.
pub fn set_due_today(content: &str, key: &TodoKey, today: &Date) -> (r: Result<
    (String, Date),
    TodoError,
>)
    requires
        today.well_formed(),
    ensures
        is_dated_result(r, due_set(content@, key@, *today)),
{
    match reschedule(content, key, today) {
        Ok(text) => Ok((text, *today)),
        Err(e) => Err(e),
    }
}

/// Sets the due date of the task that `key` leads to in `content` to the
/// day after `today` and returns the new text and that date. Fails where
/// that day lies behind the year 9999.
pub fn postpone_to_tomorrow(content: &str, key: &TodoKey, today: &Date) -> (r: Result<
    (String, Date),
    TodoError,
>)
    requires
        today.well_formed(),
    ensures
        is_dated_result(r, postponed(content@, key@, *today)),
{
    match today.tomorrow() {
        Some(next) => match reschedule(content, key, &next) {
            Ok(text) => Ok((text, next)),
            Err(e) => Err(e),
        },
        None => Err(TodoError::DateOutOfRange),
    }
}

/// The text of the file after the line of `item` is written anew from the
/// record; or why it cannot be.
pub open spec fn details_updated(text: Seq<char>, item: ItemView, today: Date) -> Result<
    Seq<char>,
    TodoError,
> {
    match rendered(item, today) {
        None => Err(TodoError::EmptyTitle),
        Some(line) => updated(text, item.key, LineEditView::Replace { line }),
    }
}

/// Writes the line of `item` in `content` anew from the record and returns
/// the new text. The line is the one that the item's key leads to. Fails
/// where the title is empty but for white space, or the key leads to no
/// line.
pub fn update_todo_details(content: &str, item: &TodoItem, today: &Date) -> (r: Result<
    String,
    TodoError,
>)
    requires
        item.well_formed(),
        item.done ==> today.well_formed(),
    ensures
        is_result(r, details_updated(content@, item@, *today)),
{
    match render_line(item, today) {
        Ok(line) => update_line(content, &item.key, &LineEdit::Replace { line }),
        Err(_) => Err(TodoError::EmptyTitle),
    }
}

/// The line `---`, before which new tasks go.
pub open spec fn delimiter() -> Seq<char> {
    seq!['-', '-', '-']
}

/// Whether `line` is the delimiter, character for character.
pub open spec fn is_delimiter(line: Seq<char>) -> bool {
    line == delimiter()
}

/// The index of the first delimiter among `lines`, or their number.
pub open spec fn delimiter_line(lines: Seq<Seq<char>>) -> int {
    first_where(|i: int| is_delimiter(lines[i]), 0, lines.len() as int)
}

/// The line of a new task: an open checkbox, the title without white space
/// around it, and `today` as due date.
pub open spec fn new_task_line(title: Seq<char>, today: Date) -> Seq<char> {
    unchecked_box() + seq![' '] + trim(title) + seq![' '] + due_segment(today)
}

/// The text of the file with a new task: its line stands before the first
/// delimiter line, or behind the last line where there is no delimiter; or
/// why it cannot be added.
pub open spec fn added(text: Seq<char>, title: Seq<char>, today: Date) -> Result<
    Seq<char>,
    TodoError,
> {
    if trim(title).len() == 0 {
        Err(TodoError::EmptyTitle)
    } else if text.len() == 0 {
        Ok(new_task_line(title, today))
    } else {
        Ok(
            join_lines(
                split_lines(text).insert(
                    delimiter_line(lines_of(text)),
                    new_task_line(title, today),
                ),
            ),
        )
    }
}

/// Decides `is_delimiter`.
pub fn is_delimiter_line(line: &Vec<char>) -> (r: bool)
    ensures
        r == is_delimiter(line@),
{
    let mut dashes: Vec<char> = Vec::new();
    dashes.push('-');
    dashes.push('-');
    dashes.push('-');
    assert(dashes@ =~= delimiter());
    let r = line.len() == 3 && matches_at(line, 0, &dashes);
    proof {
        if line.len() == 3 {
            assert(line@.subrange(0, 3) =~= line@);
        }
    }
    r
}

/// Computes `delimiter_line`.
pub fn find_delimiter(lines: &Vec<Vec<char>>) -> (r: usize)
    ensures
        r == delimiter_line(texts(lines@)),
        r <= lines.len(),
{
    let mut i: usize = 0;
    while i < lines.len() && !is_delimiter_line(&lines[i])
        invariant
            i <= lines.len(),
            forall|j: int| 0 <= j < i ==> !is_delimiter(#[trigger] texts(lines@)[j]),
        decreases lines.len() - i,
    {
        i += 1;
    }
    proof {
        lemma_first_where_is(
            |j: int| is_delimiter(texts(lines@)[j]),
            0,
            lines.len() as int,
            i as int,
        );
    }
    i
}

/// Adds a task with the title `title`, due on `today`, to `content` and
/// returns the new text. The new line stands before the first line that is
/// `---` and nothing more, or at the end where there is none. Fails where the title is empty
/// but for white space.
pub fn add_todo(content: &str, title: &str, today: &Date) -> (r: Result<String, TodoError>)
    requires
        today.well_formed(),
    ensures
        is_result(r, added(content@, title@, *today)),
{
    let name = trim_chars(&chars_of(title));
    if name.len() == 0 {
        return Err(TodoError::EmptyTitle);
    }
    let mut line = unchecked_box_chars();
    line.push(' ');
    append_chars(&mut line, &name);
    line.push(' ');
    append_chars(&mut line, &due_prefix_chars());
    append_chars(&mut line, &chars_of(today.to_text().as_str()));
    assert(line@ =~= new_task_line(title@, *today));
    let text = chars_of(content);
    if text.len() == 0 {
        return Ok(string_of(&line));
    }
    let mut pieces = split_chars(&text);
    let lines = lines_from(&pieces);
    assert(texts(lines@) =~= lines_of(content@));
    let at = find_delimiter(&lines);
    let ghost old_pieces = texts(pieces@);
    pieces.insert(at, line);
    assert(texts(pieces@) =~= old_pieces.insert(at as int, new_task_line(title@, *today)));
    Ok(string_of(&join_chars(&pieces)))
}

} // verus!
