//! One task line: reading it into a record, writing a record out as a line,
//! and the rewrites of a line in place (checkbox, completion date, due date).

use crate::chars::{
    append_chars, chars_of, contains, contains_chars, copy_of, first_where, has_at, insert_chars,
    is_space, is_space_char, lemma_first_where_is, matches_at, replace_first,
    replace_first_chars, slice_of, splice_chars, string_of, trim, trim_chars, trim_start,
    trim_start_chars,
};
use crate::date::{date_shape_at, date_text, has_date_shape, Date};
use crate::record::{ItemView, KeyView, LineError, TodoItem, TodoKey};
use crate::tags::{
    due_of, due_prefix, due_prefix_chars, find_due, find_due_date, find_marker, find_reference,
    find_sigil_token, first_due, is_alnum, is_alnum_char, marker_of, optional_string,
    project_of, context_of, reference_of, reference_open, title_chars, title_of, CHECK_MARK,
};
use vstd::prelude::*;

verus! {

/// The checkbox of a task that is done: `- [x]`.
pub open spec fn checked_box() -> Seq<char> {
    seq!['-', ' ', '[', 'x', ']']
}

/// The checkbox of a task that is done, written with a capital: `- [X]`.
pub open spec fn checked_upper_box() -> Seq<char> {
    seq!['-', ' ', '[', 'X', ']']
}

/// The checkbox of a task that is open: `- [ ]`.
pub open spec fn unchecked_box() -> Seq<char> {
    seq!['-', ' ', '[', ' ', ']']
}

/// Whether a completion marker stands in `s` at `i`: a white space, the check
/// mark, a white space and ten characters in the shape of a date.
pub open spec fn completion_at(s: Seq<char>, i: int) -> bool {
    &&& 0 <= i
    &&& i + 13 <= s.len()
    &&& is_space(s[i])
    &&& s[i + 1] == CHECK_MARK
    &&& is_space(s[i + 2])
    &&& date_shape_at(s, i + 3)
}

/// The index of the first completion marker of `s`, or the length of `s`.
pub open spec fn first_completion(s: Seq<char>) -> int {
    first_where(|i: int| completion_at(s, i), 0, s.len() as int)
}

/// Whether `s` holds a completion marker.
pub open spec fn has_completion(s: Seq<char>) -> bool {
    first_completion(s) < s.len()
}

/// `s` without its first completion marker.
pub open spec fn without_completion(s: Seq<char>) -> Seq<char> {
    let i = first_completion(s);
    if i < s.len() {
        s.subrange(0, i) + s.subrange(i + 13, s.len() as int)
    } else {
        s
    }
}

/// The index at which the letters and digits that end `s` begin; the length
/// of `s` where it ends in none.
pub open spec fn trailing_alnum_start(s: Seq<char>) -> int
    decreases s.len(),
{
    if s.len() == 0 || !is_alnum(s.last()) {
        s.len() as int
    } else {
        trailing_alnum_start(s.drop_last())
    }
}

/// Where a completion marker goes into `s`: before the white space in front
/// of a marker tag that ends the line, else at the end.
pub open spec fn completion_slot(s: Seq<char>) -> int {
    let a = trailing_alnum_start(s);
    if a < s.len() && a >= 2 && s[a - 1] == '^' && is_space(s[a - 2]) {
        a - 2
    } else {
        s.len() as int
    }
}

/// The completion marker for a task done on `today`.
pub open spec fn completion_text(today: Date) -> Seq<char> {
    seq![' ', CHECK_MARK, ' '] + date_text(today)
}

/// `s` with a completion marker for `today`, unless it holds one already.
pub open spec fn with_completion(s: Seq<char>, today: Date) -> Seq<char> {
    if has_completion(s) {
        s
    } else {
        let k = completion_slot(s);
        s.subrange(0, k) + completion_text(today) + s.subrange(k, s.len() as int)
    }
}

/// `s` with its completion marker brought in line with `done`.
pub open spec fn completion_applied(s: Seq<char>, done: bool, today: Date) -> Seq<char> {
    if done {
        with_completion(s, today)
    } else {
        without_completion(s)
    }
}

/// `s` with its checkbox set to `done`, where it has one: an open box
/// becomes `- [x]` and `- [X]` becomes `- [x]` when the task is done; the
/// first box of each checked form becomes `- [ ]` when it is reopened.
pub open spec fn flipped(s: Seq<char>, done: bool) -> Option<Seq<char>> {
    let has_checked = contains(s, checked_box()) || contains(s, checked_upper_box());
    let has_unchecked = contains(s, unchecked_box());
    if done {
        if has_checked {
            Some(replace_first(s, checked_upper_box(), checked_box()))
        } else if has_unchecked {
            Some(replace_first(s, unchecked_box(), checked_box()))
        } else {
            None
        }
    } else if has_checked {
        Some(
            replace_first(
                replace_first(s, checked_box(), unchecked_box()),
                checked_upper_box(),
                unchecked_box(),
            ),
        )
    } else if has_unchecked {
        Some(s)
    } else {
        None
    }
}

/// `s` toggled to `done`: the checkbox flipped, then the completion marker
/// added or removed.
pub open spec fn toggled(s: Seq<char>, done: bool, today: Date) -> Option<Seq<char>> {
    match flipped(s, done) {
        Some(u) => Some(completion_applied(u, done, today)),
        None => None,
    }
}

/// An index with the defining properties of `trailing_alnum_start` is it.
pub proof fn lemma_trailing_alnum_start_is(s: Seq<char>, a: int)
    requires
        0 <= a <= s.len(),
        a > 0 ==> !is_alnum(s[a - 1]),
        forall|j: int| a <= j < s.len() ==> is_alnum(s[j]),
    ensures
        trailing_alnum_start(s) == a,
    decreases s.len(),
{
    if s.len() > 0 && is_alnum(s.last()) {
        let t = s.drop_last();
        assert forall|j: int| a <= j < t.len() implies is_alnum(t[j]) by {
            assert(t[j] == s[j]);
        }
        if a > 0 {
            assert(t[a - 1] == s[a - 1]);
        }
        lemma_trailing_alnum_start_is(t, a);
    }
}

/// The characters of `- [x]`.
pub fn checked_box_chars() -> (r: Vec<char>)
    ensures
        r@ == checked_box(),
{
    let r = vec!['-', ' ', '[', 'x', ']'];
    assert(r@ =~= checked_box());
    r
}

/// The characters of `- [X]`.
pub fn checked_upper_box_chars() -> (r: Vec<char>)
    ensures
        r@ == checked_upper_box(),
{
    let r = vec!['-', ' ', '[', 'X', ']'];
    assert(r@ =~= checked_upper_box());
    r
}

/// The characters of `- [ ]`.
pub fn unchecked_box_chars() -> (r: Vec<char>)
    ensures
        r@ == unchecked_box(),
{
    let r = vec!['-', ' ', '[', ' ', ']'];
    assert(r@ =~= unchecked_box());
    r
}

/// Computes `first_completion`.
pub fn find_completion(v: &Vec<char>) -> (r: usize)
    ensures
        r == first_completion(v@),
        r <= v.len(),
        r < v.len() ==> completion_at(v@, r as int),
{
    let mut i: usize = 0;
    while i < v.len() && !(v.len() - i >= 13 && is_space_char(v[i]) && v[i + 1] == CHECK_MARK
        && is_space_char(v[i + 2]) && has_date_shape(v, i + 3))
        invariant
            i <= v.len(),
            forall|j: int| 0 <= j < i ==> !completion_at(v@, j),
        decreases v.len() - i,
    {
        i += 1;
    }
    proof {
        lemma_first_where_is(|j: int| completion_at(v@, j), 0, v.len() as int, i as int);
    }
    i
}

/// Computes `completion_slot`.
pub fn find_completion_slot(v: &Vec<char>) -> (r: usize)
    ensures
        r == completion_slot(v@),
        r <= v.len(),
{
    let mut a: usize = v.len();
    while a > 0 && is_alnum_char(v[a - 1])
        invariant
            a <= v.len(),
            forall|j: int| a <= j < v.len() ==> is_alnum(v@[j]),
        decreases a,
    {
        a -= 1;
    }
    proof {
        lemma_trailing_alnum_start_is(v@, a as int);
    }
    if a < v.len() && a >= 2 && v[a - 1] == '^' && is_space_char(v[a - 2]) {
        a - 2
    } else {
        v.len()
    }
}

/// Computes `completion_applied` from the text of the day's date.
pub fn apply_completion_chars(v: &Vec<char>, done: bool, today: &Date) -> (r: Vec<char>)
    requires
        done ==> today.well_formed(),
    ensures
        r@ == completion_applied(v@, done, *today),
{
    let at = find_completion(v);
    if done {
        if at < v.len() {
            copy_of(v)
        } else {
            let mut text = vec![' ', CHECK_MARK, ' '];
            let date = chars_of(today.to_text().as_str());
            append_chars(&mut text, &date);
            assert(text@ =~= completion_text(*today));
            let k = find_completion_slot(v);
            insert_chars(v, k, &text)
        }
    } else if at < v.len() {
        let nothing: Vec<char> = Vec::new();
        let r = splice_chars(v, at, at + 13, &nothing);
        assert(r@ =~= without_completion(v@));
        r
    } else {
        copy_of(v)
    }
}

/// Computes `toggled`.
pub fn rewrite_chars(v: &Vec<char>, done: bool, today: &Date) -> (r: Result<Vec<char>, LineError>)
    requires
        done ==> today.well_formed(),
    ensures
        match toggled(v@, done, *today) {
            Some(t) => r matches Ok(w) && w@ == t,
            None => r == Err::<Vec<char>, LineError>(LineError::MissingCheckbox),
        },
{
    let checked = checked_box_chars();
    let upper = checked_upper_box_chars();
    let unchecked = unchecked_box_chars();
    let has_checked = contains_chars(v, &checked) || contains_chars(v, &upper);
    let has_unchecked = contains_chars(v, &unchecked);
    let updated = if done {
        if has_checked {
            replace_first_chars(v, &upper, &checked)
        } else if has_unchecked {
            replace_first_chars(v, &unchecked, &checked)
        } else {
            return Err(LineError::MissingCheckbox);
        }
    } else if has_checked {
        let once = replace_first_chars(v, &checked, &unchecked);
        replace_first_chars(&once, &upper, &unchecked)
    } else if has_unchecked {
        copy_of(v)
    } else {
        return Err(LineError::MissingCheckbox);
    };
    Ok(apply_completion_chars(&updated, done, today))
}

/// Brings the completion marker of `line` in line with `done`: a task that
/// is done gets ` ✅ ` and the date of `today`, before a marker tag that ends
/// the line or else at the end, unless it has a completion marker already; a
/// task that is open loses its first completion marker.
pub fn apply_completion_marker(line: &str, done: bool, today: &Date) -> (r: String)
    requires
        done ==> today.well_formed(),
    ensures
        r@ == completion_applied(line@, done, *today),
{
    let v = chars_of(line);
    let w = apply_completion_chars(&v, done, today);
    string_of(&w)
}

/// Toggles the task on `line` to `done`: flips the checkbox, then brings the
/// completion marker in line. Fails where the line holds no checkbox.
pub fn rewrite_line(line: &str, done: bool, today: &Date) -> (r: Result<String, LineError>)
    requires
        done ==> today.well_formed(),
    ensures
        match toggled(line@, done, *today) {
            Some(t) => r matches Ok(w) && w@ == t,
            None => r == Err::<String, LineError>(LineError::MissingCheckbox),
        },
{
    let v = chars_of(line);
    match rewrite_chars(&v, done, today) {
        Ok(w) => Ok(string_of(&w)),
        Err(e) => Err(e),
    }
}

/// Whether a space stands in `s` at `i` with one of `+`, `@`, `[[`, the check
/// mark or `^` after it.
pub open spec fn spaced_intro_at(s: Seq<char>, i: int) -> bool {
    &&& 0 <= i
    &&& i + 1 < s.len()
    &&& s[i] == ' '
    &&& (s[i + 1] == '+' || s[i + 1] == '@' || s[i + 1] == CHECK_MARK || s[i + 1] == '^' || has_at(
        s,
        reference_open(),
        i + 1,
    ))
}

/// Where a new due tag goes into `s`: before the first tag that a space
/// introduces, else at the end.
pub open spec fn due_slot(s: Seq<char>) -> int {
    first_where(|i: int| spaced_intro_at(s, i), 0, s.len() as int)
}

/// `s` with `segment` put in at its due slot, after a space of its own
/// unless it then starts the line or follows a space.
pub open spec fn with_segment(s: Seq<char>, segment: Seq<char>) -> Seq<char> {
    let k = due_slot(s);
    let head = s.subrange(0, k);
    let tail = s.subrange(k, s.len() as int);
    if k > 0 && s[k - 1] != ' ' {
        head + seq![' '] + segment + tail
    } else {
        head + segment + tail
    }
}

/// The due tag for `date`.
pub open spec fn due_segment(date: Date) -> Seq<char> {
    due_prefix() + date_text(date)
}

/// `s` with its due date set to `date`: the first due tag rewritten in
/// place, or a new one put in where `s` has none.
pub open spec fn rescheduled(s: Seq<char>, date: Date) -> Seq<char> {
    let i = first_due(s);
    if i < s.len() {
        s.subrange(0, i) + due_segment(date) + s.subrange(i + 14, s.len() as int)
    } else {
        with_segment(s, due_segment(date))
    }
}

/// `s` without any of its white space.
pub open spec fn without_spaces(s: Seq<char>) -> Seq<char>
    decreases s.len(),
{
    if s.len() == 0 {
        s
    } else if is_space(s.last()) {
        without_spaces(s.drop_last())
    } else {
        without_spaces(s.drop_last()).push(s.last())
    }
}

/// A project or context as it is written out: without white space, and
/// absent where nothing is left.
pub open spec fn normalized_token(value: Option<Seq<char>>) -> Option<Seq<char>> {
    match value {
        Some(s) => if without_spaces(s).len() == 0 {
            None
        } else {
            Some(without_spaces(s))
        },
        None => None,
    }
}

/// A reference as it is written out: without white space around it, and
/// absent where nothing is left.
pub open spec fn normalized_reference(value: Option<Seq<char>>) -> Option<Seq<char>> {
    match value {
        Some(s) => if trim(s).len() == 0 {
            None
        } else {
            Some(trim(s))
        },
        None => None,
    }
}

/// A marker as it is written out: absent where it is empty.
pub open spec fn normalized_marker(value: Option<Seq<char>>) -> Option<Seq<char>> {
    match value {
        Some(s) => if s.len() == 0 {
            None
        } else {
            Some(s)
        },
        None => None,
    }
}

/// One tag of a line with the space before it: `lead`, `body` and `close`;
/// nothing where there is no `body`.
pub open spec fn tag_part(lead: Seq<char>, body: Option<Seq<char>>, close: Seq<char>) -> Seq<
    char,
> {
    match body {
        Some(b) => seq![' '] + lead + b + close,
        None => Seq::<char>::empty(),
    }
}

/// The text of a due date, where there is one.
pub open spec fn due_text(due: Option<Date>) -> Option<Seq<char>> {
    match due {
        Some(d) => Some(date_text(d)),
        None => None,
    }
}

/// The checkbox of `item`, a space and its title without white space
/// around it.
pub open spec fn head_part(item: ItemView) -> Seq<char> {
    (if item.done {
        checked_box()
    } else {
        unchecked_box()
    }) + seq![' '] + trim(item.title)
}

/// The project tag of `item` with the space before it.
pub open spec fn project_part(item: ItemView) -> Seq<char> {
    tag_part(seq!['+'], normalized_token(item.project), Seq::<char>::empty())
}

/// The context tag of `item` with the space before it.
pub open spec fn context_part(item: ItemView) -> Seq<char> {
    tag_part(seq!['@'], normalized_token(item.context), Seq::<char>::empty())
}

/// The due tag of `item` with the space before it.
pub open spec fn due_part(item: ItemView) -> Seq<char> {
    tag_part(due_prefix(), due_text(item.due), Seq::<char>::empty())
}

/// The reference tag of `item` with the space before it.
pub open spec fn reference_part(item: ItemView) -> Seq<char> {
    tag_part(reference_open(), normalized_reference(item.reference), seq![']', ']'])
}

/// The marker tag of `item` with the space before it.
pub open spec fn marker_part(item: ItemView) -> Seq<char> {
    tag_part(seq!['^'], normalized_marker(item.key.marker), Seq::<char>::empty())
}

/// The line of `item` before its completion marker: checkbox, title, then
/// project, context, due date, reference and marker, each where present,
/// with one space between them.
pub open spec fn plain_line(item: ItemView) -> Seq<char> {
    head_part(item) + project_part(item) + context_part(item) + due_part(item) + reference_part(
        item,
    ) + marker_part(item)
}

/// The line that `item` is written as, if its title is not empty.
pub open spec fn rendered(item: ItemView, today: Date) -> Option<Seq<char>> {
    if trim(item.title).len() == 0 {
        None
    } else {
        Some(completion_applied(plain_line(item), item.done, today))
    }
}

/// Whether `t` starts with a checkbox and a space, and if so whether the box
/// is checked.
pub open spec fn task_state(t: Seq<char>) -> Option<bool> {
    if has_at(t, checked_box() + seq![' '], 0) || has_at(t, checked_upper_box() + seq![' '], 0) {
        Some(true)
    } else if has_at(t, unchecked_box() + seq![' '], 0) {
        Some(false)
    } else {
        None
    }
}

/// What stands on `line` behind its checkbox, without white space around it.
pub open spec fn task_rest(line: Seq<char>) -> Seq<char> {
    trim(trim_start(line).subrange(6, trim_start(line).len() as int))
}

/// Whether `line` is a task line: after leading white space a checkbox and a
/// space, and then something more than white space.
pub open spec fn is_task_line(line: Seq<char>) -> bool {
    task_state(trim_start(line)) is Some && task_rest(line).len() > 0
}

/// The record that `line` is read as, where it is a task line.
pub open spec fn parsed(line: Seq<char>, line_index: usize, section: Seq<char>) -> Option<
    ItemView,
> {
    if is_task_line(line) {
        let rest = task_rest(line);
        Some(
            ItemView {
                key: KeyView { line_index, marker: marker_of(rest) },
                title: title_of(rest),
                section,
                project: project_of(rest),
                context: context_of(rest),
                due: due_of(rest),
                reference: reference_of(rest),
                done: task_state(trim_start(line))->0,
            },
        )
    } else {
        None
    }
}

/// Computes `due_slot`.
pub fn find_due_slot(v: &Vec<char>) -> (r: usize)
    ensures
        r == due_slot(v@),
        r <= v.len(),
{
    let open = vec!['[', '['];
    assert(open@ =~= reference_open());
    let mut i: usize = 0;
    while i < v.len() && !(v.len() - i > 1 && v[i] == ' ' && (v[i + 1] == '+' || v[i + 1] == '@'
        || v[i + 1] == CHECK_MARK || v[i + 1] == '^' || matches_at(v, i + 1, &open)))
        invariant
            i <= v.len(),
            open@ == reference_open(),
            forall|j: int| 0 <= j < i ==> !spaced_intro_at(v@, j),
        decreases v.len() - i,
    {
        i += 1;
    }
    proof {
        lemma_first_where_is(|j: int| spaced_intro_at(v@, j), 0, v.len() as int, i as int);
    }
    i
}

/// Computes `with_segment`.
pub fn insert_segment_chars(v: &Vec<char>, segment: &Vec<char>) -> (r: Vec<char>)
    ensures
        r@ == with_segment(v@, segment@),
{
    let k = find_due_slot(v);
    if k > 0 && v[k - 1] != ' ' {
        let mut spaced = vec![' '];
        append_chars(&mut spaced, segment);
        let r = insert_chars(v, k, &spaced);
        assert(r@ =~= with_segment(v@, segment@));
        r
    } else {
        insert_chars(v, k, segment)
    }
}

/// Computes `rescheduled`.
pub fn reschedule_chars(v: &Vec<char>, date: &Date) -> (r: Vec<char>)
    requires
        date.well_formed(),
    ensures
        r@ == rescheduled(v@, *date),
{
    let mut segment = due_prefix_chars();
    let text = chars_of(date.to_text().as_str());
    append_chars(&mut segment, &text);
    let i = find_due(v);
    if i < v.len() {
        splice_chars(v, i, i + 14, &segment)
    } else {
        insert_segment_chars(v, &segment)
    }
}

/// Computes `without_spaces`.
pub fn strip_spaces(v: &Vec<char>) -> (r: Vec<char>)
    ensures
        r@ == without_spaces(v@),
{
    let mut r: Vec<char> = Vec::new();
    let mut i: usize = 0;
    while i < v.len()
        invariant
            i <= v.len(),
            r@ == without_spaces(v@.take(i as int)),
        decreases v.len() - i,
    {
        proof {
            let next = v@.take(i + 1);
            assert(next.drop_last() =~= v@.take(i as int));
            assert(next.last() == v@[i as int]);
        }
        if !is_space_char(v[i]) {
            r.push(v[i]);
        }
        i += 1;
    }
    proof {
        assert(v@.take(v.len() as int) =~= v@);
    }
    r
}

/// Computes `normalized_token` for a value that is there.
pub fn token_chars(v: &Vec<char>) -> (r: Option<Vec<char>>)
    ensures
        r.deep_view() == normalized_token(Some(v@)),
{
    let t = strip_spaces(v);
    if t.len() == 0 {
        None
    } else {
        Some(t)
    }
}

/// Computes `normalized_reference` for a value that is there.
pub fn reference_chars(v: &Vec<char>) -> (r: Option<Vec<char>>)
    ensures
        r.deep_view() == normalized_reference(Some(v@)),
{
    let t = trim_chars(v);
    if t.len() == 0 {
        None
    } else {
        Some(t)
    }
}

/// Appends one tag to `line`, with the space before it.
pub fn push_tag(line: &mut Vec<char>, lead: &Vec<char>, body: &Option<Vec<char>>, close: &Vec<char>)
    ensures
        final(line)@ == old(line)@ + tag_part(lead@, body.deep_view(), close@),
{
    match body {
        Some(b) => {
            line.push(' ');
            append_chars(line, lead);
            append_chars(line, b);
            append_chars(line, close);
            assert(line@ =~= old(line)@ + tag_part(lead@, body.deep_view(), close@));
        },
        None => {
            assert(line@ =~= old(line)@ + tag_part(lead@, body.deep_view(), close@));
        },
    }
}

/// The one character `c`.
pub fn single(c: char) -> (r: Vec<char>)
    ensures
        r@ == seq![c],
{
    let mut r: Vec<char> = Vec::new();
    r.push(c);
    assert(r@ =~= seq![c]);
    r
}

/// Computes `head_part`.
pub fn head_chars(item: &TodoItem, title: &Vec<char>) -> (r: Vec<char>)
    requires
        title@ == trim(item@.title),
    ensures
        r@ == head_part(item@),
{
    let mut line = if item.done {
        checked_box_chars()
    } else {
        unchecked_box_chars()
    };
    line.push(' ');
    append_chars(&mut line, title);
    assert(line@ =~= head_part(item@));
    line
}

/// Appends `project_part`.
pub fn push_project(line: &mut Vec<char>, item: &TodoItem)
    ensures
        final(line)@ == old(line)@ + project_part(item@),
{
    let project = match &item.project {
        Some(p) => token_chars(&chars_of(p.as_str())),
        None => None,
    };
    push_tag(line, &single('+'), &project, &Vec::new());
}

/// Appends `context_part`.
pub fn push_context(line: &mut Vec<char>, item: &TodoItem)
    ensures
        final(line)@ == old(line)@ + context_part(item@),
{
    let context = match &item.context {
        Some(c) => token_chars(&chars_of(c.as_str())),
        None => None,
    };
    push_tag(line, &single('@'), &context, &Vec::new());
}

/// Appends `due_part`.
pub fn push_due(line: &mut Vec<char>, item: &TodoItem)
    requires
        item.well_formed(),
    ensures
        final(line)@ == old(line)@ + due_part(item@),
{
    let due = match &item.due {
        Some(d) => Some(chars_of(d.to_text().as_str())),
        None => None,
    };
    push_tag(line, &due_prefix_chars(), &due, &Vec::new());
}

/// Appends `reference_part`.
pub fn push_reference(line: &mut Vec<char>, item: &TodoItem)
    ensures
        final(line)@ == old(line)@ + reference_part(item@),
{
    let reference = match &item.reference {
        Some(r) => reference_chars(&chars_of(r.as_str())),
        None => None,
    };
    let mut open = single('[');
    open.push('[');
    assert(open@ =~= reference_open());
    let mut close = single(']');
    close.push(']');
    assert(close@ =~= seq![']', ']']);
    push_tag(line, &open, &reference, &close);
}

/// Appends `marker_part`.
pub fn push_marker(line: &mut Vec<char>, item: &TodoItem)
    ensures
        final(line)@ == old(line)@ + marker_part(item@),
{
    let marker = match &item.key.marker {
        Some(m) => {
            let chars = chars_of(m.as_str());
            if chars.len() == 0 {
                None
            } else {
                Some(chars)
            }
        },
        None => None,
    };
    push_tag(line, &single('^'), &marker, &Vec::new());
}

/// Computes `plain_line`.
pub fn plain_line_chars(item: &TodoItem, title: &Vec<char>) -> (r: Vec<char>)
    requires
        item.well_formed(),
        title@ == trim(item@.title),
    ensures
        r@ == plain_line(item@),
{
    let mut line = head_chars(item, title);
    push_project(&mut line, item);
    push_context(&mut line, item);
    push_due(&mut line, item);
    push_reference(&mut line, item);
    push_marker(&mut line, item);
    line
}

/// Writes `item` out as a line: checkbox, title, then `+project`,
/// `@context`, `due:`, `[[reference]]` and `^marker`, each where present,
/// and the completion marker as `apply_completion_marker` sets it for the
/// item's state. Fails where the title is empty but for white space.
pub fn render_line(item: &TodoItem, today: &Date) -> (r: Result<String, LineError>)
    requires
        item.well_formed(),
        item.done ==> today.well_formed(),
    ensures
        match rendered(item@, *today) {
            Some(t) => r matches Ok(w) && w@ == t,
            None => r == Err::<String, LineError>(LineError::EmptyTitle),
        },
{
    let title = trim_chars(&chars_of(item.title.as_str()));
    if title.len() == 0 {
        return Err(LineError::EmptyTitle);
    }
    let line = plain_line_chars(item, &title);
    let done = apply_completion_chars(&line, item.done, today);
    Ok(string_of(&done))
}

/// Computes `task_state` for a line without leading white space.
pub fn read_task_state(t: &Vec<char>) -> (r: Option<bool>)
    ensures
        r == task_state(t@),
{
    let mut checked = checked_box_chars();
    checked.push(' ');
    assert(checked@ =~= checked_box() + seq![' ']);
    let mut upper = checked_upper_box_chars();
    upper.push(' ');
    assert(upper@ =~= checked_upper_box() + seq![' ']);
    let mut unchecked = unchecked_box_chars();
    unchecked.push(' ');
    assert(unchecked@ =~= unchecked_box() + seq![' ']);
    if matches_at(t, 0, &checked) || matches_at(t, 0, &upper) {
        Some(true)
    } else if matches_at(t, 0, &unchecked) {
        Some(false)
    } else {
        None
    }
}

/// Computes `parsed` from the characters of a line.
pub fn parse_chars(v: &Vec<char>, line_index: usize, section: &str) -> (r: Option<TodoItem>)
    ensures
        r.is_some() == parsed(v@, line_index, section@).is_some(),
        r matches Some(item) ==> item@ == parsed(v@, line_index, section@)->0
            && item.well_formed(),
{
    let t = trim_start_chars(v);
    let done = match read_task_state(&t) {
        Some(done) => done,
        None => {
            return None;
        },
    };
    let rest = trim_chars(&slice_of(&t, 6, t.len()));
    if rest.len() == 0 {
        return None;
    }
    Some(
        TodoItem {
            key: TodoKey { line_index, marker: optional_string(find_marker(&rest)) },
            title: string_of(&title_chars(&rest)),
            section: section.to_owned(),
            project: optional_string(find_sigil_token(&rest, '+')),
            context: optional_string(find_sigil_token(&rest, '@')),
            due: find_due_date(&rest),
            reference: optional_string(find_reference(&rest)),
            done,
        },
    )
}

/// Reads `line` as a task, where it is one: leading white space, a
/// checkbox and a space, and then the title and tags. `line_index` and
/// `section` are taken into the record as they are.
pub fn parse_line(line: &str, line_index: usize, section: &str) -> (r: Option<TodoItem>)
    ensures
        r.is_some() == parsed(line@, line_index, section@).is_some(),
        r matches Some(item) ==> item@ == parsed(line@, line_index, section@)->0
            && item.well_formed(),
{
    let v = chars_of(line);
    parse_chars(&v, line_index, section)
}

/// Puts `date` into `line` as its due date: rewrites the first due tag in
/// place, or puts in a new one where the line has none.
pub fn rewrite_due(line: &str, new_due: &Date) -> (r: String)
    requires
        new_due.well_formed(),
    ensures
        r@ == rescheduled(line@, *new_due),
{
    let v = chars_of(line);
    let w = reschedule_chars(&v, new_due);
    string_of(&w)
}

/// Puts `segment` into `line` before the first tag that a space introduces,
/// or at the end where there is none, with a space before it where the text
/// in front does not end in one.
pub fn insert_due_segment(line: &str, segment: &str) -> (r: String)
    ensures
        r@ == with_segment(line@, segment@),
{
    let v = chars_of(line);
    let seg = chars_of(segment);
    let w = insert_segment_chars(&v, &seg);
    string_of(&w)
}

/// A project or context as it is written out: without white space; absent
/// where there was none or nothing is left.
pub fn normalize_token(value: Option<&str>) -> (r: Option<String>)
    ensures
        r.deep_view() == normalized_token(value.deep_view()),
{
    match value {
        Some(s) => optional_string(token_chars(&chars_of(s))),
        None => None,
    }
}

/// A reference as it is written out: without white space around it; absent
/// where there was none or nothing is left.
pub fn normalize_reference(value: Option<&str>) -> (r: Option<String>)
    ensures
        r.deep_view() == normalized_reference(value.deep_view()),
{
    match value {
        Some(s) => optional_string(reference_chars(&chars_of(s))),
        None => None,
    }
}

} // verus!
