//! The inline tags of a task: `+project`, `@context`, `due:YYYY-MM-DD`,
//! `[[reference]]` and `^marker`, each found on its own, first occurrence
//! only, and the title that stands before them.

use crate::chars::{
    chars_of, copy_of, first_where, has_at, is_space, is_space_char, lemma_first_where_is, matches_at,
    slice_of, string_of, trim, trim_chars,
};
use crate::date::{date_at, date_shape_at, has_date_shape, read_date, Date};
use vstd::prelude::*;

verus! {

/// The glyph that introduces the date on which a task was completed.
pub const CHECK_MARK: char = '\u{2705}';

/// The text `due:`.
pub open spec fn due_prefix() -> Seq<char> {
    seq!['d', 'u', 'e', ':']
}

/// The text `[[`.
pub open spec fn reference_open() -> Seq<char> {
    seq!['[', '[']
}

/// Whether `c` is an ASCII letter or digit.
pub open spec fn is_alnum(c: char) -> bool {
    ('0' <= c <= '9') || ('a' <= c <= 'z') || ('A' <= c <= 'Z')
}

/// Whether `sigil` stands in `s` at `i` with a character after it that is no
/// white space.
pub open spec fn sigil_at(s: Seq<char>, sigil: char, i: int) -> bool {
    0 <= i && i + 1 < s.len() && s[i] == sigil && !is_space(s[i + 1])
}

/// The index of the first `sigil` of `s` that starts a token, or the length
/// of `s`.
pub open spec fn first_sigil(s: Seq<char>, sigil: char) -> int {
    first_where(|i: int| sigil_at(s, sigil, i), 0, s.len() as int)
}

/// The index of the first white space of `s` at or after `from`, or the
/// length of `s`.
pub open spec fn token_end(s: Seq<char>, from: int) -> int {
    first_where(|i: int| is_space(s[i]), from, s.len() as int)
}

/// The token behind the first `sigil` of `s` that has one: all characters up
/// to the next white space.
pub open spec fn sigil_token(s: Seq<char>, sigil: char) -> Option<Seq<char>> {
    let i = first_sigil(s, sigil);
    if i < s.len() {
        Some(s.subrange(i + 1, token_end(s, i + 1)))
    } else {
        None
    }
}

/// The project of a task: the token behind its first `+`.
pub open spec fn project_of(s: Seq<char>) -> Option<Seq<char>> {
    sigil_token(s, '+')
}

/// The context of a task: the token behind its first `@`.
pub open spec fn context_of(s: Seq<char>) -> Option<Seq<char>> {
    sigil_token(s, '@')
}

/// Whether `^` stands in `s` at `i` with a letter or digit after it.
pub open spec fn marker_at(s: Seq<char>, i: int) -> bool {
    0 <= i && i + 1 < s.len() && s[i] == '^' && is_alnum(s[i + 1])
}

/// The index of the first marker tag of `s`, or the length of `s`.
pub open spec fn first_marker(s: Seq<char>) -> int {
    first_where(|i: int| marker_at(s, i), 0, s.len() as int)
}

/// The index of the first character of `s` at or after `from` that is no
/// letter or digit, or the length of `s`.
pub open spec fn alnum_end(s: Seq<char>, from: int) -> int {
    first_where(|i: int| !is_alnum(s[i]), from, s.len() as int)
}

/// The marker of a task: the letters and digits behind its first `^` that
/// has any.
pub open spec fn marker_of(s: Seq<char>) -> Option<Seq<char>> {
    let i = first_marker(s);
    if i < s.len() {
        Some(s.subrange(i + 1, alnum_end(s, i + 1)))
    } else {
        None
    }
}

/// Whether `due:` stands in `s` at `i` with ten characters in the shape of a
/// date after it.
pub open spec fn due_at(s: Seq<char>, i: int) -> bool {
    has_at(s, due_prefix(), i) && date_shape_at(s, i + 4)
}

/// The index of the first due tag of `s`, or the length of `s`.
pub open spec fn first_due(s: Seq<char>) -> int {
    first_where(|i: int| due_at(s, i), 0, s.len() as int)
}

/// The due date of a task: the date of its first due tag, if the calendar
/// has that day.
pub open spec fn due_of(s: Seq<char>) -> Option<Date> {
    let i = first_due(s);
    if i < s.len() {
        date_at(s, i + 4)
    } else {
        None
    }
}

/// The index of the first `]` of `s` at or after `from`, or the length of `s`.
pub open spec fn bracket_end(s: Seq<char>, from: int) -> int {
    first_where(|i: int| s[i] == ']', from, s.len() as int)
}

/// Whether a reference tag starts in `s` at `i`: `[[`, then at least one
/// character other than `]`, then `]]`.
pub open spec fn reference_at(s: Seq<char>, i: int) -> bool {
    &&& has_at(s, reference_open(), i)
    &&& i + 2 < bracket_end(s, i + 2)
    &&& bracket_end(s, i + 2) + 1 < s.len()
    &&& s[bracket_end(s, i + 2) + 1] == ']'
}

/// The index of the first reference tag of `s`, or the length of `s`.
pub open spec fn first_reference(s: Seq<char>) -> int {
    first_where(|i: int| reference_at(s, i), 0, s.len() as int)
}

/// The reference of a task: the text between the brackets of its first
/// reference tag, without white space around it.
pub open spec fn reference_of(s: Seq<char>) -> Option<Seq<char>> {
    let i = first_reference(s);
    if i < s.len() {
        Some(trim(s.subrange(i + 2, bracket_end(s, i + 2))))
    } else {
        None
    }
}

/// Whether one of the six texts that introduce a tag stands in `s` at `i`:
/// `+`, `@`, `due:`, `[[`, the check mark or `^`.
pub open spec fn bare_intro_at(s: Seq<char>, i: int) -> bool {
    &&& 0 <= i < s.len()
    &&& (s[i] == '+' || s[i] == '@' || s[i] == CHECK_MARK || s[i] == '^' || has_at(
        s,
        due_prefix(),
        i,
    ) || has_at(s, reference_open(), i))
}

/// Whether a tag is introduced in `s` at `i`, by one of the six texts or by
/// a space and one of them.
pub open spec fn intro_at(s: Seq<char>, i: int) -> bool {
    bare_intro_at(s, i) || (0 <= i < s.len() && s[i] == ' ' && bare_intro_at(s, i + 1))
}

/// The index at which the first tag of `s` is introduced, or the length of
/// `s`.
pub open spec fn first_intro(s: Seq<char>) -> int {
    first_where(|i: int| intro_at(s, i), 0, s.len() as int)
}

/// The title of a task: the text before its first tag, without white space
/// around it; where nothing is left of that, the whole of `s` as it stands.
pub open spec fn title_of(s: Seq<char>) -> Seq<char> {
    let cleaned = trim(s.subrange(0, first_intro(s)));
    if cleaned.len() == 0 {
        s
    } else {
        cleaned
    }
}

/// The tags of one task.
pub struct Tags {
    pub project: Option<String>,
    pub context: Option<String>,
    pub due: Option<Date>,
    pub reference: Option<String>,
    pub marker: Option<String>,
}

/// The tags of one task as texts.
pub ghost struct TagsView {
    pub project: Option<Seq<char>>,
    pub context: Option<Seq<char>>,
    pub due: Option<Date>,
    pub reference: Option<Seq<char>>,
    pub marker: Option<Seq<char>>,
}

impl View for Tags {
    type V = TagsView;

    open spec fn view(&self) -> TagsView {
        TagsView {
            project: self.project.deep_view(),
            context: self.context.deep_view(),
            due: self.due,
            reference: self.reference.deep_view(),
            marker: self.marker.deep_view(),
        }
    }
}

/// The tags that `s` holds.
pub open spec fn tags_of(s: Seq<char>) -> TagsView {
    TagsView {
        project: project_of(s),
        context: context_of(s),
        due: due_of(s),
        reference: reference_of(s),
        marker: marker_of(s),
    }
}

/// Decides `is_alnum`.
pub fn is_alnum_char(c: char) -> (r: bool)
    ensures
        r == is_alnum(c),
{
    ('0' <= c && c <= '9') || ('a' <= c && c <= 'z') || ('A' <= c && c <= 'Z')
}

/// Computes `token_end`.
pub fn find_token_end(v: &Vec<char>, from: usize) -> (r: usize)
    requires
        from <= v.len(),
    ensures
        r == token_end(v@, from as int),
        from <= r <= v.len(),
{
    let mut i: usize = from;
    while i < v.len() && !is_space_char(v[i])
        invariant
            from <= i <= v.len(),
            forall|j: int| from <= j < i ==> !is_space(v@[j]),
        decreases v.len() - i,
    {
        i += 1;
    }
    proof {
        lemma_first_where_is(|j: int| is_space(v@[j]), from as int, v.len() as int, i as int);
    }
    i
}

/// Computes `sigil_token`.
pub fn find_sigil_token(v: &Vec<char>, sigil: char) -> (r: Option<Vec<char>>)
    ensures
        r.deep_view() == sigil_token(v@, sigil),
{
    let mut i: usize = 0;
    while i < v.len() && !(v[i] == sigil && i + 1 < v.len() && !is_space_char(v[i + 1]))
        invariant
            i <= v.len(),
            forall|j: int| 0 <= j < i ==> !sigil_at(v@, sigil, j),
        decreases v.len() - i,
    {
        i += 1;
    }
    proof {
        lemma_first_where_is(|j: int| sigil_at(v@, sigil, j), 0, v.len() as int, i as int);
    }
    if i < v.len() {
        let end = find_token_end(v, i + 1);
        Some(slice_of(v, i + 1, end))
    } else {
        None
    }
}

/// Computes `marker_of`.
pub fn find_marker(v: &Vec<char>) -> (r: Option<Vec<char>>)
    ensures
        r.deep_view() == marker_of(v@),
{
    let mut i: usize = 0;
    while i < v.len() && !(v[i] == '^' && i + 1 < v.len() && is_alnum_char(v[i + 1]))
        invariant
            i <= v.len(),
            forall|j: int| 0 <= j < i ==> !marker_at(v@, j),
        decreases v.len() - i,
    {
        i += 1;
    }
    proof {
        lemma_first_where_is(|j: int| marker_at(v@, j), 0, v.len() as int, i as int);
    }
    if i < v.len() {
        let mut end: usize = i + 1;
        while end < v.len() && is_alnum_char(v[end])
            invariant
                i + 1 <= end <= v.len(),
                forall|j: int| i + 1 <= j < end ==> is_alnum(v@[j]),
            decreases v.len() - end,
        {
            end += 1;
        }
        proof {
            lemma_first_where_is(|j: int| !is_alnum(v@[j]), i + 1, v.len() as int, end as int);
        }
        Some(slice_of(v, i + 1, end))
    } else {
        None
    }
}

/// The characters of `due:`.
pub fn due_prefix_chars() -> (r: Vec<char>)
    ensures
        r@ == due_prefix(),
{
    let r = vec!['d', 'u', 'e', ':'];
    assert(r@ =~= due_prefix());
    r
}

/// Decides `due_at`.
pub fn is_due_at(v: &Vec<char>, i: usize) -> (r: bool)
    requires
        i <= v.len(),
    ensures
        r == due_at(v@, i as int),
{
    let prefix = due_prefix_chars();
    matches_at(v, i, &prefix) && has_date_shape(v, i + 4)
}

/// Computes `first_due`.
pub fn find_due(v: &Vec<char>) -> (r: usize)
    ensures
        r == first_due(v@),
        r <= v.len(),
        r < v.len() ==> due_at(v@, r as int),
{
    let mut i: usize = 0;
    while i < v.len() && !is_due_at(v, i)
        invariant
            i <= v.len(),
            forall|j: int| 0 <= j < i ==> !due_at(v@, j),
        decreases v.len() - i,
    {
        i += 1;
    }
    proof {
        lemma_first_where_is(|j: int| due_at(v@, j), 0, v.len() as int, i as int);
    }
    i
}

/// Computes `due_of`.
pub fn find_due_date(v: &Vec<char>) -> (r: Option<Date>)
    ensures
        r == due_of(v@),
        r matches Some(d) ==> d.well_formed(),
{
    let i = find_due(v);
    if i < v.len() {
        read_date(v, i + 4)
    } else {
        None
    }
}

/// Computes `bracket_end`.
pub fn find_bracket_end(v: &Vec<char>, from: usize) -> (r: usize)
    requires
        from <= v.len(),
    ensures
        r == bracket_end(v@, from as int),
        from <= r <= v.len(),
{
    let mut i: usize = from;
    while i < v.len() && v[i] != ']'
        invariant
            from <= i <= v.len(),
            forall|j: int| from <= j < i ==> v@[j] != ']',
        decreases v.len() - i,
    {
        i += 1;
    }
    proof {
        lemma_first_where_is(|j: int| v@[j] == ']', from as int, v.len() as int, i as int);
    }
    i
}

/// Decides `reference_at`.
pub fn is_reference_at(v: &Vec<char>, i: usize) -> (r: bool)
    requires
        i <= v.len(),
    ensures
        r == reference_at(v@, i as int),
{
    let open = vec!['[', '['];
    assert(open@ =~= reference_open());
    if !matches_at(v, i, &open) {
        return false;
    }
    let end = find_bracket_end(v, i + 2);
    i + 2 < end && end < v.len() && v.len() - end > 1 && v[end + 1] == ']'
}

/// Computes `reference_of`.
pub fn find_reference(v: &Vec<char>) -> (r: Option<Vec<char>>)
    ensures
        r.deep_view() == reference_of(v@),
{
    let mut i: usize = 0;
    while i < v.len() && !is_reference_at(v, i)
        invariant
            i <= v.len(),
            forall|j: int| 0 <= j < i ==> !reference_at(v@, j),
        decreases v.len() - i,
    {
        i += 1;
    }
    proof {
        lemma_first_where_is(|j: int| reference_at(v@, j), 0, v.len() as int, i as int);
    }
    if i < v.len() {
        let end = find_bracket_end(v, i + 2);
        let inner = slice_of(v, i + 2, end);
        Some(trim_chars(&inner))
    } else {
        None
    }
}

/// Decides `bare_intro_at`.
pub fn is_bare_intro_at(v: &Vec<char>, i: usize) -> (r: bool)
    requires
        i <= v.len(),
    ensures
        r == bare_intro_at(v@, i as int),
{
    if i >= v.len() {
        return false;
    }
    let c = v[i];
    if c == '+' || c == '@' || c == CHECK_MARK || c == '^' {
        return true;
    }
    let due = due_prefix_chars();
    let open = vec!['[', '['];
    assert(open@ =~= reference_open());
    matches_at(v, i, &due) || matches_at(v, i, &open)
}

/// Computes `first_intro`.
pub fn find_intro(v: &Vec<char>) -> (r: usize)
    ensures
        r == first_intro(v@),
        r <= v.len(),
{
    let mut i: usize = 0;
    while i < v.len() && !(is_bare_intro_at(v, i) || (v[i] == ' ' && is_bare_intro_at(v, i + 1)))
        invariant
            i <= v.len(),
            forall|j: int| 0 <= j < i ==> !intro_at(v@, j),
        decreases v.len() - i,
    {
        i += 1;
    }
    proof {
        lemma_first_where_is(|j: int| intro_at(v@, j), 0, v.len() as int, i as int);
    }
    i
}

/// Computes `title_of`.
pub fn title_chars(v: &Vec<char>) -> (r: Vec<char>)
    ensures
        r@ == title_of(v@),
{
    let cut = find_intro(v);
    let raw = slice_of(v, 0, cut);
    let cleaned = trim_chars(&raw);
    if cleaned.len() == 0 {
        copy_of(v)
    } else {
        cleaned
    }
}

/// A string of the characters of `v`, where there are any.
pub fn optional_string(v: Option<Vec<char>>) -> (r: Option<String>)
    ensures
        r.deep_view() == v.deep_view(),
{
    match v {
        Some(chars) => Some(string_of(&chars)),
        None => None,
    }
}

/// The title of the task whose text after the checkbox is `rest`: what
/// stands before the first tag, without white space around it, or all of
/// `rest` where that is empty.
pub fn extract_title(rest: &str) -> (title: String)
    ensures
        title@ == title_of(rest@),
{
    let v = chars_of(rest);
    let t = title_chars(&v);
    string_of(&t)
}

/// The tags of the task whose text after the checkbox is `rest`.
pub fn extract_tags(rest: &str) -> (tags: Tags)
    ensures
        tags@ == tags_of(rest@),
        tags.due matches Some(d) ==> d.well_formed(),
{
    let v = chars_of(rest);
    Tags {
        project: optional_string(find_sigil_token(&v, '+')),
        context: optional_string(find_sigil_token(&v, '@')),
        due: find_due_date(&v),
        reference: optional_string(find_reference(&v)),
        marker: optional_string(find_marker(&v)),
    }
}

} // verus!
