//! Reading the text of a task file into records, each with the section that
//! the nearest heading above it names.

use crate::chars::{
    chars_of, first_where, has_at, lemma_first_where_is, matches_at, slice_of, string_of, trim,
    trim_chars,
};
use crate::document::{lines_from, lines_of, split_chars, texts};
use crate::line::{parse_chars, parsed};
use crate::record::{item_views, ItemView, TodoItem};
use vstd::prelude::*;
use vstd::string::StringExecFns;

verus! {

/// The section of tasks that stand under no heading.
pub open spec fn default_section() -> Seq<char> {
    "Ohne Abschnitt"@
}

/// The text that opens a heading: `###`.
pub open spec fn heading_mark() -> Seq<char> {
    seq!['#', '#', '#']
}

/// Whether `line` is a heading: it starts with `###` once white space
/// around it is removed.
pub open spec fn is_heading(line: Seq<char>) -> bool {
    has_at(trim(line), heading_mark(), 0)
}

/// `s` without the `#` characters that it starts with.
pub open spec fn without_hashes(s: Seq<char>) -> Seq<char> {
    s.subrange(first_where(|i: int| s[i] != '#', 0, s.len() as int), s.len() as int)
}

/// The section that the heading `line` names: what stands behind its `#`
/// characters, without white space around it.
pub open spec fn heading_text(line: Seq<char>) -> Seq<char> {
    trim(without_hashes(trim(line)))
}

/// The section that is open before line `i` of `lines`: the text of the
/// nearest heading above that line, or the default where there is none.
pub open spec fn section_before(lines: Seq<Seq<char>>, i: int) -> Seq<char>
    decreases i,
{
    if i <= 0 {
        default_section()
    } else if is_heading(lines[i - 1]) {
        heading_text(lines[i - 1])
    } else {
        section_before(lines, i - 1)
    }
}

/// The records of the first `n` of `lines`, in the order of the lines: one
/// for each task line that is no heading, with its index and its section.
pub open spec fn items_upto(lines: Seq<Seq<char>>, n: int) -> Seq<ItemView>
    decreases n,
{
    if n <= 0 {
        Seq::<ItemView>::empty()
    } else {
        let before = items_upto(lines, n - 1);
        if is_heading(lines[n - 1]) {
            before
        } else {
            match parsed(lines[n - 1], (n - 1) as usize, section_before(lines, n - 1)) {
                Some(item) => before.push(item),
                None => before,
            }
        }
    }
}

/// The records of the tasks in `text`.
pub open spec fn loaded(text: Seq<char>) -> Seq<ItemView> {
    items_upto(lines_of(text), lines_of(text).len() as int)
}

/// Reads the heading on `line`, where it is one, and returns its text.
pub fn read_heading(line: &Vec<char>) -> (r: Option<String>)
    ensures
        r.is_some() == is_heading(line@),
        r matches Some(s) ==> s@ == heading_text(line@),
{
    let t = trim_chars(line);
    let mut mark: Vec<char> = Vec::new();
    mark.push('#');
    mark.push('#');
    mark.push('#');
    assert(mark@ =~= heading_mark());
    if !matches_at(&t, 0, &mark) {
        return None;
    }
    let mut i: usize = 0;
    while i < t.len() && t[i] == '#'
        invariant
            i <= t.len(),
            forall|j: int| 0 <= j < i ==> t@[j] == '#',
        decreases t.len() - i,
    {
        i += 1;
    }
    proof {
        lemma_first_where_is(|j: int| t@[j] != '#', 0, t.len() as int, i as int);
    }
    Some(string_of(&trim_chars(&slice_of(&t, i, t.len()))))
}

/// Reads the tasks of `content`, in the order of their lines. Each record
/// holds the index of its line and the section that the nearest heading
/// above it names; a heading line is no task.
pub fn load_todos(content: &str) -> (items: Vec<TodoItem>)
    ensures
        item_views(items@) == loaded(content@),
        forall|i: int| 0 <= i < items.len() ==> (#[trigger] items@[i]).well_formed(),
{
    let text = chars_of(content);
    let pieces = split_chars(&text);
    let lines = lines_from(&pieces);
    assert(texts(lines@) =~= lines_of(content@));
    let mut items: Vec<TodoItem> = Vec::new();
    let mut section = String::from_str("Ohne Abschnitt");
    let mut i: usize = 0;
    assert(item_views(items@) =~= items_upto(texts(lines@), 0));
    while i < lines.len()
        invariant
            i <= lines.len(),
            section@ == section_before(texts(lines@), i as int),
            item_views(items@) == items_upto(texts(lines@), i as int),
            forall|j: int| 0 <= j < items.len() ==> (#[trigger] items@[j]).well_formed(),
        decreases lines.len() - i,
    {
        let ghost before = item_views(items@);
        assert(texts(lines@)[i as int] == lines@[i as int]@);
        match read_heading(&lines[i]) {
            Some(name) => {
                section = name;
            },
            None => {
                match parse_chars(&lines[i], i, section.as_str()) {
                    Some(item) => {
                        items.push(item);
                        assert(item_views(items@) =~= before.push(item@));
                    },
                    None => {},
                }
            },
        }
        i += 1;
    }
    items
}

/// The records of a text stand in the order of their lines: each bears the
/// index of a line of the text, and a later record that of a later line.
pub proof fn law_records_in_line_order(lines: Seq<Seq<char>>, n: int)
    requires
        0 <= n <= lines.len(),
        lines.len() <= usize::MAX,
    ensures
        forall|k: int|
            0 <= k < items_upto(lines, n).len() ==> (#[trigger] items_upto(
                lines,
                n,
            )[k]).key.line_index < n,
        forall|j: int, k: int|
            0 <= j < k < items_upto(lines, n).len() ==> (#[trigger] items_upto(
                lines,
                n,
            )[j]).key.line_index < (#[trigger] items_upto(lines, n)[k]).key.line_index,
    decreases n,
{
    if n > 0 {
        law_records_in_line_order(lines, n - 1);
        let before = items_upto(lines, n - 1);
        let now = items_upto(lines, n);
        assert forall|k: int| 0 <= k < now.len() implies (#[trigger] now[k]).key.line_index
            < n by {
            if k < before.len() {
                assert(now[k] == before[k]);
            }
        }
        assert forall|j: int, k: int| 0 <= j < k < now.len() implies (#[trigger] now[j]).key.line_index
            < (#[trigger] now[k]).key.line_index by {
            assert(now[j] == before[j]);
            if k < before.len() {
                assert(now[k] == before[k]);
            }
        }
    }
}

} // verus!
