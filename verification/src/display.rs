//! What the list of tasks shows: the open tasks in their order, a heading
//! wherever the group changes, and one line of details for each task.

use crate::date::date_text;
use crate::record::{ItemView, TodoItem};
use crate::sorting::SortMode;
use vstd::prelude::*;
use vstd::string::StringExecFns;

verus! {

/// One row of the list.
#[derive(Clone, Debug, PartialEq, Eq)]
pub enum ListEntry {
    /// The heading of a group.
    Header(String),
    /// A task.
    Item(TodoItem),
}

/// A `ListEntry` with its texts.
pub ghost enum EntryView {
    Header(Seq<char>),
    Item(ItemView),
}

impl View for ListEntry {
    type V = EntryView;

    open spec fn view(&self) -> EntryView {
        match self {
            ListEntry::Header(label) => EntryView::Header(label@),
            ListEntry::Item(item) => EntryView::Item(item@),
        }
    }
}

/// The views of `entries`.
pub open spec fn entry_views(entries: Seq<ListEntry>) -> Seq<EntryView> {
    entries.map_values(|entry: ListEntry| entry@)
}

/// `value` where it is there and not empty, else `fallback`.
pub open spec fn named(value: Option<Seq<char>>, fallback: Seq<char>) -> Seq<char> {
    match value {
        Some(s) => if s.len() > 0 {
            s
        } else {
            fallback
        },
        None => fallback,
    }
}

/// The heading of the group of `item`: its project by topic, its context by
/// location, none by date.
pub open spec fn label_of(mode: SortMode, item: ItemView) -> Option<Seq<char>> {
    match mode {
        SortMode::Topic => Some("Thema: "@ + named(item.project, "Ohne Projekt"@)),
        SortMode::Location => Some("Ort: "@ + named(item.context, "Ohne Ort"@)),
        SortMode::Date => None,
    }
}

/// The heading under which the last open task among the first `n` of
/// `items` stands.
pub open spec fn last_label(mode: SortMode, items: Seq<ItemView>, n: int) -> Option<Seq<char>>
    decreases n,
{
    if n <= 0 {
        None
    } else if !items[n - 1].done && label_of(mode, items[n - 1]) is Some {
        label_of(mode, items[n - 1])
    } else {
        last_label(mode, items, n - 1)
    }
}

/// The rows for the first `n` of `items`: each open task in its place, with
/// the heading of its group before it where that differs from the heading
/// before.
pub open spec fn entries_upto(mode: SortMode, items: Seq<ItemView>, n: int) -> Seq<EntryView>
    decreases n,
{
    if n <= 0 {
        Seq::<EntryView>::empty()
    } else {
        let before = entries_upto(mode, items, n - 1);
        let item = items[n - 1];
        if item.done {
            before
        } else if label_of(mode, item) is Some && label_of(mode, item) != last_label(
            mode,
            items,
            n - 1,
        ) {
            before.push(EntryView::Header(label_of(mode, item)->0)).push(EntryView::Item(item))
        } else {
            before.push(EntryView::Item(item))
        }
    }
}

/// The text of `value` where it is there and not empty, else `fallback`.
fn name_or<'a>(value: &'a Option<String>, fallback: &'a str) -> (r: &'a str)
    ensures
        r@ == named(value.deep_view(), fallback@),
{
    match value {
        Some(s) => {
            if s.as_str().unicode_len() > 0 {
                s.as_str()
            } else {
                fallback
            }
        },
        None => fallback,
    }
}

/// The heading of the group that `item` belongs to under `mode`: `Thema: `
/// and its project, or `Ort: ` and its context, with a fixed text where
/// the task has none; no heading where tasks are ordered by date.
pub fn group_label(mode: SortMode, item: &TodoItem) -> (label: Option<String>)
    ensures
        label.deep_view() == label_of(mode, item@),
{
    match mode {
        SortMode::Topic => {
            let mut label = String::from_str("Thema: ");
            label.append(name_or(&item.project, "Ohne Projekt"));
            Some(label)
        },
        SortMode::Location => {
            let mut label = String::from_str("Ort: ");
            label.append(name_or(&item.context, "Ohne Ort"));
            Some(label)
        },
        SortMode::Date => None,
    }
}

/// Whether two headings are the same.
fn same_label(a: &Option<String>, b: &Option<String>) -> (r: bool)
    ensures
        r == (a.deep_view() == b.deep_view()),
{
    match (a, b) {
        (Some(x), Some(y)) => *x == *y,
        (None, None) => true,
        _ => false,
    }
}

/// The rows of the list for `items`, which are taken in the order given:
/// tasks that are done are left out, and a heading stands before each open
/// task whose group differs from that of the open task before it.
pub fn list_entries(items: Vec<TodoItem>, mode: SortMode) -> (entries: Vec<ListEntry>)
    ensures
        entry_views(entries@) == entries_upto(
            mode,
            crate::record::item_views(items@),
            items.len() as int,
        ),
{
    let ghost all = crate::record::item_views(items@);
    let mut rest = items;
    let mut entries: Vec<ListEntry> = Vec::new();
    let mut last_group: Option<String> = None;
    let ghost mut done: int = 0;
    assert(entry_views(entries@) =~= entries_upto(mode, all, 0));
    while rest.len() > 0
        invariant
            0 <= done <= all.len(),
            crate::record::item_views(rest@) == all.subrange(done, all.len() as int),
            entry_views(entries@) == entries_upto(mode, all, done),
            last_group.deep_view() == last_label(mode, all, done),
        decreases rest.len(),
    {
        let ghost before = entry_views(entries@);
        let ghost rest_before = crate::record::item_views(rest@);
        let ghost old_rest = rest@;
        let item = rest.remove(0);
        proof {
            assert(rest_before.len() == all.len() - done);
            assert(item@ == rest_before[0]);
            assert(item@ == all[done]);
            assert forall|i: int| 0 <= i < rest@.len() implies #[trigger] crate::record::item_views(
                rest@,
            )[i] == all[done + 1 + i] by {
                assert(rest@[i] == old_rest[i + 1]);
                assert(rest_before[i + 1] == old_rest[i + 1]@);
            }
            assert(crate::record::item_views(rest@) =~= all.subrange(
                done + 1,
                all.len() as int,
            ));
        }
        if !item.done {
            let label = group_label(mode, &item);
            if label.is_some() && !same_label(&label, &last_group) {
                let ghost text = label.deep_view()->0;
                let heading = match &label {
                    Some(l) => l.clone(),
                    None => String::new(),
                };
                entries.push(ListEntry::Header(heading));
                last_group = label;
                entries.push(ListEntry::Item(item));
                assert(entry_views(entries@) =~= before.push(EntryView::Header(text)).push(
                    EntryView::Item(item@),
                ));
            } else {
                entries.push(ListEntry::Item(item));
                assert(entry_views(entries@) =~= before.push(EntryView::Item(item@)));
            }
        }
        proof {
            done = done + 1;
        }
    }
    entries
}

/// `parts` with `separator` between each two.
pub open spec fn joined(parts: Seq<Seq<char>>, separator: Seq<char>) -> Seq<char>
    decreases parts.len(),
{
    if parts.len() == 0 {
        Seq::<char>::empty()
    } else if parts.len() == 1 {
        parts[0]
    } else {
        joined(parts.drop_last(), separator) + separator + parts.last()
    }
}

/// `parts` with `lead` and `value` as one more part, where `value` is
/// there.
pub open spec fn with_part(parts: Seq<Seq<char>>, lead: Seq<char>, value: Option<Seq<char>>) -> Seq<
    Seq<char>,
> {
    match value {
        Some(v) => parts.push(lead + v),
        None => parts,
    }
}

/// The section of `item` as the first of its details, unless it is empty.
pub open spec fn section_part(item: ItemView) -> Seq<Seq<char>> {
    if item.section.len() > 0 {
        seq![item.section]
    } else {
        Seq::<Seq<char>>::empty()
    }
}

/// The text of the due date of `item`, where it has one.
pub open spec fn due_text_of(item: ItemView) -> Option<Seq<char>> {
    match item.due {
        Some(d) => Some(date_text(d)),
        None => None,
    }
}

/// The details of `item`: its section, project, context, due date and
/// reference, each where present.
pub open spec fn metadata_parts(item: ItemView) -> Seq<Seq<char>> {
    with_part(
        with_part(
            with_part(with_part(section_part(item), "+"@, item.project), "@"@, item.context),
            "Fällig: "@,
            due_text_of(item),
        ),
        "↗ "@,
        item.reference,
    )
}

/// The texts of `parts`.
pub open spec fn part_texts(parts: Seq<String>) -> Seq<Seq<char>> {
    parts.map_values(|p: String| p@)
}

/// Adds `lead` and `value` to `parts` as one more part, where `value` is
/// there.
fn push_part(parts: &mut Vec<String>, lead: &str, value: Option<&str>)
    ensures
        part_texts(final(parts)@) == with_part(part_texts(old(parts)@), lead@, value.deep_view()),
{
    match value {
        Some(v) => {
            let mut part = String::from_str(lead);
            part.append(v);
            parts.push(part);
            assert(part_texts(parts@) =~= part_texts(old(parts)@).push(lead@ + v@));
        },
        None => {},
    }
}

/// The text of `value`, where it is there.
fn text_of(value: &Option<String>) -> (r: Option<&str>)
    ensures
        r.deep_view() == value.deep_view(),
{
    match value {
        Some(s) => Some(s.as_str()),
        None => None,
    }
}

/// The details of `item` on one line: its section, `+project`, `@context`,
/// `Fällig: ` and the due date, `↗ ` and the reference, each where present,
/// with ` • ` between them.
pub fn format_metadata(item: &TodoItem) -> (line: String)
    requires
        item.well_formed(),
    ensures
        line@ == joined(metadata_parts(item@), " • "@),
{
    let mut parts: Vec<String> = Vec::new();
    if item.section.as_str().unicode_len() > 0 {
        parts.push(item.section.clone());
    }
    assert(part_texts(parts@) =~= section_part(item@));
    push_part(&mut parts, "+", text_of(&item.project));
    push_part(&mut parts, "@", text_of(&item.context));
    let due = match &item.due {
        Some(d) => Some(d.to_text()),
        None => None,
    };
    push_part(&mut parts, "Fällig: ", text_of(&due));
    push_part(&mut parts, "↗ ", text_of(&item.reference));
    let mut line = String::new();
    let mut i: usize = 0;
    assert(part_texts(parts@).take(0) =~= Seq::<Seq<char>>::empty());
    while i < parts.len()
        invariant
            i <= parts.len(),
            line@ == joined(part_texts(parts@).take(i as int), " • "@),
        decreases parts.len() - i,
    {
        proof {
            let next = part_texts(parts@).take(i + 1);
            assert(next.drop_last() =~= part_texts(parts@).take(i as int));
            assert(next.last() == parts@[i as int]@);
        }
        if i > 0 {
            line.append(" • ");
        }
        line.append(parts[i].as_str());
        proof {
            let next = part_texts(parts@).take(i + 1);
            assert(line@ =~= joined(next, " • "@));
        }
        i += 1;
    }
    assert(part_texts(parts@).take(parts.len() as int) =~= part_texts(parts@));
    line
}

} // verus!
