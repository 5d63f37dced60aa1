//! The records that a task file is read into, the key by which a task is
//! found again, and the ways in which an edit can fail.

use crate::date::Date;
use vstd::prelude::*;

verus! {

/// Where a task stood when the file was last read, and its marker if it has
/// one. The marker outlives edits that move lines; the index does not.
#[derive(Clone, Debug, PartialEq, Eq)]
pub struct TodoKey {
    pub line_index: usize,
    pub marker: Option<String>,
}

/// A `TodoKey` with its marker as text.
pub ghost struct KeyView {
    pub line_index: usize,
    pub marker: Option<Seq<char>>,
}

impl View for TodoKey {
    type V = KeyView;

    open spec fn view(&self) -> KeyView {
        KeyView { line_index: self.line_index, marker: self.marker.deep_view() }
    }
}

/// One task as read from its line.
#[derive(Clone, Debug, PartialEq, Eq)]
pub struct TodoItem {
    pub key: TodoKey,
    pub title: String,
    pub section: String,
    pub project: Option<String>,
    pub context: Option<String>,
    pub due: Option<Date>,
    pub reference: Option<String>,
    pub done: bool,
}

/// A `TodoItem` with its fields as texts.
pub ghost struct ItemView {
    pub key: KeyView,
    pub title: Seq<char>,
    pub section: Seq<char>,
    pub project: Option<Seq<char>>,
    pub context: Option<Seq<char>>,
    pub due: Option<Date>,
    pub reference: Option<Seq<char>>,
    pub done: bool,
}

impl View for TodoItem {
    type V = ItemView;

    open spec fn view(&self) -> ItemView {
        ItemView {
            key: self.key@,
            title: self.title@,
            section: self.section@,
            project: self.project.deep_view(),
            context: self.context.deep_view(),
            due: self.due,
            reference: self.reference.deep_view(),
            done: self.done,
        }
    }
}

impl TodoItem {
    /// A due date, where there is one, is a date of the calendar.
    pub open spec fn well_formed(&self) -> bool {
        self@.well_formed()
    }
}

impl ItemView {
    /// A due date, where there is one, is a date of the calendar.
    pub open spec fn well_formed(&self) -> bool {
        self.due matches Some(d) ==> d.well_formed()
    }
}

/// The views of `items`.
pub open spec fn item_views(items: Seq<TodoItem>) -> Seq<ItemView> {
    items.map_values(|item: TodoItem| item@)
}

/// Why a single line could not be rewritten.
#[derive(Clone, Copy, Debug, PartialEq, Eq, Structural)]
pub enum LineError {
    /// The line holds none of the three checkbox forms.
    MissingCheckbox,
    /// The title is empty once white space around it is removed.
    EmptyTitle,
}

/// Why an edit of the file's text could not be made.
#[derive(Clone, Copy, Debug, PartialEq, Eq, Structural)]
pub enum TodoError {
    /// Neither the marker nor the line index of the key leads to a line.
    NotFound,
    /// The title is empty once white space around it is removed.
    EmptyTitle,
    /// The line that the key leads to holds no checkbox; `line_number`
    /// counts from 1.
    MissingCheckbox { line_number: usize },
    /// The day asked for lies behind the last day of the year 9999.
    DateOutOfRange,
}

} // verus!
