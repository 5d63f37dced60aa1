//! The order in which open tasks are shown, and the headings that group
//! them.

use crate::chars::{chars_of, first_where, lemma_first_where, lemma_first_where_is};
use crate::date::Date;
use crate::record::{item_views, ItemView, TodoItem};
use vstd::prelude::*;
use vstd::string::StringExecFns;

verus! {

/// The field that tasks are ordered and grouped by.
#[derive(Clone, Copy, Debug, PartialEq, Eq, Structural)]
pub enum SortMode {
    /// By project.
    Topic,
    /// By context.
    Location,
    /// By due date.
    Date,
}

/// The name under which `mode` is kept in the preferences.
pub open spec fn key_of(mode: SortMode) -> Seq<char> {
    match mode {
        SortMode::Topic => "topic"@,
        SortMode::Location => "location"@,
        SortMode::Date => "date"@,
    }
}

/// The mode at `index` of the list Topic, Location, Date; Topic for any
/// other index.
pub open spec fn mode_at(index: u32) -> SortMode {
    if index == 1 {
        SortMode::Location
    } else if index == 2 {
        SortMode::Date
    } else {
        SortMode::Topic
    }
}

impl SortMode {
    /// The mode at `index` of the list Topic, Location, Date; Topic for
    /// any other index.
    pub fn from_index(index: u32) -> (mode: SortMode)
        ensures
            mode == mode_at(index),
    {
        if index == 1 {
            SortMode::Location
        } else if index == 2 {
            SortMode::Date
        } else {
            SortMode::Topic
        }
    }

    /// The index of the mode in the list Topic, Location, Date.
    pub fn to_index(self) -> (index: u32)
        ensures
            index == match self {
                SortMode::Topic => 0u32,
                SortMode::Location => 1u32,
                SortMode::Date => 2u32,
            },
            mode_at(index) == self,
    {
        match self {
            SortMode::Topic => 0,
            SortMode::Location => 1,
            SortMode::Date => 2,
        }
    }

    /// The mode that `key` names; Topic for any other text.
    pub fn from_key(key: &str) -> (mode: SortMode)
        ensures
            mode == if key@ == key_of(SortMode::Location) {
                SortMode::Location
            } else if key@ == key_of(SortMode::Date) {
                SortMode::Date
            } else {
                SortMode::Topic
            },
    {
        let name = String::from_str(key);
        if name == String::from_str("location") {
            SortMode::Location
        } else if name == String::from_str("date") {
            SortMode::Date
        } else {
            SortMode::Topic
        }
    }

    /// The name of the mode.
    pub fn as_key(self) -> (key: &'static str)
        ensures
            key@ == key_of(self),
    {
        match self {
            SortMode::Topic => "topic",
            SortMode::Location => "location",
            SortMode::Date => "date",
        }
    }
}

/// The three modes have three names: a mode is read back from its own
/// name.
pub proof fn law_key_names_mode(mode: SortMode)
    ensures
        key_of(mode) == key_of(SortMode::Location) <==> mode == SortMode::Location,
        key_of(mode) == key_of(SortMode::Date) <==> mode == SortMode::Date,
{
    reveal_strlit("topic");
    reveal_strlit("location");
    reveal_strlit("date");
    assert("topic"@.len() == 5 && "location"@.len() == 8 && "date"@.len() == 4);
}

/// How one value stands to another in an order.
#[derive(Clone, Copy, Debug, PartialEq, Eq, Structural)]
pub enum Rank {
    Before,
    Same,
    After,
}

impl Rank {
    /// This rank where it decides, else `next`.
    pub open spec fn or(self, next: Rank) -> Rank {
        if self == Rank::Same {
            next
        } else {
            self
        }
    }
}

/// `c` with the capital letters A to Z made small.
pub open spec fn lowered(c: char) -> char {
    if 'A' <= c <= 'Z' {
        ((c as u8) + 32) as char
    } else {
        c
    }
}

/// How `a` stands to `b` from index `i` on, character by character and
/// without regard to the case of ASCII letters; a text that ends first
/// comes first.
pub open spec fn lexical_rank_from(a: Seq<char>, b: Seq<char>, i: int) -> Rank
    decreases a.len() - i,
{
    if i >= a.len() {
        if i >= b.len() {
            Rank::Same
        } else {
            Rank::Before
        }
    } else if i >= b.len() {
        Rank::After
    } else if lowered(a[i]) < lowered(b[i]) {
        Rank::Before
    } else if lowered(a[i]) > lowered(b[i]) {
        Rank::After
    } else {
        lexical_rank_from(a, b, i + 1)
    }
}

/// How `a` stands to `b` in the order of the dictionary, without regard to
/// the case of ASCII letters.
pub open spec fn lexical_rank(a: Seq<char>, b: Seq<char>) -> Rank {
    lexical_rank_from(a, b, 0)
}

/// How two texts stand that may be missing: a missing one comes after any
/// that is there.
pub open spec fn optional_rank(a: Option<Seq<char>>, b: Option<Seq<char>>) -> Rank {
    match (a, b) {
        (Some(x), Some(y)) => lexical_rank(x, y),
        (Some(_), None) => Rank::Before,
        (None, Some(_)) => Rank::After,
        (None, None) => Rank::Same,
    }
}

/// How two dates stand in the calendar.
pub open spec fn date_rank(a: Date, b: Date) -> Rank {
    if a.is_before(&b) {
        Rank::Before
    } else if b.is_before(&a) {
        Rank::After
    } else {
        Rank::Same
    }
}

/// How two due dates stand that may be missing: a missing one comes after
/// any that is there.
pub open spec fn optional_date_rank(a: Option<Date>, b: Option<Date>) -> Rank {
    match (a, b) {
        (Some(x), Some(y)) => date_rank(x, y),
        (Some(_), None) => Rank::Before,
        (None, Some(_)) => Rank::After,
        (None, None) => Rank::Same,
    }
}

/// The order by project: project, then section, title and context.
pub open spec fn project_rank(a: ItemView, b: ItemView) -> Rank {
    optional_rank(a.project, b.project).or(lexical_rank(a.section, b.section)).or(
        lexical_rank(a.title, b.title),
    ).or(optional_rank(a.context, b.context))
}

/// The order by context: context, then section, title and project.
pub open spec fn context_rank(a: ItemView, b: ItemView) -> Rank {
    optional_rank(a.context, b.context).or(lexical_rank(a.section, b.section)).or(
        lexical_rank(a.title, b.title),
    ).or(optional_rank(a.project, b.project))
}

/// The order by due date: due date, then the order by project.
pub open spec fn due_rank(a: ItemView, b: ItemView) -> Rank {
    optional_date_rank(a.due, b.due).or(project_rank(a, b))
}

/// The order that `mode` asks for.
pub open spec fn mode_rank(mode: SortMode, a: ItemView, b: ItemView) -> Rank {
    match mode {
        SortMode::Topic => project_rank(a, b),
        SortMode::Location => context_rank(a, b),
        SortMode::Date => due_rank(a, b),
    }
}

/// Computes `lowered`.
pub fn lower_char(c: char) -> (r: char)
    ensures
        r == lowered(c),
{
    if 'A' <= c && c <= 'Z' {
        ((c as u8) + 32) as char
    } else {
        c
    }
}

/// Computes `lexical_rank`.
pub fn lexical_order(a: &str, b: &str) -> (r: Rank)
    ensures
        r == lexical_rank(a@, b@),
{
    let x = chars_of(a);
    let y = chars_of(b);
    let mut i: usize = 0;
    while i < x.len() && i < y.len() && lower_char(x[i]) == lower_char(y[i])
        invariant
            i <= x.len(),
            i <= y.len(),
            lexical_rank(x@, y@) == lexical_rank_from(x@, y@, i as int),
        decreases x.len() - i,
    {
        i += 1;
    }
    if i >= x.len() {
        if i >= y.len() {
            Rank::Same
        } else {
            Rank::Before
        }
    } else if i >= y.len() {
        Rank::After
    } else if lower_char(x[i]) < lower_char(y[i]) {
        Rank::Before
    } else {
        Rank::After
    }
}

/// Computes `optional_rank`.
pub fn compare_option_str(a: &Option<String>, b: &Option<String>) -> (r: Rank)
    ensures
        r == optional_rank(a.deep_view(), b.deep_view()),
{
    match (a, b) {
        (Some(x), Some(y)) => lexical_order(x.as_str(), y.as_str()),
        (Some(_), None) => Rank::Before,
        (None, Some(_)) => Rank::After,
        (None, None) => Rank::Same,
    }
}

/// Computes `optional_date_rank`.
pub fn compare_option_date(a: &Option<Date>, b: &Option<Date>) -> (r: Rank)
    ensures
        r == optional_date_rank(*a, *b),
{
    match (a, b) {
        (Some(x), Some(y)) => {
            if x.precedes(y) {
                Rank::Before
            } else if y.precedes(x) {
                Rank::After
            } else {
                Rank::Same
            }
        },
        (Some(_), None) => Rank::Before,
        (None, Some(_)) => Rank::After,
        (None, None) => Rank::Same,
    }
}

/// Computes `project_rank`.
pub fn compare_by_project(a: &TodoItem, b: &TodoItem) -> (r: Rank)
    ensures
        r == project_rank(a@, b@),
{
    let by_project = compare_option_str(&a.project, &b.project);
    if by_project != Rank::Same {
        return by_project;
    }
    let by_section = lexical_order(a.section.as_str(), b.section.as_str());
    if by_section != Rank::Same {
        return by_section;
    }
    let by_title = lexical_order(a.title.as_str(), b.title.as_str());
    if by_title != Rank::Same {
        return by_title;
    }
    compare_option_str(&a.context, &b.context)
}

/// Computes `context_rank`.
pub fn compare_by_context(a: &TodoItem, b: &TodoItem) -> (r: Rank)
    ensures
        r == context_rank(a@, b@),
{
    let by_context = compare_option_str(&a.context, &b.context);
    if by_context != Rank::Same {
        return by_context;
    }
    let by_section = lexical_order(a.section.as_str(), b.section.as_str());
    if by_section != Rank::Same {
        return by_section;
    }
    let by_title = lexical_order(a.title.as_str(), b.title.as_str());
    if by_title != Rank::Same {
        return by_title;
    }
    compare_option_str(&a.project, &b.project)
}

/// Computes `due_rank`.
pub fn compare_by_due(a: &TodoItem, b: &TodoItem) -> (r: Rank)
    ensures
        r == due_rank(a@, b@),
{
    let by_due = compare_option_date(&a.due, &b.due);
    if by_due != Rank::Same {
        return by_due;
    }
    compare_by_project(a, b)
}

/// Computes `mode_rank`.
pub fn compare_items(mode: SortMode, a: &TodoItem, b: &TodoItem) -> (r: Rank)
    ensures
        r == mode_rank(mode, a@, b@),
{
    match mode {
        SortMode::Topic => compare_by_project(a, b),
        SortMode::Location => compare_by_context(a, b),
        SortMode::Date => compare_by_due(a, b),
    }
}

/// Where `x` goes into `sorted`: before the first record that comes after
/// it, and so behind every record of its own rank.
pub open spec fn insert_slot(mode: SortMode, sorted: Seq<ItemView>, x: ItemView) -> int {
    first_where(|i: int| mode_rank(mode, sorted[i], x) == Rank::After, 0, sorted.len() as int)
}

/// The records of `items` in the order of `mode`; records of one rank stay
/// in the order in which `items` has them.
pub open spec fn sorted_views(mode: SortMode, items: Seq<ItemView>) -> Seq<ItemView>
    decreases items.len(),
{
    if items.len() == 0 {
        items
    } else {
        let before = sorted_views(mode, items.drop_last());
        before.insert(insert_slot(mode, before, items.last()), items.last())
    }
}

/// Whether no record of `items` comes after a later one in the order of
/// `mode`.
pub open spec fn is_sorted(mode: SortMode, items: Seq<ItemView>) -> bool {
    forall|i: int, j: int|
        0 <= i < j < items.len() ==> mode_rank(mode, #[trigger] items[i], #[trigger] items[j])
            != Rank::After
}

/// Two texts stand to each other the other way round when taken the other
/// way round.
pub proof fn lemma_lexical_converse(a: Seq<char>, b: Seq<char>, i: int)
    requires
        0 <= i,
    ensures
        lexical_rank_from(a, b, i) == Rank::Before <==> lexical_rank_from(b, a, i) == Rank::After,
        lexical_rank_from(a, b, i) == Rank::Same <==> lexical_rank_from(b, a, i) == Rank::Same,
    decreases a.len() - i,
{
    if i < a.len() && i < b.len() && lowered(a[i]) == lowered(b[i]) {
        lemma_lexical_converse(a, b, i + 1);
    }
}

/// The order of texts carries over: where `a` does not come after `b` nor
/// `b` after `c`, `a` does not come after `c`, and comes before it where
/// one of the two does.
pub proof fn lemma_lexical_carries(a: Seq<char>, b: Seq<char>, c: Seq<char>, i: int)
    requires
        0 <= i,
        lexical_rank_from(a, b, i) != Rank::After,
        lexical_rank_from(b, c, i) != Rank::After,
    ensures
        lexical_rank_from(a, c, i) != Rank::After,
        lexical_rank_from(a, b, i) == Rank::Before || lexical_rank_from(b, c, i) == Rank::Before
            ==> lexical_rank_from(a, c, i) == Rank::Before,
    decreases a.len() - i,
{
    if i < a.len() && i < b.len() && i < c.len() && lowered(a[i]) == lowered(b[i]) && lowered(
        b[i],
    ) == lowered(c[i]) {
        lemma_lexical_carries(a, b, c, i + 1);
    }
}

/// The order of `mode` taken the other way round is the other way round.
pub proof fn lemma_rank_converse(mode: SortMode, a: ItemView, b: ItemView)
    ensures
        mode_rank(mode, a, b) == Rank::Before <==> mode_rank(mode, b, a) == Rank::After,
        mode_rank(mode, a, b) == Rank::Same <==> mode_rank(mode, b, a) == Rank::Same,
{
    lemma_lexical_converse(a.section, b.section, 0);
    lemma_lexical_converse(a.title, b.title, 0);
    if a.project is Some && b.project is Some {
        lemma_lexical_converse(a.project->0, b.project->0, 0);
    }
    if a.context is Some && b.context is Some {
        lemma_lexical_converse(a.context->0, b.context->0, 0);
    }
}

/// The order of missing and present texts carries over.
proof fn lemma_optional_carries(a: Option<Seq<char>>, b: Option<Seq<char>>, c: Option<Seq<char>>)
    requires
        optional_rank(a, b) != Rank::After,
        optional_rank(b, c) != Rank::After,
    ensures
        optional_rank(a, c) != Rank::After,
        optional_rank(a, b) == Rank::Before || optional_rank(b, c) == Rank::Before
            ==> optional_rank(a, c) == Rank::Before,
{
    if a is Some && b is Some && c is Some {
        lemma_lexical_carries(a->0, b->0, c->0, 0);
    }
}

/// The order by project carries over.
proof fn lemma_project_carries(a: ItemView, b: ItemView, c: ItemView)
    requires
        project_rank(a, b) != Rank::After,
        project_rank(b, c) != Rank::After,
    ensures
        project_rank(a, c) != Rank::After,
        project_rank(a, b) == Rank::Before || project_rank(b, c) == Rank::Before ==> project_rank(
            a,
            c,
        ) == Rank::Before,
{
    lemma_optional_carries(a.project, b.project, c.project);
    if optional_rank(a.project, b.project) == Rank::Same && optional_rank(b.project, c.project)
        == Rank::Same {
        lemma_lexical_carries(a.section, b.section, c.section, 0);
        if lexical_rank(a.section, b.section) == Rank::Same && lexical_rank(b.section, c.section)
            == Rank::Same {
            lemma_lexical_carries(a.title, b.title, c.title, 0);
            if lexical_rank(a.title, b.title) == Rank::Same && lexical_rank(b.title, c.title)
                == Rank::Same {
                lemma_optional_carries(a.context, b.context, c.context);
            }
        }
    }
}

/// The order by context carries over.
proof fn lemma_context_carries(a: ItemView, b: ItemView, c: ItemView)
    requires
        context_rank(a, b) != Rank::After,
        context_rank(b, c) != Rank::After,
    ensures
        context_rank(a, c) != Rank::After,
        context_rank(a, b) == Rank::Before || context_rank(b, c) == Rank::Before ==> context_rank(
            a,
            c,
        ) == Rank::Before,
{
    lemma_optional_carries(a.context, b.context, c.context);
    if optional_rank(a.context, b.context) == Rank::Same && optional_rank(b.context, c.context)
        == Rank::Same {
        lemma_lexical_carries(a.section, b.section, c.section, 0);
        if lexical_rank(a.section, b.section) == Rank::Same && lexical_rank(b.section, c.section)
            == Rank::Same {
            lemma_lexical_carries(a.title, b.title, c.title, 0);
            if lexical_rank(a.title, b.title) == Rank::Same && lexical_rank(b.title, c.title)
                == Rank::Same {
                lemma_optional_carries(a.project, b.project, c.project);
            }
        }
    }
}

/// The order of `mode` carries over: where `a` does not come after `b` nor
/// `b` after `c`, `a` does not come after `c`, and comes before it where
/// one of the two does.
pub proof fn lemma_rank_carries(mode: SortMode, a: ItemView, b: ItemView, c: ItemView)
    requires
        mode_rank(mode, a, b) != Rank::After,
        mode_rank(mode, b, c) != Rank::After,
    ensures
        mode_rank(mode, a, c) != Rank::After,
        mode_rank(mode, a, b) == Rank::Before || mode_rank(mode, b, c) == Rank::Before
            ==> mode_rank(mode, a, c) == Rank::Before,
{
    match mode {
        SortMode::Topic => lemma_project_carries(a, b, c),
        SortMode::Location => lemma_context_carries(a, b, c),
        SortMode::Date => {
            if optional_date_rank(a.due, b.due) == Rank::Same && optional_date_rank(b.due, c.due)
                == Rank::Same {
                lemma_project_carries(a, b, c);
            }
        },
    }
}

/// Putting a record into sorted records at its slot leaves them sorted.
proof fn lemma_insert_keeps_sorted(mode: SortMode, sorted: Seq<ItemView>, x: ItemView)
    requires
        is_sorted(mode, sorted),
    ensures
        is_sorted(mode, sorted.insert(insert_slot(mode, sorted, x), x)),
        0 <= insert_slot(mode, sorted, x) <= sorted.len(),
{
    let comes_after = |i: int| mode_rank(mode, sorted[i], x) == Rank::After;
    lemma_first_where(comes_after, 0, sorted.len() as int);
    let k = insert_slot(mode, sorted, x);
    let out = sorted.insert(k, x);
    assert forall|i: int, j: int| 0 <= i < j < out.len() implies mode_rank(
        mode,
        #[trigger] out[i],
        #[trigger] out[j],
    ) != Rank::After by {
        if j == k {
            assert(out[i] == sorted[i]);
            assert(!comes_after(i));
        } else if i == k {
            // `sorted[k]` comes after `x`, and what follows does not come
            // before `sorted[k]`
            assert(out[j] == sorted[j - 1]);
            assert(comes_after(k));
            lemma_rank_converse(mode, sorted[k], x);
            if j - 1 > k {
                assert(mode_rank(mode, sorted[k], sorted[j - 1]) != Rank::After);
                lemma_rank_carries(mode, x, sorted[k], sorted[j - 1]);
            }
        } else {
            let a = if i < k {
                i
            } else {
                i - 1
            };
            let b = if j < k {
                j
            } else {
                j - 1
            };
            assert(out[i] == sorted[a] && out[j] == sorted[b]);
        }
    }
}

/// A sequence with `x` put in holds what it held and `x` once more.
proof fn lemma_insert_to_multiset(s: Seq<ItemView>, k: int, x: ItemView)
    requires
        0 <= k <= s.len(),
    ensures
        s.insert(k, x).to_multiset() == s.to_multiset().insert(x),
{
    let out = s.insert(k, x);
    assert(out.remove(k) =~= s);
    assert(out[k] == x);
    vstd::seq_lib::to_multiset_remove(out, k);
    assert(out.contains(x));
    out.to_multiset_ensures();
    assert(out.to_multiset().count(x) > 0);
    assert(out.to_multiset() =~= s.to_multiset().insert(x));
}

/// Records in the order of `mode` are sorted, and are the records that
/// were given: each as often as before.
pub proof fn lemma_sorted_views(mode: SortMode, items: Seq<ItemView>)
    ensures
        is_sorted(mode, sorted_views(mode, items)),
        sorted_views(mode, items).len() == items.len(),
        sorted_views(mode, items).to_multiset() == items.to_multiset(),
    decreases items.len(),
{
    if items.len() > 0 {
        let front = items.drop_last();
        let before = sorted_views(mode, front);
        lemma_sorted_views(mode, front);
        lemma_insert_keeps_sorted(mode, before, items.last());
        let k = insert_slot(mode, before, items.last());
        let x = items.last();
        lemma_insert_to_multiset(before, k, x);
        assert(front.push(x) =~= items);
        vstd::seq_lib::to_multiset_build(front, x);
    }
}

/// In the order by due date every task without a due date stands behind
/// every task that has one, whatever their projects and contexts.
pub proof fn law_missing_due_sorts_last(items: Seq<ItemView>, i: int, j: int)
    requires
        0 <= i < j < items.len(),
    ensures
        sorted_views(SortMode::Date, items)[i].due is None ==> sorted_views(
            SortMode::Date,
            items,
        )[j].due is None,
{
    lemma_sorted_views(SortMode::Date, items);
    let sorted = sorted_views(SortMode::Date, items);
    assert(mode_rank(SortMode::Date, sorted[i], sorted[j]) != Rank::After);
}

/// Sorts `items` in the order of `mode`. No record is lost or made up, none
/// comes after a later one, and records of one rank keep their order.
pub fn sort_items(items: Vec<TodoItem>, mode: SortMode) -> (sorted: Vec<TodoItem>)
    ensures
        item_views(sorted@) == sorted_views(mode, item_views(items@)),
        is_sorted(mode, item_views(sorted@)),
        item_views(sorted@).to_multiset() == item_views(items@).to_multiset(),
{
    let ghost all = item_views(items@);
    let mut rest = items;
    let mut sorted: Vec<TodoItem> = Vec::new();
    let ghost mut done: int = 0;
    assert(all.take(0) =~= Seq::<ItemView>::empty());
    assert(item_views(sorted@) =~= sorted_views(mode, all.take(0)));
    while rest.len() > 0
        invariant
            0 <= done <= all.len(),
            item_views(rest@) == all.subrange(done, all.len() as int),
            item_views(sorted@) == sorted_views(mode, all.take(done)),
        decreases rest.len(),
    {
        let ghost before = item_views(sorted@);
        let ghost rest_before = item_views(rest@);
        let ghost old_rest = rest@;
        let item = rest.remove(0);
        proof {
            assert(rest_before.len() == all.len() - done);
            assert(item@ == rest_before[0]);
            assert(item@ == all[done]);
            assert forall|i: int| 0 <= i < rest@.len() implies #[trigger] item_views(rest@)[i]
                == all[done + 1 + i] by {
                assert(rest@[i] == old_rest[i + 1]);
                assert(rest_before[i + 1] == old_rest[i + 1]@);
            }
            assert(item_views(rest@) =~= all.subrange(done + 1, all.len() as int));
            assert(all.take(done + 1).drop_last() =~= all.take(done));
            assert(all.take(done + 1).last() == all[done]);
        }
        let mut k: usize = 0;
        while k < sorted.len() && compare_items(mode, &sorted[k], &item) != Rank::After
            invariant
                k <= sorted.len(),
                before == item_views(sorted@),
                forall|j: int|
                    0 <= j < k ==> mode_rank(mode, #[trigger] before[j], item@) != Rank::After,
            decreases sorted.len() - k,
        {
            assert(before[k as int] == sorted@[k as int]@);
            k += 1;
        }
        proof {
            if k < sorted.len() {
                assert(before[k as int] == sorted@[k as int]@);
            }
            lemma_first_where_is(
                |i: int| mode_rank(mode, before[i], item@) == Rank::After,
                0,
                before.len() as int,
                k as int,
            );
        }
        sorted.insert(k, item);
        proof {
            assert(item_views(sorted@) =~= before.insert(k as int, item@));
            done = done + 1;
        }
    }
    proof {
        assert(all.take(all.len() as int) =~= all);
        lemma_sorted_views(mode, all);
    }
    sorted
}

} // verus!
