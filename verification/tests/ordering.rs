use todos_extension::date::Date;
use todos_extension::display::{format_metadata, group_label, list_entries, ListEntry};
use todos_extension::record::{TodoItem, TodoKey};
use todos_extension::sorting::{
    compare_by_context, compare_by_due, compare_by_project, compare_option_date,
    compare_option_str, lexical_order, sort_items, Rank, SortMode,
};

fn day(year: i32, month: u32, day: u32) -> Date {
    Date::from_ymd(year, month, day).unwrap()
}

fn task(title: &str, project: Option<&str>, context: Option<&str>, due: Option<Date>) -> TodoItem {
    TodoItem {
        key: TodoKey { line_index: 0, marker: None },
        title: title.to_string(),
        section: "S".to_string(),
        project: project.map(|p| p.to_string()),
        context: context.map(|c| c.to_string()),
        due,
        reference: None,
        done: false,
    }
}

fn titles(items: &[TodoItem]) -> Vec<String> {
    items.iter().map(|i| i.title.clone()).collect()
}

#[test]
fn lexical_order_ignores_the_case_of_ascii_letters() {
    assert_eq!(lexical_order("apple", "Apple"), Rank::Same);
    assert_eq!(lexical_order("apple", "Banana"), Rank::Before);
    assert_eq!(lexical_order("Zebra", "apple"), Rank::After);
    assert_eq!(lexical_order("app", "apple"), Rank::Before);
    assert_eq!(lexical_order("apple", "app"), Rank::After);
    assert_eq!(lexical_order("", ""), Rank::Same);
    assert_eq!(lexical_order("a_", "aB"), Rank::Before);
    assert_eq!(lexical_order("\u{e4}", "z"), Rank::After);
    assert_eq!(lexical_order("\u{c4}", "\u{e4}"), Rank::Before);
}

#[test]
fn lexical_order_agrees_with_std_on_lowered_strings() {
    let words = ["", "a", "A", "ab", "Ab", "b", "B", "[", "_", "z", "Z", "\u{e9}", "a b", "a-b"];
    for a in words {
        for b in words {
            let expected = match a.to_ascii_lowercase().cmp(&b.to_ascii_lowercase()) {
                std::cmp::Ordering::Less => Rank::Before,
                std::cmp::Ordering::Equal => Rank::Same,
                std::cmp::Ordering::Greater => Rank::After,
            };
            assert_eq!(lexical_order(a, b), expected);
        }
    }
}

#[test]
fn a_missing_text_comes_after_one_that_is_there() {
    let some = Some("x".to_string());
    assert_eq!(compare_option_str(&some, &None), Rank::Before);
    assert_eq!(compare_option_str(&None, &some), Rank::After);
    assert_eq!(compare_option_str(&None, &None), Rank::Same);
    assert_eq!(compare_option_str(&some, &Some("Y".to_string())), Rank::Before);
}

#[test]
fn a_missing_date_comes_after_one_that_is_there() {
    let some = Some(day(2024, 1, 1));
    assert_eq!(compare_option_date(&some, &None), Rank::Before);
    assert_eq!(compare_option_date(&None, &some), Rank::After);
    assert_eq!(compare_option_date(&None, &None), Rank::Same);
    assert_eq!(compare_option_date(&some, &Some(day(2024, 1, 2))), Rank::Before);
    assert_eq!(compare_option_date(&some, &Some(day(2023, 12, 31))), Rank::After);
    assert_eq!(compare_option_date(&some, &some), Rank::Same);
}

#[test]
fn the_order_by_project_goes_on_to_section_title_and_context() {
    let a = task("t", Some("p"), Some("c"), None);
    let mut b = task("t", Some("P"), Some("c"), None);
    assert_eq!(compare_by_project(&a, &b), Rank::Same);
    b.section = "T".to_string();
    assert_eq!(compare_by_project(&a, &b), Rank::Before);
    b.section = "S".to_string();
    b.title = "s".to_string();
    assert_eq!(compare_by_project(&a, &b), Rank::After);
    b.title = "T".to_string();
    b.context = None;
    assert_eq!(compare_by_project(&a, &b), Rank::Before);
    b.project = Some("a".to_string());
    assert_eq!(compare_by_project(&a, &b), Rank::After);
}

#[test]
fn the_order_by_context_ends_with_the_project() {
    let a = task("t", Some("p"), Some("c"), None);
    let b = task("t", Some("q"), Some("c"), None);
    assert_eq!(compare_by_context(&a, &b), Rank::Before);
    let c = task("a", Some("a"), Some("d"), None);
    assert_eq!(compare_by_context(&a, &c), Rank::Before);
}

#[test]
fn the_order_by_due_falls_back_on_the_order_by_project() {
    let a = task("t", Some("p"), None, Some(day(2024, 1, 1)));
    let b = task("t", Some("a"), None, Some(day(2024, 1, 2)));
    assert_eq!(compare_by_due(&a, &b), Rank::Before);
    let c = task("t", Some("a"), None, Some(day(2024, 1, 1)));
    assert_eq!(compare_by_due(&a, &c), Rank::After);
}

#[test]
fn sorting_by_due_puts_tasks_without_a_date_last() {
    let items = vec![
        task("none a", Some("a"), Some("a"), None),
        task("late", Some("z"), None, Some(day(2025, 1, 1))),
        task("none b", None, None, None),
        task("early", None, Some("z"), Some(day(2023, 1, 1))),
        task("mid", Some("m"), Some("m"), Some(day(2024, 1, 1))),
    ];
    let sorted = sort_items(items, SortMode::Date);
    assert_eq!(titles(&sorted), ["early", "mid", "late", "none a", "none b"]);
}

#[test]
fn sorting_by_project_puts_tasks_without_a_project_last() {
    let items = vec![
        task("c", None, None, None),
        task("b", Some("beta"), None, None),
        task("a", Some("Alpha"), None, None),
        task("d", Some("alpha"), None, None),
    ];
    let sorted = sort_items(items, SortMode::Topic);
    assert_eq!(titles(&sorted), ["a", "d", "b", "c"]);
}

#[test]
fn sorting_by_context_orders_by_context() {
    let items = vec![
        task("c", Some("a"), None, None),
        task("b", Some("b"), Some("town"), None),
        task("a", Some("c"), Some("Home"), None),
    ];
    let sorted = sort_items(items, SortMode::Location);
    assert_eq!(titles(&sorted), ["a", "b", "c"]);
}

#[test]
fn sorting_keeps_tasks_of_one_rank_in_their_order() {
    let mut first = task("same", Some("p"), None, None);
    first.key.line_index = 1;
    let mut second = task("SAME", Some("P"), None, None);
    second.key.line_index = 2;
    let mut third = task("Same", Some("p"), None, None);
    third.key.line_index = 3;
    let sorted = sort_items(vec![first, second, third], SortMode::Topic);
    let order: Vec<usize> = sorted.iter().map(|i| i.key.line_index).collect();
    assert_eq!(order, [1, 2, 3]);
}

#[test]
fn sorting_agrees_with_a_stable_sort_of_std() {
    let mut items = Vec::new();
    let projects = [None, Some("b"), Some("A"), Some("a")];
    let dues = [None, Some(day(2024, 1, 2)), Some(day(2024, 1, 1))];
    let mut n = 0;
    for p in projects {
        for d in dues {
            for c in [Some("x"), None] {
                let mut t = task(if n % 2 == 0 { "t" } else { "T" }, p, c, d);
                t.key.line_index = n;
                n += 1;
                items.push(t);
            }
        }
    }
    for mode in [SortMode::Topic, SortMode::Location, SortMode::Date] {
        let mut expected = items.clone();
        expected.sort_by(|a, b| {
            let rank = match mode {
                SortMode::Topic => compare_by_project(a, b),
                SortMode::Location => compare_by_context(a, b),
                SortMode::Date => compare_by_due(a, b),
            };
            match rank {
                Rank::Before => std::cmp::Ordering::Less,
                Rank::Same => std::cmp::Ordering::Equal,
                Rank::After => std::cmp::Ordering::Greater,
            }
        });
        assert_eq!(sort_items(items.clone(), mode), expected);
    }
}

#[test]
fn sorting_nothing_gives_nothing() {
    assert_eq!(sort_items(Vec::new(), SortMode::Date), Vec::<TodoItem>::new());
}

#[test]
fn sort_modes_have_indices_and_names() {
    assert_eq!(SortMode::from_index(0), SortMode::Topic);
    assert_eq!(SortMode::from_index(1), SortMode::Location);
    assert_eq!(SortMode::from_index(2), SortMode::Date);
    assert_eq!(SortMode::from_index(3), SortMode::Topic);
    assert_eq!(SortMode::from_key("location"), SortMode::Location);
    assert_eq!(SortMode::from_key("date"), SortMode::Date);
    assert_eq!(SortMode::from_key("topic"), SortMode::Topic);
    assert_eq!(SortMode::from_key("Date"), SortMode::Topic);
    for mode in [SortMode::Topic, SortMode::Location, SortMode::Date] {
        assert_eq!(SortMode::from_index(mode.to_index()), mode);
        assert_eq!(SortMode::from_key(mode.as_key()), mode);
    }
    assert_eq!(SortMode::Date.to_index(), 2);
    assert_eq!(SortMode::Topic.as_key(), "topic");
}

#[test]
fn group_labels_name_the_project_or_the_context() {
    let t = task("t", Some("garden"), Some("home"), None);
    assert_eq!(group_label(SortMode::Topic, &t).as_deref(), Some("Thema: garden"));
    assert_eq!(group_label(SortMode::Location, &t).as_deref(), Some("Ort: home"));
    assert_eq!(group_label(SortMode::Date, &t), None);
    let bare = task("t", None, Some(""), None);
    assert_eq!(group_label(SortMode::Topic, &bare).as_deref(), Some("Thema: Ohne Projekt"));
    assert_eq!(group_label(SortMode::Location, &bare).as_deref(), Some("Ort: Ohne Ort"));
}

#[test]
fn the_list_has_a_heading_where_the_group_changes() {
    let mut done = task("done", Some("b"), None, None);
    done.done = true;
    let items = vec![
        task("one", Some("a"), None, None),
        task("two", Some("a"), None, None),
        done,
        task("three", Some("b"), None, None),
        task("four", None, None, None),
        task("five", Some("a"), None, None),
    ];
    let entries = list_entries(items.clone(), SortMode::Topic);
    let expected = vec![
        ListEntry::Header("Thema: a".to_string()),
        ListEntry::Item(items[0].clone()),
        ListEntry::Item(items[1].clone()),
        ListEntry::Header("Thema: b".to_string()),
        ListEntry::Item(items[3].clone()),
        ListEntry::Header("Thema: Ohne Projekt".to_string()),
        ListEntry::Item(items[4].clone()),
        ListEntry::Header("Thema: a".to_string()),
        ListEntry::Item(items[5].clone()),
    ];
    assert_eq!(entries, expected);
}

#[test]
fn the_list_by_date_has_no_headings() {
    let mut done = task("done", None, None, None);
    done.done = true;
    let items = vec![task("one", Some("a"), None, None), done, task("two", Some("b"), None, None)];
    let entries = list_entries(items.clone(), SortMode::Date);
    assert_eq!(
        entries,
        vec![ListEntry::Item(items[0].clone()), ListEntry::Item(items[2].clone())]
    );
    assert_eq!(list_entries(Vec::new(), SortMode::Topic), Vec::<ListEntry>::new());
}

#[test]
fn metadata_joins_what_a_task_has() {
    let mut t = task("t", Some("p"), Some("c"), Some(day(2024, 1, 5)));
    t.reference = Some("Note".to_string());
    assert_eq!(
        format_metadata(&t),
        "S \u{2022} +p \u{2022} @c \u{2022} F\u{e4}llig: 2024-01-05 \u{2022} \u{2197} Note"
    );
    let mut bare = task("t", None, None, None);
    assert_eq!(format_metadata(&bare), "S");
    bare.section = String::new();
    assert_eq!(format_metadata(&bare), "");
    bare.context = Some("c".to_string());
    assert_eq!(format_metadata(&bare), "@c");
}
