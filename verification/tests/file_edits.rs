use todos_extension::date::Date;
use todos_extension::document::{
    find_line_by_marker, join_chars, lines_from, locate, split_chars,
};
use todos_extension::edits::{
    add_todo, postpone_to_tomorrow, reschedule, set_due_today, toggle_todo, update_line,
    update_todo_details, LineEdit,
};
use todos_extension::reader::load_todos;
use todos_extension::record::{TodoError, TodoItem, TodoKey};

fn day(year: i32, month: u32, day: u32) -> Date {
    Date::from_ymd(year, month, day).unwrap()
}

fn at(line_index: usize) -> TodoKey {
    TodoKey { line_index, marker: None }
}

fn marked(line_index: usize, marker: &str) -> TodoKey {
    TodoKey { line_index, marker: Some(marker.to_string()) }
}

fn lines(text: &[&str]) -> Vec<String> {
    text.iter().map(|l| l.to_string()).collect()
}

const FILE: &str = "# Tasks\n### Home\n- [ ] Buy milk +errands ^ab12\n- [x] Sweep\n\n### Work\nnotes\n- [ ] Report due:2024-05-01 @desk\n---\n- [ ] later\n";

#[test]
fn load_reads_tasks_with_their_sections_and_indices() {
    let items = load_todos(FILE);
    assert_eq!(items.len(), 4);
    assert_eq!(items[0].title, "Buy milk");
    assert_eq!(items[0].section, "Home");
    assert_eq!(items[0].key.line_index, 2);
    assert_eq!(items[0].key.marker.as_deref(), Some("ab12"));
    assert_eq!(items[1].title, "Sweep");
    assert!(items[1].done);
    assert_eq!(items[1].key.line_index, 3);
    assert_eq!(items[2].title, "Report");
    assert_eq!(items[2].section, "Work");
    assert_eq!(items[2].key.line_index, 7);
    assert_eq!(items[2].due, Some(day(2024, 5, 1)));
    assert_eq!(items[3].title, "later");
    assert_eq!(items[3].key.line_index, 9);
}

#[test]
fn tasks_above_the_first_heading_stand_in_the_default_section() {
    let items = load_todos("- [ ] a\n## two marks are no heading\n- [ ] b\n  #### Deep  \n- [ ] c");
    assert_eq!(items.len(), 3);
    assert_eq!(items[0].section, "Ohne Abschnitt");
    assert_eq!(items[1].section, "Ohne Abschnitt");
    assert_eq!(items[2].section, "Deep");
}

#[test]
fn a_heading_line_is_no_task() {
    let items = load_todos("### - [ ] not a task\n- [ ] a task");
    assert_eq!(items.len(), 1);
    assert_eq!(items[0].section, "- [ ] not a task");
    assert_eq!(items[0].key.line_index, 1);
}

#[test]
fn load_of_an_empty_text_is_empty() {
    assert_eq!(load_todos(""), Vec::<TodoItem>::new());
    assert_eq!(load_todos("\n\n"), Vec::<TodoItem>::new());
}

#[test]
fn load_strips_the_carriage_return_of_a_line_ending() {
    let items = load_todos("### A\r\n- [ ] one +p\r\n- [ ] two ^m1\r\n");
    assert_eq!(items.len(), 2);
    assert_eq!(items[0].section, "A");
    assert_eq!(items[0].project.as_deref(), Some("p"));
    assert_eq!(items[1].key.marker.as_deref(), Some("m1"));
}

#[test]
fn find_line_by_marker_wants_a_whole_token() {
    let text = lines(&["- [ ] a ^ab123", "- [ ] b x^ab12", "- [ ] c ^ab12 +p", "- [ ] d ^ab12"]);
    assert_eq!(find_line_by_marker(&text, "ab12"), Some(2));
    assert_eq!(find_line_by_marker(&text, "ab123"), Some(0));
    assert_eq!(find_line_by_marker(&text, "zz"), None);
    assert_eq!(find_line_by_marker(&text, "ab12 +p"), None);
    assert_eq!(find_line_by_marker(&lines(&["\t^m\u{a0}"]), "m"), Some(0));
    assert_eq!(find_line_by_marker(&lines(&["a ^ b"]), ""), Some(0));
    assert_eq!(find_line_by_marker(&[], "m"), None);
}

#[test]
fn locate_takes_the_marker_before_the_index() {
    let text = lines(&["- [ ] a", "- [ ] b ^m1", "- [ ] c"]);
    assert_eq!(locate(&marked(2, "m1"), &text), Some(1));
    assert_eq!(locate(&marked(2, "gone"), &text), Some(2));
    assert_eq!(locate(&marked(3, "gone"), &text), None);
    assert_eq!(locate(&at(0), &text), Some(0));
    assert_eq!(locate(&at(3), &text), None);
    assert_eq!(locate(&marked(7, "m1"), &text), Some(1));
}

#[test]
fn a_marker_finds_its_task_after_lines_are_put_in_above() {
    let before = lines(&["- [ ] a", "- [ ] b ^m1"]);
    let after = lines(&["new", "- [ ] a", "newer", "newest", "- [ ] b ^m1"]);
    assert_eq!(locate(&marked(1, "m1"), &before), Some(1));
    assert_eq!(locate(&marked(1, "m1"), &after), Some(4));
}

#[test]
fn an_index_alone_does_not_follow_its_task() {
    let before = lines(&["- [ ] a", "- [ ] b"]);
    let after = lines(&["new", "- [ ] a", "- [ ] b"]);
    assert_eq!(locate(&at(1), &before), Some(1));
    assert_eq!(locate(&at(1), &after), Some(1));
    assert_ne!(after[1], before[1]);
}

#[test]
fn toggle_rewrites_one_line_and_keeps_the_rest() {
    let out = toggle_todo(FILE, &marked(0, "ab12"), true, &day(2024, 3, 9)).unwrap();
    assert_eq!(
        out,
        "# Tasks\n### Home\n- [x] Buy milk +errands \u{2705} 2024-03-09 ^ab12\n- [x] Sweep\n\n### Work\nnotes\n- [ ] Report due:2024-05-01 @desk\n---\n- [ ] later\n"
    );
    let back = toggle_todo(&out, &marked(0, "ab12"), false, &day(2024, 3, 9)).unwrap();
    assert_eq!(back, FILE);
}

#[test]
fn toggle_keeps_a_missing_final_line_feed_missing() {
    assert_eq!(
        toggle_todo("a\n- [ ] b", &at(1), true, &day(2024, 3, 9)).unwrap(),
        "a\n- [x] b \u{2705} 2024-03-09"
    );
    assert_eq!(
        toggle_todo("- [x] b\n", &at(0), false, &day(2024, 3, 9)).unwrap(),
        "- [ ] b\n"
    );
}

#[test]
fn toggle_keeps_carriage_returns_where_they_were() {
    assert_eq!(
        toggle_todo("a\r\n- [ ] b ^m\r\nc\r\n", &marked(0, "m"), true, &day(2024, 3, 9)).unwrap(),
        "a\r\n- [x] b \u{2705} 2024-03-09 ^m\r\nc\r\n"
    );
}

#[test]
fn toggle_fails_where_the_key_leads_nowhere() {
    assert_eq!(
        toggle_todo(FILE, &at(10), true, &day(2024, 3, 9)),
        Err(TodoError::NotFound)
    );
    assert_eq!(
        toggle_todo("", &at(0), true, &day(2024, 3, 9)),
        Err(TodoError::NotFound)
    );
    assert_eq!(
        toggle_todo(FILE, &marked(99, "zz"), true, &day(2024, 3, 9)),
        Err(TodoError::NotFound)
    );
}

#[test]
fn toggle_names_the_line_that_has_no_checkbox() {
    assert_eq!(
        toggle_todo(FILE, &at(6), true, &day(2024, 3, 9)),
        Err(TodoError::MissingCheckbox { line_number: 7 })
    );
}

#[test]
fn reschedule_sets_the_due_date_of_one_line() {
    let out = reschedule(FILE, &at(7), &day(2024, 6, 2)).unwrap();
    assert_eq!(
        out,
        "# Tasks\n### Home\n- [ ] Buy milk +errands ^ab12\n- [x] Sweep\n\n### Work\nnotes\n- [ ] Report due:2024-06-02 @desk\n---\n- [ ] later\n"
    );
    assert_eq!(reschedule(&out, &at(7), &day(2024, 6, 2)).unwrap(), out);
}

#[test]
fn set_due_today_hands_back_the_date() {
    let (out, date) = set_due_today("- [ ] a ^m", &marked(5, "m"), &day(2024, 6, 2)).unwrap();
    assert_eq!(out, "- [ ] a due:2024-06-02 ^m");
    assert_eq!(date, day(2024, 6, 2));
}

#[test]
fn postpone_sets_the_day_after_today() {
    let (out, date) = postpone_to_tomorrow("- [ ] a due:2024-01-01", &at(0), &day(2024, 2, 29)).unwrap();
    assert_eq!(out, "- [ ] a due:2024-03-01");
    assert_eq!(date, day(2024, 3, 1));
}

#[test]
fn postpone_fails_on_the_last_day() {
    assert_eq!(
        postpone_to_tomorrow("- [ ] a", &at(0), &day(9999, 12, 31)),
        Err(TodoError::DateOutOfRange)
    );
}

#[test]
fn update_details_writes_the_line_anew() {
    let mut item = load_todos(FILE).remove(2);
    item.title = "Annual report".to_string();
    item.project = Some("q2".to_string());
    item.context = None;
    item.done = true;
    let out = update_todo_details(FILE, &item, &day(2024, 3, 9)).unwrap();
    assert_eq!(
        out,
        "# Tasks\n### Home\n- [ ] Buy milk +errands ^ab12\n- [x] Sweep\n\n### Work\nnotes\n- [x] Annual report +q2 due:2024-05-01 \u{2705} 2024-03-09\n---\n- [ ] later\n"
    );
}

#[test]
fn update_details_fails_on_an_empty_title() {
    let mut item = load_todos(FILE).remove(0);
    item.title = "   ".to_string();
    assert_eq!(
        update_todo_details(FILE, &item, &day(2024, 3, 9)),
        Err(TodoError::EmptyTitle)
    );
}

#[test]
fn update_details_fails_where_the_key_leads_nowhere() {
    let mut item = load_todos(FILE).remove(3);
    item.key.line_index = 40;
    assert_eq!(
        update_todo_details(FILE, &item, &day(2024, 3, 9)),
        Err(TodoError::NotFound)
    );
}

#[test]
fn update_line_puts_a_line_in_as_it_is() {
    let edit = LineEdit::Replace { line: "anything".to_string() };
    assert_eq!(update_line("a\nb\nc", &at(1), &edit).unwrap(), "a\nanything\nc");
}

#[test]
fn add_puts_the_task_before_the_delimiter() {
    assert_eq!(
        add_todo("a\n---\nb\n", "Call dentist", &day(2024, 3, 9)).unwrap(),
        "a\n- [ ] Call dentist due:2024-03-09\n---\nb\n"
    );
    assert_eq!(
        add_todo("a\n  --- \n---\n---\n", "  Call dentist  ", &day(2024, 3, 9)).unwrap(),
        "a\n  --- \n- [ ] Call dentist due:2024-03-09\n---\n---\n"
    );
    assert_eq!(
        add_todo("a\r\n---\r\nb", "t", &day(2024, 3, 9)).unwrap(),
        "a\r\n- [ ] t due:2024-03-09\n---\r\nb"
    );
}

#[test]
fn add_puts_the_task_at_the_end_without_a_delimiter() {
    assert_eq!(
        add_todo("a\nb\n", "t", &day(2024, 3, 9)).unwrap(),
        "a\nb\n- [ ] t due:2024-03-09\n"
    );
    assert_eq!(
        add_todo("a\nb", "t", &day(2024, 3, 9)).unwrap(),
        "a\nb\n- [ ] t due:2024-03-09"
    );
    assert_eq!(add_todo("", "t", &day(2024, 3, 9)).unwrap(), "- [ ] t due:2024-03-09");
    assert_eq!(add_todo("----\n", "t", &day(2024, 3, 9)).unwrap(), "----\n- [ ] t due:2024-03-09\n");
}

#[test]
fn add_fails_on_an_empty_title() {
    assert_eq!(add_todo("a\n", "  \t", &day(2024, 3, 9)), Err(TodoError::EmptyTitle));
}

const TEXTS: [&str; 14] = [
    "",
    "\n",
    "\n\n",
    "a",
    "a\n",
    "a\nb",
    "a\n\nb\n",
    "a\r\nb\r\n",
    "a\r",
    "a\r\n",
    "\r\n\r\n",
    "a\r\r\nb",
    "\rb\n\r",
    "\u{2705}\n- [ ] x\n",
];

#[test]
fn the_lines_of_a_text_are_those_that_std_gives() {
    for text in TEXTS {
        let chars: Vec<char> = text.chars().collect();
        let lines: Vec<String> =
            lines_from(&split_chars(&chars)).iter().map(|l| l.iter().collect()).collect();
        let expected: Vec<String> = text.lines().map(|l| l.to_string()).collect();
        assert_eq!(lines, expected, "lines of {:?}", text);
    }
}

#[test]
fn the_pieces_of_a_text_joined_are_the_text() {
    for text in TEXTS {
        let chars: Vec<char> = text.chars().collect();
        let pieces = split_chars(&chars);
        assert_eq!(pieces.len(), text.matches('\n').count() + 1);
        assert_eq!(join_chars(&pieces), chars);
    }
}

#[test]
fn putting_a_line_in_its_own_place_changes_nothing() {
    for text in TEXTS {
        for (index, line) in text.lines().enumerate() {
            let edit = LineEdit::Replace { line: line.to_string() };
            assert_eq!(update_line(text, &at(index), &edit).unwrap(), text);
        }
    }
}

#[test]
fn an_edit_leaves_every_other_line_and_the_last_line_feed() {
    for text in TEXTS {
        let before: Vec<&str> = text.lines().collect();
        for index in 0..before.len() {
            let out = reschedule(text, &at(index), &day(2030, 1, 2)).unwrap();
            let after: Vec<&str> = out.lines().collect();
            assert_eq!(after.len(), before.len());
            for other in 0..before.len() {
                if other != index {
                    assert_eq!(after[other], before[other]);
                }
            }
            assert!(after[index].contains("due:2030-01-02"));
            assert_eq!(out.ends_with('\n'), text.ends_with('\n'));
            assert_eq!(out.matches('\r').count(), text.matches('\r').count());
            assert_eq!(reschedule(&out, &at(index), &day(2030, 1, 2)).unwrap(), out);
        }
    }
}

#[test]
fn done_and_back_gives_the_text_that_was() {
    let text = "### A\r\n- [ ] one +p ^m1\r\n- [ ] two\n- [ ] three ^m3";
    for key in [marked(9, "m1"), at(2), marked(0, "m3"), marked(1, "none")] {
        let done = toggle_todo(text, &key, true, &day(2024, 3, 9)).unwrap();
        assert_ne!(done, text);
        assert_eq!(toggle_todo(&done, &key, false, &day(2024, 3, 10)).unwrap(), text);
    }
}
