use todos_extension::date::Date;
use todos_extension::line::{
    apply_completion_marker, insert_due_segment, normalize_reference, normalize_token,
    parse_line, render_line, rewrite_due, rewrite_line,
};
use todos_extension::record::{LineError, TodoItem, TodoKey};
use todos_extension::tags::{extract_tags, extract_title};

fn day(year: i32, month: u32, day: u32) -> Date {
    Date::from_ymd(year, month, day).unwrap()
}

fn item(title: &str) -> TodoItem {
    TodoItem {
        key: TodoKey { line_index: 0, marker: None },
        title: title.to_string(),
        section: String::new(),
        project: None,
        context: None,
        due: None,
        reference: None,
        done: false,
    }
}

#[test]
fn parses_the_sample_line() {
    let item = parse_line(
        "- [ ] Buy milk +errands @supermarket due:2024-01-01 ^ab12",
        7,
        "Home",
    )
    .unwrap();
    assert_eq!(item.title, "Buy milk");
    assert_eq!(item.project.as_deref(), Some("errands"));
    assert_eq!(item.context.as_deref(), Some("supermarket"));
    assert_eq!(item.due, Some(day(2024, 1, 1)));
    assert_eq!(item.reference, None);
    assert_eq!(item.key.marker.as_deref(), Some("ab12"));
    assert_eq!(item.key.line_index, 7);
    assert_eq!(item.section, "Home");
    assert!(!item.done);
}

#[test]
fn toggling_the_sample_line_puts_the_date_before_the_marker() {
    let line = rewrite_line(
        "- [ ] Buy milk +errands @supermarket due:2024-01-01 ^ab12",
        true,
        &day(2024, 3, 9),
    )
    .unwrap();
    assert_eq!(
        line,
        "- [x] Buy milk +errands @supermarket due:2024-01-01 \u{2705} 2024-03-09 ^ab12"
    );
}

#[test]
fn both_checked_forms_read_as_done() {
    assert!(parse_line("- [x] a", 0, "s").unwrap().done);
    assert!(parse_line("- [X] a", 0, "s").unwrap().done);
    assert!(!parse_line("- [ ] a", 0, "s").unwrap().done);
    assert!(parse_line("   \t- [x] a", 0, "s").unwrap().done);
}

#[test]
fn lines_without_a_checkbox_and_a_space_are_no_tasks() {
    assert_eq!(parse_line("Buy milk", 0, "s"), None);
    assert_eq!(parse_line("- Buy milk", 0, "s"), None);
    assert_eq!(parse_line("- [y] Buy milk", 0, "s"), None);
    assert_eq!(parse_line("- [ ]Buy milk", 0, "s"), None);
    assert_eq!(parse_line("x - [ ] Buy milk", 0, "s"), None);
    assert_eq!(parse_line("", 0, "s"), None);
}

#[test]
fn a_checkbox_with_nothing_behind_it_is_no_task() {
    assert_eq!(parse_line("- [ ] ", 0, "s"), None);
    assert_eq!(parse_line("- [ ]    \t", 0, "s"), None);
    assert_eq!(parse_line("- [x]", 0, "s"), None);
}

#[test]
fn tags_are_found_in_any_order() {
    let item =
        parse_line("- [x] Call ^k9 [[Dr. Who]] due:2023-12-24 @phone +health", 3, "A").unwrap();
    assert_eq!(item.title, "Call");
    assert_eq!(item.project.as_deref(), Some("health"));
    assert_eq!(item.context.as_deref(), Some("phone"));
    assert_eq!(item.due, Some(day(2023, 12, 24)));
    assert_eq!(item.reference.as_deref(), Some("Dr. Who"));
    assert_eq!(item.key.marker.as_deref(), Some("k9"));
    assert!(item.done);
}

#[test]
fn only_the_first_tag_of_a_kind_counts() {
    let tags = extract_tags("a +one +two @x @y due:2024-01-01 due:2025-01-01 [[p]] [[q]] ^m1 ^m2");
    assert_eq!(tags.project.as_deref(), Some("one"));
    assert_eq!(tags.context.as_deref(), Some("x"));
    assert_eq!(tags.due, Some(day(2024, 1, 1)));
    assert_eq!(tags.reference.as_deref(), Some("p"));
    assert_eq!(tags.marker.as_deref(), Some("m1"));
}

#[test]
fn a_line_without_tags_has_none() {
    let tags = extract_tags("just a title");
    assert_eq!(tags.project, None);
    assert_eq!(tags.context, None);
    assert_eq!(tags.due, None);
    assert_eq!(tags.reference, None);
    assert_eq!(tags.marker, None);
}

#[test]
fn a_due_date_that_the_calendar_lacks_is_dropped() {
    let item = parse_line("- [ ] a due:2024-02-30 +p", 0, "s").unwrap();
    assert_eq!(item.due, None);
    assert_eq!(item.project.as_deref(), Some("p"));
    assert_eq!(item.title, "a");
    assert_eq!(extract_tags("a due:2024-13-01 due:2024-01-01").due, None);
    assert_eq!(extract_tags("a due:24-1-1").due, None);
}

#[test]
fn a_sigil_before_white_space_starts_no_tag() {
    let tags = extract_tags("1 + 1 @ home ^ up +real");
    assert_eq!(tags.project.as_deref(), Some("real"));
    assert_eq!(tags.context, None);
    assert_eq!(tags.marker, None);
}

#[test]
fn a_marker_is_letters_and_digits_only() {
    assert_eq!(extract_tags("a ^ab-12").marker.as_deref(), Some("ab"));
    assert_eq!(extract_tags("a ^-x ^Z9").marker.as_deref(), Some("Z9"));
}

#[test]
fn a_reference_may_hold_spaces_and_is_trimmed() {
    assert_eq!(extract_tags("a [[ My Note ]] b").reference.as_deref(), Some("My Note"));
    assert_eq!(extract_tags("a [[]] [[x]]").reference.as_deref(), Some("x"));
    assert_eq!(extract_tags("a [[x] [[y]]").reference.as_deref(), Some("y"));
    assert_eq!(extract_tags("a [[x").reference, None);
    assert_eq!(extract_tags("a [[ ]]").reference.as_deref(), Some(""));
}

#[test]
fn the_title_ends_at_the_first_tag() {
    assert_eq!(extract_title("Buy milk +errands"), "Buy milk");
    assert_eq!(extract_title("Buy milk@home"), "Buy milk");
    assert_eq!(extract_title("Pay  due:2024-01-01"), "Pay");
    assert_eq!(extract_title("See [[note]] first"), "See");
    assert_eq!(extract_title("Done \u{2705} 2024-01-01"), "Done");
    assert_eq!(extract_title("Plain title"), "Plain title");
    assert_eq!(extract_title("  padded  "), "padded");
}

#[test]
fn a_line_of_tags_alone_keeps_its_text_as_title() {
    assert_eq!(extract_title("+proj @ctx"), "+proj @ctx");
    assert_eq!(extract_title(" +proj "), " +proj ");
    let item = parse_line("- [ ] +proj @ctx", 0, "s").unwrap();
    assert_eq!(item.title, "+proj @ctx");
    assert_eq!(item.project.as_deref(), Some("proj"));
}

#[test]
fn toggling_a_line_without_checkbox_fails() {
    assert_eq!(
        rewrite_line("Buy milk", true, &day(2024, 3, 9)),
        Err(LineError::MissingCheckbox)
    );
    assert_eq!(
        rewrite_line("Buy milk", false, &day(2024, 3, 9)),
        Err(LineError::MissingCheckbox)
    );
}

#[test]
fn marking_done_appends_the_completion_marker() {
    assert_eq!(
        rewrite_line("- [ ] a +p", true, &day(2024, 3, 9)).unwrap(),
        "- [x] a +p \u{2705} 2024-03-09"
    );
}

#[test]
fn marking_done_makes_a_capital_box_small() {
    assert_eq!(
        rewrite_line("- [X] a", true, &day(2024, 3, 9)).unwrap(),
        "- [x] a \u{2705} 2024-03-09"
    );
}

#[test]
fn marking_done_keeps_a_completion_marker_that_is_there() {
    assert_eq!(
        rewrite_line("- [ ] a \u{2705} 2020-01-01 ^m", true, &day(2024, 3, 9)).unwrap(),
        "- [x] a \u{2705} 2020-01-01 ^m"
    );
}

#[test]
fn reopening_takes_the_completion_marker_out() {
    assert_eq!(
        rewrite_line("- [x] a +p \u{2705} 2024-03-09 ^m", false, &day(2024, 3, 10)).unwrap(),
        "- [ ] a +p ^m"
    );
    assert_eq!(rewrite_line("- [X] a", false, &day(2024, 3, 10)).unwrap(), "- [ ] a");
    assert_eq!(rewrite_line("- [ ] a", false, &day(2024, 3, 10)).unwrap(), "- [ ] a");
}

#[test]
fn done_and_back_gives_the_line_that_was() {
    for line in [
        "- [ ] Buy milk +errands @supermarket due:2024-01-01 ^ab12",
        "- [ ] plain",
        "  - [ ] indented [[Some Note]] ^Z",
        "- [ ] ends in caret ^",
        "- [ ] marker first ^m1 +p",
    ] {
        let done = rewrite_line(line, true, &day(2024, 3, 9)).unwrap();
        assert_ne!(done, line);
        assert_eq!(rewrite_line(&done, false, &day(2024, 3, 10)).unwrap(), line);
    }
}

#[test]
fn the_completion_marker_goes_before_a_marker_that_ends_the_line() {
    let today = day(2024, 3, 9);
    assert_eq!(apply_completion_marker("a ^m1", true, &today), "a \u{2705} 2024-03-09 ^m1");
    assert_eq!(apply_completion_marker("a ^m1 b", true, &today), "a ^m1 b \u{2705} 2024-03-09");
    assert_eq!(apply_completion_marker("a ^m-1", true, &today), "a ^m-1 \u{2705} 2024-03-09");
    assert_eq!(apply_completion_marker("^m1", true, &today), "^m1 \u{2705} 2024-03-09");
    assert_eq!(apply_completion_marker("", true, &today), " \u{2705} 2024-03-09");
}

#[test]
fn only_the_first_completion_marker_is_taken_out() {
    let today = day(2024, 3, 9);
    assert_eq!(
        apply_completion_marker("a \u{2705} 2024-01-01 \u{2705} 2024-01-02", false, &today),
        "a \u{2705} 2024-01-02"
    );
    assert_eq!(apply_completion_marker("a \u{2705} soon", false, &today), "a \u{2705} soon");
}

#[test]
fn rescheduling_rewrites_the_due_tag_in_place() {
    assert_eq!(
        rewrite_due("- [ ] a due:2024-01-01 +p", &day(2025, 12, 31)),
        "- [ ] a due:2025-12-31 +p"
    );
    assert_eq!(
        rewrite_due("- [ ] due:2024-01-01 due:2024-02-02", &day(2025, 12, 31)),
        "- [ ] due:2025-12-31 due:2024-02-02"
    );
}

#[test]
fn rescheduling_puts_a_new_due_tag_before_the_first_tag() {
    assert_eq!(rewrite_due("- [ ] a +p", &day(2025, 12, 31)), "- [ ] a due:2025-12-31 +p");
    assert_eq!(rewrite_due("- [ ] a  @c +p", &day(2025, 12, 31)), "- [ ] a due:2025-12-31 @c +p");
    assert_eq!(
        rewrite_due("- [x] a \u{2705} 2024-01-01 ^m", &day(2025, 12, 31)),
        "- [x] a due:2025-12-31 \u{2705} 2024-01-01 ^m"
    );
    assert_eq!(rewrite_due("- [ ] a", &day(2025, 2, 3)), "- [ ] a due:2025-02-03");
    assert_eq!(rewrite_due("", &day(2025, 2, 3)), "due:2025-02-03");
}

#[test]
fn rescheduling_twice_is_rescheduling_once() {
    for line in ["- [ ] a", "- [ ] a +p @c", "- [ ] a due:2020-02-02 ^m", "", "x due:1-1-1 +p"] {
        let once = rewrite_due(line, &day(2025, 12, 31));
        assert_eq!(rewrite_due(&once, &day(2025, 12, 31)), once);
    }
}

#[test]
fn insert_due_segment_takes_any_segment() {
    assert_eq!(insert_due_segment("a +p", "due:soon"), "a due:soon +p");
    assert_eq!(insert_due_segment("a", "X"), "a X");
    assert_eq!(insert_due_segment("a ", "X"), "a X");
    assert_eq!(insert_due_segment(" +p", "X"), "X +p");
    assert_eq!(insert_due_segment("a [[r]]", "X"), "a X [[r]]");
    assert_eq!(insert_due_segment("a+p", "X"), "a+p X");
}

#[test]
fn normalize_token_removes_all_white_space() {
    assert_eq!(normalize_token(Some("  my project ")).as_deref(), Some("myproject"));
    assert_eq!(normalize_token(Some("a\tb\u{a0}c")).as_deref(), Some("abc"));
    assert_eq!(normalize_token(Some("   ")), None);
    assert_eq!(normalize_token(Some("")), None);
    assert_eq!(normalize_token(None), None);
}

#[test]
fn normalize_reference_trims() {
    assert_eq!(normalize_reference(Some("  My Note ")).as_deref(), Some("My Note"));
    assert_eq!(normalize_reference(Some(" \t ")), None);
    assert_eq!(normalize_reference(None), None);
}

#[test]
fn render_writes_the_fields_in_their_order() {
    let mut it = item("  Buy milk ");
    it.project = Some("my errands".to_string());
    it.context = Some("supermarket".to_string());
    it.due = Some(day(2024, 1, 1));
    it.reference = Some(" Shopping List ".to_string());
    it.key.marker = Some("ab12".to_string());
    assert_eq!(
        render_line(&it, &day(2024, 3, 9)).unwrap(),
        "- [ ] Buy milk +myerrands @supermarket due:2024-01-01 [[Shopping List]] ^ab12"
    );
}

#[test]
fn render_leaves_out_what_is_empty() {
    let mut it = item("t");
    it.project = Some("  ".to_string());
    it.reference = Some("".to_string());
    it.key.marker = Some("".to_string());
    assert_eq!(render_line(&it, &day(2024, 3, 9)).unwrap(), "- [ ] t");
}

#[test]
fn render_of_a_done_task_bears_the_completion_marker() {
    let mut it = item("t");
    it.done = true;
    it.key.marker = Some("m1".to_string());
    assert_eq!(
        render_line(&it, &day(2024, 3, 9)).unwrap(),
        "- [x] t \u{2705} 2024-03-09 ^m1"
    );
}

#[test]
fn render_fails_on_an_empty_title() {
    assert_eq!(render_line(&item("  \t "), &day(2024, 3, 9)), Err(LineError::EmptyTitle));
    assert_eq!(render_line(&item(""), &day(2024, 3, 9)), Err(LineError::EmptyTitle));
}

#[test]
fn a_parsed_line_written_out_and_read_again_has_the_same_fields() {
    for line in [
        "- [ ] Buy milk +errands @supermarket due:2024-01-01 ^ab12",
        "- [x] Call   [[Dr. Who]]   @phone",
        "   - [X] Fix it due:2023-02-30 +home",
        "- [ ] only a title",
        "- [ ] a ^m1 +p @c",
    ] {
        let first = parse_line(line, 4, "Sec").unwrap();
        let written = render_line(&first, &day(2024, 3, 9)).unwrap();
        let second = parse_line(&written, 4, "Sec").unwrap();
        assert_eq!(first, second);
    }
}

#[test]
fn tags_that_hold_another_tag_do_not_survive_a_rewrite() {
    let first = parse_line("- [ ] T @c +a@b", 0, "s").unwrap();
    assert_eq!(first.context.as_deref(), Some("c"));
    let written = render_line(&first, &day(2024, 3, 9)).unwrap();
    assert_eq!(written, "- [ ] T +a@b @c");
    let second = parse_line(&written, 0, "s").unwrap();
    assert_eq!(second.context.as_deref(), Some("b"));
}
