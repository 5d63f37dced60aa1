use regex::Regex;
use todos_extension::date::Date;
use todos_extension::line::{apply_completion_marker, rewrite_due};
use todos_extension::tags::{extract_tags, extract_title};

const SAMPLES: [&str; 30] = [
    "",
    "plain text",
    "Buy milk +errands @supermarket due:2024-01-01 ^ab12",
    "+a+b @c@d ^e^f",
    "a + b @ c ^ d",
    "x+y",
    "mail me@example.org now",
    "tab\t+p\t@c\t^m",
    "wide\u{3000}+p\u{a0}q @c\u{2003}d",
    "[[one]] [[two]]",
    "[[ spaced out ]]",
    "[[]] [[a]",
    "[[a]b]] [[c]]",
    "[[[x]]",
    "[[x]]]",
    "a [[b\tc]] d",
    "due:2024-01-01due:2025-02-02",
    "overdue:2024-12-31x",
    "due:2024-1-01 due:20240101 due:2024-01-0a",
    "due:0000-00-00",
    "due:2023-02-29 due:2024-02-29",
    "^ ^- ^_x ^9z",
    "a^b1-c",
    "done \u{2705} 2024-01-01 ^m",
    "\u{2705} 2024-01-01",
    "x\t\u{2705}\u{a0}2024-01-01y \u{2705} 2024-02-02",
    "x \u{2705}2024-01-01 \u{2705} 2024-1-01",
    "+",
    "@",
    "^",
];

fn capture(pattern: &str, text: &str) -> Option<String> {
    Regex::new(pattern)
        .unwrap()
        .captures(text)
        .and_then(|caps| caps.get(1).map(|m| m.as_str().trim().to_string()))
}

#[test]
fn tags_are_what_the_patterns_capture() {
    for text in SAMPLES {
        let tags = extract_tags(text);
        assert_eq!(tags.project, capture(r"\+([^\s]+)", text), "project of {:?}", text);
        assert_eq!(tags.context, capture(r"@([^\s]+)", text), "context of {:?}", text);
        assert_eq!(tags.reference, capture(r"\[\[([^\]]+)\]\]", text), "reference of {:?}", text);
        assert_eq!(tags.marker, capture(r"\^([A-Za-z0-9]+)", text), "marker of {:?}", text);
        let due = capture(r"due:(\d{4}-\d{2}-\d{2})", text).and_then(|value| {
            let year = value[0..4].parse::<i32>().unwrap();
            let month = value[5..7].parse::<u32>().unwrap();
            let day = value[8..10].parse::<u32>().unwrap();
            Date::from_ymd(year, month, day)
        });
        assert_eq!(tags.due, due, "due date of {:?}", text);
    }
}

#[test]
fn the_title_ends_where_the_first_of_the_twelve_texts_stands() {
    let texts = [
        " +", " @", " due:", " [[", " \u{2705}", " ^", "+", "@", "due:", "[[", "\u{2705}", "^",
    ];
    for rest in SAMPLES {
        let mut cut = rest.len();
        for text in texts {
            if let Some(index) = rest.find(text) {
                cut = cut.min(index);
            }
        }
        let cleaned = rest[..cut].trim();
        let expected = if cleaned.is_empty() { rest } else { cleaned };
        assert_eq!(extract_title(rest), expected, "title of {:?}", rest);
    }
}

#[test]
fn reopening_takes_out_what_the_pattern_matches() {
    let pattern = Regex::new(r"\s\x{2705}\s\d{4}-\d{2}-\d{2}").unwrap();
    let today = Date::from_ymd(2024, 3, 9).unwrap();
    for text in SAMPLES {
        assert_eq!(
            apply_completion_marker(text, false, &today),
            pattern.replace(text, "").to_string(),
            "completion marker of {:?}",
            text
        );
    }
}

#[test]
fn rescheduling_rewrites_what_the_pattern_matches() {
    let pattern = Regex::new(r"due:(\d{4}-\d{2}-\d{2})").unwrap();
    let date = Date::from_ymd(2031, 7, 4).unwrap();
    for text in SAMPLES {
        if pattern.is_match(text) {
            assert_eq!(
                rewrite_due(text, &date),
                pattern.replace(text, "due:2031-07-04").to_string(),
                "due tag of {:?}",
                text
            );
        } else {
            assert!(rewrite_due(text, &date).contains("due:2031-07-04"));
        }
    }
}

#[test]
fn white_space_is_what_std_takes_for_it() {
    for code in 0..0x3100u32 {
        if let Some(c) = char::from_u32(code) {
            let padded = format!("{}t{}", c, c);
            assert_eq!(extract_title(&padded) == "t", c.is_whitespace(), "trim of {:?}", c);
            let token = format!("+a{}b", c);
            let ends = extract_tags(&token).project.as_deref() == Some("a");
            assert_eq!(ends, c.is_whitespace(), "end of a token at {:?}", c);
        }
    }
}
