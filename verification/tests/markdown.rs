use kotoma::clock::LocalTime;
use kotoma::markdown::{escape_cell, render};
use kotoma::transcribe::TranscriptLine;

fn at(h: u32, m: u32, s: u32) -> LocalTime {
    LocalTime::new(2024, 5, 17, h, m, s).unwrap()
}

fn line(id: u64, text: &str, translated: Option<&str>, lang: &str, start: LocalTime, end: LocalTime) -> TranscriptLine {
    TranscriptLine {
        id,
        text: text.to_string(),
        translated: translated.map(|t| t.to_string()),
        src_lang: lang.to_string(),
        started_at: start,
        ended_at: end,
    }
}

#[test]
fn new_file_has_frontmatter_header_and_table() {
    let lines = vec![
        line(0, "Hello, how are you?", Some("こんにちは、お元気ですか？"), "en", at(10, 31, 3), at(10, 31, 6)),
        line(1, "元気です、ありがとう。", Some("I'm fine, thanks."), "ja", at(10, 31, 10), at(10, 32, 1)),
    ];
    let doc = render(&lines, None, &at(10, 30, 0)).unwrap();
    let expected = "---\n\
title: Transcript\n\
created: 2024-05-17 10:30:00\n\
---\n\
\n\
## 2024-05-17 10:31 – 10:32\n\
\n\
| time | English | 日本語 |\n\
|------|---------|--------|\n\
| 10:31:03 | Hello, how are you? | こんにちは、お元気ですか？ |\n\
| 10:31:10 | I'm fine, thanks. | 元気です、ありがとう。 |\n";
    assert_eq!(doc, expected);
}

#[test]
fn session_across_midnight_shows_end_date() {
    let start = LocalTime::new(2024, 12, 31, 23, 59, 0).unwrap();
    let end = LocalTime::new(2025, 1, 1, 0, 1, 0).unwrap();
    let lines = vec![line(7, "Happy new year", None, "en", start, end)];
    let doc = render(&lines, Some("x\n"), &end).unwrap();
    assert_eq!(
        doc,
        "x\n\n## 2024-12-31 23:59 – 2025-01-01 00:01\n\n| time | English | 日本語 |\n|------|---------|--------|\n| 23:59:00 | Happy new year |  |\n"
    );
}

#[test]
fn resume_keeps_existing_verbatim() {
    let existing = "# My notes\nsome text";
    let lines = vec![line(0, "Hi", None, "en", at(9, 0, 0), at(9, 0, 2))];
    let doc = render(&lines, Some(existing), &at(9, 5, 0)).unwrap();
    assert!(doc.starts_with(existing));
    assert!(doc[existing.len()..].starts_with("\n\n## 2024-05-17 09:00 – 09:00\n"));
}

#[test]
fn resave_rewrites_same_block() {
    let lines = vec![line(0, "Hi", None, "en", at(9, 0, 0), at(9, 0, 2))];
    let a = render(&lines, Some("old\n"), &at(9, 5, 0)).unwrap();
    let b = render(&lines, Some("old\n"), &at(9, 7, 0)).unwrap();
    assert_eq!(a, b);
    assert_eq!(a.matches("## ").count(), 1);
}

#[test]
fn nothing_to_write_without_lines_or_file() {
    assert_eq!(render(&[], None, &at(9, 0, 0)), None);
    assert_eq!(render(&[], Some("keep"), &at(9, 0, 0)).as_deref(), Some("keep\n\n"));
}

#[test]
fn cells_are_escaped() {
    assert_eq!(escape_cell("a|b\nc"), "a\\|b c");
    assert_eq!(escape_cell("plain"), "plain");
}

#[test]
fn local_time_rejects_invalid_dates() {
    assert!(LocalTime::new(2023, 2, 29, 0, 0, 0).is_none());
    assert!(LocalTime::new(2024, 2, 29, 0, 0, 0).is_some());
    assert!(LocalTime::new(1900, 2, 29, 0, 0, 0).is_none());
    assert!(LocalTime::new(2000, 2, 29, 0, 0, 0).is_some());
    assert!(LocalTime::new(2024, 4, 31, 0, 0, 0).is_none());
    assert!(LocalTime::new(2024, 1, 1, 24, 0, 0).is_none());
    assert!(LocalTime::new(2024, 13, 1, 0, 0, 0).is_none());
}

#[test]
fn local_time_formats_with_chrono() {
    let t = LocalTime::new(2024, 3, 7, 9, 5, 3).unwrap();
    assert_eq!(t.format("%H:%M:%S"), "09:05:03");
    assert_eq!(t.format("%H:%M"), "09:05");
    assert_eq!(t.format("%Y-%m-%d %H:%M"), "2024-03-07 09:05");
    assert_eq!(t.format("%Y-%m-%d %H:%M:%S"), "2024-03-07 09:05:03");
    assert_eq!(LocalTime::new(987, 1, 2, 3, 4, 5).unwrap().format("%Y-%m-%d %H:%M"), "0987-01-02 03:04");
}
