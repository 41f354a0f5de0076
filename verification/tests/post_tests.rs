use mdblog::date::{format_date, parse_date, Date};
use mdblog::inject::ReplacementTable;
use mdblog::post::{assemble_post, title_from_name, AssembleError};

fn empty_table() -> ReplacementTable {
    ReplacementTable { rules: vec![] }
}

#[test]
fn title_strips_first_md_occurrence() {
    assert_eq!(title_from_name("hello.md"), "hello");
    assert_eq!(title_from_name("notes"), "notes");
    // only the first occurrence is removed, not a true suffix strip
    assert_eq!(title_from_name("a.md.md"), "a.md");
    assert_eq!(title_from_name("x.mdy.md"), "xy.md");
}

#[test]
fn parse_date_accepts_month_day_year() {
    let d = parse_date("January 05, 2024").expect("should parse");
    assert_eq!(d, Date { year: 2024, month: 1, day: 5 });
    assert!(parse_date("Foo 05, 2024").is_none());
    assert!(parse_date("2024-01-05").is_none());
    assert!(parse_date("January 32, 2024").is_none());
}

#[test]
fn format_date_renders_month_day_year() {
    assert_eq!(format_date(&Date { year: 2024, month: 1, day: 5 }), "January 05, 2024");
    assert_eq!(format_date(&Date { year: 2024, month: 12, day: 31 }), "December 31, 2024");
    assert_eq!(format_date(&Date { year: 999, month: 7, day: 1 }), "July 01, 0999");
}

#[test]
fn assemble_builds_header_and_body() {
    let content = "Date: January 05, 2024\n# Hi\n\nhello world";
    let p = assemble_post(&empty_table(), "hi.md", content).expect("should assemble");
    assert_eq!(p.title, "hi");
    assert_eq!(p.date, Date { year: 2024, month: 1, day: 5 });
    assert_eq!(p.header, "<h1>Hi</h1>");
    assert_eq!(p.body, "<p>hello world</p>");
}

#[test]
fn assemble_accepts_unlabelled_and_padded_date() {
    let content = "  January 05, 2024 \n# A\n\nb";
    let p = assemble_post(&empty_table(), "a.md", content).expect("should assemble");
    assert_eq!(p.date, Date { year: 2024, month: 1, day: 5 });
}

#[test]
fn assemble_without_line_break_is_missing_date_line() {
    let r = assemble_post(&empty_table(), "a.md", "January 05, 2024 and no newline");
    assert_eq!(r.unwrap_err(), AssembleError::MissingDateLine);
}

#[test]
fn assemble_with_bad_date_is_invalid_date() {
    let r = assemble_post(&empty_table(), "a.md", "yesterday\n# A\n\nb");
    assert_eq!(r.unwrap_err(), AssembleError::InvalidDate);
}

#[test]
fn assemble_single_line_render_is_missing_header() {
    // one paragraph renders to a single line of HTML: no header/body split
    let r = assemble_post(&empty_table(), "a.md", "January 05, 2024\njust one paragraph");
    assert_eq!(r.unwrap_err(), AssembleError::MissingHeader);
}

#[test]
fn assemble_applies_replacements_to_rendered_html() {
    let table = ReplacementTable {
        rules: vec![mdblog::inject::AttrRule {
            tag: "p".to_string(),
            attrs: vec![("class".to_string(), "text-blue-500".to_string())],
        }],
    };
    let content = "Date: January 05, 2024\n# T\n\nbody text";
    let p = assemble_post(&table, "t.md", content).expect("should assemble");
    assert_eq!(p.body, "<p class=\"text-blue-500\">body text</p>");
}
