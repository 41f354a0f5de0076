use mdblog::config::load_table;
use mdblog::date::Date;
use mdblog::inject::ReplacementTable;
use mdblog::json::{index_artifact, post_artifact_json};
use mdblog::pipeline::{build, sort_posts};
use mdblog::post::InternalPost;

fn empty_table() -> ReplacementTable {
    ReplacementTable { rules: vec![] }
}

fn post(title: &str, y: i32, m: u8, d: u8) -> InternalPost {
    InternalPost {
        title: title.to_string(),
        date: Date { year: y, month: m, day: d },
        header: "<h1>h</h1>".to_string(),
        body: "<p>b</p>".to_string(),
    }
}

fn source(date: &str, body: &str) -> String {
    format!("Date: {date}\n# Head\n\n{body}")
}

#[test]
fn sort_is_descending_by_date() {
    let posts = vec![
        post("old", 2020, 1, 1),
        post("new", 2024, 6, 15),
        post("mid", 2022, 3, 9),
    ];
    let sorted = sort_posts(posts);
    let titles: Vec<&str> = sorted.iter().map(|p| p.title.as_str()).collect();
    assert_eq!(titles, vec!["new", "mid", "old"]);
}

#[test]
fn sort_keeps_enumeration_order_for_equal_dates() {
    let posts = vec![
        post("first", 2022, 3, 9),
        post("late", 2024, 1, 1),
        post("second", 2022, 3, 9),
        post("third", 2022, 3, 9),
    ];
    let sorted = sort_posts(posts);
    let titles: Vec<&str> = sorted.iter().map(|p| p.title.as_str()).collect();
    assert_eq!(titles, vec!["late", "first", "second", "third"]);
}

#[test]
fn build_orders_artifacts_and_index() {
    let files = vec![
        ("old.md".to_string(), source("January 05, 2020", "a")),
        ("new.md".to_string(), source("March 10, 2024", "b")),
    ];
    let out = build(&empty_table(), &files).expect("build should succeed");
    assert_eq!(out.artifacts.len(), 2);
    assert_eq!(out.artifacts[0].0, "new.json");
    assert_eq!(out.artifacts[1].0, "old.json");
    let expected_index = "export type Post = {name: string, date: string, header: string, body: string}\n\n export const posts: string[] = [\n  \"new\",\n  \"old\"\n];";
    assert_eq!(out.index, expected_index);
}

#[test]
fn build_with_no_files_emits_empty_index() {
    let out = build(&empty_table(), &vec![]).expect("build should succeed");
    assert!(out.artifacts.is_empty());
    let expected_index = "export type Post = {name: string, date: string, header: string, body: string}\n\n export const posts: string[] = [];";
    assert_eq!(out.index, expected_index);
}

#[test]
fn build_aborts_on_first_bad_file() {
    let files = vec![
        ("good.md".to_string(), source("January 05, 2024", "a")),
        ("bad.md".to_string(), "not a date\nbody".to_string()),
        ("later.md".to_string(), source("January 06, 2024", "c")),
    ];
    let err = build(&empty_table(), &files).unwrap_err();
    assert_eq!(err.file, "bad.md");
    assert_eq!(err.kind, mdblog::post::AssembleError::InvalidDate);
}

#[test]
fn artifact_round_trips_through_a_json_parser() {
    let files = vec![("hello.md".to_string(), source("January 05, 2024", "world"))];
    let out = build(&empty_table(), &files).expect("build should succeed");
    let value: serde_json::Value = serde_json::from_str(&out.artifacts[0].1).expect("valid JSON");
    assert_eq!(value.get("title").unwrap().as_str().unwrap(), "hello");
    assert_eq!(value.get("date").unwrap().as_str().unwrap(), "January 05, 2024");
    assert_eq!(value.get("header").unwrap().as_str().unwrap(), "<h1>Head</h1>");
    assert_eq!(value.get("body").unwrap().as_str().unwrap(), "<p>world</p>");
}

#[test]
fn artifact_escapes_special_characters() {
    let p = InternalPost {
        title: "a\"b\\c".to_string(),
        date: Date { year: 2024, month: 2, day: 29 },
        header: "line\nbreak\tand\rmore".to_string(),
        body: "control \u{1} char".to_string(),
    };
    let text = post_artifact_json(&p);
    let value: serde_json::Value = serde_json::from_str(&text).expect("valid JSON");
    assert_eq!(value.get("title").unwrap().as_str().unwrap(), "a\"b\\c");
    assert_eq!(value.get("date").unwrap().as_str().unwrap(), "February 29, 2024");
    assert_eq!(value.get("header").unwrap().as_str().unwrap(), "line\nbreak\tand\rmore");
    assert_eq!(value.get("body").unwrap().as_str().unwrap(), "control \u{1} char");
}

#[test]
fn index_artifact_lists_titles_in_order() {
    let titles = vec!["b".to_string(), "a".to_string()];
    let text = index_artifact(&titles);
    let expected = "export type Post = {name: string, date: string, header: string, body: string}\n\n export const posts: string[] = [\n  \"b\",\n  \"a\"\n];";
    assert_eq!(text, expected);
}

#[test]
fn load_table_reads_the_configuration_object() {
    let t = load_table(r#"{"a": {"class": "text-white"}}"#).expect("should parse");
    assert_eq!(t.rules.len(), 1);
    assert_eq!(t.rules[0].tag, "a");
    assert_eq!(t.rules[0].attrs, vec![("class".to_string(), "text-white".to_string())]);
}

#[test]
fn load_table_rejects_malformed_configuration() {
    assert!(load_table("not json").is_none());
    assert!(load_table(r#"{"a": 3}"#).is_none());
    assert!(load_table(r#"{"a": {"class": 3}}"#).is_none());
}
