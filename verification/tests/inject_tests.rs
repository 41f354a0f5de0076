use mdblog::inject::{replace, AttrRule, ReplacementTable};

fn rule(tag: &str, attrs: &[(&str, &str)]) -> AttrRule {
    AttrRule {
        tag: tag.to_string(),
        attrs: attrs.iter().map(|(a, v)| (a.to_string(), v.to_string())).collect(),
    }
}

fn table(rules: Vec<AttrRule>) -> ReplacementTable {
    ReplacementTable { rules }
}

#[test]
fn test_convert() {
    let html = r#"<div><a href="bonk.com">bonk</a><p>hewwo</p></div>"#;

    let repl_map = table(vec![
        rule("a", &[("class", "text-white")]),
        rule("p", &[("class", "text-blue-500")]),
    ]);

    let res = replace(&repl_map, html);

    let desired = r#"<div><a href="bonk.com" class="text-white">bonk</a><p class="text-blue-500">hewwo</p></div>"#;
    assert_eq!(res, desired);
}

#[test]
fn unconfigured_tags_pass_through_unchanged() {
    let t = table(vec![rule("a", &[("class", "text-white")])]);
    let html = r#"<div id="x"><p>hi</p><a>y</a></div>"#;
    let res = replace(&t, html);
    // only the <a> tag is configured; every other opening tag is byte-identical
    assert_eq!(res, r#"<div id="x"><p>hi</p><a class="text-white">y</a></div>"#);
}

#[test]
fn empty_table_is_identity() {
    let t = table(vec![]);
    let html = "<div><a href=\"x\">y</a>\nplain text <b>z</b></div>";
    assert_eq!(replace(&t, html), html);
}

#[test]
fn reapplying_appends_attributes_again() {
    let t = table(vec![rule("a", &[("class", "text-white")])]);
    let once = replace(&t, r#"<a href="x">y</a>"#);
    assert_eq!(once, r#"<a href="x" class="text-white">y</a>"#);
    let twice = replace(&t, &once);
    assert_eq!(twice, r#"<a href="x" class="text-white" class="text-white">y</a>"#);
}

#[test]
fn reapplying_with_mixed_content_doubles_only_configured_tags() {
    let t = table(vec![rule("a", &[("class", "w")])]);
    let html = r#"<div><a href="x">t</a> plain</div>"#;
    let once = replace(&t, html);
    assert_eq!(once, r#"<div><a href="x" class="w">t</a> plain</div>"#);
    let twice = replace(&t, &once);
    assert_eq!(twice, r#"<div><a href="x" class="w" class="w">t</a> plain</div>"#);
}

#[test]
fn multiple_attributes_all_appended() {
    let t = table(vec![rule("p", &[("class", "c"), ("id", "i")])]);
    let res = replace(&t, "<p>x</p>");
    // the appended order is not part of the documented contract
    let opt_a = "<p class=\"c\" id=\"i\">x</p>";
    let opt_b = "<p id=\"i\" class=\"c\">x</p>";
    assert!(res == opt_a || res == opt_b, "unexpected output: {res}");
}

#[test]
fn malformed_tags_pass_through() {
    let t = table(vec![rule("a", &[("class", "c")])]);
    // no closing '>' anywhere: nothing matches
    assert_eq!(replace(&t, "<a href=\"x\" oops"), "<a href=\"x\" oops");
    // '<' followed by a non-word character does not start a tag
    assert_eq!(replace(&t, "1 < 2 > 3"), "1 < 2 > 3");
}

#[test]
fn attribute_value_with_gt_corrupts_match() {
    // documented limitation: the scan ends the match at the first '>'
    let t = table(vec![rule("a", &[("class", "c")])]);
    let res = replace(&t, r#"<a title="x>y">z</a>"#);
    assert_eq!(res, r#"<a title="x class="c">y">z</a>"#);
}

#[test]
fn closing_tags_are_not_opening_tags() {
    let t = table(vec![rule("a", &[("class", "c")])]);
    let res = replace(&t, "<a>z</a>");
    assert_eq!(res, "<a class=\"c\">z</a>");
}
