//! JSON emission for the artifacts: string escaping, the per-post object,
//! and the title-index module text.  The output shape mirrors a
//! pretty-printer with two-space indentation, so every artifact is plain
//! JSON that any reader can decode back to exactly the written fields.

use vstd::prelude::*;

use crate::chars::{chars_to_string, push_str_chars, str_chars};
use crate::date::{date_chars, digit_char, format_date};
use crate::post::{post_view, InternalPost, PostView};

verus! {

/// Lower-case hexadecimal digit for `x` in 0..=15.
pub open spec fn hex_char(x: int) -> char {
    if x < 10 {
        digit_char(x)
    } else if x == 10 { 'a' }
    else if x == 11 { 'b' }
    else if x == 12 { 'c' }
    else if x == 13 { 'd' }
    else if x == 14 { 'e' }
    else { 'f' }
}

/// How one character appears inside a JSON string literal: quote and
/// backslash get a backslash, the named control characters their short
/// escapes, other control characters a `\u00xx` escape, and everything else
/// stands as itself.
pub open spec fn esc_char(c: char) -> Seq<char> {
    if c == '"' {
        seq!['\\', '"']
    } else if c == '\\' {
        seq!['\\', '\\']
    } else if c == '\u{8}' {
        seq!['\\', 'b']
    } else if c == '\t' {
        seq!['\\', 't']
    } else if c == '\n' {
        seq!['\\', 'n']
    } else if c == '\u{c}' {
        seq!['\\', 'f']
    } else if c == '\r' {
        seq!['\\', 'r']
    } else if (c as u32) < 32 {
        seq!['\\', 'u', '0', '0', hex_char(c as u32 as int / 16), hex_char(c as u32 as int % 16)]
    } else {
        seq![c]
    }
}

/// A whole text, escaped character by character.
pub open spec fn json_escaped(s: Seq<char>) -> Seq<char>
    decreases s.len(),
{
    if s.len() == 0 {
        Seq::<char>::empty()
    } else {
        json_escaped(s.drop_last()) + esc_char(s.last())
    }
}

/// A JSON string literal: quotes around the escaped text.
pub open spec fn json_string(s: Seq<char>) -> Seq<char> {
    seq!['"'] + json_escaped(s) + seq!['"']
}

fn push_esc_char(out: &mut Vec<char>, c: char)
    ensures
        final(out)@ == old(out)@ + esc_char(c),
{
    let u = c as u32;
    if c == '"' {
        out.push('\\');
        out.push('"');
    } else if c == '\\' {
        out.push('\\');
        out.push('\\');
    } else if u == 8 {
        out.push('\\');
        out.push('b');
    } else if c == '\t' {
        out.push('\\');
        out.push('t');
    } else if c == '\n' {
        out.push('\\');
        out.push('n');
    } else if u == 12 {
        out.push('\\');
        out.push('f');
    } else if c == '\r' {
        out.push('\\');
        out.push('r');
    } else if u < 32 {
        out.push('\\');
        out.push('u');
        out.push('0');
        out.push('0');
        out.push(crate::date::hex_char_exec(u / 16));
        out.push(crate::date::hex_char_exec(u % 16));
    } else {
        out.push(c);
    }
    assert(out@ =~= old(out)@ + esc_char(c));
}

/// Appends `s` as a JSON string literal.
fn push_json_string(out: &mut Vec<char>, s: &str)
    ensures
        final(out)@ == old(out)@ + json_string(s@),
{
    let v = str_chars(s);
    out.push('"');
    let mut j: usize = 0;
    while j < v.len()
        invariant
            j <= v@.len(),
            v@ == s@,
            out@ == old(out)@ + seq!['"'] + json_escaped(s@.take(j as int)),
        decreases v@.len() - j,
    {
        push_esc_char(out, v[j]);
        proof {
            assert(s@.take(j + 1 as int).drop_last() =~= s@.take(j as int));
            assert(s@.take(j + 1 as int).last() == s@[j as int]);
        }
        j += 1;
    }
    proof {
        assert(s@.take(s@.len() as int) =~= s@);
    }
    out.push('"');
    assert(out@ =~= old(out)@ + json_string(s@));
}

/// The per-post artifact: one JSON object with the title, the rendered date
/// string, the header line and the body, each a JSON string.
pub open spec fn post_json(p: PostView, date_str: Seq<char>) -> Seq<char> {
    "{\n  \"title\": "@ + json_string(p.title) + ",\n  \"date\": "@ + json_string(date_str)
        + ",\n  \"header\": "@ + json_string(p.header) + ",\n  \"body\": "@ + json_string(p.body)
        + "\n}"@
}

/// Serializes one assembled post into its artifact text.
pub fn post_artifact_json(p: &InternalPost) -> (r: String)
    requires
        p.date.wf(),
    ensures
        r@ == post_json(post_view(*p), date_chars(p.date)),
{
    let date_str = format_date(&p.date);
    let mut out: Vec<char> = Vec::new();
    push_str_chars(&mut out, "{\n  \"title\": ");
    push_json_string(&mut out, p.title.as_str());
    push_str_chars(&mut out, ",\n  \"date\": ");
    push_json_string(&mut out, date_str.as_str());
    push_str_chars(&mut out, ",\n  \"header\": ");
    push_json_string(&mut out, p.header.as_str());
    push_str_chars(&mut out, ",\n  \"body\": ");
    push_json_string(&mut out, p.body.as_str());
    push_str_chars(&mut out, "\n}");
    assert(out@ =~= post_json(post_view(*p), date_chars(p.date)));
    chars_to_string(&out)
}

/// The artifact's file name: the title with a `.json` extension.
pub fn artifact_name(title: &String) -> (r: String)
    ensures
        r@ == title@ + ".json"@,
{
    let mut out: Vec<char> = Vec::new();
    push_str_chars(&mut out, title.as_str());
    push_str_chars(&mut out, ".json");
    chars_to_string(&out)
}

/// The items of a JSON array of strings, one per line, two-space indented.
pub open spec fn titles_items(ts: Seq<Seq<char>>) -> Seq<char>
    decreases ts.len(),
{
    if ts.len() == 0 {
        Seq::<char>::empty()
    } else if ts.len() == 1 {
        "\n  "@ + json_string(ts[0])
    } else {
        titles_items(ts.drop_last()) + ",\n  "@ + json_string(ts.last())
    }
}

/// A JSON array of strings in the two-space pretty shape.
pub open spec fn titles_json(ts: Seq<Seq<char>>) -> Seq<char> {
    if ts.len() == 0 {
        "[]"@
    } else {
        "["@ + titles_items(ts) + "\n]"@
    }
}

/// The title-index artifact: the post type declaration, then the ordered
/// titles exported as an array.
pub open spec fn index_content(ts: Seq<Seq<char>>) -> Seq<char> {
    "export type Post = {name: string, date: string, header: string, body: string}"@
        + "\n\n export const posts: string[] = "@ + titles_json(ts) + ";"@
}

/// Renders the title-index artifact for the given titles, in order.
pub fn index_artifact(titles: &Vec<String>) -> (r: String)
    ensures
        r@ == index_content(titles@.map_values(|t: String| t@)),
{
    let ghost ts = titles@.map_values(|t: String| t@);
    let mut out: Vec<char> = Vec::new();
    push_str_chars(
        &mut out,
        "export type Post = {name: string, date: string, header: string, body: string}",
    );
    push_str_chars(&mut out, "\n\n export const posts: string[] = ");
    let ghost pre = out@;
    if titles.len() == 0 {
        push_str_chars(&mut out, "[]");
        assert(out@ =~= pre + titles_json(ts));
    } else {
        push_str_chars(&mut out, "[");
        let mut j: usize = 0;
        while j < titles.len()
            invariant
                j <= titles@.len(),
                titles@.len() > 0,
                ts == titles@.map_values(|t: String| t@),
                ts.len() == titles@.len(),
                out@ == pre + "["@ + titles_items(ts.take(j as int)),
            decreases titles@.len() - j,
        {
            if j > 0 {
                push_str_chars(&mut out, ",\n  ");
            } else {
                push_str_chars(&mut out, "\n  ");
            }
            push_json_string(&mut out, titles[j].as_str());
            proof {
                assert(ts[j as int] == titles@[j as int]@);
                assert(ts.take(j + 1 as int).drop_last() =~= ts.take(j as int));
                assert(ts.take(j + 1 as int).last() == ts[j as int]);
                if j == 0 {
                    assert(titles_items(ts.take(1)) == "\n  "@ + json_string(ts[0]));
                }
                assert(out@ =~= pre + "["@ + titles_items(ts.take(j + 1 as int)));
            }
            j += 1;
        }
        proof {
            assert(ts.take(ts.len() as int) =~= ts);
        }
        push_str_chars(&mut out, "\n]");
        assert(out@ =~= pre + titles_json(ts));
    }
    push_str_chars(&mut out, ";");
    assert(out@ =~= index_content(ts));
    chars_to_string(&out)
}

} // verus!
