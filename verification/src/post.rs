//! Post assembly: one raw source file becomes an internal post record.  The
//! first line (after an optional `"Date: "` label, with surrounding
//! whitespace trimmed) must parse as a "Month Day, Year" date; the rest is
//! rendered to HTML by the markdown crate, run through the attribute
//! injector, and split at its first line break into a header line and a
//! body.  Each way that can fail is its own error value.

use vstd::prelude::*;

use crate::chars::{chars_to_string, find_char, find_char_exec, seg_eq_str, str_chars, subvec};
use crate::date::{parse_date, parsed_date_of, Date};
use crate::inject::{inject, replace, AttrRule, ReplacementTable};

verus! {

/// A fully assembled, pre-serialization post record.
#[derive(Debug)]
pub struct InternalPost {
    pub title: String,
    pub date: Date,
    pub header: String,
    pub body: String,
}

/// The mathematical shape of a post: the same fields over char sequences.
pub struct PostView {
    pub title: Seq<char>,
    pub date: Date,
    pub header: Seq<char>,
    pub body: Seq<char>,
}

pub open spec fn post_view(p: InternalPost) -> PostView {
    PostView { title: p.title@, date: p.date, header: p.header@, body: p.body@ }
}

/// Why one source file could not be assembled.
#[derive(Clone, Copy, PartialEq, Eq, Structural, Debug)]
pub enum AssembleError {
    /// The raw text has no line break, so there is no date line.
    MissingDateLine,
    /// The first line does not parse as a "Month Day, Year" date.
    InvalidDate,
    /// The injected HTML has no line break, so there is no header line.
    MissingHeader,
}

/// What `markdown::to_html` renders for a given source text.
pub uninterp spec fn html_of(s: Seq<char>) -> Seq<char>;

/// Relies on `markdown::to_html`: a pure text-to-text rendering whose result
/// depends on the input characters alone; with the default options it never
/// fails or panics.
#[verifier::external_body]
fn render_markdown(s: &str) -> (r: String)
    ensures
        r@ == html_of(s@),
{
    markdown::to_html(s)
}

/// ASCII whitespace, as trimmed around the date text.
pub open spec fn is_space(c: char) -> bool {
    c == ' ' || c == '\t' || c == '\r' || c == '\n'
}

/// End of the whitespace run that starts at `i`.
pub open spec fn space_end(s: Seq<char>, i: int) -> int
    decreases s.len() - i
    when 0 <= i
{
    if i >= s.len() {
        i
    } else if !is_space(s[i]) {
        i
    } else {
        space_end(s, i + 1)
    }
}

/// Start of the whitespace run that ends right before `j`.
pub open spec fn space_back(s: Seq<char>, j: int) -> int
    decreases j
    when j <= s.len()
{
    if j <= 0 {
        j
    } else if !is_space(s[j - 1]) {
        j
    } else {
        space_back(s, j - 1)
    }
}

/// The text with leading and trailing ASCII whitespace removed.
pub open spec fn trimmed(s: Seq<char>) -> Seq<char> {
    let a = space_end(s, 0);
    let b = space_back(s, s.len() as int);
    if a <= b {
        s.subrange(a, b)
    } else {
        Seq::<char>::empty()
    }
}

fn is_space_exec(c: char) -> (b: bool)
    ensures
        b == is_space(c),
{
    c == ' ' || c == '\t' || c == '\r' || c == '\n'
}

/// Where the leading whitespace of `v` ends.
fn space_end_exec(v: &Vec<char>) -> (r: usize)
    ensures
        r as int == space_end(v@, 0),
        r <= v@.len(),
{
    let mut a: usize = 0;
    while a < v.len()
        invariant
            a <= v@.len(),
            space_end(v@, 0) == space_end(v@, a as int),
        decreases v@.len() - a,
    {
        if !is_space_exec(v[a]) {
            return a;
        }
        a += 1;
    }
    a
}

/// Where the trailing whitespace of `v` starts.
fn space_back_exec(v: &Vec<char>) -> (r: usize)
    ensures
        r as int == space_back(v@, v@.len() as int),
        r <= v@.len(),
{
    let mut b: usize = v.len();
    while b > 0
        invariant
            b <= v@.len(),
            space_back(v@, v@.len() as int) == space_back(v@, b as int),
        decreases b,
    {
        if !is_space_exec(v[b - 1]) {
            return b;
        }
        b -= 1;
    }
    b
}

/// Trims leading and trailing ASCII whitespace.
fn trim_chars(v: &Vec<char>) -> (r: Vec<char>)
    ensures
        r@ == trimmed(v@),
{
    let a = space_end_exec(v);
    let b = space_back_exec(v);
    if a <= b {
        subvec(v, a, b)
    } else {
        let r: Vec<char> = Vec::new();
        assert(r@ =~= trimmed(v@));
        r
    }
}

/// The optional `"Date: "` label, stripped once from the front.
pub open spec fn strip_label(s: Seq<char>) -> Seq<char> {
    if s.len() >= 6 && s.subrange(0, 6) == "Date: "@ {
        s.skip(6)
    } else {
        s
    }
}

/// The date text of a source: the first line, without the optional label,
/// trimmed.
pub open spec fn date_text_of(content: Seq<char>, n: int) -> Seq<char> {
    trimmed(strip_label(content.subrange(0, n)))
}

/// First occurrence of the literal `".md"` at or after `i`.
pub open spec fn find_md(s: Seq<char>, i: int) -> Option<int>
    decreases s.len() - i
    when 0 <= i
{
    if i + 3 > s.len() {
        None
    } else if s.subrange(i, i + 3) == ".md"@ {
        Some(i)
    } else {
        find_md(s, i + 1)
    }
}

/// A post's title: the file's identifying name with the first occurrence of
/// the literal `".md"` removed — a substring removal, not a suffix strip.
pub open spec fn title_of(name: Seq<char>) -> Seq<char> {
    match find_md(name, 0) {
        None => name,
        Some(i) => name.subrange(0, i) + name.skip(i + 3),
    }
}

/// Finds the first occurrence of the literal `".md"`.
fn find_md_exec(v: &Vec<char>) -> (r: Option<usize>)
    ensures
        match r {
            Some(i) => find_md(v@, 0) == Some(i as int) && i + 3 <= v@.len(),
            None => find_md(v@, 0) is None,
        },
{
    if v.len() < 3 {
        return None;
    }
    let mut i: usize = 0;
    while i <= v.len() - 3
        invariant
            v@.len() >= 3,
            i <= v@.len(),
            find_md(v@, 0) == find_md(v@, i as int),
        decreases v@.len() - i,
    {
        if seg_eq_str(v, i, i + 3, ".md") {
            return Some(i);
        }
        i += 1;
    }
    None
}

/// Derives the title from the file's identifying name.
pub fn title_from_name(name: &str) -> (r: String)
    ensures
        r@ == title_of(name@),
{
    let v = str_chars(name);
    let found = find_md_exec(&v);
    match found {
        None => {
            assert(title_of(name@) == name@);
            chars_to_string(&v)
        },
        Some(i) => {
            let vlen = v.len();
            let mut out = subvec(&v, 0, i);
            let tail = subvec(&v, i + 3, vlen);
            let mut k: usize = 0;
            while k < tail.len()
                invariant
                    k <= tail@.len(),
                    out@ == v@.subrange(0, i as int) + tail@.subrange(0, k as int),
                decreases tail@.len() - k,
            {
                out.push(tail[k]);
                assert(out@ =~= v@.subrange(0, i as int) + tail@.subrange(0, k + 1 as int));
                k += 1;
            }
            proof {
                assert(tail@.subrange(0, tail@.len() as int) =~= tail@);
                assert(out@ =~= title_of(name@));
            }
            chars_to_string(&out)
        },
    }
}

/// What assembling a source file yields: the assembled record, or the first
/// failure in order — no line break, unparseable date, no header line.
pub open spec fn assemble_spec(
    rules: Seq<AttrRule>,
    filename: Seq<char>,
    content: Seq<char>,
) -> Result<PostView, AssembleError> {
    match find_char(content, 0, '\n') {
        None => Err(AssembleError::MissingDateLine),
        Some(n) => match parsed_date_of(date_text_of(content, n)) {
            None => Err(AssembleError::InvalidDate),
            Some(ymd) => {
                let rendered = inject(rules, html_of(content.skip(n + 1)));
                match find_char(rendered, 0, '\n') {
                    None => Err(AssembleError::MissingHeader),
                    Some(m) => Ok(
                        PostView {
                            title: title_of(filename),
                            date: Date {
                                year: ymd.0 as i32,
                                month: ymd.1 as u8,
                                day: ymd.2 as u8,
                            },
                            header: rendered.subrange(0, m),
                            body: rendered.skip(m + 1),
                        },
                    ),
                }
            },
        },
    }
}

/// Assembles one source file into a post record: date line, markdown
/// rendering, attribute injection, header/body split.
pub fn assemble_post(table: &ReplacementTable, filename: &str, content: &str) -> (r: Result<
    InternalPost,
    AssembleError,
>)
    ensures
        match r {
            Ok(p) => assemble_spec(table.rules@, filename@, content@) == Ok::<
                PostView,
                AssembleError,
            >(post_view(p)) && p.date.wf(),
            Err(e) => assemble_spec(table.rules@, filename@, content@) == Err::<
                PostView,
                AssembleError,
            >(e),
        },
{
    let cv = str_chars(content);
    let n = match find_char_exec(&cv, 0, '\n') {
        None => {
            return Err(AssembleError::MissingDateLine);
        },
        Some(n) => n,
    };
    proof {
        crate::chars::lemma_find_char(cv@, 0, '\n');
    }
    let date_line = subvec(&cv, 0, n);
    let stripped: Vec<char> = if date_line.len() >= 6 && seg_eq_str(&date_line, 0, 6, "Date: ") {
        subvec(&date_line, 6, date_line.len())
    } else {
        date_line
    };
    assert(stripped@ == strip_label(content@.subrange(0, n as int)));
    let date_vec = trim_chars(&stripped);
    let date_str = chars_to_string(&date_vec);
    assert(date_str@ == date_text_of(content@, n as int));
    let date = match parse_date(date_str.as_str()) {
        None => {
            return Err(AssembleError::InvalidDate);
        },
        Some(d) => d,
    };
    let clen = cv.len();
    let rest = subvec(&cv, n + 1, clen);
    let rest_str = chars_to_string(&rest);
    let html = render_markdown(rest_str.as_str());
    let injected = replace(table, html.as_str());
    let ghost rendered = inject(table.rules@, html_of(content@.skip(n + 1)));
    assert(injected@ == rendered);
    let jv = str_chars(injected.as_str());
    let m = match find_char_exec(&jv, 0, '\n') {
        None => {
            return Err(AssembleError::MissingHeader);
        },
        Some(m) => m,
    };
    proof {
        crate::chars::lemma_find_char(jv@, 0, '\n');
    }
    let jlen = jv.len();
    let header = chars_to_string(&subvec(&jv, 0, m));
    let body = chars_to_string(&subvec(&jv, m + 1, jlen));
    let title = title_from_name(filename);
    let p = InternalPost { title, date, header, body };
    Ok(p)
}

} // verus!
