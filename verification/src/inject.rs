//! The attribute injector: a single left-to-right pass over an HTML string
//! that finds substrings shaped like an opening tag — `<`, a tag name, a run
//! of attribute text free of `>`, then `>` — and, for tags configured in the
//! replacement table, appends one ` name="value"` fragment per configured
//! attribute, keeping the original attribute text verbatim.  Tags that are
//! not configured, and text outside any such match, pass through unchanged.
//!
//! This is deliberately not a structural HTML parser: attribute values that
//! contain a literal `>` corrupt the match, exactly as the scan defines.

use vstd::prelude::*;

verus! {

/// One configured tag: the attributes (name, value) appended to every
/// opening tag with this name.
pub struct AttrRule {
    pub tag: String,
    pub attrs: Vec<(String, String)>,
}

/// The replacement table: tag rules, applied first-match; well-formed tables
/// have pairwise distinct tag names.
pub struct ReplacementTable {
    pub rules: Vec<AttrRule>,
}

impl ReplacementTable {
    /// Tag names are pairwise distinct, as keys of the configuration object.
    pub open spec fn wf(self) -> bool {
        forall|i: int, j: int|
            0 <= i < j < self.rules@.len() ==> self.rules@[i].tag@ != self.rules@[j].tag@
    }
}

/// A word character, as in the tag-name alphabet: ASCII letters, digits, `_`.
pub open spec fn is_word_char(c: char) -> bool {
    let u = c as u32;
    (97 <= u && u <= 122) || (65 <= u && u <= 90) || (48 <= u && u <= 57) || u == 95
}

/// Index of the first `>` at or after `i`, if any.
pub open spec fn find_gt(s: Seq<char>, i: int) -> Option<int>
    decreases s.len() - i
    when 0 <= i
{
    if i >= s.len() {
        None
    } else if s[i] == '>' {
        Some(i)
    } else {
        find_gt(s, i + 1)
    }
}

pub proof fn lemma_find_gt(s: Seq<char>, i: int)
    requires
        0 <= i,
    ensures
        match find_gt(s, i) {
            Some(e) => i <= e < s.len() && s[e] == '>' && (forall|k: int|
                i <= k < e ==> s[k] != '>'),
            None => forall|k: int| i <= k < s.len() ==> s[k] != '>',
        },
    decreases s.len() - i,
{
    if i < s.len() && s[i] != '>' {
        lemma_find_gt(s, i + 1);
    }
}

/// End of the word-character run that starts at `i`.
pub open spec fn word_end(s: Seq<char>, i: int) -> int
    decreases s.len() - i
    when 0 <= i
{
    if i >= s.len() {
        i
    } else if !is_word_char(s[i]) {
        i
    } else {
        word_end(s, i + 1)
    }
}

pub proof fn lemma_word_end(s: Seq<char>, i: int)
    requires
        0 <= i <= s.len(),
    ensures
        i <= word_end(s, i) <= s.len(),
        forall|k: int| i <= k < word_end(s, i) ==> is_word_char(s[k]),
        word_end(s, i) < s.len() ==> !is_word_char(s[word_end(s, i)]),
    decreases s.len() - i,
{
    if i < s.len() && is_word_char(s[i]) {
        lemma_word_end(s, i + 1);
    }
}

/// Where an opening-tag match starting at `i` would end: `Some(e)` means the
/// match is `s[i ..= e]`, with `s[i] == '<'`, a word character right after,
/// and `e` the first `>` past the name's first character.
pub open spec fn match_end_at(s: Seq<char>, i: int) -> Option<int> {
    if s[i] == '<' && i + 1 < s.len() && is_word_char(s[i + 1]) {
        find_gt(s, i + 2)
    } else {
        None
    }
}

/// The tag name of a match starting at `i`: the maximal word-character run
/// after the `<`.
pub open spec fn tag_name_at(s: Seq<char>, i: int) -> Seq<char> {
    s.subrange(i + 1, word_end(s, i + 1))
}

/// First rule whose tag equals `name`, by index.
pub open spec fn lookup(rules: Seq<AttrRule>, name: Seq<char>) -> Option<int>
    decreases rules.len(),
{
    if rules.len() == 0 {
        None
    } else if rules[0].tag@ == name {
        Some(0)
    } else {
        match lookup(rules.drop_first(), name) {
            Some(k) => Some(k + 1),
            None => None,
        }
    }
}

pub proof fn lemma_lookup(rules: Seq<AttrRule>, name: Seq<char>)
    ensures
        match lookup(rules, name) {
            Some(k) => 0 <= k < rules.len() && rules[k].tag@ == name && (forall|j: int|
                0 <= j < k ==> rules[j].tag@ != name),
            None => forall|j: int| 0 <= j < rules.len() ==> rules[j].tag@ != name,
        },
    decreases rules.len(),
{
    if rules.len() > 0 && rules[0].tag@ != name {
        lemma_lookup(rules.drop_first(), name);
        match lookup(rules.drop_first(), name) {
            Some(k) => {
                assert(rules[k + 1] == rules.drop_first()[k]);
                assert forall|j: int| 0 <= j < k + 1 implies rules[j].tag@ != name by {
                    if j > 0 {
                        assert(rules[j] == rules.drop_first()[j - 1]);
                    }
                }
            },
            None => {
                assert forall|j: int| 0 <= j < rules.len() implies rules[j].tag@ != name by {
                    if j > 0 {
                        assert(rules[j] == rules.drop_first()[j - 1]);
                    }
                }
            },
        }
    }
}

/// The ` name="value"` fragment appended for one configured attribute.
pub open spec fn attr_frag(a: (String, String)) -> Seq<char> {
    seq![' '] + a.0@ + seq!['=', '"'] + a.1@ + seq!['"']
}

/// All fragments for a tag's configured attributes, in table order.
pub open spec fn appended_attrs(attrs: Seq<(String, String)>) -> Seq<char>
    decreases attrs.len(),
{
    if attrs.len() == 0 {
        Seq::<char>::empty()
    } else {
        appended_attrs(attrs.drop_last()) + attr_frag(attrs.last())
    }
}

/// What one matched opening tag `s[i ..= e]` becomes: unchanged when its name
/// is not configured; otherwise the original text up to (not including) the
/// closing `>`, then the appended fragments, then `>`.
pub open spec fn out_tag(rules: Seq<AttrRule>, s: Seq<char>, i: int, e: int) -> Seq<char> {
    match lookup(rules, tag_name_at(s, i)) {
        None => s.subrange(i, e + 1),
        Some(k) => s.subrange(i, e) + appended_attrs(rules[k].attrs@) + seq!['>'],
    }
}

/// The injector's output for the suffix of `s` that starts at `i`.
pub open spec fn inject_from(rules: Seq<AttrRule>, s: Seq<char>, i: int) -> Seq<char>
    decreases s.len() - i
    when 0 <= i <= s.len()
    via inject_from_dec
{
    if i >= s.len() {
        Seq::<char>::empty()
    } else {
        match match_end_at(s, i) {
            Some(e) => out_tag(rules, s, i, e) + inject_from(rules, s, e + 1),
            None => seq![s[i]] + inject_from(rules, s, i + 1),
        }
    }
}

#[via_fn]
proof fn inject_from_dec(rules: Seq<AttrRule>, s: Seq<char>, i: int) {
    if 0 <= i < s.len() {
        if s[i] == '<' && i + 1 < s.len() && is_word_char(s[i + 1]) {
            lemma_find_gt(s, i + 2);
        }
    }
}

/// The injector as a function on whole strings.
pub open spec fn inject(rules: Seq<AttrRule>, s: Seq<char>) -> Seq<char> {
    inject_from(rules, s, 0)
}

/// No attribute name or value of the rule contains `>`, so the appended
/// fragments cannot end a match early.
pub open spec fn gt_free(attrs: Seq<(String, String)>) -> bool {
    forall|i: int|
        0 <= i < attrs.len() ==> !(#[trigger] attrs[i]).0@.contains('>') && !attrs[i].1@.contains(
            '>',
        )
}

proof fn lemma_appended_gt_free(attrs: Seq<(String, String)>)
    requires
        gt_free(attrs),
    ensures
        forall|i: int|
            0 <= i < appended_attrs(attrs).len() ==> #[trigger] appended_attrs(attrs)[i] != '>',
    decreases attrs.len(),
{
    if attrs.len() > 0 {
        assert(gt_free(attrs.drop_last()));
        lemma_appended_gt_free(attrs.drop_last());
        let a = attrs.last();
        let f = attr_frag(a);
        let ad = appended_attrs(attrs.drop_last());
        assert forall|i: int| 0 <= i < f.len() implies #[trigger] f[i] != '>' by {
            if 1 <= i < 1 + a.0@.len() {
                assert(f[i] == a.0@[i - 1]);
                assert(!a.0@.contains('>'));
            } else if 3 + a.0@.len() <= i < 3 + a.0@.len() + a.1@.len() {
                assert(f[i] == a.1@[i - 3 - a.0@.len()]);
                assert(!a.1@.contains('>'));
            }
        }
        assert(appended_attrs(attrs) == ad + f);
        assert forall|i: int| 0 <= i < appended_attrs(attrs).len() implies #[trigger] appended_attrs(
            attrs,
        )[i] != '>' by {
            if i < ad.len() {
                assert(appended_attrs(attrs)[i] == ad[i]);
            } else {
                assert(appended_attrs(attrs)[i] == f[i - ad.len()]);
            }
        }
    }
}

/// A non-empty appended run starts with the space of its first fragment.
proof fn lemma_appended_first_char(attrs: Seq<(String, String)>)
    requires
        attrs.len() > 0,
    ensures
        appended_attrs(attrs).len() > 0,
        appended_attrs(attrs)[0] == ' ',
    decreases attrs.len(),
{
    let f = attr_frag(attrs.last());
    let ad = appended_attrs(attrs.drop_last());
    assert(f[0] == ' ');
    assert(appended_attrs(attrs) == ad + f);
    if attrs.len() > 1 {
        lemma_appended_first_char(attrs.drop_last());
        assert(appended_attrs(attrs)[0] == ad[0]);
    } else {
        assert(attrs.drop_last().len() == 0);
        assert(ad == Seq::<char>::empty());
        assert(appended_attrs(attrs)[0] == f[0]);
    }
}

proof fn lemma_find_gt_unique(s: Seq<char>, i: int, e: int)
    requires
        0 <= i <= e < s.len(),
        s[e] == '>',
        forall|k: int| i <= k < e ==> s[k] != '>',
    ensures
        find_gt(s, i) == Some(e),
    decreases e - i,
{
    if i < e {
        lemma_find_gt_unique(s, i + 1, e);
    }
}

proof fn lemma_word_end_unique(s: Seq<char>, i: int, w: int)
    requires
        0 <= i <= w <= s.len(),
        forall|k: int| i <= k < w ==> is_word_char(s[k]),
        w < s.len() ==> !is_word_char(s[w]),
    ensures
        word_end(s, i) == w,
    decreases w - i,
{
    if i < w {
        lemma_word_end_unique(s, i + 1, w);
    }
}

/// Every rule's attribute text is free of `>`.
pub open spec fn gt_free_table(rules: Seq<AttrRule>) -> bool {
    forall|k: int| 0 <= k < rules.len() ==> gt_free((#[trigger] rules[k]).attrs@)
}

proof fn lemma_find_gt_shift(s: Seq<char>, d: int, i: int)
    requires
        0 <= d <= s.len(),
        0 <= i,
    ensures
        match find_gt(s, d + i) {
            Some(e) => find_gt(s.skip(d), i) == Some(e - d),
            None => find_gt(s.skip(d), i) is None,
        },
    decreases s.len() - d - i,
{
    if d + i < s.len() {
        assert(s.skip(d)[i] == s[d + i]);
        if s[d + i] != '>' {
            lemma_find_gt_shift(s, d, i + 1);
        }
    }
}

proof fn lemma_word_end_shift(s: Seq<char>, d: int, i: int)
    requires
        0 <= d <= s.len(),
        0 <= i,
    ensures
        word_end(s.skip(d), i) == word_end(s, d + i) - d,
    decreases s.len() - d - i,
{
    if d + i < s.len() {
        assert(s.skip(d)[i] == s[d + i]);
        if is_word_char(s[d + i]) {
            lemma_word_end_shift(s, d, i + 1);
        }
    }
}

/// The scan looks only rightward: injecting from `d + i` in `s` is injecting
/// from `i` in the suffix of `s` that starts at `d`.
proof fn lemma_inject_shift(rules: Seq<AttrRule>, s: Seq<char>, d: int, i: int)
    requires
        0 <= d,
        0 <= i,
        d + i <= s.len(),
    ensures
        inject_from(rules, s, d + i) == inject_from(rules, s.skip(d), i),
    decreases s.len() - d - i,
{
    let t = s.skip(d);
    if d + i < s.len() {
        assert(t[i] == s[d + i]);
        if s[d + i] == '<' && d + i + 1 < s.len() && is_word_char(s[d + i + 1]) {
            assert(t[i + 1] == s[d + i + 1]);
            lemma_find_gt_shift(s, d, i + 2);
            match find_gt(s, d + i + 2) {
                Some(e) => {
                    lemma_find_gt(s, d + i + 2);
                    assert(match_end_at(s, d + i) == Some(e));
                    assert(match_end_at(t, i) == Some(e - d));
                    lemma_word_end_shift(s, d, i + 1);
                    lemma_word_end(s, d + i + 1);
                    assert(tag_name_at(t, i) =~= tag_name_at(s, d + i));
                    assert(t.subrange(i, e - d + 1) =~= s.subrange(d + i, e + 1));
                    assert(t.subrange(i, e - d) =~= s.subrange(d + i, e));
                    assert(out_tag(rules, t, i, e - d) == out_tag(rules, s, d + i, e));
                    lemma_inject_shift(rules, s, d, e - d + 1);
                },
                None => {
                    assert(match_end_at(s, d + i) is None);
                    assert(match_end_at(t, i) is None);
                    lemma_inject_shift(rules, s, d, i + 1);
                },
            }
        } else {
            assert(match_end_at(s, d + i) is None);
            assert(match_end_at(t, i) is None);
            lemma_inject_shift(rules, s, d, i + 1);
        }
    } else {
        assert(inject_from(rules, s, d + i) =~= Seq::<char>::empty());
        assert(inject_from(rules, t, i) =~= Seq::<char>::empty());
    }
}

/// The injector's first output character is the scanned character itself.
proof fn lemma_inject_from_first_char(rules: Seq<AttrRule>, s: Seq<char>, i: int)
    requires
        0 <= i < s.len(),
    ensures
        inject_from(rules, s, i).len() > 0,
        inject_from(rules, s, i)[0] == s[i],
{
    match match_end_at(s, i) {
        Some(e) => {
            lemma_find_gt(s, i + 2);
            assert(s.subrange(i, e + 1)[0] == s[i]);
            assert(s.subrange(i, e)[0] == s[i]);
        },
        None => {},
    }
}

/// A region with no `>` past its second character is scanned with no match
/// and passes through unchanged, under either injector.
proof fn lemma_no_gt_passthrough(rules: Seq<AttrRule>, s: Seq<char>, i: int)
    requires
        0 <= i <= s.len(),
        forall|k: int| i + 1 < k < s.len() ==> s[k] != '>',
    ensures
        inject_from(rules, s, i) == s.skip(i),
        inject_twice_from(rules, s, i) == s.skip(i),
    decreases s.len() - i,
{
    if i >= s.len() {
        assert(s.skip(i) =~= Seq::<char>::empty());
    } else {
        if s[i] == '<' && i + 1 < s.len() && is_word_char(s[i + 1]) {
            lemma_find_gt(s, i + 2);
            match find_gt(s, i + 2) {
                Some(e) => {
                    assert(s[e] == '>' && i + 2 <= e < s.len());
                },
                None => {},
            }
            assert(match_end_at(s, i) is None);
        }
        lemma_no_gt_passthrough(rules, s, i + 1);
        assert(s.skip(i) =~= seq![s[i]] + s.skip(i + 1));
    }
}

/// The injector that appends every configured fragment run twice: what one
/// pass over an already injected text amounts to.
pub open spec fn twice_tag(rules: Seq<AttrRule>, s: Seq<char>, i: int, e: int) -> Seq<char> {
    match lookup(rules, tag_name_at(s, i)) {
        None => s.subrange(i, e + 1),
        Some(k) => s.subrange(i, e) + appended_attrs(rules[k].attrs@) + appended_attrs(
            rules[k].attrs@,
        ) + seq!['>'],
    }
}

pub open spec fn inject_twice_from(rules: Seq<AttrRule>, s: Seq<char>, i: int) -> Seq<char>
    decreases s.len() - i
    when 0 <= i <= s.len()
    via inject_twice_from_dec
{
    if i >= s.len() {
        Seq::<char>::empty()
    } else {
        match match_end_at(s, i) {
            Some(e) => twice_tag(rules, s, i, e) + inject_twice_from(rules, s, e + 1),
            None => seq![s[i]] + inject_twice_from(rules, s, i + 1),
        }
    }
}

#[via_fn]
proof fn inject_twice_from_dec(rules: Seq<AttrRule>, s: Seq<char>, i: int) {
    if 0 <= i < s.len() {
        if s[i] == '<' && i + 1 < s.len() && is_word_char(s[i + 1]) {
            lemma_find_gt(s, i + 2);
        }
    }
}

proof fn lemma_reapply_from(rules: Seq<AttrRule>, s: Seq<char>, i: int)
    requires
        gt_free_table(rules),
        0 <= i <= s.len(),
    ensures
        inject(rules, inject_from(rules, s, i)) == inject_twice_from(rules, s, i),
    decreases s.len() - i,
{
    if i >= s.len() {
        assert(inject(rules, inject_from(rules, s, i)) =~= Seq::<char>::empty());
    } else {
        let c = s[i];
        match match_end_at(s, i) {
            Some(e) => {
                lemma_find_gt(s, i + 2);
                lemma_word_end(s, i + 1);
                let w = word_end(s, i + 1);
                assert(w <= e) by {
                    if w > e {
                        assert(is_word_char(s[e]));
                    }
                }
                let a = out_tag(rules, s, i, e);
                let r = inject_from(rules, s, e + 1);
                let cur = a + r;
                assert(inject_from(rules, s, i) == cur);
                lemma_lookup(rules, tag_name_at(s, i));
                let app = match lookup(rules, tag_name_at(s, i)) {
                    Some(k) => appended_attrs(rules[k].attrs@),
                    None => Seq::<char>::empty(),
                };
                match lookup(rules, tag_name_at(s, i)) {
                    Some(k) => {
                        assert(gt_free(rules[k].attrs@));
                        lemma_appended_gt_free(rules[k].attrs@);
                        assert(a == s.subrange(i, e) + app + seq!['>']);
                    },
                    None => {
                        assert(a == s.subrange(i, e + 1));
                    },
                }
                // the rewritten text is again one match of the same name
                assert(a.len() >= e - i + 1 >= 3);
                assert(cur[0] == s[i] && cur[1] == s[i + 1]);
                assert(cur[a.len() - 1] == '>');
                assert forall|j: int| 2 <= j < a.len() - 1 implies cur[j] != '>' by {
                    if j < e - i {
                        assert(cur[j] == s[i + j]);
                    } else {
                        assert(cur[j] == app[j - (e - i)]);
                    }
                }
                lemma_find_gt_unique(cur, 2, a.len() - 1);
                assert(match_end_at(cur, 0) == Some(a.len() - 1));
                assert forall|j: int| 1 <= j < w - i implies is_word_char(cur[j]) by {
                    assert(cur[j] == s[i + j]);
                }
                assert(!is_word_char(cur[w - i])) by {
                    if w < e {
                        assert(cur[w - i] == s[w]);
                    } else {
                        match lookup(rules, tag_name_at(s, i)) {
                            Some(k) => {
                                if rules[k].attrs@.len() == 0 {
                                    assert(cur[w - i] == '>');
                                } else {
                                    lemma_appended_first_char(rules[k].attrs@);
                                    assert(cur[w - i] == app[0]);
                                }
                            },
                            None => {
                                assert(cur[w - i] == s[e]);
                            },
                        }
                    }
                }
                lemma_word_end_unique(cur, 1, w - i);
                assert(tag_name_at(cur, 0) =~= tag_name_at(s, i));
                // the scan past the rewritten tag is the scan of the rest
                lemma_inject_shift(rules, cur, a.len() as int, 0);
                assert(cur.skip(a.len() as int) =~= r);
                lemma_reapply_from(rules, s, e + 1);
                match lookup(rules, tag_name_at(s, i)) {
                    Some(k) => {
                        assert(cur.subrange(0, a.len() - 1) =~= s.subrange(i, e) + app);
                        assert(out_tag(rules, cur, 0, a.len() - 1) =~= twice_tag(rules, s, i, e));
                    },
                    None => {
                        assert(cur.subrange(0, a.len() as int) =~= a);
                        assert(out_tag(rules, cur, 0, a.len() - 1) =~= twice_tag(rules, s, i, e));
                    },
                }
                assert(inject(rules, cur) == out_tag(rules, cur, 0, a.len() - 1) + inject_from(
                    rules,
                    cur,
                    a.len() as int,
                ));
                assert(inject(rules, cur) == twice_tag(rules, s, i, e) + inject_twice_from(
                    rules,
                    s,
                    e + 1,
                ));
            },
            None => {
                if c == '<' && i + 1 < s.len() && is_word_char(s[i + 1]) {
                    // an unclosed tag start: nothing to the right holds a '>',
                    // so both passes copy the rest through unchanged
                    lemma_find_gt(s, i + 2);
                    lemma_no_gt_passthrough(rules, s, i);
                    let t = s.skip(i);
                    assert forall|k: int| 1 + 1 < k < t.len() implies t[k] != '>' by {
                        assert(t[k] == s[i + k]);
                    }
                    lemma_no_gt_passthrough(rules, t, 0);
                    assert(t.skip(0) =~= t);
                } else {
                    let r = inject_from(rules, s, i + 1);
                    let cur = seq![c] + r;
                    assert(inject_from(rules, s, i) == cur);
                    assert(match_end_at(cur, 0) is None) by {
                        if c == '<' && 1 < cur.len() && is_word_char(cur[1]) {
                            assert(i + 1 < s.len()) by {
                                if i + 1 >= s.len() {
                                    assert(r =~= Seq::<char>::empty());
                                }
                            }
                            lemma_inject_from_first_char(rules, s, i + 1);
                            assert(cur[1] == s[i + 1]);
                        }
                    }
                    lemma_inject_shift(rules, cur, 1, 0);
                    assert(cur.skip(1) =~= r);
                    lemma_reapply_from(rules, s, i + 1);
                    assert(inject(rules, cur) == seq![c] + inject_twice_from(rules, s, i + 1));
                }
            },
        }
    }
}

/// Re-applying the injector to its own output with the same table appends
/// the configured attributes a second time — the transform is deliberately
/// not idempotent.  One pass over an already injected text acts as the
/// twice-appending injector on the source, provided no configured attribute
/// text contains a `>`.
pub proof fn lemma_reapply_appends_attributes_again(rules: Seq<AttrRule>, s: Seq<char>)
    requires
        gt_free_table(rules),
    ensures
        inject(rules, inject(rules, s)) == inject_twice_from(rules, s, 0),
{
    lemma_reapply_from(rules, s, 0);
}

/// An opening tag whose name is not configured is reproduced byte-identical:
/// where the scan matches `s[i ..= e]` and the tag's name is not a key of
/// the table, the output carries that match unchanged, in place.
pub proof fn lemma_unconfigured_tag_unchanged(rules: Seq<AttrRule>, s: Seq<char>, i: int, e: int)
    requires
        0 <= i < s.len(),
        match_end_at(s, i) == Some(e),
        lookup(rules, tag_name_at(s, i)) is None,
    ensures
        i < e + 1 <= s.len(),
        inject_from(rules, s, i) == s.subrange(i, e + 1) + inject_from(rules, s, e + 1),
{
    lemma_find_gt(s, i + 2);
}

proof fn lemma_no_configured_from(rules: Seq<AttrRule>, s: Seq<char>, i: int)
    requires
        0 <= i <= s.len(),
        forall|k: int|
            0 <= k < s.len() && (#[trigger] match_end_at(s, k)) is Some ==> lookup(
                rules,
                tag_name_at(s, k),
            ) is None,
    ensures
        inject_from(rules, s, i) == s.skip(i),
    decreases s.len() - i,
{
    if i >= s.len() {
        assert(s.skip(i) =~= Seq::<char>::empty());
    } else {
        match match_end_at(s, i) {
            Some(e) => {
                lemma_find_gt(s, i + 2);
                lemma_no_configured_from(rules, s, e + 1);
                assert(s.skip(i) =~= s.subrange(i, e + 1) + s.skip(e + 1));
            },
            None => {
                lemma_no_configured_from(rules, s, i + 1);
                assert(s.skip(i) =~= seq![s[i]] + s.skip(i + 1));
            },
        }
    }
}

/// A string none of whose opening tags is configured comes back unchanged.
pub proof fn lemma_no_configured_tags_identity(rules: Seq<AttrRule>, s: Seq<char>)
    requires
        forall|k: int|
            0 <= k < s.len() && (#[trigger] match_end_at(s, k)) is Some ==> lookup(
                rules,
                tag_name_at(s, k),
            ) is None,
    ensures
        inject(rules, s) == s,
{
    lemma_no_configured_from(rules, s, 0);
    assert(s.skip(0) =~= s);
}

fn is_word_char_exec(c: char) -> (b: bool)
    ensures
        b == is_word_char(c),
{
    let u = c as u32;
    (97 <= u && u <= 122) || (65 <= u && u <= 90) || (48 <= u && u <= 57) || u == 95
}

fn find_gt_exec(v: &Vec<char>, from: usize) -> (r: Option<usize>)
    ensures
        match r {
            Some(e) => find_gt(v@, from as int) == Some(e as int),
            None => find_gt(v@, from as int) is None,
        },
{
    let mut j = from;
    while j < v.len()
        invariant
            from <= j,
            find_gt(v@, from as int) == find_gt(v@, j as int),
        decreases v@.len() - j,
    {
        if v[j] == '>' {
            return Some(j);
        }
        j += 1;
    }
    None
}

fn word_end_exec(v: &Vec<char>, from: usize) -> (r: usize)
    requires
        from <= v@.len(),
    ensures
        r as int == word_end(v@, from as int),
        from <= r <= v@.len(),
{
    let mut j = from;
    while j < v.len()
        invariant
            from <= j <= v@.len(),
            word_end(v@, from as int) == word_end(v@, j as int),
        decreases v@.len() - j,
    {
        if !is_word_char_exec(v[j]) {
            return j;
        }
        j += 1;
    }
    j
}

/// Finds the first rule for the tag name held in `v[start .. end]`.
fn lookup_exec(table: &ReplacementTable, v: &Vec<char>, start: usize, end: usize) -> (r: Option<
    usize,
>)
    requires
        start <= end <= v@.len(),
    ensures
        match r {
            Some(k) => lookup(table.rules@, v@.subrange(start as int, end as int)) == Some(
                k as int,
            ) && k < table.rules@.len(),
            None => lookup(table.rules@, v@.subrange(start as int, end as int)) is None,
        },
{
    let ghost name = v@.subrange(start as int, end as int);
    proof {
        lemma_lookup(table.rules@, name);
    }
    let mut k: usize = 0;
    while k < table.rules.len()
        invariant
            k <= table.rules@.len(),
            start <= end <= v@.len(),
            forall|j: int| 0 <= j < k ==> table.rules@[j].tag@ != name,
            name == v@.subrange(start as int, end as int),
            lookup(table.rules@, name) matches Some(m) ==> 0 <= m < table.rules@.len()
                && table.rules@[m].tag@ == name && (forall|j: int|
                0 <= j < m ==> table.rules@[j].tag@ != name),
            lookup(table.rules@, name) is None ==> forall|j: int|
                0 <= j < table.rules@.len() ==> table.rules@[j].tag@ != name,
        decreases table.rules@.len() - k,
    {
        if crate::chars::seg_eq_str(v, start, end, table.rules[k].tag.as_str()) {
            return Some(k);
        }
        k += 1;
    }
    None
}

/// Copies `v[a .. b]` onto the end of `out`.
fn copy_range(out: &mut Vec<char>, v: &Vec<char>, a: usize, b: usize)
    requires
        a <= b <= v@.len(),
    ensures
        final(out)@ == old(out)@ + v@.subrange(a as int, b as int),
{
    let mut j = a;
    while j < b
        invariant
            a <= j <= b <= v@.len(),
            out@ == old(out)@ + v@.subrange(a as int, j as int),
        decreases b - j,
    {
        out.push(v[j]);
        assert(out@ =~= old(out)@ + v@.subrange(a as int, j + 1 as int));
        j += 1;
    }
    assert(out@ =~= old(out)@ + v@.subrange(a as int, b as int));
}

/// Appends the configured ` name="value"` fragments, in table order.
fn push_attrs(out: &mut Vec<char>, attrs: &Vec<(String, String)>)
    ensures
        final(out)@ == old(out)@ + appended_attrs(attrs@),
{
    let mut j: usize = 0;
    while j < attrs.len()
        invariant
            j <= attrs@.len(),
            out@ == old(out)@ + appended_attrs(attrs@.take(j as int)),
        decreases attrs@.len() - j,
    {
        out.push(' ');
        crate::chars::push_str_chars(out, attrs[j].0.as_str());
        out.push('=');
        out.push('"');
        crate::chars::push_str_chars(out, attrs[j].1.as_str());
        out.push('"');
        proof {
            assert(attrs@.take(j + 1 as int).drop_last() =~= attrs@.take(j as int));
            assert(attrs@.take(j + 1 as int).last() == attrs@[j as int]);
            assert(out@ =~= old(out)@ + (appended_attrs(attrs@.take(j as int)) + attr_frag(
                attrs@[j as int],
            )));
        }
        j += 1;
    }
    proof {
        assert(attrs@.take(attrs@.len() as int) =~= attrs@);
    }
}

/// Rewrites every matched opening tag of `html` whose name is configured in
/// `table`, appending the configured attributes; all other text is returned
/// unchanged.
pub fn replace(table: &ReplacementTable, html: &str) -> (r: String)
    ensures
        r@ == inject(table.rules@, html@),
{
    let hv = crate::chars::str_chars(html);
    let ghost s = hv@;
    let mut out: Vec<char> = Vec::new();
    let mut i: usize = 0;
    while i < hv.len()
        invariant
            i <= s.len(),
            hv@ == s,
            s == html@,
            inject(table.rules@, s) == out@ + inject_from(table.rules@, s, i as int),
        decreases s.len() - i,
    {
        let c = hv[i];
        let mut plain = true;
        if c == '<' && i + 1 < hv.len() {
            if is_word_char_exec(hv[i + 1]) {
                match find_gt_exec(&hv, i + 2) {
                    Some(e) => {
                        plain = false;
                        proof {
                            lemma_find_gt(s, i + 2);
                            assert(match_end_at(s, i as int) == Some(e as int));
                        }
                        let we = word_end_exec(&hv, i + 1);
                        proof {
                            lemma_word_end(s, i + 1);
                            assert(s[e as int] == '>' && !is_word_char(s[e as int]));
                            if we > e {
                                assert(is_word_char(s[e as int]));
                            }
                            assert(we <= e);
                        }
                        let ghost out0 = out@;
                        match lookup_exec(table, &hv, i + 1, we) {
                            Some(k) => {
                                copy_range(&mut out, &hv, i, e);
                                push_attrs(&mut out, &table.rules[k].attrs);
                                out.push('>');
                                proof {
                                    assert(out@ =~= out0 + out_tag(
                                        table.rules@,
                                        s,
                                        i as int,
                                        e as int,
                                    ));
                                }
                            },
                            None => {
                                copy_range(&mut out, &hv, i, e + 1);
                                proof {
                                    assert(out@ =~= out0 + out_tag(
                                        table.rules@,
                                        s,
                                        i as int,
                                        e as int,
                                    ));
                                }
                            },
                        }
                        i = e + 1;
                    },
                    None => {
                        proof {
                            assert(match_end_at(s, i as int) is None);
                        }
                    },
                }
            }
        }
        if plain {
            proof {
                assert(match_end_at(s, i as int) is None);
            }
            out.push(c);
            i += 1;
        }
    }
    proof {
        assert(inject_from(table.rules@, s, s.len() as int) =~= Seq::<char>::empty());
        assert(out@ =~= inject(table.rules@, s));
    }
    crate::chars::chars_to_string(&out)
}

} // verus!
