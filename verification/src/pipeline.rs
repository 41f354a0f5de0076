//! The collection pipeline: assembles every source file in enumeration
//! order, aborting on the first failure, then orders the posts by date,
//! newest first, with a stable insertion sort — posts sharing a date keep
//! their enumeration order.

use vstd::prelude::*;

use crate::date::{date_le, date_lt, date_lt_exec, Date};
use crate::inject::{AttrRule, ReplacementTable};
use crate::post::{assemble_post, assemble_spec, post_view, AssembleError, InternalPost, PostView};

verus! {

/// Newest first: every later post is on or before every earlier one.
pub open spec fn sorted_desc(s: Seq<InternalPost>) -> bool {
    forall|i: int, j: int| 0 <= i < j < s.len() ==> date_le(s[j].date, s[i].date)
}

/// Inserts `p` behind every post dated on or after it: the first position
/// whose date is strictly earlier than `p`'s receives `p`.
pub open spec fn insert_desc(s: Seq<InternalPost>, p: InternalPost) -> Seq<InternalPost>
    decreases s.len(),
{
    if s.len() == 0 {
        seq![p]
    } else if date_lt(s[0].date, p.date) {
        seq![p] + s
    } else {
        seq![s[0]] + insert_desc(s.drop_first(), p)
    }
}

/// The stable descending sort: posts are inserted in enumeration order, each
/// behind all posts dated on or after it.
pub open spec fn sort_desc(s: Seq<InternalPost>) -> Seq<InternalPost>
    decreases s.len(),
{
    if s.len() == 0 {
        Seq::<InternalPost>::empty()
    } else {
        insert_desc(sort_desc(s.drop_last()), s.last())
    }
}

/// `insert_desc` is insertion at the first strictly-earlier position.
proof fn lemma_insert_desc_at(s: Seq<InternalPost>, p: InternalPost, pos: int)
    requires
        0 <= pos <= s.len(),
        forall|k: int| 0 <= k < pos ==> !date_lt(s[k].date, p.date),
        pos < s.len() ==> date_lt(s[pos].date, p.date),
    ensures
        insert_desc(s, p) == s.insert(pos, p),
    decreases s.len(),
{
    if s.len() == 0 {
        assert(insert_desc(s, p) =~= s.insert(pos, p));
    } else if pos == 0 {
        assert(date_lt(s[0].date, p.date));
        assert(insert_desc(s, p) =~= s.insert(0, p));
    } else {
        assert(!date_lt(s[0].date, p.date));
        let t = s.drop_first();
        assert(forall|k: int| 0 <= k < pos - 1 ==> t[k] == s[k + 1]);
        lemma_insert_desc_at(t, p, pos - 1);
        assert(insert_desc(s, p) =~= s.insert(pos, p));
    }
}

/// Inserting keeps the order and adds exactly `p` to the contents.
proof fn lemma_insert_desc_props(s: Seq<InternalPost>, p: InternalPost)
    requires
        sorted_desc(s),
    ensures
        sorted_desc(insert_desc(s, p)),
        insert_desc(s, p).to_multiset() == s.to_multiset().insert(p),
        insert_desc(s, p).len() == s.len() + 1,
    decreases s.len(),
{
    broadcast use vstd::seq_lib::group_seq_properties;

    if s.len() == 0 {
        assert(insert_desc(s, p) =~= Seq::<InternalPost>::empty().push(p));
        Seq::<InternalPost>::empty().to_multiset_ensures();
        assert(insert_desc(s, p).to_multiset() =~= s.to_multiset().insert(p));
    } else if date_lt(s[0].date, p.date) {
        let r = seq![p] + s;
        assert forall|i: int, j: int| 0 <= i < j < r.len() implies date_le(
            r[j].date,
            r[i].date,
        ) by {
            if i == 0 {
                assert(date_le(s[j - 1].date, s[0].date) || j == 1);
            }
        }
        assert(r.drop_first() =~= s);
        to_multiset_prepend(s, p);
    } else {
        let t = s.drop_first();
        assert(forall|k: int| 0 <= k < t.len() ==> t[k] == s[k + 1]);
        lemma_insert_desc_props(t, p);
        let q = insert_desc(t, p);
        let r = seq![s[0]] + q;
        assert(insert_desc(s, p) == r);
        // every element of q is an element of t or is p, so s[0] is latest
        assert forall|i: int, j: int| 0 <= i < j < r.len() implies date_le(
            r[j].date,
            r[i].date,
        ) by {
            if i == 0 {
                broadcast use vstd::multiset::group_multiset_axioms;

                let x = q[j - 1];
                q.to_multiset_ensures();
                t.to_multiset_ensures();
                assert(q.contains(x));
                assert(q.to_multiset().count(x) > 0);
                if x == p {
                    assert(date_le(p.date, s[0].date));
                } else {
                    assert(q.to_multiset() == t.to_multiset().insert(p));
                    assert(t.to_multiset().count(x) > 0);
                    assert(t.contains(x));
                    let k = choose|k: int| 0 <= k < t.len() && t[k] == x;
                    assert(t[k] == s[k + 1]);
                    assert(date_le(s[k + 1].date, s[0].date));
                }
            }
        }
        to_multiset_prepend(t, s[0]);
        to_multiset_prepend(q, s[0]);
        assert(s =~= seq![s[0]] + t);
        assert(insert_desc(s, p).to_multiset() =~= s.to_multiset().insert(p)) by {
            broadcast use vstd::multiset::group_multiset_axioms;
            broadcast use vstd::multiset::group_multiset_properties;

        }
    }
}

/// The multiset of `[x] + s` is the multiset of `s` plus `x`.
proof fn to_multiset_prepend(s: Seq<InternalPost>, x: InternalPost)
    ensures
        (seq![x] + s).to_multiset() == s.to_multiset().insert(x),
    decreases s.len(),
{
    broadcast use vstd::seq_lib::group_seq_properties;

    if s.len() == 0 {
        assert(seq![x] + s =~= Seq::<InternalPost>::empty().push(x));
        Seq::<InternalPost>::empty().to_multiset_ensures();
    } else {
        let r = seq![x] + s;
        assert(r.drop_last() =~= seq![x] + s.drop_last());
        to_multiset_prepend(s.drop_last(), x);
        s.drop_last().to_multiset_ensures();
        r.drop_last().to_multiset_ensures();
        s.to_multiset_ensures();
        assert(s =~= s.drop_last().push(s.last()));
        assert(r =~= r.drop_last().push(s.last()));
        assert(r.to_multiset() =~= s.to_multiset().insert(x));
    }
}

/// Inserting a post places it behind every post sharing its date.
proof fn lemma_insert_desc_filter(s: Seq<InternalPost>, p: InternalPost, d: Date)
    requires
        sorted_desc(s),
    ensures
        insert_desc(s, p).filter(|q: InternalPost| q.date == d) == (if p.date == d {
            s.filter(|q: InternalPost| q.date == d).push(p)
        } else {
            s.filter(|q: InternalPost| q.date == d)
        }),
    decreases s.len(),
{
    broadcast use vstd::seq_lib::group_seq_properties;

    let pred = |q: InternalPost| q.date == d;
    if s.len() == 0 {
        reveal(Seq::filter);
        assert(insert_desc(s, p) =~= seq![p] + Seq::<InternalPost>::empty());
        Seq::<InternalPost>::empty().lemma_filter_prepend(p, pred);
        if p.date == d {
            assert(insert_desc(s, p).filter(pred) =~= s.filter(pred).push(p));
        } else {
            assert(insert_desc(s, p).filter(pred) =~= s.filter(pred));
        }
    } else if date_lt(s[0].date, p.date) {
        s.lemma_filter_prepend(p, pred);
        if p.date == d {
            assert forall|k: int| 0 <= k < s.len() implies !pred(s[k]) by {
                assert(date_le(s[k].date, s[0].date));
            }
            s.lemma_all_neg_filter_empty(pred);
            assert(insert_desc(s, p).filter(pred) =~= s.filter(pred).push(p));
        } else {
            assert(insert_desc(s, p).filter(pred) =~= s.filter(pred));
        }
    } else {
        let t = s.drop_first();
        assert(forall|k: int| 0 <= k < t.len() ==> t[k] == s[k + 1]);
        lemma_insert_desc_filter(t, p, d);
        let q = insert_desc(t, p);
        q.lemma_filter_prepend(s[0], pred);
        t.lemma_filter_prepend(s[0], pred);
        assert(s =~= seq![s[0]] + t);
        let head = if pred(s[0]) {
            seq![s[0]]
        } else {
            Seq::<InternalPost>::empty()
        };
        assert(s.filter(pred) == head + t.filter(pred));
        assert((seq![s[0]] + q).filter(pred) == head + q.filter(pred));
        if p.date == d {
            assert(head + t.filter(pred).push(p) =~= (head + t.filter(pred)).push(p));
        }
    }
}

/// Posts sharing any one date keep their enumeration order through the sort.
pub proof fn lemma_sort_desc_stable(s: Seq<InternalPost>, d: Date)
    ensures
        sort_desc(s).filter(|q: InternalPost| q.date == d) == s.filter(
            |q: InternalPost| q.date == d,
        ),
    decreases s.len(),
{
    reveal(Seq::filter);
    let pred = |q: InternalPost| q.date == d;
    if s.len() > 0 {
        lemma_sort_desc_stable(s.drop_last(), d);
        lemma_sort_desc_props(s.drop_last());
        lemma_insert_desc_filter(sort_desc(s.drop_last()), s.last(), d);
    }
}

/// The sort orders posts newest first and keeps exactly the same posts.
pub proof fn lemma_sort_desc_props(s: Seq<InternalPost>)
    ensures
        sorted_desc(sort_desc(s)),
        sort_desc(s).to_multiset() == s.to_multiset(),
        sort_desc(s).len() == s.len(),
    decreases s.len(),
{
    broadcast use vstd::seq_lib::group_seq_properties;

    if s.len() > 0 {
        lemma_sort_desc_props(s.drop_last());
        lemma_insert_desc_props(sort_desc(s.drop_last()), s.last());
        s.to_multiset_ensures();
        s.drop_last().to_multiset_ensures();
        assert(s =~= s.drop_last().push(s.last()));
    }
}

/// A value sitting at two distinct indices is counted at least twice.
proof fn lemma_two_indices_count(s: Seq<InternalPost>, i: int, j: int)
    requires
        0 <= i < j < s.len(),
        s[i] == s[j],
    ensures
        s.to_multiset().count(s[i]) >= 2,
{
    broadcast use vstd::multiset::group_multiset_axioms;

    s.to_multiset_ensures();
    let x = s[i];
    let r = s.remove(i);
    s.remove_ensures(i);
    assert(r[j - 1] == x);
    assert(r.contains(x));
    r.to_multiset_ensures();
    assert(s.to_multiset().remove(x).count(x) > 0);
}

/// A multiset count of two or more puts the value at two distinct indices.
proof fn lemma_count_two_indices(s: Seq<InternalPost>, x: InternalPost) -> (r: (int, int))
    requires
        s.to_multiset().count(x) >= 2,
    ensures
        0 <= r.0 < r.1 < s.len(),
        s[r.0] == x,
        s[r.1] == x,
{
    broadcast use vstd::multiset::group_multiset_axioms;

    s.to_multiset_ensures();
    assert(s.contains(x));
    let a = choose|a: int| 0 <= a < s.len() && s[a] == x;
    let t = s.remove(a);
    s.remove_ensures(a);
    t.to_multiset_ensures();
    assert(t.to_multiset() == s.to_multiset().remove(x));
    assert(t.to_multiset().count(x) > 0);
    assert(t.contains(x));
    let b = choose|b: int| 0 <= b < t.len() && t[b] == x;
    if b < a {
        assert(s[b] == t[b]);
        (b, a)
    } else {
        assert(s[b + 1] == t[b]);
        (a, b + 1)
    }
}

/// With pairwise distinct dates the sorted order is strictly descending.
pub proof fn lemma_sort_desc_strict(s: Seq<InternalPost>)
    requires
        forall|i: int, j: int| 0 <= i < j < s.len() ==> s[i].date != s[j].date,
    ensures
        forall|i: int, j: int|
            0 <= i < j < sort_desc(s).len() ==> date_lt(sort_desc(s)[j].date, sort_desc(s)[i].date),
{
    broadcast use vstd::multiset::group_multiset_axioms;

    lemma_sort_desc_props(s);
    let r = sort_desc(s);
    assert forall|i: int, j: int| 0 <= i < j < r.len() implies date_lt(
        r[j].date,
        r[i].date,
    ) by {
        assert(date_le(r[j].date, r[i].date));
        if !date_lt(r[j].date, r[i].date) {
            assert(r[i].date == r[j].date);
            r.to_multiset_ensures();
            s.to_multiset_ensures();
            if r[i] == r[j] {
                lemma_two_indices_count(r, i, j);
                let (a, b) = lemma_count_two_indices(s, r[i]);
                assert(s[a].date != s[b].date);
            } else {
                assert(r.contains(r[i]) && r.contains(r[j]));
                assert(s.to_multiset().count(r[i]) > 0 && s.to_multiset().count(r[j]) > 0);
                assert(s.contains(r[i]) && s.contains(r[j]));
                let a = choose|a: int| 0 <= a < s.len() && s[a] == r[i];
                let b = choose|b: int| 0 <= b < s.len() && s[b] == r[j];
                assert(a != b);
                assert(s[a].date != s[b].date);
            }
        }
    }
}

/// The first position whose post is dated strictly earlier than `p`.
fn find_insert_pos(out: &Vec<InternalPost>, p: &InternalPost) -> (pos: usize)
    ensures
        pos <= out@.len(),
        forall|k: int| 0 <= k < pos ==> !date_lt(out@[k].date, p.date),
        pos < out@.len() ==> date_lt(out@[pos as int].date, p.date),
{
    let mut pos: usize = 0;
    while pos < out.len()
        invariant
            pos <= out@.len(),
            forall|k: int| 0 <= k < pos ==> !date_lt(out@[k].date, p.date),
        decreases out@.len() - pos,
    {
        if date_lt_exec(&out[pos].date, &p.date) {
            return pos;
        }
        pos += 1;
    }
    pos
}

/// Sorts the assembled posts by date, newest first; posts sharing a date
/// keep their enumeration order.
pub fn sort_posts(posts: Vec<InternalPost>) -> (r: Vec<InternalPost>)
    ensures
        r@ == sort_desc(posts@),
{
    let ghost orig = posts@;
    let mut rest = posts;
    let mut out: Vec<InternalPost> = Vec::new();
    let ghost done: int = 0;
    while rest.len() > 0
        invariant
            0 <= done <= orig.len(),
            rest@ == orig.skip(done),
            out@ == sort_desc(orig.take(done)),
        decreases rest@.len(),
    {
        let p = rest.remove(0);
        assert(p == orig[done]);
        assert(rest@ =~= orig.skip(done + 1));
        let ghost out0 = out@;
        let pos = find_insert_pos(&out, &p);
        out.insert(pos, p);
        proof {
            lemma_insert_desc_at(out0, p, pos as int);
            assert(out@ =~= insert_desc(out0, p));
            assert(orig.take(done + 1).drop_last() =~= orig.take(done));
            assert(orig.take(done + 1).last() == orig[done]);
        }
        proof {
            done = done + 1;
        }
    }
    proof {
        assert(orig.take(orig.len() as int) =~= orig);
    }
    out
}

/// A failed run: the file that could not be assembled, and why.
#[derive(Debug)]
pub struct BuildFailure {
    pub file: String,
    pub kind: AssembleError,
}

/// Assembling every file in enumeration order: the records of all of them,
/// or the first failure with the offending file's name.
pub open spec fn assemble_all_spec(rules: Seq<AttrRule>, files: Seq<(String, String)>) -> Result<
    Seq<PostView>,
    (Seq<char>, AssembleError),
>
    decreases files.len(),
{
    if files.len() == 0 {
        Ok(Seq::<PostView>::empty())
    } else {
        match assemble_spec(rules, files[0].0@, files[0].1@) {
            Err(e) => Err((files[0].0@, e)),
            Ok(p) => match assemble_all_spec(rules, files.drop_first()) {
                Err(fe) => Err(fe),
                Ok(ps) => Ok(seq![p] + ps),
            },
        }
    }
}

proof fn lemma_assemble_all_ok(rules: Seq<AttrRule>, files: Seq<(String, String)>, vs: Seq<PostView>)
    requires
        vs.len() == files.len(),
        forall|j: int|
            0 <= j < files.len() ==> assemble_spec(rules, files[j].0@, files[j].1@) == Ok::<
                PostView,
                AssembleError,
            >(vs[j]),
    ensures
        assemble_all_spec(rules, files) == Ok::<Seq<PostView>, (Seq<char>, AssembleError)>(vs),
    decreases files.len(),
{
    if files.len() == 0 {
        assert(vs =~= Seq::<PostView>::empty());
    } else {
        let ft = files.drop_first();
        let vt = vs.drop_first();
        assert(forall|k: int| 0 <= k < ft.len() ==> ft[k] == files[k + 1]);
        assert(forall|k: int| 0 <= k < vt.len() ==> vt[k] == vs[k + 1]);
        lemma_assemble_all_ok(rules, ft, vt);
        assert(vs =~= seq![vs[0]] + vt);
    }
}

proof fn lemma_assemble_all_err(
    rules: Seq<AttrRule>,
    files: Seq<(String, String)>,
    i: int,
    e: AssembleError,
)
    requires
        0 <= i < files.len(),
        forall|j: int|
            0 <= j < i ==> assemble_spec(rules, files[j].0@, files[j].1@) is Ok,
        assemble_spec(rules, files[i].0@, files[i].1@) == Err::<PostView, AssembleError>(e),
    ensures
        assemble_all_spec(rules, files) == Err::<Seq<PostView>, (Seq<char>, AssembleError)>(
            (files[i].0@, e),
        ),
    decreases i,
{
    if i > 0 {
        let ft = files.drop_first();
        assert(forall|k: int| 0 <= k < ft.len() ==> ft[k] == files[k + 1]);
        lemma_assemble_all_err(rules, ft, i - 1, e);
    }
}

/// Assembles every source file, in the given order, aborting on the first
/// failure with the offending file's name.
pub fn assemble_all(table: &ReplacementTable, files: &Vec<(String, String)>) -> (r: Result<
    Vec<InternalPost>,
    BuildFailure,
>)
    ensures
        match r {
            Ok(ps) => assemble_all_spec(table.rules@, files@) == Ok::<
                Seq<PostView>,
                (Seq<char>, AssembleError),
            >(ps@.map_values(|p: InternalPost| post_view(p))) && (forall|j: int|
                0 <= j < ps@.len() ==> (#[trigger] ps@[j].date).wf()),
            Err(f) => assemble_all_spec(table.rules@, files@) == Err::<
                Seq<PostView>,
                (Seq<char>, AssembleError),
            >((f.file@, f.kind)),
        },
{
    let mut out: Vec<InternalPost> = Vec::new();
    let mut i: usize = 0;
    while i < files.len()
        invariant
            i <= files@.len(),
            out@.len() == i,
            forall|j: int|
                0 <= j < i ==> assemble_spec(table.rules@, files@[j].0@, files@[j].1@) == Ok::<
                    PostView,
                    AssembleError,
                >(post_view(#[trigger] out@[j])),
            forall|j: int| 0 <= j < i ==> (#[trigger] out@[j].date).wf(),
        decreases files@.len() - i,
    {
        match assemble_post(table, files[i].0.as_str(), files[i].1.as_str()) {
            Ok(p) => {
                out.push(p);
            },
            Err(e) => {
                proof {
                    assert forall|j: int| 0 <= j < i implies assemble_spec(
                        table.rules@,
                        files@[j].0@,
                        files@[j].1@,
                    ) is Ok by {
                        assert(assemble_spec(table.rules@, files@[j].0@, files@[j].1@) == Ok::<
                            PostView,
                            AssembleError,
                        >(post_view(out@[j])));
                    }
                    lemma_assemble_all_err(table.rules@, files@, i as int, e);
                }
                return Err(BuildFailure { file: files[i].0.clone(), kind: e });
            },
        }
        i += 1;
    }
    proof {
        let vs = out@.map_values(|p: InternalPost| post_view(p));
        lemma_assemble_all_ok(table.rules@, files@, vs);
    }
    Ok(out)
}

/// The descending insertion over the mathematical post records.
pub open spec fn insert_desc_v(s: Seq<PostView>, p: PostView) -> Seq<PostView>
    decreases s.len(),
{
    if s.len() == 0 {
        seq![p]
    } else if date_lt(s[0].date, p.date) {
        seq![p] + s
    } else {
        seq![s[0]] + insert_desc_v(s.drop_first(), p)
    }
}

/// The stable descending sort over the mathematical post records.
pub open spec fn sort_desc_v(s: Seq<PostView>) -> Seq<PostView>
    decreases s.len(),
{
    if s.len() == 0 {
        Seq::<PostView>::empty()
    } else {
        insert_desc_v(sort_desc_v(s.drop_last()), s.last())
    }
}

proof fn lemma_insert_desc_commutes(s: Seq<InternalPost>, p: InternalPost)
    ensures
        insert_desc(s, p).map_values(|q: InternalPost| post_view(q)) == insert_desc_v(
            s.map_values(|q: InternalPost| post_view(q)),
            post_view(p),
        ),
    decreases s.len(),
{
    let f = |q: InternalPost| post_view(q);
    if s.len() == 0 {
        assert(insert_desc(s, p).map_values(f) =~= insert_desc_v(s.map_values(f), post_view(p)));
    } else if date_lt(s[0].date, p.date) {
        assert((seq![p] + s).map_values(f) =~= seq![post_view(p)] + s.map_values(f));
    } else {
        lemma_insert_desc_commutes(s.drop_first(), p);
        assert(s.drop_first().map_values(f) =~= s.map_values(f).drop_first());
        assert((seq![s[0]] + insert_desc(s.drop_first(), p)).map_values(f) =~= seq![
            post_view(s[0]),
        ] + insert_desc(s.drop_first(), p).map_values(f));
    }
}

/// Sorting and projecting to the mathematical records commute.
pub proof fn lemma_sort_desc_commutes(s: Seq<InternalPost>)
    ensures
        sort_desc(s).map_values(|q: InternalPost| post_view(q)) == sort_desc_v(
            s.map_values(|q: InternalPost| post_view(q)),
        ),
    decreases s.len(),
{
    let f = |q: InternalPost| post_view(q);
    if s.len() == 0 {
        assert(sort_desc(s).map_values(f) =~= sort_desc_v(s.map_values(f)));
    } else {
        lemma_sort_desc_commutes(s.drop_last());
        lemma_insert_desc_commutes(sort_desc(s.drop_last()), s.last());
        assert(s.drop_last().map_values(f) =~= s.map_values(f).drop_last());
        assert(post_view(s.last()) == s.map_values(f).last());
    }
}

/// Everything one run produces: the per-post artifacts in their final order,
/// and the title index.
#[derive(Debug)]
pub struct BuildOutput {
    /// One (file name, content) pair per post, newest first.
    pub artifacts: Vec<(String, String)>,
    /// The title-index artifact's content.
    pub index: String,
}

/// Runs the whole pipeline on in-memory sources: assembles every file,
/// sorts the posts newest first (stable for equal dates), and renders every
/// artifact.  Nothing is emitted when any file fails.
pub fn build(table: &ReplacementTable, files: &Vec<(String, String)>) -> (r: Result<
    BuildOutput,
    BuildFailure,
>)
    ensures
        match r {
            Ok(b) => match assemble_all_spec(table.rules@, files@) {
                Ok(vs) => {
                    let sorted = sort_desc_v(vs);
                    &&& b.artifacts@.len() == sorted.len()
                    &&& forall|j: int|
                        0 <= j < sorted.len() ==> (#[trigger] b.artifacts@[j]).0@ == sorted[j].title
                            + ".json"@
                    &&& forall|j: int|
                        0 <= j < sorted.len() ==> (#[trigger] b.artifacts@[j]).1@
                            == crate::json::post_json(
                            sorted[j],
                            crate::date::date_chars(sorted[j].date),
                        )
                    &&& b.index@ == crate::json::index_content(
                        sorted.map_values(|p: PostView| p.title),
                    )
                },
                Err(fe) => false,
            },
            Err(f) => assemble_all_spec(table.rules@, files@) == Err::<
                Seq<PostView>,
                (Seq<char>, AssembleError),
            >((f.file@, f.kind)),
        },
{
    let posts = match assemble_all(table, files) {
        Ok(ps) => ps,
        Err(f) => {
            return Err(f);
        },
    };
    let ghost vs = posts@.map_values(|p: InternalPost| post_view(p));
    proof {
        lemma_sort_desc_commutes(posts@);
    }
    let sorted = sort_posts(posts);
    let ghost sv = sort_desc_v(vs);
    assert(sorted@.map_values(|p: InternalPost| post_view(p)) == sv);
    proof {
        lemma_sort_wf(posts@);
    }
    let mut artifacts: Vec<(String, String)> = Vec::new();
    let mut titles: Vec<String> = Vec::new();
    let mut j: usize = 0;
    while j < sorted.len()
        invariant
            j <= sorted@.len(),
            sorted@.map_values(|p: InternalPost| post_view(p)) == sv,
            sv.len() == sorted@.len(),
            forall|k: int| 0 <= k < sorted@.len() ==> (#[trigger] sorted@[k].date).wf(),
            artifacts@.len() == j,
            titles@.len() == j,
            forall|k: int|
                0 <= k < j ==> (#[trigger] artifacts@[k]).0@ == sv[k].title + ".json"@,
            forall|k: int|
                0 <= k < j ==> (#[trigger] artifacts@[k]).1@ == crate::json::post_json(
                    sv[k],
                    crate::date::date_chars(sv[k].date),
                ),
            forall|k: int| 0 <= k < j ==> (#[trigger] titles@[k])@ == sv[k].title,
        decreases sorted@.len() - j,
    {
        assert(post_view(sorted@[j as int]) == sv[j as int]);
        let name = crate::json::artifact_name(&sorted[j].title);
        let content = crate::json::post_artifact_json(&sorted[j]);
        let title = sorted[j].title.clone();
        artifacts.push((name, content));
        titles.push(title);
        j += 1;
    }
    let index = crate::json::index_artifact(&titles);
    proof {
        assert(titles@.map_values(|t: String| t@) =~= sv.map_values(|p: PostView| p.title));
    }
    Ok(BuildOutput { artifacts, index })
}

/// Sorting keeps every date well-formed.
proof fn lemma_sort_wf(s: Seq<InternalPost>)
    requires
        forall|j: int| 0 <= j < s.len() ==> (#[trigger] s[j].date).wf(),
    ensures
        forall|j: int| 0 <= j < sort_desc(s).len() ==> (#[trigger] sort_desc(s)[j].date).wf(),
{
    broadcast use vstd::multiset::group_multiset_axioms;

    lemma_sort_desc_props(s);
    let r = sort_desc(s);
    assert forall|j: int| 0 <= j < r.len() implies (#[trigger] r[j].date).wf() by {
        r.to_multiset_ensures();
        s.to_multiset_ensures();
        assert(r.contains(r[j]));
        assert(s.to_multiset().count(r[j]) > 0);
        assert(s.contains(r[j]));
        let k = choose|k: int| 0 <= k < s.len() && s[k] == r[j];
        assert(s[k].date.wf());
    }
}

} // verus!
