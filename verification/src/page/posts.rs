//! The ordered post collection: loading in walk order with a fail-fast
//! policy, and the derivation of the date-sorted index entries.
use vstd::prelude::*;
use vstd::string::*;

use crate::builder::{LoadPage, SourceFile, SourceFileV};
use crate::error::{ContentParseError, ContentParseErrorV};
use crate::page::index::index_views;
use crate::page::post::{
    spec_post_index_of, spec_post_load, Post, PostIndex, PostIndexV, PostV,
};
use crate::text::{
    seq_ends_with, seq_le, seq_lt, seq_starts_with, str_ends_with, str_lt,
    lemma_seq_lt_asymmetric, lemma_seq_lt_total, lemma_seq_lt_transitive,
};

verus! {

/// The views of a sequence of posts.
pub open spec fn post_views(v: Seq<Post>) -> Seq<PostV> {
    v.map_values(|p: Post| p@)
}

/// The views of a sequence of source files.
pub open spec fn source_views(v: Seq<SourceFile>) -> Seq<SourceFileV> {
    v.map_values(|s: SourceFile| s@)
}

/// A file of the content tree is a content source when its name ends in
/// the content-file extension `.md`; everything else is passed over.
pub fn is_markdown_path(path: &str) -> (r: bool)
    ensures
        r == seq_ends_with(path@, ".md"@),
{
    str_ends_with(path, ".md")
}

/// The posts of the site, in the order the directory walk found their
/// source files. Nothing here is sorted: chronological order is imposed
/// on the derived index entries alone.
#[derive(Debug)]
pub struct Posts {
    inner: Vec<Post>,
}

impl View for Posts {
    type V = Seq<PostV>;

    closed spec fn view(&self) -> Seq<PostV> {
        post_views(self.inner@)
    }
}

/// What loading a list of source files yields: the posts in walk order,
/// or the error of the first file that fails to parse.
pub open spec fn spec_load_posts(sources: Seq<SourceFileV>) -> Result<
    Seq<PostV>,
    ContentParseErrorV,
>
    decreases sources.len(),
{
    if sources.len() == 0 {
        Ok(Seq::empty())
    } else {
        match spec_post_load(sources[0].path, sources[0].content) {
            Ok(p) => match spec_load_posts(sources.drop_first()) {
                Ok(ps) => Ok(seq![p] + ps),
                Err(e) => Err(e),
            },
            Err(e) => Err(e),
        }
    }
}

/// Fail-fast: one source file that fails to parse makes the whole load
/// fail, whatever the other files hold.
pub proof fn lemma_load_fail_fast(sources: Seq<SourceFileV>, i: int)
    requires
        0 <= i < sources.len(),
        spec_post_load(sources[i].path, sources[i].content) is Err,
    ensures
        spec_load_posts(sources) is Err,
    decreases sources.len(),
{
    if i > 0 {
        if spec_post_load(sources[0].path, sources[0].content) is Ok {
            assert(sources.drop_first()[i - 1] == sources[i]);
            lemma_load_fail_fast(sources.drop_first(), i - 1);
        }
    }
}

/// The index entries of the posts, in walk order.
pub open spec fn spec_index_of_posts(ps: Seq<PostV>) -> Seq<PostIndexV> {
    ps.map_values(|p: PostV| spec_post_index_of(p))
}

/// Insert an entry into a run: it goes after every entry whose date is
/// not older, so entries with equal dates keep their existing order.
pub open spec fn spec_insert_desc(x: PostIndexV, s: Seq<PostIndexV>) -> Seq<PostIndexV>
    decreases s.len(),
{
    if s.len() == 0 {
        seq![x]
    } else if seq_lt(s[0].date, x.date) {
        seq![x] + s
    } else {
        seq![s[0]] + spec_insert_desc(x, s.drop_first())
    }
}

/// The entries sorted by date, newest first, stably: entries are taken in
/// input order and each is inserted after its equals.
pub open spec fn spec_sort_desc(s: Seq<PostIndexV>) -> Seq<PostIndexV>
    decreases s.len(),
{
    if s.len() == 0 {
        Seq::empty()
    } else {
        spec_insert_desc(s.last(), spec_sort_desc(s.drop_last()))
    }
}

/// Entries in non-ascending date order.
pub open spec fn spec_sorted_desc(s: Seq<PostIndexV>) -> bool {
    forall|i: int, j: int| 0 <= i < j < s.len() ==> seq_le(#[trigger] s[j].date, #[trigger] s[i].date)
}

/// Entries in strictly descending date order.
pub open spec fn spec_strictly_sorted_desc(s: Seq<PostIndexV>) -> bool {
    forall|i: int, j: int| 0 <= i < j < s.len() ==> seq_lt(#[trigger] s[j].date, #[trigger] s[i].date)
}

/// The predicate selecting entries of one date.
pub open spec fn date_is(d: Seq<char>) -> spec_fn(PostIndexV) -> bool {
    |p: PostIndexV| p.date == d
}

/// `seq_lt` is irreflexive.
proof fn lemma_seq_lt_irreflexive(a: Seq<char>)
    ensures
        !seq_lt(a, a),
{
    lemma_seq_lt_asymmetric(a, a);
}

/// `seq_le` then `seq_lt` chains to `seq_lt`.
proof fn lemma_seq_le_lt_trans(a: Seq<char>, b: Seq<char>, c: Seq<char>)
    requires
        seq_le(a, b),
        seq_lt(b, c),
    ensures
        seq_lt(a, c),
{
    if seq_lt(a, b) {
        lemma_seq_lt_transitive(a, b, c);
    }
}

/// Where the inserted entry lands: after the `j` entries that are not
/// older, before the rest.
proof fn lemma_insert_desc_at(x: PostIndexV, s: Seq<PostIndexV>, j: int)
    requires
        0 <= j <= s.len(),
        forall|m: int| 0 <= m < j ==> !seq_lt(#[trigger] s[m].date, x.date),
        j < s.len() ==> seq_lt(s[j].date, x.date),
    ensures
        spec_insert_desc(x, s) == s.take(j) + seq![x] + s.skip(j),
    decreases j,
{
    if j == 0 {
        if s.len() == 0 {
            assert(s.take(0) + seq![x] + s.skip(0) =~= seq![x]);
        } else {
            assert(s.take(0) + seq![x] + s.skip(0) =~= seq![x] + s);
        }
    } else {
        assert(!seq_lt(s[0].date, x.date));
        let df = s.drop_first();
        assert forall|m: int| 0 <= m < j - 1 implies !seq_lt(#[trigger] df[m].date, x.date) by {
            assert(df[m] == s[m + 1]);
        }
        if j - 1 < df.len() {
            assert(df[j - 1] == s[j]);
        }
        lemma_insert_desc_at(x, df, j - 1);
        assert(seq![s[0]] + (df.take(j - 1) + seq![x] + df.skip(j - 1)) =~= s.take(j) + seq![x]
            + s.skip(j));
    }
}

/// Every entry of an insertion result is the inserted entry or one of the
/// run's entries.
proof fn lemma_insert_desc_elems(x: PostIndexV, s: Seq<PostIndexV>)
    ensures
        forall|k: int|
            0 <= k < spec_insert_desc(x, s).len() ==> (#[trigger] spec_insert_desc(x, s)[k] == x
                || exists|m: int| 0 <= m < s.len() && spec_insert_desc(x, s)[k] == s[m]),
    decreases s.len(),
{
    let r = spec_insert_desc(x, s);
    if s.len() == 0 {
    } else if seq_lt(s[0].date, x.date) {
        assert forall|k: int| 0 <= k < r.len() implies (#[trigger] r[k] == x || exists|m: int|
            0 <= m < s.len() && r[k] == s[m]) by {
            if k > 0 {
                assert(r[k] == s[k - 1]);
            }
        }
    } else {
        let df = s.drop_first();
        lemma_insert_desc_elems(x, df);
        let rr = spec_insert_desc(x, df);
        assert forall|k: int| 0 <= k < r.len() implies (#[trigger] r[k] == x || exists|m: int|
            0 <= m < s.len() && r[k] == s[m]) by {
            if k == 0 {
                assert(r[0] == s[0]);
            } else {
                assert(r[k] == rr[k - 1]);
                if rr[k - 1] != x {
                    let m = choose|m: int| 0 <= m < df.len() && rr[k - 1] == df[m];
                    assert(df[m] == s[m + 1]);
                    assert(r[k] == s[m + 1]);
                }
            }
        }
    }
}

/// Every entry of a sorted result is one of the input's entries.
proof fn lemma_sort_desc_elems(s: Seq<PostIndexV>)
    ensures
        forall|k: int|
            0 <= k < spec_sort_desc(s).len() ==> exists|m: int|
                0 <= m < s.len() && #[trigger] spec_sort_desc(s)[k] == s[m],
    decreases s.len(),
{
    if s.len() > 0 {
        let dl = s.drop_last();
        let sorted = spec_sort_desc(dl);
        lemma_sort_desc_elems(dl);
        lemma_insert_desc_elems(s.last(), sorted);
        let r = spec_sort_desc(s);
        assert forall|k: int| 0 <= k < r.len() implies exists|m: int|
            0 <= m < s.len() && #[trigger] r[k] == s[m] by {
            if r[k] == s.last() {
                assert(r[k] == s[s.len() - 1]);
            } else {
                let m1 = choose|m1: int| 0 <= m1 < sorted.len() && r[k] == sorted[m1];
                let m2 = choose|m2: int| 0 <= m2 < dl.len() && sorted[m1] == dl[m2];
                assert(dl[m2] == s[m2]);
                assert(r[k] == s[m2]);
            }
        }
    }
}

/// Inserting into a sorted run keeps it sorted.
proof fn lemma_insert_desc_sorted(x: PostIndexV, s: Seq<PostIndexV>)
    requires
        spec_sorted_desc(s),
    ensures
        spec_sorted_desc(spec_insert_desc(x, s)),
    decreases s.len(),
{
    let r = spec_insert_desc(x, s);
    if s.len() == 0 {
    } else if seq_lt(s[0].date, x.date) {
        assert forall|i: int, j: int| 0 <= i < j < r.len() implies seq_le(
            #[trigger] r[j].date,
            #[trigger] r[i].date,
        ) by {
            assert(r[j] == s[j - 1]);
            if i == 0 {
                if j - 1 > 0 {
                    assert(seq_le(s[j - 1].date, s[0].date));
                    lemma_seq_le_lt_trans(s[j - 1].date, s[0].date, x.date);
                }
            } else {
                assert(r[i] == s[i - 1]);
            }
        }
    } else {
        let df = s.drop_first();
        assert forall|i: int, j: int| 0 <= i < j < df.len() implies seq_le(
            #[trigger] df[j].date,
            #[trigger] df[i].date,
        ) by {
            assert(df[i] == s[i + 1] && df[j] == s[j + 1]);
        }
        lemma_insert_desc_sorted(x, df);
        lemma_insert_desc_elems(x, df);
        let rr = spec_insert_desc(x, df);
        assert forall|i: int, j: int| 0 <= i < j < r.len() implies seq_le(
            #[trigger] r[j].date,
            #[trigger] r[i].date,
        ) by {
            if i == 0 {
                assert(r[j] == rr[j - 1]);
                if rr[j - 1] == x {
                    lemma_seq_lt_total(x.date, s[0].date);
                } else {
                    let m = choose|m: int| 0 <= m < df.len() && rr[j - 1] == df[m];
                    assert(df[m] == s[m + 1]);
                    assert(seq_le(s[m + 1].date, s[0].date));
                }
            } else {
                assert(r[i] == rr[i - 1] && r[j] == rr[j - 1]);
            }
        }
    }
}

/// The derived index is sorted by date, newest first.
pub proof fn lemma_sort_desc_sorted(s: Seq<PostIndexV>)
    ensures
        spec_sorted_desc(spec_sort_desc(s)),
    decreases s.len(),
{
    if s.len() > 0 {
        lemma_sort_desc_sorted(s.drop_last());
        lemma_insert_desc_sorted(s.last(), spec_sort_desc(s.drop_last()));
    }
}

/// Inserting an entry with a fresh date into a strictly sorted run keeps
/// it strictly sorted.
proof fn lemma_insert_desc_strict(x: PostIndexV, s: Seq<PostIndexV>)
    requires
        spec_strictly_sorted_desc(s),
        forall|m: int| 0 <= m < s.len() ==> #[trigger] s[m].date != x.date,
    ensures
        spec_strictly_sorted_desc(spec_insert_desc(x, s)),
    decreases s.len(),
{
    let r = spec_insert_desc(x, s);
    if s.len() == 0 {
    } else if seq_lt(s[0].date, x.date) {
        assert forall|i: int, j: int| 0 <= i < j < r.len() implies seq_lt(
            #[trigger] r[j].date,
            #[trigger] r[i].date,
        ) by {
            assert(r[j] == s[j - 1]);
            if i == 0 {
                if j - 1 > 0 {
                    lemma_seq_lt_transitive(s[j - 1].date, s[0].date, x.date);
                }
            } else {
                assert(r[i] == s[i - 1]);
            }
        }
    } else {
        let df = s.drop_first();
        assert forall|i: int, j: int| 0 <= i < j < df.len() implies seq_lt(
            #[trigger] df[j].date,
            #[trigger] df[i].date,
        ) by {
            assert(df[i] == s[i + 1] && df[j] == s[j + 1]);
        }
        assert forall|m: int| 0 <= m < df.len() implies #[trigger] df[m].date != x.date by {
            assert(df[m] == s[m + 1]);
        }
        lemma_insert_desc_strict(x, df);
        lemma_insert_desc_elems(x, df);
        let rr = spec_insert_desc(x, df);
        lemma_seq_lt_total(x.date, s[0].date);
        assert forall|i: int, j: int| 0 <= i < j < r.len() implies seq_lt(
            #[trigger] r[j].date,
            #[trigger] r[i].date,
        ) by {
            if i == 0 {
                assert(r[j] == rr[j - 1]);
                if rr[j - 1] != x {
                    let m = choose|m: int| 0 <= m < df.len() && rr[j - 1] == df[m];
                    assert(df[m] == s[m + 1]);
                    assert(seq_lt(s[m + 1].date, s[0].date));
                }
            } else {
                assert(r[i] == rr[i - 1] && r[j] == rr[j - 1]);
            }
        }
    }
}

/// Ordering: entries with pairwise distinct dates come out in strictly
/// descending date order.
pub proof fn lemma_sort_desc_strict(s: Seq<PostIndexV>)
    requires
        forall|i: int, j: int|
            0 <= i < j < s.len() ==> (#[trigger] s[i]).date != (#[trigger] s[j]).date,
    ensures
        spec_strictly_sorted_desc(spec_sort_desc(s)),
    decreases s.len(),
{
    if s.len() > 0 {
        let dl = s.drop_last();
        assert forall|i: int, j: int| 0 <= i < j < dl.len() implies (#[trigger] dl[i]).date != (
        #[trigger] dl[j]).date by {
            assert(dl[i] == s[i] && dl[j] == s[j]);
        }
        lemma_sort_desc_strict(dl);
        lemma_sort_desc_elems(dl);
        let sorted = spec_sort_desc(dl);
        assert forall|m: int| 0 <= m < sorted.len() implies #[trigger] sorted[m].date
            != s.last().date by {
            let m2 = choose|m2: int| 0 <= m2 < dl.len() && sorted[m] == dl[m2];
            assert(dl[m2] == s[m2]);
            assert(s[m2].date != s[s.len() - 1].date);
        }
        lemma_insert_desc_strict(s.last(), sorted);
    }
}

/// Ordering: posts with pairwise distinct dates come out of the index
/// derivation in strictly descending date order, newest first.
pub proof fn lemma_post_index_ordering(ps: Seq<PostV>)
    requires
        forall|i: int, j: int|
            0 <= i < j < ps.len() ==> (#[trigger] ps[i]).front_matter.date != (
            #[trigger] ps[j]).front_matter.date,
    ensures
        spec_strictly_sorted_desc(spec_sort_desc(spec_index_of_posts(ps))),
{
    let idx = spec_index_of_posts(ps);
    assert forall|i: int, j: int| 0 <= i < j < idx.len() implies (#[trigger] idx[i]).date != (
    #[trigger] idx[j]).date by {
        assert(idx[i] == spec_post_index_of(ps[i]));
        assert(idx[j] == spec_post_index_of(ps[j]));
    }
    lemma_sort_desc_strict(idx);
}

/// No entry of a run bears a date that every entry is strictly newer than.
proof fn lemma_filter_none(s: Seq<PostIndexV>, d: Seq<char>)
    requires
        forall|m: int| 0 <= m < s.len() ==> (#[trigger] s[m]).date != d,
    ensures
        s.filter(date_is(d)) == Seq::<PostIndexV>::empty(),
    decreases s.len(),
{
    reveal(Seq::filter);
    if s.len() > 0 {
        let dl = s.drop_last();
        assert forall|m: int| 0 <= m < dl.len() implies (#[trigger] dl[m]).date != d by {
            assert(dl[m] == s[m]);
        }
        lemma_filter_none(dl, d);
        assert(!date_is(d)(s.last()));
    }
}

/// What filtering a single entry yields.
proof fn lemma_filter_single(x: PostIndexV, d: Seq<char>)
    ensures
        seq![x].filter(date_is(d)) == if date_is(d)(x) {
            seq![x]
        } else {
            Seq::<PostIndexV>::empty()
        },
{
    reveal(Seq::filter);
    assert(seq![x].drop_last() =~= Seq::<PostIndexV>::empty());
    assert(Seq::<PostIndexV>::empty().filter(date_is(d)) =~= Seq::<PostIndexV>::empty());
    assert(seq![x].last() == x);
    if date_is(d)(x) {
        assert(seq![x].filter(date_is(d)) =~= Seq::<PostIndexV>::empty().push(x));
        assert(Seq::<PostIndexV>::empty().push(x) =~= seq![x]);
    }
}

/// Inserting into a sorted run appends the entry to its date class and
/// leaves every other date class unchanged.
proof fn lemma_insert_desc_filter(x: PostIndexV, s: Seq<PostIndexV>, d: Seq<char>)
    requires
        spec_sorted_desc(s),
    ensures
        spec_insert_desc(x, s).filter(date_is(d)) == if x.date == d {
            s.filter(date_is(d)).push(x)
        } else {
            s.filter(date_is(d))
        },
    decreases s.len(),
{
    reveal(Seq::filter);
    broadcast use Seq::filter_distributes_over_add;

    let r = spec_insert_desc(x, s);
    let pred = date_is(d);
    if s.len() == 0 {
        lemma_filter_single(x, d);
        assert(s.filter(pred) =~= Seq::<PostIndexV>::empty());
        if x.date == d {
            assert(r.filter(pred) =~= s.filter(pred).push(x));
        } else {
            assert(r.filter(pred) =~= s.filter(pred));
        }
    } else if seq_lt(s[0].date, x.date) {
        assert(r == seq![x] + s);
        assert((seq![x] + s).filter(pred) == seq![x].filter(pred) + s.filter(pred));
        lemma_filter_single(x, d);
        if x.date == d {
            // every entry of `s` is strictly older than `x`, so none bears `d`
            assert forall|m: int| 0 <= m < s.len() implies (#[trigger] s[m]).date != d by {
                if m > 0 {
                    assert(seq_le(s[m].date, s[0].date));
                    lemma_seq_le_lt_trans(s[m].date, s[0].date, x.date);
                }
                lemma_seq_lt_irreflexive(s[m].date);
            }
            lemma_filter_none(s, d);
            assert(r.filter(pred) =~= s.filter(pred).push(x));
        } else {
            assert(r.filter(pred) =~= s.filter(pred));
        }
    } else {
        let df = s.drop_first();
        assert forall|i: int, j: int| 0 <= i < j < df.len() implies seq_le(
            #[trigger] df[j].date,
            #[trigger] df[i].date,
        ) by {
            assert(df[i] == s[i + 1] && df[j] == s[j + 1]);
        }
        lemma_insert_desc_filter(x, df, d);
        let rr = spec_insert_desc(x, df);
        assert(r == seq![s[0]] + rr);
        assert((seq![s[0]] + rr).filter(pred) == seq![s[0]].filter(pred) + rr.filter(pred));
        assert(s =~= seq![s[0]] + df);
        assert((seq![s[0]] + df).filter(pred) == seq![s[0]].filter(pred) + df.filter(pred));
        if x.date == d {
            assert(seq![s[0]].filter(pred) + df.filter(pred).push(x) =~= (seq![s[0]].filter(pred)
                + df.filter(pred)).push(x));
            assert(r.filter(pred) =~= s.filter(pred).push(x));
        } else {
            assert(r.filter(pred) =~= s.filter(pred));
        }
    }
}

/// Stability: for every date, the entries bearing that date keep, in the
/// sorted index, the relative order they had in the input.
pub proof fn lemma_sort_desc_stable(s: Seq<PostIndexV>, d: Seq<char>)
    ensures
        spec_sort_desc(s).filter(date_is(d)) == s.filter(date_is(d)),
    decreases s.len(),
{
    reveal(Seq::filter);
    if s.len() > 0 {
        let dl = s.drop_last();
        lemma_sort_desc_stable(dl, d);
        lemma_sort_desc_sorted(dl);
        lemma_insert_desc_filter(s.last(), spec_sort_desc(dl), d);
        if date_is(d)(s.last()) {
            assert(s.filter(date_is(d)) == dl.filter(date_is(d)).push(s.last()));
        } else {
            assert(s.filter(date_is(d)) == dl.filter(date_is(d)));
        }
    }
}

impl Posts {
    /// Wrap an already-loaded list of posts.
    pub fn new(inner: Vec<Post>) -> (r: Self)
        ensures
            r@ == post_views(inner@),
    {
        Self { inner }
    }

    /// The posts, in walk order.
    pub fn inner(&self) -> (r: &Vec<Post>)
        ensures
            post_views(r@) == self@,
    {
        &self.inner
    }

    /// Load every source file into a post, in walk order. The first file
    /// that fails to parse aborts the whole load: a half-loaded site is
    /// never returned.
    pub fn load(sources: Vec<SourceFile>) -> (r: Result<Posts, ContentParseError>)
        requires
            forall|i: int|
                0 <= i < sources@.len() ==> seq_starts_with(
                    (#[trigger] sources@[i]).path@,
                    "pages/"@,
                ),
        ensures
            match r {
                Ok(ps) => spec_load_posts(source_views(sources@)) == Ok::<
                    Seq<PostV>,
                    ContentParseErrorV,
                >(ps@),
                Err(e) => spec_load_posts(source_views(sources@)) == Err::<
                    Seq<PostV>,
                    ContentParseErrorV,
                >(e@),
            },
    {
        let ghost all = source_views(sources@);
        let mut posts: Vec<Post> = Vec::new();
        let mut i: usize = 0;
        proof {
            assert(all.skip(0) =~= all);
            assert(post_views(posts@) =~= Seq::<PostV>::empty());
        }
        while i < sources.len()
            invariant
                i <= sources@.len(),
                all == source_views(sources@),
                forall|m: int|
                    0 <= m < sources@.len() ==> seq_starts_with(
                        (#[trigger] sources@[m]).path@,
                        "pages/"@,
                    ),
                spec_load_posts(all) == (match spec_load_posts(all.skip(i as int)) {
                    Ok(rest) => Ok::<Seq<PostV>, ContentParseErrorV>(post_views(posts@) + rest),
                    Err(e) => Err::<Seq<PostV>, ContentParseErrorV>(e),
                }),
            decreases sources@.len() - i,
        {
            let src = &sources[i];
            proof {
                assert(all.skip(i as int).len() > 0);
                assert(all.skip(i as int)[0] == all[i as int]);
                assert(all[i as int] == sources@[i as int]@);
                assert(all.skip(i as int).drop_first() =~= all.skip(i + 1));
            }
            match Post::load(src.path.as_str(), src.content.as_str()) {
                Ok(p) => {
                    let ghost prev = post_views(posts@);
                    posts.push(p);
                    proof {
                        assert(post_views(posts@) =~= prev.push(p@));
                        if spec_load_posts(all.skip(i + 1)) is Ok {
                            let rest = spec_load_posts(all.skip(i + 1))->Ok_0;
                            assert(prev.push(p@) + rest =~= prev + (seq![p@] + rest));
                        }
                    }
                },
                Err(e) => {
                    return Err(e);
                },
            }
            i = i + 1;
        }
        proof {
            assert(all.skip(sources@.len() as int) =~= Seq::<SourceFileV>::empty());
            assert(post_views(posts@) + Seq::<PostV>::empty() =~= post_views(posts@));
        }
        Ok(Posts::new(posts))
    }

    /// Derive one index entry per post and sort them by date, newest
    /// first; posts sharing a date keep their walk order.
    pub fn get_post_index(&mut self) -> (r: Vec<PostIndex>)
        ensures
            final(self)@ == old(self)@,
            index_views(r@) == spec_sort_desc(spec_index_of_posts(old(self)@)),
    {
        let ghost idx = spec_index_of_posts(post_views(self.inner@));
        let mut out: Vec<PostIndex> = Vec::new();
        let mut i: usize = 0;
        proof {
            assert(index_views(out@) =~= spec_sort_desc(idx.take(0)));
        }
        while i < self.inner.len()
            invariant
                i <= self.inner@.len(),
                self.inner@ == old(self).inner@,
                idx == spec_index_of_posts(post_views(self.inner@)),
                index_views(out@) == spec_sort_desc(idx.take(i as int)),
            decreases self.inner@.len() - i,
        {
            let entry = PostIndex::from_post(&self.inner[i]);
            proof {
                assert(post_views(self.inner@)[i as int] == self.inner@[i as int]@);
                assert(idx[i as int] == entry@);
            }
            let mut j: usize = 0;
            while j < out.len() && !str_lt(out[j].date.as_str(), entry.date.as_str())
                invariant
                    j <= out@.len(),
                    forall|m: int|
                        0 <= m < j ==> !seq_lt((#[trigger] out@[m])@.date, entry@.date),
                decreases out@.len() - j,
            {
                j = j + 1;
            }
            proof {
                let views = index_views(out@);
                assert forall|m: int| 0 <= m < j implies !seq_lt(
                    (#[trigger] views[m]).date,
                    entry@.date,
                ) by {
                    assert(views[m] == out@[m]@);
                }
                if (j as int) < views.len() {
                    assert(views[j as int] == out@[j as int]@);
                }
                lemma_insert_desc_at(entry@, views, j as int);
            }
            let ghost prev = index_views(out@);
            let ghost prev_vec = out@;
            out.insert(j, entry);
            proof {
                assert(out@ == prev_vec.insert(j as int, entry));
                assert(index_views(out@) =~= prev.take(j as int) + seq![entry@] + prev.skip(
                    j as int,
                ));
                assert(index_views(out@) == spec_insert_desc(entry@, prev));
                assert(idx.take(i + 1).drop_last() =~= idx.take(i as int));
                assert(idx.take(i + 1).last() == idx[i as int]);
                assert(spec_sort_desc(idx.take(i + 1)) == spec_insert_desc(
                    entry@,
                    spec_sort_desc(idx.take(i as int)),
                ));
            }
            i = i + 1;
        }
        proof {
            assert(idx.take(self.inner@.len() as int) =~= idx);
        }
        out
    }
}

} // verus!
