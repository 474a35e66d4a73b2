//! Link discovery: a lexical scan of an HTML listing page for `href="..."`
//! values that name Parquet files.

use vstd::prelude::*;
use vstd::string::*;
use crate::text::{chars_of, contains, contains_within, matches_at};

verus! {

broadcast use vstd::seq_lib::group_seq_properties;

/// The text that opens an attribute value holding a link.
pub open spec fn href_marker() -> Seq<char> {
    seq!['h', 'r', 'e', 'f', '=', '"']
}

/// The text that marks a link as naming a Parquet file.
pub open spec fn parquet_marker() -> Seq<char> {
    seq!['.', 'p', 'a', 'r', 'q', 'u', 'e', 't']
}

/// Number of characters from index `i` up to the next `"` (or the end of `s`).
pub open spec fn quote_len(s: Seq<char>, i: int) -> nat
    decreases s.len() - i,
{
    if i < 0 || i >= s.len() || s[i] == '"' {
        0
    } else {
        1 + quote_len(s, i + 1)
    }
}

/// The values of the `href="` occurrences in `s` found scanning from index `i`:
/// each value runs from just after the marker to the next `"` (or the end of
/// `s`), and the scan resumes just after the marker, so every occurrence of
/// the marker yields one value.
pub open spec fn hrefs_from(s: Seq<char>, i: int) -> Seq<Seq<char>>
    decreases s.len() + 1 - i,
{
    if i < 0 || i + href_marker().len() > s.len() {
        seq![]
    } else if crate::text::occurs_at(s, href_marker(), i) {
        let st = i + href_marker().len();
        let e = st + quote_len(s, st);
        seq![s.subrange(st, e)] + hrefs_from(s, st)
    } else {
        hrefs_from(s, i + 1)
    }
}

/// All `href` values of the markup `s`, in document order.
pub open spec fn hrefs(s: Seq<char>) -> Seq<Seq<char>> {
    hrefs_from(s, 0)
}

/// A link is kept when it names a Parquet file and holds the pattern, if any.
pub open spec fn is_wanted(v: Seq<char>, pattern: Option<Seq<char>>) -> bool {
    &&& contains(v, parquet_marker())
    &&& match pattern {
        Some(p) => contains(v, p),
        None => true,
    }
}

/// The links that discovery returns for markup `s`.
pub open spec fn parquet_links(s: Seq<char>, pattern: Option<Seq<char>>) -> Seq<Seq<char>> {
    hrefs(s).filter(|v: Seq<char>| is_wanted(v, pattern))
}

/// The text of each string.
pub open spec fn texts(v: Seq<String>) -> Seq<Seq<char>> {
    v.map_values(|x: String| x@)
}

/// The view of an optional pattern.
pub open spec fn pattern_view(pattern: Option<&str>) -> Option<Seq<char>> {
    match pattern {
        Some(p) => Some(p@),
        None => None,
    }
}

/// Index of the first `"` at or after `st` in `s`, or `s.len()` if none.
fn find_quote(s: &Vec<char>, st: usize) -> (e: usize)
    requires
        st <= s@.len(),
    ensures
        e == st + quote_len(s@, st as int),
        e <= s@.len(),
{
    let mut j: usize = st;
    while j < s.len() && s[j] != '"'
        invariant
            st <= j <= s@.len(),
            quote_len(s@, st as int) == (j - st) + quote_len(s@, j as int),
        decreases s@.len() - j,
    {
        j = j + 1;
    }
    j
}

/// Scans `html` for `href="..."` values and keeps, in document order and
/// without removing duplicates, those that contain `.parquet` and, when a
/// pattern is given, contain that pattern too.
pub fn scrape_links_to_parquet_files(html: &str, pattern: Option<&str>) -> (links: Vec<String>)
    ensures
        texts(links@) == parquet_links(html@, pattern_view(pattern)),
{
    let ghost pat = pattern_view(pattern);
    let ghost w = |v: Seq<char>| is_wanted(v, pat);
    let s = chars_of(html);
    let marker = chars_of("href=\"");
    let suffix = chars_of(".parquet");
    let pat_chars: Option<Vec<char>> = match pattern {
        Some(p) => Some(chars_of(p)),
        None => None,
    };
    proof {
        reveal_strlit("href=\"");
        reveal_strlit(".parquet");
        assert(marker@ =~= href_marker());
        assert(suffix@ =~= parquet_marker());
    }
    let mut links: Vec<String> = Vec::new();
    let mut i: usize = 0;
    while i <= s.len() && s.len() - i >= marker.len()
        invariant
            s@ == html@,
            marker@ == href_marker(),
            suffix@ == parquet_marker(),
            match pat_chars {
                Some(pc) => pat == Some(pc@),
                None => pat is None,
            },
            w == (|v: Seq<char>| is_wanted(v, pat)),
            i <= s@.len(),
            parquet_links(s@, pat) == texts(links@) + hrefs_from(s@, i as int).filter(w),
        decreases s@.len() - i,
    {
        if matches_at(&s, &marker, i) {
            let st = i + marker.len();
            let e = find_quote(&s, st);
            let ghost v = s@.subrange(st as int, e as int);
            let keep = contains_within(&s, st, e, &suffix) && match &pat_chars {
                Some(pc) => contains_within(&s, st, e, pc),
                None => true,
            };
            assert(keep == w(v));
            let ghost before = texts(links@);
            if keep {
                links.push(html.substring_char(st, e).to_owned());
                assert(texts(links@) =~= before.push(v));
            }
            assert(texts(links@) =~= before + seq![v].filter(w)) by {
                Seq::<Seq<char>>::empty().lemma_filter_push(v, w);
                reveal_with_fuel(Seq::filter, 1);
                assert(seq![v] =~= Seq::<Seq<char>>::empty().push(v));
            }
            assert(hrefs_from(s@, i as int) == seq![v] + hrefs_from(s@, st as int));
            i = st;
        } else {
            i = i + 1;
        }
    }
    assert(hrefs_from(s@, i as int) == Seq::<Seq<char>>::empty());
    assert(hrefs_from(s@, i as int).filter(w) =~= Seq::<Seq<char>>::empty()) by {
        reveal_with_fuel(Seq::filter, 1);
    }
    assert(texts(links@) + hrefs_from(s@, i as int).filter(w) =~= texts(links@));
    links
}

/// Filtering by `f` and then by `g` keeps what filtering once by `h` keeps,
/// where `h` holds exactly when both do.
proof fn lemma_filter_twice(
    a: Seq<Seq<char>>,
    f: spec_fn(Seq<char>) -> bool,
    g: spec_fn(Seq<char>) -> bool,
    h: spec_fn(Seq<char>) -> bool,
)
    requires
        forall|x: Seq<char>| #[trigger] h(x) == (f(x) && g(x)),
    ensures
        a.filter(f).filter(g) == a.filter(h),
    decreases a.len(),
{
    reveal(Seq::filter);
    if a.len() > 0 {
        lemma_filter_twice(a.drop_last(), f, g, h);
        let x = a.last();
        if f(x) {
            a.drop_last().filter(f).lemma_filter_push(x, g);
        }
    }
}

/// A pattern only narrows discovery: the links found with pattern `p` are
/// the links found without it that contain `p`, in the same order; so each
/// of them is among the links found without it, and contains `p`.
pub proof fn lemma_pattern_narrows(s: Seq<char>, p: Seq<char>)
    ensures
        parquet_links(s, Some(p)) == parquet_links(s, None).filter(|v: Seq<char>| contains(v, p)),
        forall|k: int| 0 <= k < parquet_links(s, Some(p)).len() ==> {
            &&& parquet_links(s, None).contains(#[trigger] parquet_links(s, Some(p))[k])
            &&& contains(parquet_links(s, Some(p))[k], p)
        },
{
    broadcast use vstd::seq_lib::group_filter_ensures;

    let f = |v: Seq<char>| is_wanted(v, None);
    let g = |v: Seq<char>| contains(v, p);
    let h = |v: Seq<char>| is_wanted(v, Some(p));
    lemma_filter_twice(hrefs(s), f, g, h);
    let narrowed = parquet_links(s, Some(p));
    assert forall|k: int| 0 <= k < narrowed.len() implies {
        &&& parquet_links(s, None).contains(#[trigger] narrowed[k])
        &&& contains(narrowed[k], p)
    } by {
        assert(parquet_links(s, None).filter(g).contains(narrowed[k]));
        parquet_links(s, None).lemma_filter_contains_rev(g, narrowed[k]);
    }
}

/// A well-formed anchor whose link is `v`: `<a href="` + v + `">`.
pub open spec fn anchor(v: Seq<char>) -> Seq<char> {
    seq!['<', 'a', ' '] + href_marker() + v + seq!['"', '>']
}

/// Markup made of one anchor per link of `vs`, in order.
pub open spec fn anchors(vs: Seq<Seq<char>>) -> Seq<char>
    decreases vs.len(),
{
    if vs.len() == 0 {
        seq![]
    } else {
        anchor(vs[0]) + anchors(vs.drop_first())
    }
}

/// `v` holds no `"`.
pub open spec fn quote_free(v: Seq<char>) -> bool {
    forall|k: int| 0 <= k < v.len() ==> v[k] != '"'
}

proof fn lemma_occurs_shift(a: Seq<char>, b: Seq<char>, p: Seq<char>, j: int)
    requires
        0 <= j,
    ensures
        crate::text::occurs_at(a + b, p, a.len() + j) == crate::text::occurs_at(b, p, j),
{
    let s = a + b;
    if crate::text::occurs_at(b, p, j) {
        assert forall|k: int| 0 <= k < p.len() implies #[trigger] s[a.len() + j + k] == p[k] by {
            assert(s[a.len() + j + k] == b[j + k]);
        }
    }
    if crate::text::occurs_at(s, p, a.len() + j) {
        assert forall|k: int| 0 <= k < p.len() implies #[trigger] b[j + k] == p[k] by {
            assert(s[a.len() + j + k] == b[j + k]);
        }
    }
}

proof fn lemma_quote_len_shift(a: Seq<char>, b: Seq<char>, j: int)
    requires
        0 <= j,
    ensures
        quote_len(a + b, a.len() + j) == quote_len(b, j),
    decreases b.len() - j,
{
    if j < b.len() {
        assert((a + b)[a.len() + j] == b[j]);
        lemma_quote_len_shift(a, b, j + 1);
    }
}

proof fn lemma_quote_len_run(s: Seq<char>, st: int, n: int)
    requires
        0 <= st,
        0 <= n,
        st + n < s.len(),
        forall|k: int| st <= k < st + n ==> s[k] != '"',
        s[st + n] == '"',
    ensures
        quote_len(s, st) == n,
    decreases n,
{
    if n > 0 {
        lemma_quote_len_run(s, st + 1, n - 1);
    }
}

/// Scanning `a + b` from inside `b` finds what scanning `b` alone finds.
proof fn lemma_hrefs_shift(a: Seq<char>, b: Seq<char>, j: int)
    requires
        0 <= j,
    ensures
        hrefs_from(a + b, a.len() + j) == hrefs_from(b, j),
    decreases b.len() + 1 - j,
{
    let s = a + b;
    let i = a.len() + j;
    if j + href_marker().len() <= b.len() {
        lemma_occurs_shift(a, b, href_marker(), j);
        if crate::text::occurs_at(b, href_marker(), j) {
            let st = j + href_marker().len();
            lemma_quote_len_shift(a, b, st);
            lemma_quote_len_bound(b, st);
            let e = st + quote_len(b, st);
            assert(s.subrange(i + href_marker().len(), a.len() + e) =~= b.subrange(st, e));
            lemma_hrefs_shift(a, b, st);
        } else {
            lemma_hrefs_shift(a, b, j + 1);
        }
    }
}

proof fn lemma_quote_len_bound(s: Seq<char>, i: int)
    requires
        0 <= i <= s.len(),
    ensures
        i + quote_len(s, i) <= s.len(),
    decreases s.len() - i,
{
    if i < s.len() {
        lemma_quote_len_bound(s, i + 1);
    }
}

/// `v` ends in `href=`: followed by a closing quote it spells the marker.
pub open spec fn ends_in_href(v: Seq<char>) -> bool {
    v.len() >= 5 && v.subrange(v.len() - 5, v.len() as int) == href_marker().take(5)
}

/// A link that an anchor yields exactly once: it holds no `"` and does not
/// end in `href=`.
pub open spec fn plain_link(v: Seq<char>) -> bool {
    quote_free(v) && !ends_in_href(v)
}

/// Positions with no marker are passed over by the scan.
proof fn lemma_skip(s: Seq<char>, from: int, to: int)
    requires
        0 <= from <= to,
        forall|k: int| from <= k < to ==> !crate::text::occurs_at(s, href_marker(), k),
    ensures
        hrefs_from(s, from) == hrefs_from(s, to),
    decreases to - from,
{
    if from < to && from + href_marker().len() <= s.len() {
        lemma_skip(s, from + 1, to);
    }
}

proof fn lemma_hrefs_anchors(vs: Seq<Seq<char>>)
    requires
        forall|k: int| 0 <= k < vs.len() ==> plain_link(#[trigger] vs[k]),
    ensures
        hrefs(anchors(vs)) == vs,
    decreases vs.len(),
{
    if vs.len() > 0 {
        let v = vs[0];
        let m = href_marker();
        let a = anchor(v);
        let tail = vs.drop_first();
        let rest = anchors(tail);
        let s = a + rest;
        assert forall|k: int| 0 <= k < tail.len() implies plain_link(#[trigger] tail[k]) by {
            assert(tail[k] == vs[k + 1]);
        }
        lemma_hrefs_anchors(tail);
        assert(plain_link(v));
        assert(s == anchors(vs));
        assert(a.len() == v.len() + 11);
        assert(s[0] == '<' && s[1] == 'a' && s[2] == ' ');
        assert(!crate::text::occurs_at(s, m, 0)) by { assert(s[0int + 0] != m[0]); }
        assert(!crate::text::occurs_at(s, m, 1)) by { assert(s[1int + 0] != m[0]); }
        assert(!crate::text::occurs_at(s, m, 2)) by { assert(s[2int + 0] != m[0]); }
        assert(crate::text::occurs_at(s, m, 3)) by {
            assert forall|k: int| 0 <= k < m.len() implies #[trigger] s[3 + k] == m[k] by {
                assert(s[3 + k] == a[3 + k]);
            }
        }
        let e: int = 9 + v.len() as int;
        assert forall|k: int| 9 <= k < e implies s[k] != '"' by {
            assert(s[k] == a[k]);
            assert(a[k] == v[k - 9]);
        }
        assert(s[e] == '"');
        lemma_quote_len_run(s, 9, v.len() as int);
        assert(s.subrange(9, e) =~= v);
        assert(s.len() >= 11);
        assert(hrefs_from(s, 0) == hrefs_from(s, 1));
        assert(hrefs_from(s, 1) == hrefs_from(s, 2));
        assert(hrefs_from(s, 2) == hrefs_from(s, 3));
        assert(hrefs_from(s, 3) == seq![v] + hrefs_from(s, 9));
        assert(s[e + 1] == '>');
        assert forall|k: int| 9 <= k < e + 2 implies !crate::text::occurs_at(s, m, k) by {
            if crate::text::occurs_at(s, m, k) {
                assert(s[k + 5] == m[5]);
                if k + 5 < e {
                    assert(s[k + 5] == a[k + 5]);
                    assert(a[k + 5] == v[k + 5 - 9]);
                } else if k + 5 == e {
                    assert(v.subrange(v.len() - 5, v.len() as int) =~= m.take(5)) by {
                        assert forall|j: int| 0 <= j < 5 implies
                            v.subrange(v.len() - 5, v.len() as int)[j] == m.take(5)[j] by {
                            assert(s[k + j] == m[j]);
                            assert(s[k + j] == a[k + j]);
                            assert(a[k + j] == v[k + j - 9]);
                        }
                    }
                } else if k + 5 > e + 1 {
                    assert(tail.len() > 0) by {
                        if tail.len() == 0 {
                            assert(rest.len() == 0);
                        }
                    }
                    let r0 = anchor(tail[0]);
                    assert(rest == r0 + anchors(tail.drop_first()));
                    let j = k + 5 - (e + 2);
                    assert(0 <= j < 5);
                    assert(s[k + 5] == rest[j]);
                    assert(rest[j] == r0[j]);
                    assert(r0[j] != '"');
                }
            }
        }
        lemma_skip(s, 9, e + 2);
        lemma_hrefs_shift(a, rest, 0);
        assert(seq![v] + tail =~= vs);
    }
}

proof fn lemma_filter_keeps_all(a: Seq<Seq<char>>, f: spec_fn(Seq<char>) -> bool)
    requires
        forall|k: int| 0 <= k < a.len() ==> f(#[trigger] a[k]),
    ensures
        a.filter(f) == a,
    decreases a.len(),
{
    reveal(Seq::filter);
    if a.len() > 0 {
        assert forall|k: int| 0 <= k < a.drop_last().len() implies f(#[trigger] a.drop_last()[k]) by {
            assert(a.drop_last()[k] == a[k]);
        }
        lemma_filter_keeps_all(a.drop_last(), f);
        assert(a.drop_last().push(a.last()) =~= a);
    }
}

/// Markup made of well-formed anchors, each holding a link that has no `"`,
/// does not end in `href=`, names a Parquet file and holds the pattern,
/// yields exactly those links, in document order, duplicates included.
pub proof fn lemma_anchors_discovered(vs: Seq<Seq<char>>, pattern: Option<Seq<char>>)
    requires
        forall|k: int| 0 <= k < vs.len() ==> plain_link(#[trigger] vs[k]) && is_wanted(vs[k], pattern),
    ensures
        parquet_links(anchors(vs), pattern) == vs,
{
    lemma_hrefs_anchors(vs);
    lemma_filter_keeps_all(vs, |v: Seq<char>| is_wanted(v, pattern));
}

} // verus!
