//! Tag bookkeeping across the archive: the sorted tag vocabulary and the
//! tag facet of search results.

use vstd::prelude::*;
use crate::text::views;

verus! {

/// One value of a facet and how many documents carry it.
#[derive(Debug)]
pub struct FacetEntry {
    pub name: String,
    pub count: i64,
}

/// The facets reported with search results.
#[derive(Debug)]
pub struct Facets {
    pub senders: Vec<FacetEntry>,
    pub tags: Vec<FacetEntry>,
    pub types: Vec<FacetEntry>,
    pub years: Vec<FacetEntry>,
}

/// The list of strings `serde_json` reads from a JSON text, if it reads one.
/// Defined by `serde_json`'s grammar; it depends on the text alone.
pub uninterp spec fn json_string_list(text: Seq<char>) -> Option<Seq<Seq<char>>>;

/// Calls `serde_json::from_str::<Vec<String>>`. Claimed: the strings read
/// are [`json_string_list`] of the text, and nothing is read exactly when
/// that is nothing.
#[verifier::external_body]
fn parse_string_list(text: &str) -> (r: Option<Vec<String>>)
    ensures
        r matches Some(v) ==> json_string_list(text@) == Some(views(v@)),
        r is None ==> json_string_list(text@) is None,
{
    serde_json::from_str::<Vec<String>>(text).ok()
}

/// The tag lists of the rows that hold a JSON list of strings, in order.
pub open spec fn parsed_rows(rows: Seq<Seq<char>>) -> Seq<Seq<Seq<char>>>
    decreases rows.len(),
{
    if rows.len() == 0 {
        seq![]
    } else {
        let rest = parsed_rows(rows.drop_last());
        match json_string_list(rows.last()) {
            Some(tags) => rest.push(tags),
            None => rest,
        }
    }
}

/// The lists of a list of string lists.
pub open spec fn nested_views(v: Seq<Vec<String>>) -> Seq<Seq<Seq<char>>> {
    v.map_values(|x: Vec<String>| views(x@))
}

/// Reads the `tags` column of each row; rows that hold no JSON list of
/// strings are skipped.
pub fn parse_tag_rows(rows: &Vec<String>) -> (r: Vec<Vec<String>>)
    ensures
        nested_views(r@) == parsed_rows(views(rows@)),
{
    let mut out: Vec<Vec<String>> = Vec::new();
    let mut i: usize = 0;
    while i < rows.len()
        invariant
            i <= rows@.len(),
            nested_views(out@) == parsed_rows(views(rows@).take(i as int)),
        decreases rows@.len() - i,
    {
        proof {
            assert(views(rows@).take(i as int + 1).drop_last() =~= views(rows@).take(i as int));
            assert(views(rows@).take(i as int + 1).last() == rows@[i as int]@);
        }
        match parse_string_list(rows[i].as_str()) {
            Some(tags) => {
                let ghost prev = out@;
                out.push(tags);
                assert(nested_views(out@) =~= nested_views(prev).push(views(tags@)));
            },
            None => {},
        }
        i = i + 1;
    }
    assert(views(rows@).take(rows@.len() as int) =~= views(rows@));
    out
}

/// Text order: by character code, a proper prefix first (the order of `String`).
pub open spec fn text_lt(a: Seq<char>, b: Seq<char>) -> bool
    decreases a.len(),
{
    if a.len() == 0 {
        b.len() > 0
    } else if b.len() == 0 {
        false
    } else if a[0] != b[0] {
        a[0] < b[0]
    } else {
        text_lt(a.drop_first(), b.drop_first())
    }
}

pub proof fn lemma_text_lt_total(a: Seq<char>, b: Seq<char>)
    ensures
        a == b || text_lt(a, b) || text_lt(b, a),
        !(text_lt(a, b) && text_lt(b, a)),
        !text_lt(a, a),
    decreases a.len(),
{
    if a.len() > 0 && b.len() > 0 && a[0] == b[0] {
        lemma_text_lt_total(a.drop_first(), b.drop_first());
        if a.drop_first() == b.drop_first() {
            assert(a =~= seq![a[0]] + a.drop_first());
            assert(b =~= seq![b[0]] + b.drop_first());
        }
    }
    if a.len() > 0 {
        lemma_text_lt_total(a.drop_first(), a.drop_first());
    }
    if a.len() == 0 && b.len() == 0 {
        assert(a =~= b);
    }
}

pub proof fn lemma_text_lt_trans(a: Seq<char>, b: Seq<char>, c: Seq<char>)
    requires
        text_lt(a, b),
        text_lt(b, c),
    ensures
        text_lt(a, c),
    decreases a.len(),
{
    if a.len() > 0 && b.len() > 0 && c.len() > 0 && a[0] == b[0] && b[0] == c[0] {
        lemma_text_lt_trans(a.drop_first(), b.drop_first(), c.drop_first());
    }
}

/// Strictly ascending in text order.
pub open spec fn strictly_sorted(v: Seq<Seq<char>>) -> bool {
    forall|i: int, j: int| 0 <= i < j < v.len() ==> text_lt(v[i], v[j])
}

/// Some list of `lists` holds `t`.
pub open spec fn in_some(lists: Seq<Seq<Seq<char>>>, t: Seq<char>) -> bool {
    exists|i: int| 0 <= i < lists.len() && #[trigger] lists[i].contains(t)
}

/// Whether `a` comes before `b` in text order.
pub fn text_less(a: &str, b: &str) -> (r: bool)
    ensures
        r == text_lt(a@, b@),
{
    let x = crate::text::chars_of(a);
    let y = crate::text::chars_of(b);
    let mut i: usize = 0;
    assert(x@.skip(0) =~= x@);
    assert(y@.skip(0) =~= y@);
    while i < x.len() && i < y.len() && x[i] == y[i]
        invariant
            i <= x@.len(),
            i <= y@.len(),
            text_lt(a@, b@) == text_lt(x@.skip(i as int), y@.skip(i as int)),
            x@ == a@,
            y@ == b@,
        decreases x@.len() - i,
    {
        proof {
            assert(x@.skip(i as int).drop_first() =~= x@.skip(i as int + 1));
            assert(y@.skip(i as int).drop_first() =~= y@.skip(i as int + 1));
        }
        i = i + 1;
    }
    if i == x.len() {
        i < y.len()
    } else if i == y.len() {
        false
    } else {
        x[i] < y[i]
    }
}

/// Inserts a tag into a strictly sorted list unless it is there already.
fn insert_sorted(v: &mut Vec<String>, t: &String)
    requires
        strictly_sorted(views(old(v)@)),
    ensures
        strictly_sorted(views(final(v)@)),
        forall|x: Seq<char>|
            #[trigger] views(final(v)@).contains(x) <==> (views(old(v)@).contains(x) || x == t@),
{
    let ghost old_v = views(v@);
    let mut p: usize = 0;
    while p < v.len() && text_less(v[p].as_str(), t.as_str())
        invariant
            p <= v@.len(),
            views(v@) == old_v,
            forall|i: int| 0 <= i < p ==> text_lt(old_v[i], t@),
        decreases v@.len() - p,
    {
        p = p + 1;
    }
    if p < v.len() && crate::json::same_text(v[p].as_str(), t.as_str()) {
        assert(old_v[p as int] == t@);
        assert(old_v.contains(t@));
        return;
    }
    proof {
        if p < old_v.len() {
            lemma_text_lt_total(old_v[p as int], t@);
        }
    }
    v.insert(p, t.clone());
    proof {
        let nv = views(v@);
        assert(nv =~= old_v.insert(p as int, t@));
        assert forall|i: int, j: int| 0 <= i < j < nv.len() implies text_lt(nv[i], nv[j]) by {
            if j < p {
            } else if j == p {
            } else if i < p {
                // old_v[i] < t < old_v[p] <= old_v[j - 1]
                lemma_text_lt_trans(old_v[i], t@, old_v[p as int]);
                if j - 1 > p {
                    lemma_text_lt_trans(old_v[i], old_v[p as int], old_v[j - 1]);
                }
            } else if i == p {
                if j - 1 > p {
                    lemma_text_lt_trans(t@, old_v[p as int], old_v[j - 1]);
                }
            } else {
            }
        }
        assert forall|x: Seq<char>| #[trigger] nv.contains(x) <==> (old_v.contains(x) || x == t@) by {
            if nv.contains(x) {
                let k = choose|k: int| 0 <= k < nv.len() && nv[k] == x;
                if k < p {
                    assert(old_v[k] == x);
                } else if k > p {
                    assert(old_v[k - 1] == x);
                }
            }
            if old_v.contains(x) {
                let k = choose|k: int| 0 <= k < old_v.len() && old_v[k] == x;
                if k < p {
                    assert(nv[k] == x);
                } else {
                    assert(nv[k + 1] == x);
                }
            }
            if x == t@ {
                assert(nv[p as int] == x);
            }
        }
    }
}

/// Every tag of the archive once, in text order (the tag vocabulary).
pub fn all_tags(rows: &Vec<Vec<String>>) -> (r: Vec<String>)
    ensures
        strictly_sorted(views(r@)),
        forall|t: Seq<char>| #[trigger] views(r@).contains(t) <==> in_some(nested_views(rows@), t),
{
    let mut out: Vec<String> = Vec::new();
    let ghost rv = nested_views(rows@);
    let mut i: usize = 0;
    while i < rows.len()
        invariant
            i <= rows@.len(),
            rv == nested_views(rows@),
            strictly_sorted(views(out@)),
            forall|t: Seq<char>| #[trigger] views(out@).contains(t) <==> in_some(rv.take(i as int), t),
        decreases rows@.len() - i,
    {
        let row = &rows[i];
        let mut k: usize = 0;
        while k < row.len()
            invariant
                k <= row@.len(),
                i < rows@.len(),
                *row == rows@[i as int],
                rv == nested_views(rows@),
                strictly_sorted(views(out@)),
                forall|t: Seq<char>|
                    #[trigger] views(out@).contains(t) <==> (in_some(rv.take(i as int), t) || views(
                        row@,
                    ).take(k as int).contains(t)),
            decreases row@.len() - k,
        {
            insert_sorted(&mut out, &row[k]);
            proof {
                assert forall|t: Seq<char>|
                    #[trigger] views(out@).contains(t) <==> (in_some(rv.take(i as int), t) || views(
                        row@,
                    ).take(k as int + 1).contains(t)) by {
                    let s1 = views(row@).take(k as int);
                    let s2 = views(row@).take(k as int + 1);
                    assert(s2 =~= s1.push(row@[k as int]@));
                    if s2.contains(t) {
                        let m = choose|m: int| 0 <= m < s2.len() && s2[m] == t;
                        if m < s1.len() {
                            assert(s1[m] == t);
                        }
                    }
                    if s1.contains(t) {
                        let m = choose|m: int| 0 <= m < s1.len() && s1[m] == t;
                        assert(s2[m] == t);
                    }
                    if t == row@[k as int]@ {
                        assert(s2[k as int] == t);
                    }
                }
            }
            k = k + 1;
        }
        proof {
            assert(views(row@).take(row@.len() as int) =~= views(row@));
            assert forall|t: Seq<char>| #[trigger] views(out@).contains(t) <==> in_some(
                rv.take(i as int + 1),
                t,
            ) by {
                let p = rv.take(i as int);
                let q = rv.take(i as int + 1);
                assert(q[i as int] == views(row@));
                if in_some(q, t) {
                    let m = choose|m: int| 0 <= m < q.len() && #[trigger] q[m].contains(t);
                    if m < i {
                        assert(p[m] == q[m]);
                    }
                }
                if in_some(p, t) {
                    let m = choose|m: int| 0 <= m < p.len() && #[trigger] p[m].contains(t);
                    assert(q[m] == p[m]);
                }
            }
        }
        i = i + 1;
    }
    assert(rv.take(rows@.len() as int) =~= rv);
    out
}

} // verus!

verus! {

/// All tags of all lists, in order.
pub open spec fn flat(lists: Seq<Seq<Seq<char>>>) -> Seq<Seq<char>>
    decreases lists.len(),
{
    if lists.len() == 0 {
        seq![]
    } else {
        flat(lists.drop_last()) + lists.last()
    }
}

/// How often `t` occurs in `s`.
pub open spec fn count_of(s: Seq<Seq<char>>, t: Seq<char>) -> nat
    decreases s.len(),
{
    if s.len() == 0 {
        0
    } else {
        count_of(s.drop_last(), t) + if s.last() == t { 1nat } else { 0nat }
    }
}

/// The names of facet entries.
pub open spec fn facet_names(v: Seq<FacetEntry>) -> Seq<Seq<char>> {
    v.map_values(|e: FacetEntry| e.name@)
}

/// The tag facet of a list of tagged rows: the (at most 30) most frequent
/// tags with their counts, most frequent first, each tag once.
pub open spec fn is_tag_facet(lists: Seq<Seq<Seq<char>>>, r: Seq<FacetEntry>) -> bool {
    let all = flat(lists);
    let d = crate::search::distinct(all);
    &&& r.len() == if d.len() < 30 { d.len() } else { 30 }
    &&& forall|i: int, j: int| 0 <= i < j < r.len() ==> r[i].name@ != r[j].name@
    &&& forall|i: int| 0 <= i < r.len() ==> all.contains(#[trigger] r[i].name@)
    &&& forall|i: int| 0 <= i < r.len() ==> #[trigger] r[i].count == count_of(all, r[i].name@)
    &&& forall|i: int, j: int| 0 <= i < j < r.len() ==> r[i].count >= r[j].count
    &&& forall|t: Seq<char>|
        all.contains(t) && !facet_names(r).contains(t) ==> count_of(all, t) <= r[r.len() - 1].count
}

proof fn lemma_count_push(s: Seq<Seq<char>>, x: Seq<char>, t: Seq<char>)
    ensures
        count_of(s.push(x), t) == count_of(s, t) + if x == t { 1nat } else { 0nat },
{
    assert(s.push(x).drop_last() =~= s);
}

proof fn lemma_count_le_len(s: Seq<Seq<char>>, t: Seq<char>)
    ensures
        count_of(s, t) <= s.len(),
    decreases s.len(),
{
    if s.len() > 0 {
        lemma_count_le_len(s.drop_last(), t);
    }
}

proof fn lemma_count_absent(s: Seq<Seq<char>>, t: Seq<char>)
    requires
        !s.contains(t),
    ensures
        count_of(s, t) == 0,
    decreases s.len(),
{
    if s.len() > 0 {
        assert(s[s.len() - 1] == s.last());
        assert(!s.drop_last().contains(t)) by {
            if s.drop_last().contains(t) {
                let k = choose|k: int| 0 <= k < s.drop_last().len() && s.drop_last()[k] == t;
                assert(s[k] == t);
            }
        }
        lemma_count_absent(s.drop_last(), t);
    }
}

/// Counts each tag, in order of first appearance.
fn count_tags(all: &Vec<String>) -> (r: Vec<FacetEntry>)
    requires
        all@.len() <= i64::MAX,
    ensures
        facet_names(r@) == crate::search::distinct(views(all@)),
        forall|i: int| 0 <= i < r@.len() ==> #[trigger] r@[i].count == count_of(views(all@), r@[i].name@),
{
    let ghost a = views(all@);
    let mut out: Vec<FacetEntry> = Vec::new();
    let mut i: usize = 0;
    while i < all.len()
        invariant
            i <= all@.len(),
            all@.len() <= i64::MAX,
            a == views(all@),
            facet_names(out@) == crate::search::distinct(a.take(i as int)),
            forall|k: int| 0 <= k < out@.len() ==> #[trigger] out@[k].count == count_of(a.take(i as int), out@[k].name@),
        decreases all@.len() - i,
    {
        let ghost pre = a.take(i as int);
        let ghost old_out = out@;
        proof {
            assert(a.take(i as int + 1) =~= pre.push(all@[i as int]@));
            crate::search::lemma_distinct_unique(pre);
            crate::search::lemma_distinct_push(pre, all@[i as int]@);
        }
        let mut k: usize = 0;
        while k < out.len() && !crate::json::same_text(out[k].name.as_str(), all[i].as_str())
            invariant
                k <= out@.len(),
                i < all@.len(),
                forall|m: int| 0 <= m < k ==> out@[m].name@ != all@[i as int]@,
            decreases out@.len() - k,
        {
            k = k + 1;
        }
        if k < out.len() {
            proof {
                lemma_count_le_len(pre, all@[i as int]@);
                assert(out@[k as int].count == count_of(pre, out@[k as int].name@));
            }
            let mut e = out.remove(k);
            e.count = e.count + 1;
            out.insert(k, e);
            proof {
                assert(out@ =~= old_out.update(k as int, e));
                assert(facet_names(out@) =~= facet_names(old_out));
                assert(facet_names(old_out)[k as int] == all@[i as int]@);
                assert(crate::search::distinct(pre).contains(all@[i as int]@));
                assert forall|m: int| 0 <= m < out@.len() implies #[trigger] out@[m].count == count_of(
                    a.take(i as int + 1),
                    out@[m].name@,
                ) by {
                    lemma_count_push(pre, all@[i as int]@, out@[m].name@);
                    assert(facet_names(old_out)[m] == old_out[m].name@);
                }
            }
        } else {
            proof {
                assert(!facet_names(old_out).contains(all@[i as int]@)) by {
                    if facet_names(old_out).contains(all@[i as int]@) {
                        let m = choose|m: int| 0 <= m < facet_names(old_out).len() && facet_names(old_out)[m] == all@[i as int]@;
                        assert(old_out[m].name@ == all@[i as int]@);
                    }
                }
                assert(!pre.contains(all@[i as int]@));
                lemma_count_absent(pre, all@[i as int]@);
            }
            out.push(FacetEntry { name: all[i].clone(), count: 1 });
            proof {
                assert(facet_names(out@) =~= facet_names(old_out).push(all@[i as int]@));
                assert forall|m: int| 0 <= m < out@.len() implies #[trigger] out@[m].count == count_of(
                    a.take(i as int + 1),
                    out@[m].name@,
                ) by {
                    lemma_count_push(pre, all@[i as int]@, out@[m].name@);
                    if m < old_out.len() {
                        assert(facet_names(old_out)[m] == old_out[m].name@);
                        assert(crate::search::distinct(pre).contains(old_out[m].name@));
                    }
                }
            }
        }
        i = i + 1;
    }
    assert(a.take(all@.len() as int) =~= a);
    out
}

/// All tags of all rows, in order.
fn flatten(rows: &Vec<Vec<String>>) -> (r: Vec<String>)
    ensures
        views(r@) == flat(nested_views(rows@)),
{
    let mut out: Vec<String> = Vec::new();
    let mut i: usize = 0;
    while i < rows.len()
        invariant
            i <= rows@.len(),
            views(out@) == flat(nested_views(rows@).take(i as int)),
        decreases rows@.len() - i,
    {
        let ghost before = views(out@);
        let mut k: usize = 0;
        while k < rows[i].len()
            invariant
                i < rows@.len(),
                k <= rows@[i as int]@.len(),
                views(out@) == before + views(rows@[i as int]@).take(k as int),
            decreases rows@[i as int]@.len() - k,
        {
            let ghost prev = views(out@);
            let item = rows[i][k].clone();
            out.push(item);
            assert(views(out@) =~= prev.push(rows@[i as int]@[k as int]@));
            assert(views(rows@[i as int]@).take(k as int + 1) =~= views(rows@[i as int]@).take(k as int).push(rows@[i as int]@[k as int]@));
            assert(views(out@) =~= before + views(rows@[i as int]@).take(k as int + 1));
            k = k + 1;
        }
        proof {
            assert(views(rows@[i as int]@).take(rows@[i as int]@.len() as int) =~= views(rows@[i as int]@));
            assert(nested_views(rows@).take(i as int + 1).drop_last() =~= nested_views(rows@).take(i as int));
        }
        i = i + 1;
    }
    assert(nested_views(rows@).take(rows@.len() as int) =~= nested_views(rows@));
    out
}

/// Every tag of the rows once, in order of first appearance, with the
/// number of times it occurs over all rows.
pub fn tag_counts(rows: &Vec<Vec<String>>) -> (r: Vec<FacetEntry>)
    requires
        flat(nested_views(rows@)).len() <= i64::MAX,
    ensures
        facet_names(r@) == crate::search::distinct(flat(nested_views(rows@))),
        forall|i: int| 0 <= i < r@.len() ==> #[trigger] r@[i].count == count_of(flat(nested_views(rows@)), r@[i].name@),
{
    let all = flatten(rows);
    count_tags(&all)
}

/// Computes the tag facet of tagged rows (see [`is_tag_facet`]). Ties in
/// count keep the order in which the tags first appear.
pub fn tag_facets(rows: &Vec<Vec<String>>) -> (r: Vec<FacetEntry>)
    requires
        flat(nested_views(rows@)).len() <= i64::MAX,
    ensures
        is_tag_facet(nested_views(rows@), r@),
{
    let all = flatten(rows);
    let ghost a = views(all@);
    let counted = count_tags(&all);
    let ghost d = crate::search::distinct(a);
    proof {
        crate::search::lemma_distinct_unique(a);
    }
    let mut sorted: Vec<FacetEntry> = Vec::new();
    let mut i: usize = 0;
    while i < counted.len()
        invariant
            i <= counted@.len(),
            a == views(all@),
            d == crate::search::distinct(a),
            facet_names(counted@) == d,
            forall|m: int| 0 <= m < counted@.len() ==> #[trigger] counted@[m].count == count_of(a, counted@[m].name@),
            forall|x: int, y: int| 0 <= x < y < d.len() ==> d[x] != d[y],
            sorted@.len() == i,
            forall|x: int, y: int| 0 <= x < y < sorted@.len() ==> sorted@[x].count >= sorted@[y].count,
            forall|m: int| 0 <= m < sorted@.len() ==> #[trigger] sorted@[m].count == count_of(a, sorted@[m].name@),
            forall|t: Seq<char>| #[trigger] facet_names(sorted@).contains(t) <==> d.take(i as int).contains(t),
        decreases counted@.len() - i,
    {
        let c = counted[i].count;
        let mut p: usize = 0;
        while p < sorted.len() && sorted[p].count >= c
            invariant
                p <= sorted@.len(),
                forall|m: int| 0 <= m < p ==> sorted@[m].count >= c,
            decreases sorted@.len() - p,
        {
            p = p + 1;
        }
        let ghost old_s = sorted@;
        let e = FacetEntry { name: counted[i].name.clone(), count: c };
        sorted.insert(p, e);
        proof {
            assert(sorted@ =~= old_s.insert(p as int, e));
            assert(facet_names(counted@)[i as int] == counted@[i as int].name@);
            assert(d.take(i as int + 1) =~= d.take(i as int).push(d[i as int]));
            assert forall|x: int, y: int| 0 <= x < y < sorted@.len() implies sorted@[x].count >= sorted@[y].count by {
                if y == p {
                } else if x == p {
                    if p < old_s.len() {
                        assert(old_s[p as int].count < c);
                    }
                } else if x < p && y > p {
                } else {
                }
            }
            let d0 = d.take(i as int);
            let d1 = d.take(i as int + 1);
            assert forall|t: Seq<char>| #[trigger] facet_names(sorted@).contains(t) <==> d1.contains(t) by {
                let ns = facet_names(sorted@);
                let os = facet_names(old_s);
                if ns.contains(t) {
                    let k = choose|k: int| 0 <= k < ns.len() && ns[k] == t;
                    if k < p {
                        assert(os[k] == t);
                        assert(os.contains(t));
                        let j = choose|j: int| 0 <= j < d0.len() && d0[j] == t;
                        assert(d1[j] == t);
                    } else if k > p {
                        assert(os[k - 1] == t);
                        assert(os.contains(t));
                        let j = choose|j: int| 0 <= j < d0.len() && d0[j] == t;
                        assert(d1[j] == t);
                    } else {
                        assert(d1[i as int] == t);
                    }
                }
                if d1.contains(t) {
                    let j = choose|j: int| 0 <= j < d1.len() && d1[j] == t;
                    if j < i {
                        assert(d0[j] == t);
                        assert(os.contains(t));
                        let k = choose|k: int| 0 <= k < os.len() && os[k] == t;
                        if k < p {
                            assert(ns[k] == t);
                        } else {
                            assert(ns[k + 1] == t);
                        }
                    } else {
                        assert(ns[p as int] == t);
                    }
                }
            }
        }
        i = i + 1;
    }
    proof {
        assert(d.take(d.len() as int) =~= d);
        // names in `sorted` are distinct: same set as `d`, same length, `d` distinct
        lemma_distinct_same_set(facet_names(sorted@), d);
    }
    let limit: usize = if sorted.len() < 30 { sorted.len() } else { 30 };
    let ghost full = sorted@;
    sorted.truncate(limit);
    proof {
        let r = sorted@;
        assert(r =~= full.subrange(0, limit as int));
        assert forall|k: int| 0 <= k < r.len() implies a.contains(#[trigger] r[k].name@) by {
            assert(facet_names(full)[k] == r[k].name@);
            assert(facet_names(full).contains(r[k].name@));
            assert(d.contains(r[k].name@));
        }
        assert forall|x: int, y: int| 0 <= x < y < r.len() implies r[x].name@ != r[y].name@ by {
            assert(facet_names(full)[x] == r[x].name@);
            assert(facet_names(full)[y] == r[y].name@);
        }
        assert forall|t: Seq<char>| a.contains(t) && !facet_names(r).contains(t) implies count_of(a, t) <= r[r.len() - 1].count by {
            assert(d.contains(t));
            assert(facet_names(full).contains(t));
            let k = choose|k: int| 0 <= k < facet_names(full).len() && facet_names(full)[k] == t;
            if k < limit {
                assert(facet_names(r)[k] == t);
            }
            assert(full[k].count == count_of(a, full[k].name@));
        }
    }
    sorted
}

/// Two lists without repeats that hold the same items have the same length;
/// here: the first has no repeats when it is as long as the second.
proof fn lemma_distinct_same_set(x: Seq<Seq<char>>, d: Seq<Seq<char>>)
    requires
        x.len() == d.len(),
        forall|i: int, j: int| 0 <= i < j < d.len() ==> d[i] != d[j],
        forall|t: Seq<char>| #[trigger] x.contains(t) <==> d.contains(t),
    ensures
        forall|i: int, j: int| 0 <= i < j < x.len() ==> x[i] != x[j],
{
    assert forall|i: int, j: int| 0 <= i < j < x.len() implies x[i] != x[j] by {
        if x[i] == x[j] {
            // x would hold at most len - 1 different items, d holds len
            lemma_set_len_lt_with_repeat(x, i, j);
            assert(d.no_duplicates());
            assert(x.to_set() =~= d.to_set()) by {
                assert forall|t: Seq<char>| x.to_set().contains(t) <==> d.to_set().contains(t) by {
                    assert(x.contains(t) <==> d.contains(t));
                }
            }
            d.unique_seq_to_set();
        }
    }
}

proof fn lemma_set_len_lt_with_repeat(x: Seq<Seq<char>>, i: int, j: int)
    requires
        0 <= i < j < x.len(),
        x[i] == x[j],
    ensures
        x.to_set().len() < x.len(),
{
    let y = x.remove(j);
    assert(x.to_set() =~= y.to_set()) by {
        assert forall|t: Seq<char>| x.to_set().contains(t) <==> y.to_set().contains(t) by {
            if x.contains(t) {
                let k = choose|k: int| 0 <= k < x.len() && x[k] == t;
                if k < j {
                    assert(y[k] == t);
                } else if k > j {
                    assert(y[k - 1] == t);
                } else {
                    assert(y[i] == t);
                }
            }
            if y.contains(t) {
                let k = choose|k: int| 0 <= k < y.len() && y[k] == t;
                if k < j {
                    assert(x[k] == t);
                } else {
                    assert(x[k + 1] == t);
                }
            }
        }
    }
    y.lemma_cardinality_of_set();
}

} // verus!
