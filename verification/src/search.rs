//! The search query router: reading filters out of a query, the full-text
//! query it sends, the SQL of structured filters, and fusing the ranked
//! lists of both layers.

use vstd::prelude::*;
use crate::text::{
    chars_of, dec_nat, find, find_chars, is_whitespace, is_ws, join_strings, join_with,
    lemma_find_from_bounds, push_str, slice_chars, string_of, trim_char, trim_end_char,
    trim_start_char, usize_text, views,
};

verus! {

/// A `field:value` filter of a query.
#[derive(Debug)]
pub struct Filter {
    pub field: String,
    pub value: String,
}

/// How a query is answered.
#[derive(Debug)]
pub enum SearchIntent {
    /// Only filters: answered by SQL conditions.
    Structured(Vec<Filter>),
    /// No words and no filters: the query as full text.
    Keyword(String),
    /// Words, with or without filters: full text restricted by the filters,
    /// with semantic search to come.
    Hybrid { text: String, filters: Vec<Filter> },
}

/// Words of a text split at runs of whitespace, in the state of a
/// left-to-right scan: the finished words and the word being read.
pub open spec fn split_state(s: Seq<char>) -> (Seq<Seq<char>>, Seq<char>)
    decreases s.len(),
{
    if s.len() == 0 {
        (seq![], seq![])
    } else {
        let (ws, cur) = split_state(s.drop_last());
        let c = s.last();
        if is_ws(c) {
            if cur.len() > 0 {
                (ws.push(cur), seq![])
            } else {
                (ws, cur)
            }
        } else {
            (ws, cur.push(c))
        }
    }
}

/// The whitespace-separated words of a text (`str::split_whitespace`).
pub open spec fn words(s: Seq<char>) -> Seq<Seq<char>> {
    let (ws, cur) = split_state(s);
    if cur.len() > 0 {
        ws.push(cur)
    } else {
        ws
    }
}

/// The fields a filter may name.
pub open spec fn known_field(f: Seq<char>) -> bool {
    ||| f == "sender"@
    ||| f == "type"@
    ||| f == "tag"@
    ||| f == "date"@
    ||| f == "language"@
    ||| f == "status"@
}

/// The filter a word stands for: `field:value` with a known field, the value
/// stripped of surrounding double quotes.
pub open spec fn word_filter(w: Seq<char>) -> Option<(Seq<char>, Seq<char>)> {
    match find(w, seq![':']) {
        Some(i) => {
            let f = w.take(i);
            if known_field(f) {
                Some((f, trim_end_char(trim_start_char(w.skip(i + 1), '"'), '"')))
            } else {
                None
            }
        },
        None => None,
    }
}

/// The filters among the words, in order.
pub open spec fn filters_of(ws: Seq<Seq<char>>) -> Seq<(Seq<char>, Seq<char>)>
    decreases ws.len(),
{
    if ws.len() == 0 {
        seq![]
    } else {
        let rest = filters_of(ws.drop_last());
        match word_filter(ws.last()) {
            Some(f) => rest.push(f),
            None => rest,
        }
    }
}

/// The words that are no filter, in order.
pub open spec fn text_words(ws: Seq<Seq<char>>) -> Seq<Seq<char>>
    decreases ws.len(),
{
    if ws.len() == 0 {
        seq![]
    } else {
        let rest = text_words(ws.drop_last());
        match word_filter(ws.last()) {
            Some(_) => rest,
            None => rest.push(ws.last()),
        }
    }
}

/// (field, value) of each filter.
pub open spec fn filter_views(fs: Seq<Filter>) -> Seq<(Seq<char>, Seq<char>)> {
    fs.map_values(|f: Filter| (f.field@, f.value@))
}

/// The intent of a query: its filters when it has nothing else; its words
/// (the filters taken out of them) together with its filters when it has
/// any words; else the query itself as keywords.
pub open spec fn intent_of(query: Seq<char>, r: SearchIntent) -> bool {
    let ws = words(query);
    let fs = filters_of(ws);
    let text = join_with(text_words(ws), " "@);
    if fs.len() > 0 && text.len() == 0 {
        r matches SearchIntent::Structured(v) && filter_views(v@) == fs
    } else if text.len() > 0 {
        r matches SearchIntent::Hybrid { text: t, filters: v } && t@ == text && filter_views(v@) == fs
    } else {
        r matches SearchIntent::Keyword(q) && q@ == query
    }
}

/// Splits a text into its whitespace-separated words.
pub fn split_words(s: &str) -> (r: Vec<String>)
    ensures
        views(r@) == words(s@),
{
    let v = chars_of(s);
    let mut ws: Vec<String> = Vec::new();
    let mut cur: Vec<char> = Vec::new();
    let mut i: usize = 0;
    while i < v.len()
        invariant
            i <= v@.len(),
            split_state(v@.subrange(0, i as int)) == (views(ws@), cur@),
        decreases v@.len() - i,
    {
        let c = v[i];
        proof {
            assert(v@.subrange(0, i as int + 1).drop_last() =~= v@.subrange(0, i as int));
        }
        if is_whitespace(c) {
            if cur.len() > 0 {
                let w = string_of(cur.as_slice());
                let ghost prev = ws@;
                ws.push(w);
                assert(views(ws@) =~= views(prev).push(cur@));
                cur = Vec::new();
                assert(cur@ =~= seq![]);
            }
        } else {
            cur.push(c);
        }
        i = i + 1;
    }
    assert(v@.subrange(0, v@.len() as int) =~= v@);
    if cur.len() > 0 {
        let w = string_of(cur.as_slice());
        let ghost prev = ws@;
        ws.push(w);
        assert(views(ws@) =~= views(prev).push(cur@));
    }
    ws
}

/// Whether `f` names a filter field.
fn is_known_field(f: &str) -> (b: bool)
    ensures
        b == known_field(f@),
{
    crate::json::same_text(f, "sender") || crate::json::same_text(f, "type")
        || crate::json::same_text(f, "tag") || crate::json::same_text(f, "date")
        || crate::json::same_text(f, "language") || crate::json::same_text(f, "status")
}

/// The filter a word stands for (see [`word_filter`]).
pub fn parse_filter(w: &str) -> (r: Option<Filter>)
    ensures
        r matches Some(f) ==> word_filter(w@) == Some((f.field@, f.value@)),
        r is None ==> word_filter(w@) is None,
{
    let v = chars_of(w);
    let colon = vec![':'];
    assert(colon@ =~= seq![':']);
    match find_chars(&v, &colon) {
        Some(i) => {
            proof {
                lemma_find_from_bounds(v@, colon@, 0);
            }
            let field_v = slice_chars(&v, 0, i);
            let field = string_of(field_v.as_slice());
            assert(field@ =~= v@.take(i as int));
            if is_known_field(field.as_str()) {
                let rest = slice_chars(&v, i + 1, v.len());
                assert(rest@ =~= v@.skip(i + 1));
                let trimmed = trim_char(&rest, '"');
                Some(Filter { field, value: string_of(trimmed.as_slice()) })
            } else {
                None
            }
        },
        None => None,
    }
}

/// Reads the intent of a search query (see [`intent_of`]).
pub fn parse_intent(query: &str) -> (r: SearchIntent)
    ensures
        intent_of(query@, r),
{
    let ws = split_words(query);
    let mut filters: Vec<Filter> = Vec::new();
    let mut text_parts: Vec<String> = Vec::new();
    let mut i: usize = 0;
    while i < ws.len()
        invariant
            i <= ws@.len(),
            filter_views(filters@) == filters_of(views(ws@).take(i as int)),
            views(text_parts@) == text_words(views(ws@).take(i as int)),
        decreases ws@.len() - i,
    {
        proof {
            assert(views(ws@).take(i as int + 1).drop_last() =~= views(ws@).take(i as int));
            assert(views(ws@).take(i as int + 1).last() == ws@[i as int]@);
        }
        match parse_filter(ws[i].as_str()) {
            Some(f) => {
                let ghost prev = filters@;
                filters.push(f);
                assert(filter_views(filters@) =~= filter_views(prev).push((f.field@, f.value@)));
            },
            None => {
                let ghost prev = text_parts@;
                text_parts.push(ws[i].clone());
                assert(views(text_parts@) =~= views(prev).push(ws@[i as int]@));
            },
        }
        i = i + 1;
    }
    assert(views(ws@).take(ws@.len() as int) =~= views(ws@));
    let text = join_strings(&text_parts, " ");
    let text_len = text.unicode_len();
    if filters.len() > 0 && text_len == 0 {
        SearchIntent::Structured(filters)
    } else if text_len > 0 {
        SearchIntent::Hybrid { text, filters }
    } else {
        SearchIntent::Keyword(query.to_string())
    }
}

/// The `query_intent` reported with search results.
pub open spec fn intent_description(i: SearchIntent) -> Seq<char> {
    match i {
        SearchIntent::Structured(_) => "structured"@,
        SearchIntent::Keyword(_) => "keyword"@,
        SearchIntent::Hybrid { .. } => "hybrid(keyword, semantic)"@,
    }
}

impl SearchIntent {
    /// Describes the intent (see [`intent_description`]).
    pub fn description(&self) -> (r: String)
        ensures
            r@ == intent_description(*self),
    {
        match self {
            SearchIntent::Structured(_) => "structured".to_string(),
            SearchIntent::Keyword(_) => "keyword".to_string(),
            SearchIntent::Hybrid { .. } => "hybrid(keyword, semantic)".to_string(),
        }
    }
}

/// A text with each double quote doubled, as FTS5 string syntax wants.
pub open spec fn escaped_quotes(s: Seq<char>) -> Seq<char>
    decreases s.len(),
{
    if s.len() == 0 {
        seq![]
    } else {
        escaped_quotes(s.drop_last()) + if s.last() == '"' {
            seq!['"', '"']
        } else {
            seq![s.last()]
        }
    }
}

/// A word as an FTS5 string.
pub open spec fn quoted(w: Seq<char>) -> Seq<char> {
    seq!['"'] + w + seq!['"']
}

/// The FTS5 query for a text: each word quoted, joined by `OR`; nothing when
/// the text has no words.
pub open spec fn fts_query_of(text: Seq<char>) -> Option<Seq<char>> {
    let ws = words(escaped_quotes(text));
    if ws.len() == 0 {
        None
    } else {
        Some(join_with(ws.map_values(|w: Seq<char>| quoted(w)), " OR "@))
    }
}

/// Builds the FTS5 `MATCH` query for a text (see [`fts_query_of`]).
pub fn fts_query(text: &str) -> (r: Option<String>)
    ensures
        r matches Some(q) ==> fts_query_of(text@) == Some(q@),
        r is None ==> fts_query_of(text@) is None,
{
    let v = chars_of(text);
    let mut esc: Vec<char> = Vec::new();
    let mut i: usize = 0;
    while i < v.len()
        invariant
            i <= v@.len(),
            esc@ == escaped_quotes(v@.subrange(0, i as int)),
        decreases v@.len() - i,
    {
        proof {
            assert(v@.subrange(0, i as int + 1).drop_last() =~= v@.subrange(0, i as int));
        }
        let c = v[i];
        let ghost prev = esc@;
        if c == '"' {
            esc.push('"');
            esc.push('"');
            assert(esc@ =~= prev + seq!['"', '"']);
        } else {
            esc.push(c);
            assert(esc@ =~= prev + seq![c]);
        }
        i = i + 1;
    }
    assert(v@.subrange(0, v@.len() as int) =~= v@);
    let escaped = string_of(esc.as_slice());
    let ws = split_words(escaped.as_str());
    if ws.len() == 0 {
        return None;
    }
    let mut quoted_words: Vec<String> = Vec::new();
    let mut k: usize = 0;
    while k < ws.len()
        invariant
            k <= ws@.len(),
            views(quoted_words@) == views(ws@).take(k as int).map_values(|w: Seq<char>| quoted(w)),
        decreases ws@.len() - k,
    {
        let mut q = "\"".to_string();
        push_str(&mut q, ws[k].as_str());
        push_str(&mut q, "\"");
        proof {
            reveal_strlit("\"");
            assert("\""@ =~= seq!['"']);
            assert(q@ =~= quoted(ws@[k as int]@));
        }
        let ghost prev = quoted_words@;
        quoted_words.push(q);
        proof {
            assert(views(quoted_words@) =~= views(prev).push(q@));
            assert(views(ws@).take(k as int + 1).map_values(|w: Seq<char>| quoted(w)) =~= views(
                ws@,
            ).take(k as int).map_values(|w: Seq<char>| quoted(w)).push(quoted(ws@[k as int]@)));
        }
        k = k + 1;
    }
    assert(views(ws@).take(ws@.len() as int) =~= views(ws@));
    Some(join_strings(&quoted_words, " OR "))
}


/// The SQL placeholder for the `n`-th bound value.
pub open spec fn placeholder(n: nat) -> Seq<char> {
    seq!['?'] + dec_nat(n)
}

/// The SQL condition and bound value of a filter whose value is bound as the
/// `n`-th parameter; nothing for an unknown field.
pub open spec fn filter_condition(field: Seq<char>, value: Seq<char>, n: nat) -> Option<
    (Seq<char>, Seq<char>),
> {
    let p = placeholder(n);
    if field == "sender"@ {
        Some(("sender_normalized LIKE '%' || "@ + p + " || '%'"@, value))
    } else if field == "type"@ {
        Some(("document_type = "@ + p, value))
    } else if field == "tag"@ {
        Some(("tags LIKE '%' || "@ + p + " || '%'"@, seq!['"'] + value + seq!['"']))
    } else if field == "language"@ {
        Some(("language = "@ + p, value))
    } else if field == "status"@ {
        Some(("status = "@ + p, value))
    } else if field == "date"@ {
        if value.len() > 0 && value[0] == '>' {
            Some(("document_date > "@ + p, value.drop_first()))
        } else if value.len() > 0 && value[0] == '<' {
            Some(("document_date < "@ + p, value.drop_first()))
        } else {
            Some(("document_date = "@ + p, value))
        }
    } else {
        None
    }
}

/// Conditions and bound values of the filters, in order, numbered from 1.
pub open spec fn structured_parts(fs: Seq<(Seq<char>, Seq<char>)>) -> (Seq<Seq<char>>, Seq<Seq<char>>)
    decreases fs.len(),
{
    if fs.len() == 0 {
        (seq![], seq![])
    } else {
        let (cs, bs) = structured_parts(fs.drop_last());
        match filter_condition(fs.last().0, fs.last().1, bs.len() + 1) {
            Some((c, b)) => (cs.push(c), bs.push(b)),
            None => (cs, bs),
        }
    }
}

/// The SQL that finds the documents matching all filters, newest document
/// date first, at most 100; nothing when no filter gives a condition.
pub open spec fn structured_sql(fs: Seq<(Seq<char>, Seq<char>)>) -> Option<(Seq<char>, Seq<Seq<char>>)> {
    let (cs, bs) = structured_parts(fs);
    if cs.len() == 0 {
        None
    } else {
        Some(
            (
                "SELECT id FROM documents WHERE "@ + join_with(cs, " AND "@)
                    + " ORDER BY document_date DESC NULLS LAST LIMIT 100"@,
                bs,
            ),
        )
    }
}

/// An SQL statement with the text values bound to its numbered parameters.
#[derive(Debug)]
pub struct SqlQuery {
    pub sql: String,
    pub binds: Vec<String>,
}

fn concat3(a: &str, b: &str, c: &str) -> (r: String)
    ensures
        r@ == a@ + b@ + c@,
{
    let mut r = a.to_string();
    push_str(&mut r, b);
    push_str(&mut r, c);
    r
}

/// The condition and bound value of one filter (see [`filter_condition`]).
fn condition_for(f: &Filter, n: usize) -> (r: Option<(String, String)>)
    ensures
        r matches Some((c, b)) ==> filter_condition(f.field@, f.value@, n as nat) == Some((c@, b@)),
        r is None ==> filter_condition(f.field@, f.value@, n as nat) is None,
{
    let num = usize_text(n);
    let p = concat3("?", num.as_str(), "");
    proof {
        reveal_strlit("?");
        reveal_strlit("");
        assert(p@ =~= placeholder(n as nat));
    }
    let field = f.field.as_str();
    if crate::json::same_text(field, "sender") {
        Some((concat3("sender_normalized LIKE '%' || ", p.as_str(), " || '%'"), f.value.clone()))
    } else if crate::json::same_text(field, "type") {
        Some((concat3("document_type = ", p.as_str(), ""), f.value.clone()))
    } else if crate::json::same_text(field, "tag") {
        proof {
            reveal_strlit("\"");
        }
        let b = concat3("\"", f.value.as_str(), "\"");
        assert(b@ =~= seq!['"'] + f.value@ + seq!['"']);
        Some((concat3("tags LIKE '%' || ", p.as_str(), " || '%'"), b))
    } else if crate::json::same_text(field, "language") {
        Some((concat3("language = ", p.as_str(), ""), f.value.clone()))
    } else if crate::json::same_text(field, "status") {
        Some((concat3("status = ", p.as_str(), ""), f.value.clone()))
    } else if crate::json::same_text(field, "date") {
        let v = chars_of(f.value.as_str());
        if v.len() > 0 && v[0] == '>' {
            let rest = slice_chars(&v, 1, v.len());
            assert(rest@ =~= f.value@.drop_first());
            Some((concat3("document_date > ", p.as_str(), ""), string_of(rest.as_slice())))
        } else if v.len() > 0 && v[0] == '<' {
            let rest = slice_chars(&v, 1, v.len());
            assert(rest@ =~= f.value@.drop_first());
            Some((concat3("document_date < ", p.as_str(), ""), string_of(rest.as_slice())))
        } else {
            Some((concat3("document_date = ", p.as_str(), ""), f.value.clone()))
        }
    } else {
        None
    }
}

/// The conditions and bound values of the filters (see
/// [`structured_parts`]).
fn structured_conditions(filters: &Vec<Filter>) -> (r: (Vec<String>, Vec<String>))
    ensures
        structured_parts(filter_views(filters@)) == (views(r.0@), views(r.1@)),
        r.1@.len() <= filters@.len(),
{
    let mut conditions: Vec<String> = Vec::new();
    let mut binds: Vec<String> = Vec::new();
    let mut i: usize = 0;
    while i < filters.len()
        invariant
            i <= filters@.len(),
            binds@.len() <= i,
            structured_parts(filter_views(filters@).take(i as int)) == (
                views(conditions@),
                views(binds@),
            ),
        decreases filters@.len() - i,
    {
        proof {
            assert(filter_views(filters@).take(i as int + 1).drop_last() =~= filter_views(
                filters@,
            ).take(i as int));
        }
        let n = binds.len() + 1;
        match condition_for(&filters[i], n) {
            Some((c, b)) => {
                let ghost pc = conditions@;
                let ghost pb = binds@;
                conditions.push(c);
                binds.push(b);
                assert(views(conditions@) =~= views(pc).push(c@));
                assert(views(binds@) =~= views(pb).push(b@));
            },
            None => {},
        }
        i = i + 1;
    }
    assert(filter_views(filters@).take(filters@.len() as int) =~= filter_views(filters@));
    (conditions, binds)
}

/// The SQL of a structured search (see [`structured_sql`]).
pub fn structured_query(filters: &Vec<Filter>) -> (r: Option<SqlQuery>)
    ensures
        r matches Some(q) ==> structured_sql(filter_views(filters@)) == Some((q.sql@, views(q.binds@))),
        r is None ==> structured_sql(filter_views(filters@)) is None,
{
    let (conditions, binds) = structured_conditions(filters);
    if conditions.len() == 0 {
        return None;
    }
    let joined = join_strings(&conditions, " AND ");
    let sql = concat3(
        "SELECT id FROM documents WHERE ",
        joined.as_str(),
        " ORDER BY document_date DESC NULLS LAST LIMIT 100",
    );
    Some(SqlQuery { sql, binds })
}

/// The SQL of the full-text layer for a text and the filters that restrict
/// it: the documents matching the text's FTS5 query, best rank first, at
/// most 100; with filters, only those among the documents matching all of
/// them (the filters bound first, the FTS5 query last). Nothing when the
/// text has no words.
pub open spec fn text_search_sql(text: Seq<char>, fs: Seq<(Seq<char>, Seq<char>)>) -> Option<
    (Seq<char>, Seq<Seq<char>>),
> {
    match fts_query_of(text) {
        None => None,
        Some(q) => {
            let (cs, bs) = structured_parts(fs);
            if cs.len() == 0 {
                Some(
                    (
                        "SELECT d.id FROM documents_fts f JOIN documents d ON d.rowid = f.rowid WHERE documents_fts MATCH ?1 ORDER BY f.rank LIMIT 100"@,
                        seq![q],
                    ),
                )
            } else {
                Some(
                    (
                        "SELECT d.id FROM documents_fts f JOIN documents d ON d.rowid = f.rowid WHERE d.id IN (SELECT id FROM documents WHERE "@
                            + join_with(cs, " AND "@) + ") AND documents_fts MATCH "@
                            + placeholder(bs.len() + 1) + " ORDER BY f.rank LIMIT 100"@,
                        bs.push(q),
                    ),
                )
            }
        },
    }
}

/// The SQL of the full-text layer (see [`text_search_sql`]).
pub fn text_search_query(text: &str, filters: &Vec<Filter>) -> (r: Option<SqlQuery>)
    requires
        filters@.len() < usize::MAX,
    ensures
        r matches Some(q) ==> text_search_sql(text@, filter_views(filters@)) == Some(
            (q.sql@, views(q.binds@)),
        ),
        r is None ==> text_search_sql(text@, filter_views(filters@)) is None,
{
    let q = match fts_query(text) {
        Some(q) => q,
        None => {
            return None;
        },
    };
    let (conditions, mut binds) = structured_conditions(filters);
    if conditions.len() == 0 {
        let mut b: Vec<String> = Vec::new();
        b.push(q);
        let ghost qv = b@[0]@;
        assert(views(b@) =~= seq![qv]);
        return Some(
            SqlQuery {
                sql: "SELECT d.id FROM documents_fts f JOIN documents d ON d.rowid = f.rowid WHERE documents_fts MATCH ?1 ORDER BY f.rank LIMIT 100".to_string(),
                binds: b,
            },
        );
    }
    let joined = join_strings(&conditions, " AND ");
    let n = binds.len() + 1;
    let num = usize_text(n);
    let p = concat3("?", num.as_str(), "");
    proof {
        reveal_strlit("?");
        reveal_strlit("");
        assert(p@ =~= placeholder(n as nat));
    }
    let head = concat3(
        "SELECT d.id FROM documents_fts f JOIN documents d ON d.rowid = f.rowid WHERE d.id IN (SELECT id FROM documents WHERE ",
        joined.as_str(),
        ") AND documents_fts MATCH ",
    );
    let sql = concat3(head.as_str(), p.as_str(), " ORDER BY f.rank LIMIT 100");
    let ghost pb = binds@;
    let ghost qv = q@;
    binds.push(q);
    assert(views(binds@) =~= views(pb).push(qv));
    Some(SqlQuery { sql, binds })
}

/// A document found by one or more search layers, with its 0-based ranks in
/// each layer. Its fused score is the sum of `1 / (60 + rank + 1)` over all
/// its ranks (reciprocal rank fusion).
#[derive(Debug)]
pub struct FusedHit {
    pub id: String,
    pub fts_ranks: Vec<usize>,
    pub structured_ranks: Vec<usize>,
    pub sources: Vec<String>,
}

/// The indices at which `id` occurs in a ranked list, ascending.
pub open spec fn positions(layer: Seq<Seq<char>>, id: Seq<char>) -> Seq<usize>
    decreases layer.len(),
{
    if layer.len() == 0 {
        seq![]
    } else {
        let rest = positions(layer.drop_last(), id);
        if layer.last() == id {
            rest.push((layer.len() - 1) as usize)
        } else {
            rest
        }
    }
}

/// The items of a list without repeats, in order of first occurrence.
pub open spec fn distinct(s: Seq<Seq<char>>) -> Seq<Seq<char>>
    decreases s.len(),
{
    if s.len() == 0 {
        seq![]
    } else {
        let d = distinct(s.drop_last());
        if d.contains(s.last()) {
            d
        } else {
            d.push(s.last())
        }
    }
}

/// The layers a hit came from: full text first, then structured.
pub open spec fn hit_sources(fts: Seq<usize>, structured: Seq<usize>) -> Seq<Seq<char>> {
    (if fts.len() > 0 {
        seq!["fts5"@]
    } else {
        seq![]
    }) + (if structured.len() > 0 {
        seq!["structured"@]
    } else {
        seq![]
    })
}

/// The ids of hits.
pub open spec fn hit_ids(hits: Seq<FusedHit>) -> Seq<Seq<char>> {
    hits.map_values(|h: FusedHit| h.id@)
}

/// The fused hits of two ranked lists: one per document, in order of first
/// appearance (full-text list first), with the document's ranks in each list.
pub open spec fn fused(fts: Seq<Seq<char>>, structured: Seq<Seq<char>>, hits: Seq<FusedHit>) -> bool {
    &&& hit_ids(hits) == distinct(fts + structured)
    &&& forall|k: int|
        0 <= k < hits.len() ==> {
            let h = #[trigger] hits[k];
            &&& h.fts_ranks@ == positions(fts, h.id@)
            &&& h.structured_ranks@ == positions(structured, h.id@)
            &&& views(h.sources@) == hit_sources(h.fts_ranks@, h.structured_ranks@)
        }
}

pub proof fn lemma_distinct_unique(s: Seq<Seq<char>>)
    ensures
        forall|i: int, j: int|
            0 <= i < j < distinct(s).len() ==> distinct(s)[i] != distinct(s)[j],
        forall|x: Seq<char>| #[trigger] distinct(s).contains(x) <==> s.contains(x),
    decreases s.len(),
{
    if s.len() > 0 {
        let t = s.drop_last();
        let d = distinct(t);
        let l = s.last();
        lemma_distinct_unique(t);
        assert forall|x: Seq<char>| #[trigger] distinct(s).contains(x) <==> s.contains(x) by {
            if distinct(s).contains(x) {
                let k = choose|k: int| 0 <= k < distinct(s).len() && distinct(s)[k] == x;
                if k < d.len() {
                    assert(d[k] == x);
                    assert(d.contains(x));
                    assert(t.contains(x));
                    let i = choose|i: int| 0 <= i < t.len() && t[i] == x;
                    assert(s[i] == x);
                } else {
                    assert(x == l);
                    assert(s[s.len() - 1] == x);
                }
            }
            if s.contains(x) {
                let i = choose|i: int| 0 <= i < s.len() && s[i] == x;
                if i < s.len() - 1 {
                    assert(t[i] == x);
                    assert(t.contains(x));
                    assert(d.contains(x));
                    let k = choose|k: int| 0 <= k < d.len() && d[k] == x;
                    if !d.contains(l) {
                        assert(d.push(l)[k] == x);
                    }
                } else {
                    assert(x == l);
                    if !d.contains(l) {
                        assert(d.push(l)[d.len() as int] == x);
                    }
                }
            }
        }
    }
}

proof fn lemma_positions_present(s: Seq<Seq<char>>, id: Seq<char>)
    requires
        s.contains(id),
    ensures
        positions(s, id).len() > 0,
    decreases s.len(),
{
    if s.last() != id {
        let i = choose|i: int| 0 <= i < s.len() && s[i] == id;
        assert(s.drop_last()[i] == id);
        lemma_positions_present(s.drop_last(), id);
    }
}

proof fn lemma_positions_push(s: Seq<Seq<char>>, x: Seq<char>, id: Seq<char>)
    ensures
        positions(s.push(x), id) == if x == id {
            positions(s, id).push(s.len() as usize)
        } else {
            positions(s, id)
        },
{
    assert(s.push(x).drop_last() =~= s);
}

pub proof fn lemma_distinct_push(s: Seq<Seq<char>>, x: Seq<char>)
    ensures
        distinct(s.push(x)) == if distinct(s).contains(x) {
            distinct(s)
        } else {
            distinct(s).push(x)
        },
{
    assert(s.push(x).drop_last() =~= s);
}

proof fn lemma_positions_absent(s: Seq<Seq<char>>, id: Seq<char>)
    requires
        !s.contains(id),
    ensures
        positions(s, id) == Seq::<usize>::empty(),
    decreases s.len(),
{
    if s.len() > 0 {
        assert(s.last() != id) by {
            assert(s[s.len() - 1] == s.last());
        }
        assert(!s.drop_last().contains(id)) by {
            if s.drop_last().contains(id) {
                let x = choose|x: int| 0 <= x < s.drop_last().len() && s.drop_last()[x] == id;
                assert(s[x] == id);
            }
        }
        lemma_positions_absent(s.drop_last(), id);
    }
}

/// Finds the hit with the given id.
fn find_hit(hits: &Vec<FusedHit>, id: &String) -> (r: Option<usize>)
    ensures
        r matches Some(k) ==> k < hits@.len() && hits@[k as int].id@ == id@,
        r is None ==> !hit_ids(hits@).contains(id@),
{
    let mut k: usize = 0;
    while k < hits.len()
        invariant
            k <= hits@.len(),
            forall|j: int| 0 <= j < k ==> hits@[j].id@ != id@,
        decreases hits@.len() - k,
    {
        if crate::json::same_text(hits[k].id.as_str(), id.as_str()) {
            return Some(k);
        }
        k = k + 1;
    }
    proof {
        if hit_ids(hits@).contains(id@) {
            let j = choose|j: int| 0 <= j < hit_ids(hits@).len() && hit_ids(hits@)[j] == id@;
            assert(hits@[j].id@ == id@);
        }
    }
    None
}

/// Records that `id` is ranked `rank` in the structured list `b.push(id)`.
fn add_structured_rank(
    hits: &mut Vec<FusedHit>,
    id: &String,
    rank: usize,
    Ghost(a): Ghost<Seq<Seq<char>>>,
    Ghost(b): Ghost<Seq<Seq<char>>>,
)
    requires
        fused(a, b, old(hits)@),
        rank == b.len(),
    ensures
        fused(a, b.push(id@), final(hits)@),
{
    let ghost old_hits = hits@;
    proof {
        lemma_distinct_unique(a + b);
        lemma_distinct_push(a + b, id@);
        assert((a + b).push(id@) =~= a + b.push(id@));
    }
    match find_hit(hits, id) {
        Some(k) => {
            let mut h = hits.remove(k);
            let first = h.structured_ranks.len() == 0;
            let ghost old_sources = h.sources@;
            h.structured_ranks.push(rank);
            if first {
                h.sources.push("structured".to_string());
                assert(views(h.sources@) =~= views(old_sources).push("structured"@));
            }
            hits.insert(k, h);
            proof {
                assert(hits@ =~= old_hits.update(k as int, h));
                assert(hit_ids(old_hits)[k as int] == id@);
                assert(distinct(a + b).contains(id@));
                assert(hit_ids(hits@) =~= hit_ids(old_hits));
                assert forall|m: int| 0 <= m < hits@.len() implies {
                    let g = #[trigger] hits@[m];
                    &&& g.fts_ranks@ == positions(a, g.id@)
                    &&& g.structured_ranks@ == positions(b.push(id@), g.id@)
                    &&& views(g.sources@) == hit_sources(g.fts_ranks@, g.structured_ranks@)
                } by {
                    let g = hits@[m];
                    lemma_positions_push(b, id@, g.id@);
                    if m != k {
                        assert(hit_ids(old_hits)[m] == old_hits[m].id@);
                        assert(old_hits[m].id@ != id@);
                    } else {
                        assert(g.structured_ranks@ =~= old_hits[m].structured_ranks@.push(rank));
                        if first {
                            assert(views(g.sources@) =~= hit_sources(g.fts_ranks@, g.structured_ranks@));
                        } else {
                            assert(views(g.sources@) =~= hit_sources(g.fts_ranks@, g.structured_ranks@));
                        }
                    }
                }
            }
        },
        None => {
            let mut ranks: Vec<usize> = Vec::new();
            ranks.push(rank);
            let mut sources: Vec<String> = Vec::new();
            sources.push("structured".to_string());
            let h = FusedHit {
                id: id.clone(),
                fts_ranks: Vec::new(),
                structured_ranks: ranks,
                sources,
            };
            hits.push(h);
            proof {
                assert(!distinct(a + b).contains(id@));
                assert(!(a + b).contains(id@));
                assert(!a.contains(id@)) by {
                    if a.contains(id@) {
                        let x = choose|x: int| 0 <= x < a.len() && a[x] == id@;
                        assert((a + b)[x] == id@);
                    }
                }
                assert(!b.contains(id@)) by {
                    if b.contains(id@) {
                        let x = choose|x: int| 0 <= x < b.len() && b[x] == id@;
                        assert((a + b)[a.len() + x] == id@);
                    }
                }
                lemma_positions_absent(a, id@);
                lemma_positions_absent(b, id@);
                assert(hit_ids(hits@) =~= hit_ids(old_hits).push(id@));
                assert forall|m: int| 0 <= m < hits@.len() implies {
                    let g = #[trigger] hits@[m];
                    &&& g.fts_ranks@ == positions(a, g.id@)
                    &&& g.structured_ranks@ == positions(b.push(id@), g.id@)
                    &&& views(g.sources@) == hit_sources(g.fts_ranks@, g.structured_ranks@)
                } by {
                    let g = hits@[m];
                    lemma_positions_push(b, id@, g.id@);
                    if m < old_hits.len() {
                        assert(g == old_hits[m]);
                        assert(hit_ids(old_hits)[m] == g.id@);
                        assert(distinct(a + b).contains(g.id@));
                    } else {
                        assert(g.structured_ranks@ =~= seq![rank]);
                        assert(g.fts_ranks@ =~= Seq::<usize>::empty());
                        assert(views(g.sources@) =~= hit_sources(g.fts_ranks@, g.structured_ranks@));
                    }
                }
            }
        },
    }
}

/// Records that `id` is ranked `rank` in the full-text list `a.push(id)`.
fn add_fts_rank(hits: &mut Vec<FusedHit>, id: &String, rank: usize, Ghost(a): Ghost<Seq<Seq<char>>>)
    requires
        fused(a, seq![], old(hits)@),
        rank == a.len(),
    ensures
        fused(a.push(id@), seq![], final(hits)@),
{
    let ghost old_hits = hits@;
    let ghost e: Seq<Seq<char>> = seq![];
    proof {
        assert(a + e =~= a);
        assert(a.push(id@) + e =~= a.push(id@));
        lemma_distinct_unique(a);
        lemma_distinct_push(a, id@);
    }
    match find_hit(hits, id) {
        Some(k) => {
            let mut h = hits.remove(k);
            h.fts_ranks.push(rank);
            hits.insert(k, h);
            proof {
                assert(hits@ =~= old_hits.update(k as int, h));
                assert(hit_ids(old_hits)[k as int] == id@);
                assert(distinct(a).contains(id@));
                assert(hit_ids(hits@) =~= hit_ids(old_hits));
                assert forall|m: int| 0 <= m < hits@.len() implies {
                    let g = #[trigger] hits@[m];
                    &&& g.fts_ranks@ == positions(a.push(id@), g.id@)
                    &&& g.structured_ranks@ == positions(e, g.id@)
                    &&& views(g.sources@) == hit_sources(g.fts_ranks@, g.structured_ranks@)
                } by {
                    let g = hits@[m];
                    lemma_positions_push(a, id@, g.id@);
                    if m != k {
                        assert(hit_ids(old_hits)[m] == old_hits[m].id@);
                        assert(old_hits[m].id@ != id@);
                    } else {
                        assert(g.fts_ranks@ =~= old_hits[m].fts_ranks@.push(rank));
                        lemma_positions_present(a, id@);
                        assert(views(g.sources@) =~= hit_sources(g.fts_ranks@, g.structured_ranks@));
                    }
                }
            }
        },
        None => {
            let mut ranks: Vec<usize> = Vec::new();
            ranks.push(rank);
            let mut sources: Vec<String> = Vec::new();
            sources.push("fts5".to_string());
            let h = FusedHit { id: id.clone(), fts_ranks: ranks, structured_ranks: Vec::new(), sources };
            hits.push(h);
            proof {
                assert(!distinct(a).contains(id@));
                lemma_positions_absent(a, id@);
                assert(hit_ids(hits@) =~= hit_ids(old_hits).push(id@));
                assert forall|m: int| 0 <= m < hits@.len() implies {
                    let g = #[trigger] hits@[m];
                    &&& g.fts_ranks@ == positions(a.push(id@), g.id@)
                    &&& g.structured_ranks@ == positions(e, g.id@)
                    &&& views(g.sources@) == hit_sources(g.fts_ranks@, g.structured_ranks@)
                } by {
                    let g = hits@[m];
                    lemma_positions_push(a, id@, g.id@);
                    if m < old_hits.len() {
                        assert(g == old_hits[m]);
                        assert(hit_ids(old_hits)[m] == g.id@);
                        assert(distinct(a).contains(g.id@));
                    } else {
                        assert(g.fts_ranks@ =~= seq![rank]);
                        assert(g.structured_ranks@ =~= Seq::<usize>::empty());
                        assert(views(g.sources@) =~= hit_sources(g.fts_ranks@, g.structured_ranks@));
                    }
                }
            }
        },
    }
}

/// Groups the ranked lists of the full-text and the structured layer by
/// document (see [`fused`]).
pub fn fuse_layers(fts: &Vec<String>, structured: &Vec<String>) -> (hits: Vec<FusedHit>)
    ensures
        fused(views(fts@), views(structured@), hits@),
{
    let mut hits: Vec<FusedHit> = Vec::new();
    let ghost a = views(fts@);
    let ghost b = views(structured@);
    let ghost e: Seq<Seq<char>> = seq![];
    proof {
        assert(a.take(0) + e =~= e);
        assert(hit_ids(hits@) =~= distinct(a.take(0) + e));
    }
    let mut i: usize = 0;
    while i < fts.len()
        invariant
            i <= fts@.len(),
            a == views(fts@),
            e == Seq::<Seq<char>>::empty(),
            fused(a.take(i as int), e, hits@),
        decreases fts@.len() - i,
    {
        proof {
            assert(a.take(i as int + 1) =~= a.take(i as int).push(fts@[i as int]@));
        }
        add_fts_rank(&mut hits, &fts[i], i, Ghost(a.take(i as int)));
        i = i + 1;
    }
    assert(a.take(fts@.len() as int) =~= a);
    let mut j: usize = 0;
    assert(b.take(0) =~= e);
    while j < structured.len()
        invariant
            j <= structured@.len(),
            a == views(fts@),
            b == views(structured@),
            e == Seq::<Seq<char>>::empty(),
            fused(a, b.take(j as int), hits@),
        decreases structured@.len() - j,
    {
        proof {
            assert(b.take(j as int + 1) =~= b.take(j as int).push(structured@[j as int]@));
        }
        add_structured_rank(&mut hits, &structured[j], j, Ghost(a), Ghost(b.take(j as int)));
        j = j + 1;
    }
    assert(b.take(structured@.len() as int) =~= b);
    hits
}


/// Query of a search request.
#[derive(Debug)]
pub struct SearchParams {
    pub q: String,
    pub limit: Option<i64>,
    pub offset: Option<i64>,
}

/// A search to run: the raw query and the page wanted.
#[derive(Debug)]
pub struct SearchQuery {
    pub raw: String,
    pub limit: i64,
    pub offset: i64,
}

/// The search a request asks for: 20 results unless given, at most 100,
/// from offset 0 unless given.
pub fn search_query(params: SearchParams) -> (q: SearchQuery)
    ensures
        q.raw == params.q,
        q.limit == {
            let l = match params.limit {
                Some(l) => l,
                None => 20,
            };
            if l < 100 { l } else { 100 }
        },
        q.offset == match params.offset {
            Some(o) => o,
            None => 0,
        },
{
    let l = match params.limit {
        Some(l) => l,
        None => 20,
    };
    let limit = if l < 100 { l } else { 100 };
    let offset = match params.offset {
        Some(o) => o,
        None => 0,
    };
    SearchQuery { raw: params.q, limit, offset }
}


/// Every word of a query is used exactly once: as a filter or as text.
pub proof fn lemma_intent_partitions_words(ws: Seq<Seq<char>>)
    ensures
        filters_of(ws).len() + text_words(ws).len() == ws.len(),
    decreases ws.len(),
{
    if ws.len() > 0 {
        lemma_intent_partitions_words(ws.drop_last());
    }
}

/// Fusion keeps every document that a layer found, once: the fused hits are
/// exactly the documents of both lists, without repeats, and each hit comes
/// from at least one layer.
pub proof fn lemma_fusion_covers(fts: Seq<Seq<char>>, structured: Seq<Seq<char>>, hits: Seq<FusedHit>)
    requires
        fused(fts, structured, hits),
    ensures
        forall|id: Seq<char>| #[trigger] hit_ids(hits).contains(id) <==> (fts.contains(id) || structured.contains(id)),
        forall|i: int, j: int| 0 <= i < j < hits.len() ==> hits[i].id@ != hits[j].id@,
        forall|k: int| 0 <= k < hits.len() ==> #[trigger] hits[k].sources@.len() > 0,
{
    lemma_distinct_unique(fts + structured);
    assert forall|id: Seq<char>| #[trigger] hit_ids(hits).contains(id) <==> (fts.contains(id) || structured.contains(id)) by {
        let c = fts + structured;
        if c.contains(id) {
            let x = choose|x: int| 0 <= x < c.len() && c[x] == id;
            if x < fts.len() {
                assert(fts[x] == id);
            } else {
                assert(structured[x - fts.len()] == id);
            }
        }
        if fts.contains(id) {
            let x = choose|x: int| 0 <= x < fts.len() && fts[x] == id;
            assert(c[x] == id);
        }
        if structured.contains(id) {
            let x = choose|x: int| 0 <= x < structured.len() && structured[x] == id;
            assert(c[fts.len() + x] == id);
        }
    }
    assert forall|i: int, j: int| 0 <= i < j < hits.len() implies hits[i].id@ != hits[j].id@ by {
        assert(hit_ids(hits)[i] == hits[i].id@);
        assert(hit_ids(hits)[j] == hits[j].id@);
    }
    assert forall|k: int| 0 <= k < hits.len() implies #[trigger] hits[k].sources@.len() > 0 by {
        let h = hits[k];
        assert(hit_ids(hits)[k] == h.id@);
        assert(hit_ids(hits).contains(h.id@));
        if fts.contains(h.id@) {
            lemma_positions_present(fts, h.id@);
        } else {
            lemma_positions_present(structured, h.id@);
        }
        assert(views(h.sources@).len() == h.sources@.len());
    }
}


/// The condition `c` refers to the `n`-th parameter.
pub open spec fn refers_to(c: Seq<char>, n: nat) -> bool {
    exists|k: int| #[trigger] crate::text::occurs_at(c, placeholder(n), k)
}

/// The structured search binds its parameters in order: one value per
/// condition, and the `i`-th condition (from 0) refers to parameter `?i+1`.
pub proof fn lemma_structured_parameters_in_order(fs: Seq<(Seq<char>, Seq<char>)>)
    ensures
        ({
            let (cs, bs) = structured_parts(fs);
            &&& cs.len() == bs.len()
            &&& forall|i: int| 0 <= i < cs.len() ==> refers_to(#[trigger] cs[i], (i + 1) as nat)
        }),
    decreases fs.len(),
{
    if fs.len() > 0 {
        lemma_structured_parameters_in_order(fs.drop_last());
        let (cs, bs) = structured_parts(fs.drop_last());
        let n = bs.len();
        let p = placeholder(n + 1);
        let (f, v) = fs.last();
        match filter_condition(f, v, n + 1) {
            Some((c, b)) => {
                let k: int = if f == "sender"@ {
                    "sender_normalized LIKE '%' || "@.len() as int
                } else if f == "type"@ {
                    "document_type = "@.len() as int
                } else if f == "tag"@ {
                    "tags LIKE '%' || "@.len() as int
                } else if f == "language"@ {
                    "language = "@.len() as int
                } else if f == "status"@ {
                    "status = "@.len() as int
                } else if v.len() > 0 && v[0] == '>' {
                    "document_date > "@.len() as int
                } else if v.len() > 0 && v[0] == '<' {
                    "document_date < "@.len() as int
                } else {
                    "document_date = "@.len() as int
                };
                assert(crate::text::occurs_at(c, p, k)) by {
                    if f == "sender"@ {
                        let a = "sender_normalized LIKE '%' || "@;
                        assert((a + p + " || '%'"@).subrange(a.len() as int, (a.len() + p.len()) as int) =~= p);
                    } else if f == "type"@ {
                        let a = "document_type = "@;
                        assert((a + p).subrange(a.len() as int, (a.len() + p.len()) as int) =~= p);
                    } else if f == "tag"@ {
                        let a = "tags LIKE '%' || "@;
                        assert((a + p + " || '%'"@).subrange(a.len() as int, (a.len() + p.len()) as int) =~= p);
                    } else if f == "language"@ {
                        let a = "language = "@;
                        assert((a + p).subrange(a.len() as int, (a.len() + p.len()) as int) =~= p);
                    } else if f == "status"@ {
                        let a = "status = "@;
                        assert((a + p).subrange(a.len() as int, (a.len() + p.len()) as int) =~= p);
                    } else if v.len() > 0 && v[0] == '>' {
                        let a = "document_date > "@;
                        assert((a + p).subrange(a.len() as int, (a.len() + p.len()) as int) =~= p);
                    } else if v.len() > 0 && v[0] == '<' {
                        let a = "document_date < "@;
                        assert((a + p).subrange(a.len() as int, (a.len() + p.len()) as int) =~= p);
                    } else {
                        let a = "document_date = "@;
                        assert((a + p).subrange(a.len() as int, (a.len() + p.len()) as int) =~= p);
                    }
                }
                let (cs2, bs2) = structured_parts(fs);
                assert(cs2 == cs.push(c));
                assert forall|i: int| 0 <= i < cs2.len() implies refers_to(#[trigger] cs2[i], (i + 1) as nat) by {
                    if i < cs.len() {
                        assert(cs2[i] == cs[i]);
                    } else {
                        assert(cs2[i] == c);
                    }
                }
            },
            None => {},
        }
    }
}


/// The six filter fields.
pub open spec fn filter_field_name(f: Seq<char>) -> bool {
    f == "sender"@ || f == "type"@ || f == "tag"@ || f == "date"@ || f == "language"@ || f == "status"@
}

proof fn lemma_colon_found(f: Seq<char>, v: Seq<char>)
    requires
        forall|i: int| 0 <= i < f.len() ==> f[i] != ':',
    ensures
        find(f + seq![':'] + v, seq![':']) == Some(f.len() as int),
        (f + seq![':'] + v).take(f.len() as int) == f,
        (f + seq![':'] + v).skip(f.len() as int + 1) == v,
{
    let w = f + seq![':'] + v;
    crate::text::lemma_find_from_bounds(w, seq![':'], 0);
    assert(w.subrange(f.len() as int, f.len() as int + 1) =~= seq![':']);
    assert(crate::text::occurs_at(w, seq![':'], f.len() as int));
    match find(w, seq![':']) {
        Some(k) => {
            if k < f.len() {
                assert(w.subrange(k, k + 1)[0] == w[k]);
                assert(w[k] == f[k]);
            }
        },
        None => {},
    }
    assert(w.take(f.len() as int) =~= f);
    assert(w.skip(f.len() as int + 1) =~= v);
}

/// A word `field:value` naming one of the six filter fields (`sender`,
/// `type`, `tag`, `date`, `language`, `status`) is read as the filter on that
/// field with that value, also when the value is written in double quotes;
/// a word
/// `name:value` naming any other field (without a colon in the name) is no
/// filter.
pub proof fn lemma_field_words(f: Seq<char>, v: Seq<char>)
    ensures
        (f == "sender"@ || f == "type"@ || f == "tag"@ || f == "date"@ || f == "language"@
            || f == "status"@) && (v.len() == 0 || (v[0] != '"' && v.last() != '"')) ==> word_filter(
            f + seq![':'] + v,
        ) == Some((f, v)),
        (f == "sender"@ || f == "type"@ || f == "tag"@ || f == "date"@ || f == "language"@
            || f == "status"@) && (v.len() == 0 || (v[0] != '"' && v.last() != '"')) ==> word_filter(
            f + seq![':'] + seq!['"'] + v + seq!['"'],
        ) == Some((f, v)),
        !(f == "sender"@ || f == "type"@ || f == "tag"@ || f == "date"@ || f == "language"@
            || f == "status"@) && (forall|i: int| 0 <= i < f.len() ==> f[i] != ':') ==> word_filter(
            f + seq![':'] + v,
        ) is None,
{
    reveal_strlit("sender");
    reveal_strlit("type");
    reveal_strlit("tag");
    reveal_strlit("date");
    reveal_strlit("language");
    reveal_strlit("status");
    if filter_field_name(f) {
        assert(forall|i: int| 0 <= i < f.len() ==> f[i] != ':');
        lemma_colon_found(f, v);
        lemma_colon_found(f, seq!['"'] + v + seq!['"']);
        assert(f + seq![':'] + seq!['"'] + v + seq!['"'] =~= f + seq![':'] + (seq!['"'] + v + seq!['"']));
        if v.len() == 0 || (v[0] != '"' && v.last() != '"') {
            assert(trim_start_char(v, '"') == v);
            assert(trim_end_char(v, '"') == v);
            let q = seq!['"'] + v + seq!['"'];
            assert(q.drop_first() =~= v + seq!['"']);
            let r = v + seq!['"'];
            if v.len() == 0 {
                assert(r =~= seq!['"']);
                assert(r.drop_first() =~= Seq::<char>::empty());
                assert(trim_start_char(Seq::<char>::empty(), '"') == Seq::<char>::empty());
                assert(r.len() > 0 && r[0] == '"');
                assert(trim_start_char(r, '"') == trim_start_char(r.drop_first(), '"'));
                assert(trim_start_char(r, '"') == Seq::<char>::empty());
                assert(trim_start_char(q, '"') == Seq::<char>::empty());
                assert(trim_end_char(Seq::<char>::empty(), '"') == Seq::<char>::empty());
            } else {
                assert(r[0] == v[0]);
                assert(trim_start_char(r, '"') == r);
                assert(trim_start_char(q, '"') == r);
                assert(r.drop_last() =~= v);
                assert(trim_end_char(r, '"') == trim_end_char(v, '"'));
            }
        }
    } else if forall|i: int| 0 <= i < f.len() ==> f[i] != ':' {
        lemma_colon_found(f, v);
    }
}


proof fn lemma_one_word(w: Seq<char>)
    requires
        forall|i: int| 0 <= i < w.len() ==> !is_ws(w[i]),
    ensures
        split_state(w) == (Seq::<Seq<char>>::empty(), w),
    decreases w.len(),
{
    if w.len() > 0 {
        lemma_one_word(w.drop_last());
        assert(w.drop_last().push(w.last()) =~= w);
    }
}

/// A query that is one filter word `field:value` (a filter field, a value
/// without whitespace and without surrounding quotes) is answered by that
/// filter alone: its intent is structured, with the one filter on that field
/// and value.
pub proof fn lemma_filter_query_is_structured(f: Seq<char>, v: Seq<char>, r: SearchIntent)
    requires
        f == "sender"@ || f == "type"@ || f == "tag"@ || f == "date"@ || f == "language"@ || f == "status"@,
        v.len() == 0 || (v[0] != '"' && v.last() != '"'),
        forall|i: int| 0 <= i < v.len() ==> !is_ws(v[i]),
        intent_of(f + seq![':'] + v, r),
    ensures
        r matches SearchIntent::Structured(fs) && filter_views(fs@) == seq![(f, v)],
{
    let w = f + seq![':'] + v;
    reveal_strlit("sender");
    reveal_strlit("type");
    reveal_strlit("tag");
    reveal_strlit("date");
    reveal_strlit("language");
    reveal_strlit("status");
    assert forall|i: int| 0 <= i < w.len() implies !is_ws(w[i]) by {
        if i < f.len() {
            assert(w[i] == f[i]);
        } else if i > f.len() {
            assert(w[i] == v[i - f.len() - 1]);
        }
    }
    lemma_one_word(w);
    assert(words(w) == seq![w]);
    lemma_field_words(f, v);
    assert(seq![w].drop_last() =~= Seq::<Seq<char>>::empty());
    assert(seq![w].last() == w);
    assert(word_filter(w) == Some((f, v)));
    assert(filters_of(Seq::<Seq<char>>::empty()) == Seq::<(Seq<char>, Seq<char>)>::empty());
    assert(text_words(Seq::<Seq<char>>::empty()) == Seq::<Seq<char>>::empty());
    assert(filters_of(seq![w]) =~= seq![(f, v)]);
    assert(text_words(seq![w]) == Seq::<Seq<char>>::empty());
}

} // verus!
