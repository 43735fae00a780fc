//! Documents of the archive and what the extraction pass fills into them.

use vstd::prelude::*;
use crate::json::JsonValue;

verus! {

/// One entity the LLM found in a document.
#[derive(Debug)]
pub struct ExtractedEntity {
    pub entity_type: String,
    pub value: String,
    pub role: String,
}

/// The metadata the extraction pass takes from the LLM's JSON answer.
///
/// `confidence` is the confidence number as the JSON text wrote it; it is
/// clamped into `[0, 1]` where it is stored as a floating-point value.
#[derive(Debug)]
pub struct ExtractionResult {
    pub language: Option<String>,
    pub sender: Option<String>,
    pub sender_normalized: Option<String>,
    pub document_date: Option<String>,
    pub document_type: Option<String>,
    pub subject: Option<String>,
    pub extracted_text: Option<String>,
    pub amounts: Option<JsonValue>,
    pub dates: Option<JsonValue>,
    pub reference_ids: Option<JsonValue>,
    pub tags: Option<JsonValue>,
    pub confidence: Option<String>,
    pub raw_response: String,
    pub entities: Vec<ExtractedEntity>,
}

} // verus!

verus! {

/// A freshly uploaded document.
#[derive(Debug)]
pub struct NewDocument {
    pub id: String,
    pub captured_at: String,
    pub original_path: String,
    pub thumbnail_path: String,
}

/// Filters and paging of the document list.
#[derive(Debug)]
pub struct ListParams {
    pub limit: Option<i64>,
    pub offset: Option<i64>,
    pub status: Option<String>,
    pub sender: Option<String>,
    pub document_type: Option<String>,
    pub tag: Option<String>,
    pub date_from: Option<String>,
    pub date_to: Option<String>,
}

/// Conditions and bound values collected so far.
pub type Parts = (Seq<Seq<char>>, Seq<Seq<char>>);

/// Adds the condition `lhs ?N` (N the next parameter number) binding `bound`,
/// when the filter is given.
pub open spec fn add_condition(acc: Parts, given: bool, lhs: Seq<char>, bound: Seq<char>) -> Parts {
    if given {
        (acc.0.push(lhs + crate::search::placeholder(acc.1.len() + 1)), acc.1.push(bound))
    } else {
        acc
    }
}

/// The value of an optional string, or nothing.
pub open spec fn val(o: Option<String>) -> Seq<char> {
    match o {
        Some(s) => s@,
        None => seq![],
    }
}

/// The `LIKE` pattern that finds a tag inside a JSON list of tags.
pub open spec fn tag_pattern(tag: Seq<char>) -> Seq<char> {
    seq!['%', '"'] + tag + seq!['"', '%']
}

/// Conditions and bound values of the document list's filters.
pub open spec fn list_parts(p: ListParams) -> Parts {
    let a0: Parts = (seq![], seq![]);
    let a1 = add_condition(a0, p.status is Some, "status = "@, val(p.status));
    let a2 = add_condition(a1, p.sender is Some, "sender_normalized = "@, val(p.sender));
    let a3 = add_condition(a2, p.document_type is Some, "document_type = "@, val(p.document_type));
    let a4 = add_condition(a3, p.tag is Some, "tags LIKE "@, tag_pattern(val(p.tag)));
    let a5 = add_condition(a4, p.date_from is Some, "document_date >= "@, val(p.date_from));
    add_condition(a5, p.date_to is Some, "document_date <= "@, val(p.date_to))
}

/// `WHERE` and the conditions joined by `AND`; nothing without conditions.
pub open spec fn where_clause(conds: Seq<Seq<char>>) -> Seq<char> {
    if conds.len() == 0 {
        seq![]
    } else {
        "WHERE "@ + crate::text::join_with(conds, " AND "@)
    }
}

/// The page size of the document list: 50 unless given, at most 100.
pub open spec fn list_limit(limit: Option<i64>) -> i64 {
    let l = match limit {
        Some(l) => l,
        None => 50,
    };
    if l < 100 { l } else { 100 }
}

/// The statements of a document-list request: the count of all matching
/// documents and one page of them, newest first. Both bind `binds` in order;
/// the page binds `limit` and `offset` after them.
#[derive(Debug)]
pub struct ListQuery {
    pub count_sql: String,
    pub query_sql: String,
    pub binds: Vec<String>,
    pub limit: i64,
    pub offset: i64,
}

/// What [`list_query`] builds for `p`.
pub open spec fn is_list_query(p: ListParams, q: ListQuery) -> bool {
    let (conds, binds) = list_parts(p);
    let w = where_clause(conds);
    &&& crate::text::views(q.binds@) == binds
    &&& q.count_sql@ == "SELECT COUNT(*) FROM documents "@ + w
    &&& q.query_sql@ == "SELECT * FROM documents "@ + w + " ORDER BY created_at DESC LIMIT "@
        + crate::search::placeholder(binds.len() + 1) + " OFFSET "@ + crate::search::placeholder(
        binds.len() + 2,
    )
    &&& q.limit == list_limit(p.limit)
    &&& q.offset == match p.offset {
        Some(o) => o,
        None => 0,
    }
}

/// Adds `lhs ?N` and binds `value`.
fn push_condition(conds: &mut Vec<String>, binds: &mut Vec<String>, lhs: &str, value: String)
    requires
        old(binds)@.len() < usize::MAX,
    ensures
        (crate::text::views(final(conds)@), crate::text::views(final(binds)@)) == add_condition(
            (crate::text::views(old(conds)@), crate::text::views(old(binds)@)),
            true,
            lhs@,
            value@,
        ),
        final(binds)@.len() == old(binds)@.len() + 1,
{
    let n = binds.len() + 1;
    let mut c = lhs.to_string();
    crate::text::push_str(&mut c, "?");
    let num = crate::text::usize_text(n);
    crate::text::push_str(&mut c, num.as_str());
    proof {
        reveal_strlit("?");
        assert(c@ =~= lhs@ + crate::search::placeholder(n as nat));
    }
    let ghost oc = conds@;
    let ghost ob = binds@;
    conds.push(c);
    binds.push(value);
    assert(crate::text::views(conds@) =~= crate::text::views(oc).push(c@));
    assert(crate::text::views(binds@) =~= crate::text::views(ob).push(value@));
}

fn maybe_condition(conds: &mut Vec<String>, binds: &mut Vec<String>, lhs: &str, value: &Option<String>)
    requires
        old(binds)@.len() < 10,
    ensures
        (crate::text::views(final(conds)@), crate::text::views(final(binds)@)) == add_condition(
            (crate::text::views(old(conds)@), crate::text::views(old(binds)@)),
            value is Some,
            lhs@,
            val(*value),
        ),
        final(binds)@.len() <= old(binds)@.len() + 1,
{
    match value {
        Some(v) => push_condition(conds, binds, lhs, v.clone()),
        None => {},
    }
}

/// Builds the statements of a document-list request (see [`is_list_query`]).
pub fn list_query(params: &ListParams) -> (q: ListQuery)
    ensures
        is_list_query(*params, q),
{
    let mut conds: Vec<String> = Vec::new();
    let mut binds: Vec<String> = Vec::new();
    assert(crate::text::views(conds@) =~= seq![]);
    assert(crate::text::views(binds@) =~= seq![]);
    maybe_condition(&mut conds, &mut binds, "status = ", &params.status);
    maybe_condition(&mut conds, &mut binds, "sender_normalized = ", &params.sender);
    maybe_condition(&mut conds, &mut binds, "document_type = ", &params.document_type);
    let ghost before_tag = (crate::text::views(conds@), crate::text::views(binds@));
    match &params.tag {
        Some(tag) => {
            let mut pattern = "%\"".to_string();
            crate::text::push_str(&mut pattern, tag.as_str());
            crate::text::push_str(&mut pattern, "\"%");
            proof {
                reveal_strlit("%\"");
                reveal_strlit("\"%");
                assert(pattern@ =~= tag_pattern(tag@));
            }
            push_condition(&mut conds, &mut binds, "tags LIKE ", pattern);
        },
        None => {},
    }
    maybe_condition(&mut conds, &mut binds, "document_date >= ", &params.date_from);
    maybe_condition(&mut conds, &mut binds, "document_date <= ", &params.date_to);
    let where_text = if conds.len() == 0 {
        String::new()
    } else {
        let mut w = "WHERE ".to_string();
        let joined = crate::text::join_strings(&conds, " AND ");
        crate::text::push_str(&mut w, joined.as_str());
        w
    };
    let limit = match params.limit {
        Some(l) => l,
        None => 50,
    };
    let limit = if limit < 100 { limit } else { 100 };
    let offset = match params.offset {
        Some(o) => o,
        None => 0,
    };
    let mut count_sql = "SELECT COUNT(*) FROM documents ".to_string();
    crate::text::push_str(&mut count_sql, where_text.as_str());
    let mut query_sql = "SELECT * FROM documents ".to_string();
    crate::text::push_str(&mut query_sql, where_text.as_str());
    crate::text::push_str(&mut query_sql, " ORDER BY created_at DESC LIMIT ?");
    let n1 = crate::text::usize_text(binds.len() + 1);
    crate::text::push_str(&mut query_sql, n1.as_str());
    crate::text::push_str(&mut query_sql, " OFFSET ?");
    let n2 = crate::text::usize_text(binds.len() + 2);
    crate::text::push_str(&mut query_sql, n2.as_str());
    proof {
        reveal_strlit(" ORDER BY created_at DESC LIMIT ?");
        reveal_strlit(" ORDER BY created_at DESC LIMIT ");
        reveal_strlit(" OFFSET ?");
        reveal_strlit(" OFFSET ");
        assert(" ORDER BY created_at DESC LIMIT ?"@ =~= " ORDER BY created_at DESC LIMIT "@ + seq!['?']);
        assert(" OFFSET ?"@ =~= " OFFSET "@ + seq!['?']);
        let (c, b) = list_parts(*params);
        assert(query_sql@ =~= "SELECT * FROM documents "@ + where_clause(c) + " ORDER BY created_at DESC LIMIT "@
            + crate::search::placeholder(b.len() + 1) + " OFFSET "@ + crate::search::placeholder(
            b.len() + 2,
        ));
    }
    ListQuery { count_sql, query_sql, binds, limit, offset }
}

/// Manual corrections of a document's metadata. `tags` is the new tag list as
/// JSON text.
#[derive(Debug)]
pub struct DocumentUpdate {
    pub sender: Option<String>,
    pub sender_normalized: Option<String>,
    pub document_date: Option<String>,
    pub document_type: Option<String>,
    pub subject: Option<String>,
    pub tags: Option<String>,
    pub language: Option<String>,
}

/// Assignments and bound values of an update, `updated_at` first.
pub open spec fn update_parts(u: DocumentUpdate, now: Seq<char>) -> Parts {
    let a0: Parts = (seq!["updated_at = ?1"@], seq![now]);
    let a1 = add_condition(a0, u.sender is Some, "sender = "@, val(u.sender));
    let a2 = add_condition(a1, u.sender_normalized is Some, "sender_normalized = "@, val(u.sender_normalized));
    let a3 = add_condition(a2, u.document_date is Some, "document_date = "@, val(u.document_date));
    let a4 = add_condition(a3, u.document_type is Some, "document_type = "@, val(u.document_type));
    let a5 = add_condition(a4, u.subject is Some, "subject = "@, val(u.subject));
    let a6 = add_condition(a5, u.language is Some, "language = "@, val(u.language));
    add_condition(a6, u.tags is Some, "tags = "@, val(u.tags))
}

/// The `UPDATE` statement of an update: the given fields and `updated_at`
/// set, the document found by the last bound value, its id.
pub open spec fn is_update_query(u: DocumentUpdate, now: Seq<char>, id: Seq<char>, q: crate::search::SqlQuery) -> bool {
    let (sets, binds) = update_parts(u, now);
    &&& crate::text::views(q.binds@) == binds.push(id)
    &&& q.sql@ == "UPDATE documents SET "@ + crate::text::join_with(sets, ", "@) + " WHERE id = "@
        + crate::search::placeholder(binds.len() + 1)
}

/// Builds the `UPDATE` statement of a metadata correction (see
/// [`is_update_query`]); `now` is the time stamp that `updated_at` gets.
pub fn update_query(upd: &DocumentUpdate, now: &str, id: &str) -> (q: crate::search::SqlQuery)
    ensures
        is_update_query(*upd, now@, id@, q),
{
    let mut sets: Vec<String> = Vec::new();
    let mut binds: Vec<String> = Vec::new();
    sets.push("updated_at = ?1".to_string());
    binds.push(now.to_string());
    assert(crate::text::views(sets@) =~= seq!["updated_at = ?1"@]);
    assert(crate::text::views(binds@) =~= seq![now@]);
    maybe_condition(&mut sets, &mut binds, "sender = ", &upd.sender);
    maybe_condition(&mut sets, &mut binds, "sender_normalized = ", &upd.sender_normalized);
    maybe_condition(&mut sets, &mut binds, "document_date = ", &upd.document_date);
    maybe_condition(&mut sets, &mut binds, "document_type = ", &upd.document_type);
    maybe_condition(&mut sets, &mut binds, "subject = ", &upd.subject);
    maybe_condition(&mut sets, &mut binds, "language = ", &upd.language);
    maybe_condition(&mut sets, &mut binds, "tags = ", &upd.tags);
    let ghost b = binds@;
    binds.push(id.to_string());
    assert(crate::text::views(binds@) =~= crate::text::views(b).push(id@));
    let mut sql = "UPDATE documents SET ".to_string();
    let joined = crate::text::join_strings(&sets, ", ");
    crate::text::push_str(&mut sql, joined.as_str());
    crate::text::push_str(&mut sql, " WHERE id = ?");
    let num = crate::text::usize_text(binds.len());
    crate::text::push_str(&mut sql, num.as_str());
    proof {
        reveal_strlit(" WHERE id = ?");
        reveal_strlit(" WHERE id = ");
        assert(" WHERE id = ?"@ =~= " WHERE id = "@ + seq!['?']);
        let (s, bb) = update_parts(*upd, now@);
        assert(sql@ =~= "UPDATE documents SET "@ + crate::text::join_with(s, ", "@) + " WHERE id = "@
            + crate::search::placeholder(bb.len() + 1));
    }
    crate::search::SqlQuery { sql, binds }
}


/// A page of the document list never holds more than 100 documents; 50
/// when no size is asked for.
pub proof fn lemma_list_page_capped(limit: Option<i64>)
    ensures
        list_limit(limit) <= 100,
        limit is None ==> list_limit(limit) == 50,
{
}


/// Each condition binds one value, and the `i`-th condition (from 0) ends
/// with the parameter `?i+1` that its value is bound to.
pub open spec fn numbered(parts: Parts) -> bool {
    &&& parts.0.len() == parts.1.len()
    &&& forall|i: int| 0 <= i < parts.0.len() ==> {
        let p = crate::search::placeholder((i + 1) as nat);
        &&& p.len() <= #[trigger] parts.0[i].len()
        &&& parts.0[i].subrange(parts.0[i].len() - p.len(), parts.0[i].len() as int) == p
    }
}

proof fn lemma_add_condition_numbered(acc: Parts, given: bool, lhs: Seq<char>, bound: Seq<char>)
    requires
        numbered(acc),
    ensures
        numbered(add_condition(acc, given, lhs, bound)),
{
    if given {
        let r = add_condition(acc, given, lhs, bound);
        let n = acc.0.len() as int;
        let p = crate::search::placeholder((n + 1) as nat);
        assert(r.0[n] == lhs + p);
        assert((lhs + p).subrange(lhs.len() as int, (lhs + p).len() as int) =~= p);
        assert forall|i: int| 0 <= i < r.0.len() implies {
            let q = crate::search::placeholder((i + 1) as nat);
            &&& q.len() <= #[trigger] r.0[i].len()
            &&& r.0[i].subrange(r.0[i].len() - q.len(), r.0[i].len() as int) == q
        } by {
            if i < n {
                assert(r.0[i] == acc.0[i]);
            }
        }
    }
}

/// The statements of the document list bind their parameters in order: one
/// value per condition, the `i`-th condition bound to parameter `i + 1`.
pub proof fn lemma_list_parameters_in_order(p: ListParams)
    ensures
        numbered(list_parts(p)),
{
    let a0: Parts = (seq![], seq![]);
    let a1 = add_condition(a0, p.status is Some, "status = "@, val(p.status));
    let a2 = add_condition(a1, p.sender is Some, "sender_normalized = "@, val(p.sender));
    let a3 = add_condition(a2, p.document_type is Some, "document_type = "@, val(p.document_type));
    let a4 = add_condition(a3, p.tag is Some, "tags LIKE "@, tag_pattern(val(p.tag)));
    let a5 = add_condition(a4, p.date_from is Some, "document_date >= "@, val(p.date_from));
    lemma_add_condition_numbered(a0, p.status is Some, "status = "@, val(p.status));
    lemma_add_condition_numbered(a1, p.sender is Some, "sender_normalized = "@, val(p.sender));
    lemma_add_condition_numbered(a2, p.document_type is Some, "document_type = "@, val(p.document_type));
    lemma_add_condition_numbered(a3, p.tag is Some, "tags LIKE "@, tag_pattern(val(p.tag)));
    lemma_add_condition_numbered(a4, p.date_from is Some, "document_date >= "@, val(p.date_from));
    lemma_add_condition_numbered(a5, p.date_to is Some, "document_date <= "@, val(p.date_to));
}

/// The update statement binds its parameters in order: `updated_at` to `?1`,
/// then one value per given field, the `i`-th assignment bound to `i + 1`;
/// the id comes last.
pub proof fn lemma_update_parameters_in_order(u: DocumentUpdate, now: Seq<char>)
    ensures
        numbered(update_parts(u, now)),
{
    let a0: Parts = (seq!["updated_at = ?1"@], seq![now]);
    assert(numbered(a0)) by {
        reveal_strlit("updated_at = ?1");
        let p = crate::search::placeholder(1);
        assert(crate::text::dec_nat(1) =~= seq!['1']) by {
            reveal_with_fuel(crate::text::dec_nat, 2);
        }
        assert(p =~= seq!['?', '1']);
        assert("updated_at = ?1"@.subrange(13, 15) =~= p);
    }
    let a1 = add_condition(a0, u.sender is Some, "sender = "@, val(u.sender));
    let a2 = add_condition(a1, u.sender_normalized is Some, "sender_normalized = "@, val(u.sender_normalized));
    let a3 = add_condition(a2, u.document_date is Some, "document_date = "@, val(u.document_date));
    let a4 = add_condition(a3, u.document_type is Some, "document_type = "@, val(u.document_type));
    let a5 = add_condition(a4, u.subject is Some, "subject = "@, val(u.subject));
    let a6 = add_condition(a5, u.language is Some, "language = "@, val(u.language));
    lemma_add_condition_numbered(a0, u.sender is Some, "sender = "@, val(u.sender));
    lemma_add_condition_numbered(a1, u.sender_normalized is Some, "sender_normalized = "@, val(u.sender_normalized));
    lemma_add_condition_numbered(a2, u.document_date is Some, "document_date = "@, val(u.document_date));
    lemma_add_condition_numbered(a3, u.document_type is Some, "document_type = "@, val(u.document_type));
    lemma_add_condition_numbered(a4, u.subject is Some, "subject = "@, val(u.subject));
    lemma_add_condition_numbered(a5, u.language is Some, "language = "@, val(u.language));
    lemma_add_condition_numbered(a6, u.tags is Some, "tags = "@, val(u.tags));
}


/// The SQL text `sql` holds the condition or assignment `lhs ?k`, and the
/// `k`-th bound value is `v`.
pub open spec fn binds_condition(sql: Seq<char>, binds: Seq<Seq<char>>, lhs: Seq<char>, v: Seq<char>) -> bool {
    exists|k: int, off: int|
        1 <= k <= binds.len() && binds[k - 1] == v && #[trigger] crate::text::occurs_at(
            sql,
            lhs + crate::search::placeholder(k as nat),
            off,
        )
}

/// The `LIKE` pattern `%"t"%`.
pub open spec fn like_quoted(t: Seq<char>) -> Seq<char> {
    seq!['%', '"'] + t + seq!['"', '%']
}

/// Among the collected parts, some entry is `lhs ?k` binding `v` as value `k`.
spec fn has_part(parts: Parts, lhs: Seq<char>, v: Seq<char>) -> bool {
    exists|k: int|
        0 <= k < parts.0.len() && k < parts.1.len() && #[trigger] parts.0[k] == lhs
            + crate::search::placeholder((k + 1) as nat) && parts.1[k] == v
}

proof fn lemma_add_keeps(acc: Parts, given: bool, lhs2: Seq<char>, b2: Seq<char>, lhs: Seq<char>, v: Seq<char>)
    requires
        has_part(acc, lhs, v),
        acc.0.len() == acc.1.len(),
    ensures
        has_part(add_condition(acc, given, lhs2, b2), lhs, v),
        add_condition(acc, given, lhs2, b2).0.len() == add_condition(acc, given, lhs2, b2).1.len(),
{
    let k = choose|k: int|
        0 <= k < acc.0.len() && k < acc.1.len() && #[trigger] acc.0[k] == lhs
            + crate::search::placeholder((k + 1) as nat) && acc.1[k] == v;
    let r = add_condition(acc, given, lhs2, b2);
    assert(r.0[k] == acc.0[k]);
}

proof fn lemma_add_new(acc: Parts, lhs: Seq<char>, b: Seq<char>)
    requires
        acc.0.len() == acc.1.len(),
    ensures
        has_part(add_condition(acc, true, lhs, b), lhs, b),
        add_condition(acc, true, lhs, b).0.len() == add_condition(acc, true, lhs, b).1.len(),
{
    let r = add_condition(acc, true, lhs, b);
    let k = acc.0.len() as int;
    assert(r.0[k] == lhs + crate::search::placeholder((k + 1) as nat));
}

proof fn lemma_add_same_len(acc: Parts, given: bool, lhs: Seq<char>, b: Seq<char>)
    requires
        acc.0.len() == acc.1.len(),
    ensures
        add_condition(acc, given, lhs, b).0.len() == add_condition(acc, given, lhs, b).1.len(),
{
}

/// Each item of a joined list occurs in the joined text.
proof fn lemma_join_has(items: Seq<Seq<char>>, sep: Seq<char>, i: int) -> (off: int)
    requires
        0 <= i < items.len(),
    ensures
        crate::text::occurs_at(crate::text::join_with(items, sep), items[i], off),
    decreases items.len(),
{
    let j = crate::text::join_with(items, sep);
    if items.len() == 1 {
        assert(j.subrange(0, items[0].len() as int) =~= items[0]);
        0
    } else {
        let d = items.drop_last();
        let jd = crate::text::join_with(d, sep);
        assert(j == jd + sep + items.last());
        if i < items.len() - 1 {
            let o = lemma_join_has(d, sep, i);
            assert(d[i] == items[i]);
            assert(j.subrange(o, o + items[i].len()) =~= jd.subrange(o, o + items[i].len()));
            o
        } else {
            let o: int = (jd.len() + sep.len()) as int;
            assert(j.subrange(o, o + items[i].len()) =~= items.last());
            o
        }
    }
}

/// A part collected for a statement shows in its text and in its bound values.
proof fn lemma_part_shows(
    parts: Parts,
    lhs: Seq<char>,
    v: Seq<char>,
    sep: Seq<char>,
    pre: Seq<char>,
    post: Seq<char>,
    sql: Seq<char>,
    binds: Seq<Seq<char>>,
)
    requires
        has_part(parts, lhs, v),
        sql == pre + crate::text::join_with(parts.0, sep) + post,
        parts.1.len() <= binds.len(),
        forall|k: int| 0 <= k < parts.1.len() ==> binds[k] == parts.1[k],
    ensures
        binds_condition(sql, binds, lhs, v),
{
    let k = choose|k: int|
        0 <= k < parts.0.len() && k < parts.1.len() && #[trigger] parts.0[k] == lhs
            + crate::search::placeholder((k + 1) as nat) && parts.1[k] == v;
    let j = crate::text::join_with(parts.0, sep);
    let o = lemma_join_has(parts.0, sep, k);
    let c = lhs + crate::search::placeholder((k + 1) as nat);
    let off = pre.len() + o;
    assert(sql.subrange(off, off + c.len()) =~= j.subrange(o, o + c.len()));
    assert(crate::text::occurs_at(sql, c, off));
    assert(binds[(k + 1) - 1] == v);
}

/// Each given filter of a document list request has its part among the
/// collected conditions.
proof fn lemma_list_has_parts(p: ListParams)
    ensures
        list_parts(p).0.len() == list_parts(p).1.len(),
        p.status is Some ==> has_part(list_parts(p), "status = "@, val(p.status)),
        p.sender is Some ==> has_part(list_parts(p), "sender_normalized = "@, val(p.sender)),
        p.document_type is Some ==> has_part(list_parts(p), "document_type = "@, val(p.document_type)),
        p.tag is Some ==> has_part(list_parts(p), "tags LIKE "@, tag_pattern(val(p.tag))),
        p.date_from is Some ==> has_part(list_parts(p), "document_date >= "@, val(p.date_from)),
        p.date_to is Some ==> has_part(list_parts(p), "document_date <= "@, val(p.date_to)),
{
    let a0: Parts = (seq![], seq![]);
    let ls: Seq<Seq<char>> = seq![
        "status = "@,
        "sender_normalized = "@,
        "document_type = "@,
        "tags LIKE "@,
        "document_date >= "@,
        "document_date <= "@,
    ];
    let gs: Seq<bool> = seq![
        p.status is Some,
        p.sender is Some,
        p.document_type is Some,
        p.tag is Some,
        p.date_from is Some,
        p.date_to is Some,
    ];
    let vs: Seq<Seq<char>> = seq![
        val(p.status),
        val(p.sender),
        val(p.document_type),
        tag_pattern(val(p.tag)),
        val(p.date_from),
        val(p.date_to),
    ];
    let a1 = add_condition(a0, gs[0], ls[0], vs[0]);
    let a2 = add_condition(a1, gs[1], ls[1], vs[1]);
    let a3 = add_condition(a2, gs[2], ls[2], vs[2]);
    let a4 = add_condition(a3, gs[3], ls[3], vs[3]);
    let a5 = add_condition(a4, gs[4], ls[4], vs[4]);
    let a6 = add_condition(a5, gs[5], ls[5], vs[5]);
    assert(a6 == list_parts(p));
    let accs: Seq<Parts> = seq![a0, a1, a2, a3, a4, a5, a6];
    assert forall|m: int| 0 <= m < 6 implies #[trigger] accs[m + 1] == add_condition(accs[m], gs[m], ls[m], vs[m]) by {}
    lemma_add_same_len(a0, gs[0], ls[0], vs[0]);
    lemma_add_same_len(a1, gs[1], ls[1], vs[1]);
    lemma_add_same_len(a2, gs[2], ls[2], vs[2]);
    lemma_add_same_len(a3, gs[3], ls[3], vs[3]);
    lemma_add_same_len(a4, gs[4], ls[4], vs[4]);
    lemma_add_same_len(a5, gs[5], ls[5], vs[5]);
    assert forall|m: int| 0 <= m <= 6 implies (#[trigger] accs[m]).0.len() == accs[m].1.len() by {}
    if gs[0] { lemma_parts_survive(accs, gs, ls, vs, 0, 0); }
    if gs[1] { lemma_parts_survive(accs, gs, ls, vs, 1, 1); }
    if gs[2] { lemma_parts_survive(accs, gs, ls, vs, 2, 2); }
    if gs[3] { lemma_parts_survive(accs, gs, ls, vs, 3, 3); }
    if gs[4] { lemma_parts_survive(accs, gs, ls, vs, 4, 4); }
    if gs[5] { lemma_parts_survive(accs, gs, ls, vs, 5, 5); }
}

/// A part of the list's conditions shows in both of its statements.
proof fn lemma_list_part_shows(p: ListParams, q: ListQuery, lhs: Seq<char>, v: Seq<char>)
    requires
        is_list_query(p, q),
        list_parts(p).0.len() == list_parts(p).1.len(),
        has_part(list_parts(p), lhs, v),
    ensures
        binds_condition(q.count_sql@, crate::text::views(q.binds@), lhs, v),
        binds_condition(q.query_sql@, crate::text::views(q.binds@), lhs, v),
{
    let a6 = list_parts(p);
    assert(a6.0.len() > 0);
    let j = crate::text::join_with(a6.0, " AND "@);
    let pre_count = "SELECT COUNT(*) FROM documents "@ + "WHERE "@;
    let pre_query = "SELECT * FROM documents "@ + "WHERE "@;
    let tail = " ORDER BY created_at DESC LIMIT "@ + crate::search::placeholder(a6.1.len() + 1) + " OFFSET "@
        + crate::search::placeholder(a6.1.len() + 2);
    assert(q.count_sql@ =~= pre_count + j + Seq::<char>::empty());
    assert(q.query_sql@ =~= pre_query + j + tail);
    lemma_part_shows(a6, lhs, v, " AND "@, pre_count, Seq::<char>::empty(), q.count_sql@, crate::text::views(q.binds@));
    lemma_part_shows(a6, lhs, v, " AND "@, pre_query, tail, q.query_sql@, crate::text::views(q.binds@));
}

/// The document list filters by each given filter, on its own column and
/// with its own value, in both statements: a status by `status = ?k`, a
/// sender by `sender_normalized = ?k`, a type by `document_type = ?k`, a tag
/// by `tags LIKE ?k` with the pattern `%"tag"%`, a start date by
/// `document_date >= ?k` (a lower bound) and an end date by
/// `document_date <= ?k` (an upper bound), the value bound as parameter `k`.
pub proof fn lemma_list_filters(p: ListParams, q: ListQuery)
    requires
        is_list_query(p, q),
    ensures
        p.status matches Some(v) ==> binds_condition(q.count_sql@, crate::text::views(q.binds@), "status = "@, v@)
            && binds_condition(q.query_sql@, crate::text::views(q.binds@), "status = "@, v@),
        p.sender matches Some(v) ==> binds_condition(q.count_sql@, crate::text::views(q.binds@), "sender_normalized = "@, v@)
            && binds_condition(q.query_sql@, crate::text::views(q.binds@), "sender_normalized = "@, v@),
        p.document_type matches Some(v) ==> binds_condition(q.count_sql@, crate::text::views(q.binds@), "document_type = "@, v@)
            && binds_condition(q.query_sql@, crate::text::views(q.binds@), "document_type = "@, v@),
        p.tag matches Some(v) ==> binds_condition(q.count_sql@, crate::text::views(q.binds@), "tags LIKE "@, like_quoted(v@))
            && binds_condition(q.query_sql@, crate::text::views(q.binds@), "tags LIKE "@, like_quoted(v@)),
        p.date_from matches Some(v) ==> binds_condition(q.count_sql@, crate::text::views(q.binds@), "document_date >= "@, v@)
            && binds_condition(q.query_sql@, crate::text::views(q.binds@), "document_date >= "@, v@),
        p.date_to matches Some(v) ==> binds_condition(q.count_sql@, crate::text::views(q.binds@), "document_date <= "@, v@)
            && binds_condition(q.query_sql@, crate::text::views(q.binds@), "document_date <= "@, v@),
{
    lemma_list_has_parts(p);
    if p.status is Some {
        lemma_list_part_shows(p, q, "status = "@, val(p.status));
    }
    if p.sender is Some {
        lemma_list_part_shows(p, q, "sender_normalized = "@, val(p.sender));
    }
    if p.document_type is Some {
        lemma_list_part_shows(p, q, "document_type = "@, val(p.document_type));
    }
    if p.tag is Some {
        lemma_list_part_shows(p, q, "tags LIKE "@, tag_pattern(val(p.tag)));
        assert(tag_pattern(val(p.tag)) == like_quoted(val(p.tag)));
    }
    if p.date_from is Some {
        lemma_list_part_shows(p, q, "document_date >= "@, val(p.date_from));
    }
    if p.date_to is Some {
        lemma_list_part_shows(p, q, "document_date <= "@, val(p.date_to));
    }
}

/// A part added at step `i` is still there after every later step.
proof fn lemma_parts_survive(
    accs: Seq<Parts>,
    gs: Seq<bool>,
    ls: Seq<Seq<char>>,
    vs: Seq<Seq<char>>,
    i: int,
    j: int,
)
    requires
        0 <= i <= j < gs.len(),
        gs.len() == ls.len(),
        gs.len() == vs.len(),
        accs.len() == gs.len() + 1,
        gs[i],
        forall|m: int| 0 <= m < gs.len() ==> #[trigger] accs[m + 1] == add_condition(accs[m], gs[m], ls[m], vs[m]),
        forall|m: int| 0 <= m < accs.len() ==> (#[trigger] accs[m]).0.len() == accs[m].1.len(),
        j == i || has_part(accs[j], ls[i], vs[i]),
    ensures
        has_part(accs[gs.len() as int], ls[i], vs[i]),
    decreases gs.len() - j,
{
    assert(accs[j + 1] == add_condition(accs[j], gs[j], ls[j], vs[j]));
    if j == i {
        lemma_add_new(accs[i], ls[i], vs[i]);
    } else {
        lemma_add_keeps(accs[j], gs[j], ls[j], vs[j], ls[i], vs[i]);
    }
    if j + 1 < gs.len() {
        lemma_parts_survive(accs, gs, ls, vs, i, j + 1);
    }
}


/// Each given field of a correction has its assignment among the collected
/// parts, after `updated_at`.
proof fn lemma_update_has_parts(u: DocumentUpdate, now: Seq<char>)
    ensures
        update_parts(u, now).0.len() == update_parts(u, now).1.len(),
        has_part(update_parts(u, now), "updated_at = "@, now),
        u.sender is Some ==> has_part(update_parts(u, now), "sender = "@, val(u.sender)),
        u.sender_normalized is Some ==> has_part(update_parts(u, now), "sender_normalized = "@, val(u.sender_normalized)),
        u.document_date is Some ==> has_part(update_parts(u, now), "document_date = "@, val(u.document_date)),
        u.document_type is Some ==> has_part(update_parts(u, now), "document_type = "@, val(u.document_type)),
        u.subject is Some ==> has_part(update_parts(u, now), "subject = "@, val(u.subject)),
        u.language is Some ==> has_part(update_parts(u, now), "language = "@, val(u.language)),
        u.tags is Some ==> has_part(update_parts(u, now), "tags = "@, val(u.tags)),
{
    let a0: Parts = (seq!["updated_at = ?1"@], seq![now]);
    assert(has_part(a0, "updated_at = "@, now)) by {
        reveal_strlit("updated_at = ?1");
        reveal_strlit("updated_at = ");
        assert(crate::text::dec_nat(1) =~= seq!['1']) by {
            reveal_with_fuel(crate::text::dec_nat, 2);
        }
        assert(a0.0[0] =~= "updated_at = "@ + crate::search::placeholder(1));
    }
    let ls: Seq<Seq<char>> = seq![
        "sender = "@,
        "sender_normalized = "@,
        "document_date = "@,
        "document_type = "@,
        "subject = "@,
        "language = "@,
        "tags = "@,
    ];
    let gs: Seq<bool> = seq![
        u.sender is Some,
        u.sender_normalized is Some,
        u.document_date is Some,
        u.document_type is Some,
        u.subject is Some,
        u.language is Some,
        u.tags is Some,
    ];
    let vs: Seq<Seq<char>> = seq![
        val(u.sender),
        val(u.sender_normalized),
        val(u.document_date),
        val(u.document_type),
        val(u.subject),
        val(u.language),
        val(u.tags),
    ];
    let a1 = add_condition(a0, gs[0], ls[0], vs[0]);
    let a2 = add_condition(a1, gs[1], ls[1], vs[1]);
    let a3 = add_condition(a2, gs[2], ls[2], vs[2]);
    let a4 = add_condition(a3, gs[3], ls[3], vs[3]);
    let a5 = add_condition(a4, gs[4], ls[4], vs[4]);
    let a6 = add_condition(a5, gs[5], ls[5], vs[5]);
    let a7 = add_condition(a6, gs[6], ls[6], vs[6]);
    assert(a7 == update_parts(u, now));
    let accs: Seq<Parts> = seq![a0, a1, a2, a3, a4, a5, a6, a7];
    assert forall|m: int| 0 <= m < 7 implies #[trigger] accs[m + 1] == add_condition(accs[m], gs[m], ls[m], vs[m]) by {}
    lemma_add_same_len(a0, gs[0], ls[0], vs[0]);
    lemma_add_same_len(a1, gs[1], ls[1], vs[1]);
    lemma_add_same_len(a2, gs[2], ls[2], vs[2]);
    lemma_add_same_len(a3, gs[3], ls[3], vs[3]);
    lemma_add_same_len(a4, gs[4], ls[4], vs[4]);
    lemma_add_same_len(a5, gs[5], ls[5], vs[5]);
    lemma_add_same_len(a6, gs[6], ls[6], vs[6]);
    assert forall|m: int| 0 <= m <= 7 implies (#[trigger] accs[m]).0.len() == accs[m].1.len() by {}
    lemma_add_keeps(a0, gs[0], ls[0], vs[0], "updated_at = "@, now);
    lemma_add_keeps(a1, gs[1], ls[1], vs[1], "updated_at = "@, now);
    lemma_add_keeps(a2, gs[2], ls[2], vs[2], "updated_at = "@, now);
    lemma_add_keeps(a3, gs[3], ls[3], vs[3], "updated_at = "@, now);
    lemma_add_keeps(a4, gs[4], ls[4], vs[4], "updated_at = "@, now);
    lemma_add_keeps(a5, gs[5], ls[5], vs[5], "updated_at = "@, now);
    lemma_add_keeps(a6, gs[6], ls[6], vs[6], "updated_at = "@, now);
    if gs[0] { lemma_parts_survive(accs, gs, ls, vs, 0, 0); }
    if gs[1] { lemma_parts_survive(accs, gs, ls, vs, 1, 1); }
    if gs[2] { lemma_parts_survive(accs, gs, ls, vs, 2, 2); }
    if gs[3] { lemma_parts_survive(accs, gs, ls, vs, 3, 3); }
    if gs[4] { lemma_parts_survive(accs, gs, ls, vs, 4, 4); }
    if gs[5] { lemma_parts_survive(accs, gs, ls, vs, 5, 5); }
    if gs[6] { lemma_parts_survive(accs, gs, ls, vs, 6, 6); }
}

proof fn lemma_update_part_shows(u: DocumentUpdate, now: Seq<char>, id: Seq<char>, q: crate::search::SqlQuery, lhs: Seq<char>, v: Seq<char>)
    requires
        is_update_query(u, now, id, q),
        update_parts(u, now).0.len() == update_parts(u, now).1.len(),
        has_part(update_parts(u, now), lhs, v),
    ensures
        binds_condition(q.sql@, crate::text::views(q.binds@), lhs, v),
{
    let (sets, binds) = update_parts(u, now);
    let pre = "UPDATE documents SET "@;
    let tail = " WHERE id = "@ + crate::search::placeholder(binds.len() + 1);
    assert(q.sql@ =~= pre + crate::text::join_with(sets, ", "@) + tail);
    assert forall|k: int| 0 <= k < binds.len() implies crate::text::views(q.binds@)[k] == binds[k] by {
        assert(crate::text::views(q.binds@) == binds.push(id));
    }
    lemma_part_shows(update_parts(u, now), lhs, v, ", "@, pre, tail, q.sql@, crate::text::views(q.binds@));
}

/// A metadata correction sets `updated_at` to `now` as parameter 1, assigns
/// each given field to the column of its own name (`sender = ?k`,
/// `sender_normalized = ?k`, `document_date = ?k`, `document_type = ?k`,
/// `subject = ?k`, `language = ?k`, `tags = ?k`, the field's value bound as
/// parameter `k`), and picks the document by `id = ?n`, its id bound last.
pub proof fn lemma_update_fields(u: DocumentUpdate, now: Seq<char>, id: Seq<char>, q: crate::search::SqlQuery)
    requires
        is_update_query(u, now, id, q),
    ensures
        binds_condition(q.sql@, crate::text::views(q.binds@), "updated_at = "@, now),
        crate::text::views(q.binds@)[0] == now,
        binds_condition(q.sql@, crate::text::views(q.binds@), " WHERE id = "@, id),
        crate::text::views(q.binds@).last() == id,
        u.sender matches Some(v) ==> binds_condition(q.sql@, crate::text::views(q.binds@), "sender = "@, v@),
        u.sender_normalized matches Some(v) ==> binds_condition(q.sql@, crate::text::views(q.binds@), "sender_normalized = "@, v@),
        u.document_date matches Some(v) ==> binds_condition(q.sql@, crate::text::views(q.binds@), "document_date = "@, v@),
        u.document_type matches Some(v) ==> binds_condition(q.sql@, crate::text::views(q.binds@), "document_type = "@, v@),
        u.subject matches Some(v) ==> binds_condition(q.sql@, crate::text::views(q.binds@), "subject = "@, v@),
        u.language matches Some(v) ==> binds_condition(q.sql@, crate::text::views(q.binds@), "language = "@, v@),
        u.tags matches Some(v) ==> binds_condition(q.sql@, crate::text::views(q.binds@), "tags = "@, v@),
{
    lemma_update_has_parts(u, now);
    lemma_update_part_shows(u, now, id, q, "updated_at = "@, now);
    let (sets, binds) = update_parts(u, now);
    assert(binds[0] == now) by {
        let k = choose|k: int|
            0 <= k < sets.len() && k < binds.len() && #[trigger] sets[k] == "updated_at = "@
                + crate::search::placeholder((k + 1) as nat) && binds[k] == now;
        lemma_update_first(u, now);
        assert(crate::text::views(q.binds@) == binds.push(id));
    }
    assert(crate::text::views(q.binds@) == binds.push(id));
    let pre = "UPDATE documents SET "@ + crate::text::join_with(sets, ", "@);
    let c = " WHERE id = "@ + crate::search::placeholder(binds.len() + 1);
    assert(q.sql@ =~= pre + c);
    assert(q.sql@.subrange(pre.len() as int, (pre.len() + c.len()) as int) =~= c);
    assert(crate::text::occurs_at(q.sql@, c, pre.len() as int));
    assert(crate::text::views(q.binds@)[(binds.len() + 1) - 1] == id);
    if u.sender is Some { lemma_update_part_shows(u, now, id, q, "sender = "@, val(u.sender)); }
    if u.sender_normalized is Some { lemma_update_part_shows(u, now, id, q, "sender_normalized = "@, val(u.sender_normalized)); }
    if u.document_date is Some { lemma_update_part_shows(u, now, id, q, "document_date = "@, val(u.document_date)); }
    if u.document_type is Some { lemma_update_part_shows(u, now, id, q, "document_type = "@, val(u.document_type)); }
    if u.subject is Some { lemma_update_part_shows(u, now, id, q, "subject = "@, val(u.subject)); }
    if u.language is Some { lemma_update_part_shows(u, now, id, q, "language = "@, val(u.language)); }
    if u.tags is Some { lemma_update_part_shows(u, now, id, q, "tags = "@, val(u.tags)); }
}

/// The first bound value of a correction is its time stamp.
proof fn lemma_update_first(u: DocumentUpdate, now: Seq<char>)
    ensures
        update_parts(u, now).1.len() >= 1,
        update_parts(u, now).1[0] == now,
{
}

} // verus!
