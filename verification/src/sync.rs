//! Delta sync for the phone: which documents a sync page holds and where
//! the next page starts.

use vstd::prelude::*;
use crate::errors::AppError;
use crate::search::SqlQuery;
use crate::text::{dec_int, i64_text, push_str, views};
use crate::facets::text_lt;

verus! {

/// Query of a sync request.
#[derive(Debug)]
pub struct SyncParams {
    pub since: Option<String>,
    pub limit: Option<i64>,
}

/// Body of a device registration.
#[derive(Debug)]
pub struct RegisterBody {
    pub client_id: String,
}

/// The smaller of a page size and 100.
pub open spec fn capped(limit: i64) -> i64 {
    if limit < 100 { limit } else { 100 }
}

/// Page size of a sync request: 50 unless given, at most 100.
pub fn sync_limit(params: &SyncParams) -> (r: i64)
    ensures
        r == capped(
            match params.limit {
                Some(l) => l,
                None => 50,
            },
        ),
{
    let l = match params.limit {
        Some(l) => l,
        None => 50,
    };
    if l < 100 { l } else { 100 }
}

/// The statement of a sync page: documents updated after the cursor (all
/// documents without one), oldest change first, at most `limit` (capped at 100).
pub open spec fn is_sync_query(since: Option<Seq<char>>, limit: i64, q: SqlQuery) -> bool {
    let l = dec_int(capped(limit) as int);
    match since {
        Some(c) => q.sql@
            == "SELECT * FROM documents WHERE updated_at > ?1 ORDER BY updated_at ASC LIMIT ?2"@
            && views(q.binds@) == seq![c, l],
        None => q.sql@ == "SELECT * FROM documents ORDER BY updated_at ASC LIMIT ?1"@ && views(
            q.binds@,
        ) == seq![l],
    }
}

/// Builds the statement of a sync page (see [`is_sync_query`]).
pub fn sync_query(since: Option<&str>, limit: i64) -> (q: SqlQuery)
    ensures
        is_sync_query(
            match since {
                Some(c) => Some(c@),
                None => None,
            },
            limit,
            q,
        ),
{
    let limit = if limit < 100 { limit } else { 100 };
    let l = i64_text(limit);
    match since {
        Some(cursor) => {
            let mut binds: Vec<String> = Vec::new();
            binds.push(cursor.to_string());
            binds.push(l);
            assert(views(binds@) =~= seq![cursor@, dec_int(limit as int)]);
            SqlQuery {
                sql: "SELECT * FROM documents WHERE updated_at > ?1 ORDER BY updated_at ASC LIMIT ?2".to_string(),
                binds,
            }
        },
        None => {
            let mut binds: Vec<String> = Vec::new();
            binds.push(l);
            assert(views(binds@) =~= seq![dec_int(limit as int)]);
            SqlQuery {
                sql: "SELECT * FROM documents ORDER BY updated_at ASC LIMIT ?1".to_string(),
                binds,
            }
        },
    }
}

/// The cursor of the next sync page: the last document's `updated_at` when
/// the page is full, else none (the phone is up to date).
pub open spec fn next_cursor_of(updated: Seq<Seq<char>>, limit: i64) -> Option<Seq<char>> {
    if updated.len() as i64 == capped(limit) && updated.len() > 0 {
        Some(updated.last())
    } else {
        None
    }
}

/// The cursor of the next sync page, from the `updated_at` of the page's
/// documents in order (see [`next_cursor_of`]).
pub fn next_cursor(updated_at: &Vec<String>, limit: i64) -> (r: Option<String>)
    ensures
        r matches Some(c) ==> next_cursor_of(views(updated_at@), limit) == Some(c@),
        r is None ==> next_cursor_of(views(updated_at@), limit) is None,
{
    let limit = if limit < 100 { limit } else { 100 };
    let n = updated_at.len();
    if n as i64 == limit && n > 0 {
        Some(updated_at[n - 1].clone())
    } else {
        None
    }
}

/// Where the phone fetches a document's thumbnail.
pub fn thumbnail_url(id: &str) -> (r: String)
    ensures
        r@ == "/api/images/thumbnail/"@ + id@,
{
    let mut r = "/api/images/thumbnail/".to_string();
    push_str(&mut r, id);
    r
}

/// Checks a device registration: a client id is required.
pub fn validate_register(body: &RegisterBody) -> (r: Result<(), AppError>)
    ensures
        body.client_id@.len() == 0 <==> (r matches Err(AppError::Validation(m)) && m@
            == "client_id is required"@),
        body.client_id@.len() > 0 <==> r is Ok,
{
    if body.client_id.unicode_len() == 0 {
        Err(AppError::Validation("client_id is required".to_string()))
    } else {
        Ok(())
    }
}


/// A sync page never holds more than 100 documents.
pub proof fn lemma_sync_page_capped(limit: i64)
    ensures
        capped(limit) <= 100,
        limit <= 100 ==> capped(limit) == limit,
{
}


/// A next page is announced exactly when the page is full, and it starts
/// after the last document of this page: the cursor is that document's
/// `updated_at`, and the next statement asks for documents updated after it.
pub proof fn lemma_cursor_continues_after_page(updated: Seq<Seq<char>>, limit: i64, q: SqlQuery)
    requires
        next_cursor_of(updated, limit) is Some,
        is_sync_query(next_cursor_of(updated, limit), limit, q),
    ensures
        updated.len() as i64 == capped(limit) && updated.len() > 0,
        next_cursor_of(updated, limit) == Some(updated.last()),
        views(q.binds@)[0] == updated.last(),
        q.sql@ == "SELECT * FROM documents WHERE updated_at > ?1 ORDER BY updated_at ASC LIMIT ?2"@,
{
}


/// No text comes before itself.
pub proof fn lemma_text_lt_irreflexive(a: Seq<char>)
    ensures
        !text_lt(a, a),
    decreases a.len(),
{
    if a.len() > 0 {
        lemma_text_lt_irreflexive(a.drop_first());
    }
}

/// Of two texts, at most one comes before the other.
pub proof fn lemma_text_lt_asymmetric(a: Seq<char>, b: Seq<char>)
    ensures
        text_lt(a, b) ==> !text_lt(b, a),
    decreases a.len(),
{
    if a.len() > 0 && b.len() > 0 && a[0] == b[0] {
        lemma_text_lt_asymmetric(a.drop_first(), b.drop_first());
    }
}

/// Change times in strictly ascending order, as the store returns them.
pub open spec fn strictly_ascending(all: Seq<Seq<char>>) -> bool {
    forall|i: int, j: int| 0 <= i < j < all.len() ==> text_lt(#[trigger] all[i], #[trigger] all[j])
}

/// The change times after the cursor (all of them without one), in order:
/// what `updated_at > ?1` keeps of the store.
pub open spec fn after_cursor(all: Seq<Seq<char>>, since: Option<Seq<char>>) -> Seq<Seq<char>>
    decreases all.len(),
{
    match since {
        None => all,
        Some(c) => if all.len() == 0 {
            seq![]
        } else {
            let rest = after_cursor(all.drop_last(), since);
            if text_lt(c, all.last()) {
                rest.push(all.last())
            } else {
                rest
            }
        },
    }
}

/// The change times of the page a sync statement (see [`is_sync_query`])
/// returns from a store whose change times, ascending, are `all`.
pub open spec fn sync_page(all: Seq<Seq<char>>, since: Option<Seq<char>>, limit: i64) -> Seq<Seq<char>> {
    let rest = after_cursor(all, since);
    let l = capped(limit) as int;
    rest.take(if l < rest.len() { l } else { rest.len() as int })
}

/// The pages a phone fetches, one after the other, starting at `since` and
/// following each page's cursor (at most `fuel` pages).
pub open spec fn sync_walk(all: Seq<Seq<char>>, since: Option<Seq<char>>, limit: i64, fuel: nat) -> Seq<
    Seq<char>,
>
    decreases fuel,
{
    if fuel == 0 {
        seq![]
    } else {
        let page = sync_page(all, since, limit);
        match next_cursor_of(page, limit) {
            None => page,
            Some(c) => page + sync_walk(all, Some(c), limit, (fuel - 1) as nat),
        }
    }
}

proof fn lemma_none_after(s: Seq<Seq<char>>, c: Seq<char>)
    requires
        forall|i: int| 0 <= i < s.len() ==> !text_lt(c, #[trigger] s[i]),
    ensures
        after_cursor(s, Some(c)) == Seq::<Seq<char>>::empty(),
    decreases s.len(),
{
    if s.len() > 0 {
        assert(!text_lt(c, s[s.len() - 1]));
        lemma_none_after(s.drop_last(), c);
    }
}

/// After the `j`-th change time of a strictly ascending store come exactly
/// the later ones.
proof fn lemma_after_is_rest(all: Seq<Seq<char>>, j: int)
    requires
        strictly_ascending(all),
        0 <= j < all.len(),
    ensures
        after_cursor(all, Some(all[j])) == all.skip(j + 1),
    decreases all.len(),
{
    let c = all[j];
    let d = all.drop_last();
    assert(strictly_ascending(d));
    if j == all.len() - 1 {
        lemma_text_lt_irreflexive(c);
        assert forall|i: int| 0 <= i < d.len() implies !text_lt(c, #[trigger] d[i]) by {
            assert(text_lt(all[i], all[j]));
            lemma_text_lt_asymmetric(all[i], c);
        }
        lemma_none_after(d, c);
        assert(all.skip(j + 1) =~= Seq::<Seq<char>>::empty());
    } else {
        assert(d[j] == c);
        lemma_after_is_rest(d, j);
        assert(text_lt(all[j], all[all.len() - 1]));
        assert(all.skip(j + 1) =~= d.skip(j + 1).push(all.last()));
    }
}

proof fn lemma_walk_from(all: Seq<Seq<char>>, k: int, limit: i64, fuel: nat)
    requires
        strictly_ascending(all),
        1 <= limit <= 100,
        0 <= k <= all.len(),
        fuel >= all.len() - k + 1,
    ensures
        sync_walk(all, if k == 0 { None } else { Some(all[k - 1]) }, limit, fuel) == all.skip(k),
    decreases fuel,
{
    let since = if k == 0 { None } else { Some(all[k - 1]) };
    if k == 0 {
        assert(all.skip(0) =~= all);
    } else {
        lemma_after_is_rest(all, k - 1);
    }
    assert(after_cursor(all, since) == all.skip(k));
    let rest = all.skip(k);
    let page = sync_page(all, since, limit);
    let n = all.len() - k;
    if limit < n {
        assert(page =~= rest.take(limit as int));
        assert(page.len() as i64 == capped(limit));
        assert(next_cursor_of(page, limit) == Some(all[k + limit - 1]));
        lemma_walk_from(all, k + limit, limit, (fuel - 1) as nat);
        assert(page + all.skip(k + limit) =~= rest);
    } else if limit == n {
        assert(page =~= rest);
        assert(next_cursor_of(page, limit) == Some(all[k + limit - 1]));
        lemma_walk_from(all, k + limit, limit, (fuel - 1) as nat);
        assert(all.skip(k + limit) =~= Seq::<Seq<char>>::empty());
        assert(page + all.skip(k + limit) =~= rest);
    } else {
        assert(page =~= rest);
        assert(next_cursor_of(page, limit) is None);
    }
}

/// Walking the sync cursors from the start hands the phone every document
/// once, in order of change: when the store does not change in between and
/// its change times are distinct, the pages fetched until no cursor comes back
/// are, one after the other, all of the store's change times, ascending.
pub proof fn lemma_sync_walk_complete(all: Seq<Seq<char>>, limit: i64)
    requires
        strictly_ascending(all),
        1 <= limit <= 100,
    ensures
        sync_walk(all, None, limit, (all.len() + 1) as nat) == all,
{
    lemma_walk_from(all, 0, limit, (all.len() + 1) as nat);
    assert(all.skip(0) =~= all);
}

} // verus!
