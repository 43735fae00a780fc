use shrank::documents::{list_query, update_query, DocumentUpdate, ListParams};
use shrank::search::{
    fts_query, fuse_layers, parse_filter, parse_intent, search_query, split_words,
    structured_query, text_search_query, Filter, SearchIntent, SearchParams,
};

fn filter(field: &str, value: &str) -> Filter {
    Filter { field: field.to_string(), value: value.to_string() }
}

#[test]
fn words_split_at_whitespace_runs() {
    assert_eq!(split_words("  a  b\tc\n"), vec!["a", "b", "c"]);
    assert!(split_words("   ").is_empty());
}

#[test]
fn filters_of_known_fields() {
    let f = parse_filter("sender:\"AOK\"").unwrap();
    assert_eq!(f.field, "sender");
    assert_eq!(f.value, "AOK");
    assert!(parse_filter("foo:bar").is_none());
    assert!(parse_filter("plain").is_none());
    let d = parse_filter("date:>2025-06").unwrap();
    assert_eq!(d.value, ">2025-06");
}

#[test]
fn intent_of_only_filters_is_structured() {
    match parse_intent("sender:AOK type:invoice") {
        SearchIntent::Structured(fs) => {
            assert_eq!(fs.len(), 2);
            assert_eq!(fs[1].field, "type");
            assert_eq!(fs[1].value, "invoice");
        }
        _ => panic!("expected structured"),
    }
}

#[test]
fn intent_with_words_is_hybrid() {
    match parse_intent("Beitrag sender:AOK  erhöhung foo:bar") {
        SearchIntent::Hybrid { text, filters } => {
            assert_eq!(text, "Beitrag erhöhung foo:bar");
            assert_eq!(filters.len(), 1);
            assert_eq!((filters[0].field.as_str(), filters[0].value.as_str()), ("sender", "AOK"));
        }
        _ => panic!("expected hybrid"),
    }
    let i = parse_intent("car insurance");
    assert_eq!(i.description(), "hybrid(keyword, semantic)");
}

#[test]
fn intent_of_empty_query_is_keyword() {
    match parse_intent("   ") {
        SearchIntent::Keyword(q) => assert_eq!(q, "   "),
        _ => panic!("expected keyword"),
    }
    assert_eq!(parse_intent("").description(), "keyword");
    assert_eq!(parse_intent("tag:x").description(), "structured");
}

#[test]
fn fts_query_quotes_words() {
    assert_eq!(fts_query("premium increase").unwrap(), "\"premium\" OR \"increase\"");
    assert_eq!(fts_query("say \"hi\"").unwrap(), "\"say\" OR \"\"\"hi\"\"\"");
    assert!(fts_query("  ").is_none());
}

#[test]
fn structured_sql_numbers_parameters() {
    let q = structured_query(&vec![
        filter("sender", "AOK"),
        filter("date", ">2025-06-01"),
        filter("tag", "tax"),
        filter("bogus", "x"),
        filter("date", "<2026-01-01"),
        filter("date", "2025-01-01"),
    ])
    .unwrap();
    assert_eq!(
        q.sql,
        "SELECT id FROM documents WHERE sender_normalized LIKE '%' || ?1 || '%' AND document_date > ?2 AND tags LIKE '%' || ?3 || '%' AND document_date < ?4 AND document_date = ?5 ORDER BY document_date DESC NULLS LAST LIMIT 100"
    );
    assert_eq!(q.binds, vec!["AOK", "2025-06-01", "\"tax\"", "2026-01-01", "2025-01-01"]);
    assert!(structured_query(&vec![filter("bogus", "x")]).is_none());
    let q = structured_query(&vec![filter("type", "letter"), filter("language", "de"), filter("status", "complete")]).unwrap();
    assert_eq!(q.sql, "SELECT id FROM documents WHERE document_type = ?1 AND language = ?2 AND status = ?3 ORDER BY document_date DESC NULLS LAST LIMIT 100");
}

#[test]
fn fusion_groups_by_document() {
    let fts = vec!["a".to_string(), "b".to_string(), "a".to_string()];
    let st = vec!["c".to_string(), "b".to_string()];
    let hits = fuse_layers(&fts, &st);
    assert_eq!(hits.len(), 3);
    assert_eq!(hits[0].id, "a");
    assert_eq!(hits[0].fts_ranks, vec![0, 2]);
    assert!(hits[0].structured_ranks.is_empty());
    assert_eq!(hits[0].sources, vec!["fts5"]);
    assert_eq!(hits[1].id, "b");
    assert_eq!(hits[1].fts_ranks, vec![1]);
    assert_eq!(hits[1].structured_ranks, vec![1]);
    assert_eq!(hits[1].sources, vec!["fts5", "structured"]);
    assert_eq!(hits[2].id, "c");
    assert_eq!(hits[2].sources, vec!["structured"]);
}

#[test]
fn search_paging() {
    let q = search_query(SearchParams { q: "x".to_string(), limit: Some(500), offset: None });
    assert_eq!(q.limit, 100);
    assert_eq!(q.offset, 0);
    let q = search_query(SearchParams { q: "x".to_string(), limit: None, offset: Some(40) });
    assert_eq!(q.limit, 20);
    assert_eq!(q.offset, 40);
}

fn no_filters() -> ListParams {
    ListParams {
        limit: None,
        offset: None,
        status: None,
        sender: None,
        document_type: None,
        tag: None,
        date_from: None,
        date_to: None,
    }
}

#[test]
fn list_without_filters() {
    let q = list_query(&no_filters());
    assert_eq!(q.count_sql, "SELECT COUNT(*) FROM documents ");
    assert_eq!(q.query_sql, "SELECT * FROM documents  ORDER BY created_at DESC LIMIT ?1 OFFSET ?2");
    assert!(q.binds.is_empty());
    assert_eq!(q.limit, 50);
    assert_eq!(q.offset, 0);
}

#[test]
fn list_with_filters() {
    let mut p = no_filters();
    p.status = Some("complete".to_string());
    p.tag = Some("tax".to_string());
    p.date_to = Some("2026-12-31".to_string());
    p.limit = Some(1000);
    p.offset = Some(10);
    let q = list_query(&p);
    assert_eq!(q.count_sql, "SELECT COUNT(*) FROM documents WHERE status = ?1 AND tags LIKE ?2 AND document_date <= ?3");
    assert_eq!(
        q.query_sql,
        "SELECT * FROM documents WHERE status = ?1 AND tags LIKE ?2 AND document_date <= ?3 ORDER BY created_at DESC LIMIT ?4 OFFSET ?5"
    );
    assert_eq!(q.binds, vec!["complete", "%\"tax\"%", "2026-12-31"]);
    assert_eq!(q.limit, 100);
    assert_eq!(q.offset, 10);
}

#[test]
fn update_sets_given_fields() {
    let upd = DocumentUpdate {
        sender: Some("AOK".to_string()),
        sender_normalized: None,
        document_date: None,
        document_type: Some("letter".to_string()),
        subject: None,
        tags: Some("[\"tax\"]".to_string()),
        language: Some("de".to_string()),
    };
    let q = update_query(&upd, "2026-01-01T00:00:00Z", "doc1");
    assert_eq!(
        q.sql,
        "UPDATE documents SET updated_at = ?1, sender = ?2, document_type = ?3, language = ?4, tags = ?5 WHERE id = ?6"
    );
    assert_eq!(q.binds, vec!["2026-01-01T00:00:00Z", "AOK", "letter", "de", "[\"tax\"]", "doc1"]);
}

#[test]
fn words_with_filters_search_only_matching_documents() {
    let (text, filters) = match parse_intent("type:invoice steuer") {
        SearchIntent::Hybrid { text, filters } => (text, filters),
        _ => panic!("expected hybrid"),
    };
    assert_eq!(text, "steuer");
    let q = text_search_query(&text, &filters).unwrap();
    assert_eq!(
        q.sql,
        "SELECT d.id FROM documents_fts f JOIN documents d ON d.rowid = f.rowid WHERE d.id IN \
         (SELECT id FROM documents WHERE document_type = ?1) AND documents_fts MATCH ?2 ORDER BY f.rank LIMIT 100"
    );
    assert_eq!(q.binds, vec!["invoice".to_string(), "\"steuer\"".to_string()]);
    let plain = text_search_query("a b", &vec![]).unwrap();
    assert_eq!(
        plain.sql,
        "SELECT d.id FROM documents_fts f JOIN documents d ON d.rowid = f.rowid WHERE documents_fts MATCH ?1 ORDER BY f.rank LIMIT 100"
    );
    assert_eq!(plain.binds, vec!["\"a\" OR \"b\"".to_string()]);
    assert!(text_search_query("   ", &vec![]).is_none());
}
