use shrank::auth::is_authorized;
use shrank::errors::AppError;
use shrank::facets::{all_tags, parse_tag_rows, tag_counts, tag_facets};
use shrank::json::JsonValue;
use shrank::graph::{related_graph, DocumentRef, RelatedDocument, entity_page, requested_depth, traversal_depth, GraphBuilder, ListParams, RelatedParams};
use shrank::prompt::{build_extraction_prompt, EXTRACTION_SCHEMA};
use shrank::relationships::{followup_link, parse_day, reference_pattern, reference_values, FollowUpLink};
use shrank::stats::total_documents;
use shrank::sync::{next_cursor, sync_limit, sync_query, thumbnail_url, validate_register, RegisterBody, SyncParams};

fn strings(xs: &[&str]) -> Vec<String> {
    xs.iter().map(|x| x.to_string()).collect()
}

#[test]
fn tag_rows_skip_invalid_json() {
    let rows = parse_tag_rows(&strings(&["[\"a\",\"b\"]", "not json", "[1,2]", "[]"]));
    assert_eq!(rows, vec![strings(&["a", "b"]), vec![]]);
}

#[test]
fn vocabulary_is_sorted_and_unique() {
    let rows = vec![strings(&["tax", "invoice"]), strings(&["aok", "tax"]), strings(&["Zeta", "ä"])];
    assert_eq!(all_tags(&rows), strings(&["Zeta", "aok", "invoice", "tax", "ä"]));
}

#[test]
fn tag_facet_counts_and_orders() {
    let rows = vec![strings(&["tax", "invoice"]), strings(&["aok", "tax"]), strings(&["invoice", "tax"])];
    let f = tag_facets(&rows);
    let got: Vec<(String, i64)> = f.into_iter().map(|e| (e.name, e.count)).collect();
    assert_eq!(got, vec![("tax".to_string(), 3), ("invoice".to_string(), 2), ("aok".to_string(), 1)]);
}

#[test]
fn tag_facet_keeps_thirty() {
    let mut row = Vec::new();
    for i in 0..40 {
        row.push(format!("t{i}"));
    }
    row.push("t39".to_string());
    let f = tag_facets(&vec![row]);
    assert_eq!(f.len(), 30);
    assert_eq!(f[0].name, "t39");
    assert_eq!(f[0].count, 2);
}

#[test]
fn sync_pages() {
    assert_eq!(sync_limit(&SyncParams { since: None, limit: None }), 50);
    assert_eq!(sync_limit(&SyncParams { since: None, limit: Some(500) }), 100);
    let q = sync_query(Some("2026-01-01"), 50);
    assert_eq!(q.sql, "SELECT * FROM documents WHERE updated_at > ?1 ORDER BY updated_at ASC LIMIT ?2");
    assert_eq!(q.binds, strings(&["2026-01-01", "50"]));
    let q = sync_query(None, 300);
    assert_eq!(q.sql, "SELECT * FROM documents ORDER BY updated_at ASC LIMIT ?1");
    assert_eq!(q.binds, strings(&["100"]));
    let q = sync_query(None, -5);
    assert_eq!(q.binds, strings(&["-5"]));
}

#[test]
fn next_cursor_only_for_full_pages() {
    let page = strings(&["t1", "t2"]);
    assert_eq!(next_cursor(&page, 2), Some("t2".to_string()));
    assert_eq!(next_cursor(&page, 3), None);
    assert_eq!(next_cursor(&vec![], 0), None);
}

#[test]
fn thumbnails_and_registration() {
    assert_eq!(thumbnail_url("abc"), "/api/images/thumbnail/abc");
    assert!(validate_register(&RegisterBody { client_id: "phone".to_string() }).is_ok());
    match validate_register(&RegisterBody { client_id: String::new() }) {
        Err(AppError::Validation(m)) => assert_eq!(m, "client_id is required"),
        _ => panic!("expected a validation error"),
    }
}

#[test]
fn graph_nodes_are_unique_and_links_join_nodes() {
    let mut g = GraphBuilder::new();
    g.add_document("01J5K4ABCDEFG", None);
    g.add_document("docB", Some("AOK"));
    g.add_relation("01J5K4ABCDEFG", "docB", "references");
    g.add_document("docB", Some("other"));
    let ids = g.document_ids();
    assert_eq!(ids, strings(&["01J5K4ABCDEFG", "docB"]));
    g.add_entity("docB", "e1", None, "VN-1", "referenced");
    g.add_entity("01J5K4ABCDEFG", "e1", Some("Policy"), "VN-1", "sender");
    assert!(g.has_node("e1"));
    let (nodes, links) = g.into_parts();
    assert_eq!(nodes.len(), 3);
    assert_eq!(nodes[0].label, "01J5K4AB");
    assert_eq!(nodes[1].label, "AOK");
    assert_eq!(nodes[2].label, "VN-1");
    assert_eq!(nodes[2].node_type, "entity");
    assert_eq!(links.len(), 3);
    assert_eq!(links[2].source, "01J5K4ABCDEFG");
    assert_eq!(links[2].relation_type, "sender");
}

#[test]
fn graph_parameters() {
    assert_eq!(requested_depth(&RelatedParams { depth: None }), 2);
    assert_eq!(traversal_depth(10), 3);
    assert_eq!(traversal_depth(1), 1);
    assert_eq!(entity_page(&ListParams { limit: Some(200), offset: None }), (100, 0));
}

#[test]
fn error_answers() {
    let e = AppError::NotFound("document not found".to_string());
    assert_eq!(e.status_code(), 404);
    assert_eq!(e.response_message(), "not found: document not found");
    let e = AppError::Validation("bad".to_string());
    assert_eq!(e.status_code(), 400);
    assert_eq!(e.message(), "validation error: bad");
    let e = AppError::Database("disk I/O".to_string());
    assert_eq!(e.status_code(), 500);
    assert_eq!(e.message(), "database error: disk I/O");
    assert_eq!(e.response_message(), "internal server error");
    assert_eq!(AppError::Internal("boom".to_string()).message(), "boom");
}

#[test]
fn api_key_check() {
    assert!(is_authorized(Some("Bearer sk_1"), "sk_1"));
    assert!(!is_authorized(Some("Bearer sk_2"), "sk_1"));
    assert!(!is_authorized(None, "sk_1"));
}

#[test]
fn stats_total() {
    assert_eq!(total_documents(&vec![("complete".to_string(), 3), ("pending".to_string(), 2)]), 5);
    assert_eq!(total_documents(&vec![]), 0);
}

#[test]
fn prompt_lists_known_tags_and_senders() {
    let p = build_extraction_prompt("Hallo", &strings(&["tax", "aok"]), &[]);
    assert!(p.starts_with("Extract structured information from the following document text.\n\n--- DOCUMENT TEXT ---\nHallo\n--- END DOCUMENT TEXT ---\n"));
    assert!(p.contains("\nEXISTING TAGS IN ARCHIVE (reuse these when applicable, add new ones if needed):\ntax, aok\n"));
    assert!(!p.contains("KNOWN SENDERS"));
    assert!(p.ends_with(EXTRACTION_SCHEMA));
}

#[test]
fn prompt_truncates_long_text() {
    let text = "a".repeat(13000);
    let senders: Vec<String> = (0..60).map(|i| format!("s{i}")).collect();
    let p = build_extraction_prompt(&text, &[], &senders);
    assert!(p.contains(&format!("{}\n[... truncated ...]\n", "a".repeat(12000))));
    assert!(!p.contains(&"a".repeat(12001)));
    assert!(p.contains("s49\n"));
    assert!(!p.contains("s50"));
}

#[test]
fn references_of_an_extraction() {
    let entry = |v: &str| JsonValue::Object(vec![("value".to_string(), JsonValue::Str(v.to_string()))]);
    let v = JsonValue::Object(vec![(
        "reference_ids".to_string(),
        JsonValue::Array(vec![entry("VN-1"), JsonValue::Null, entry("DE89")]),
    )]);
    let ext = shrank::extraction::parse(v, String::new()).unwrap_or_else(|_| panic!("parse"));
    assert_eq!(reference_values(&ext), strings(&["VN-1", "DE89"]));
    assert_eq!(reference_pattern("VN-1"), "%VN-1%");
}

#[test]
fn tag_counts_cover_every_tag() {
    let rows = vec![strings(&["tax", "bank"]), strings(&["bank"]), strings(&["insurance", "bank", "tax"])];
    let counts: Vec<(String, i64)> = tag_counts(&rows).into_iter().map(|e| (e.name, e.count)).collect();
    assert_eq!(
        counts,
        vec![("tax".to_string(), 2), ("bank".to_string(), 3), ("insurance".to_string(), 1)]
    );
    assert!(tag_counts(&vec![]).is_empty());
}

#[test]
fn entity_nodes_are_not_documents() {
    let mut g = GraphBuilder::new();
    g.add_document("d1", Some("A"));
    g.add_entity("d1", "e1", None, "X", "sender");
    g.add_document("d2", Some("B"));
    assert_eq!(g.document_ids(), strings(&["d1", "d2"]));
}

#[test]
fn followup_within_ninety_days() {
    let none: Vec<String> = vec![];
    let refs = strings(&["VN-1"]);
    assert!(matches!(followup_link(Some("2024-03-31"), Some("2024-01-01"), &none, &none), FollowUpLink::Weak));
    assert!(matches!(followup_link(Some("2024-01-01"), Some("2024-04-01"), &none, &none), FollowUpLink::NoLink));
    assert!(matches!(followup_link(Some("2024-02-10"), Some("2024-01-20"), &refs, &strings(&["x", "VN-1"])), FollowUpLink::Strong));
    assert!(matches!(followup_link(Some("2025-01-10"), Some("2024-01-20"), &refs, &refs), FollowUpLink::NoLink));
    assert!(matches!(followup_link(None, Some("2024-01-20"), &refs, &refs), FollowUpLink::NoLink));
    assert!(matches!(followup_link(Some("2024-13-01"), Some("2024-01-20"), &none, &none), FollowUpLink::NoLink));
    assert!(matches!(followup_link(Some("2023-12-15"), Some("2024-01-20"), &refs, &none), FollowUpLink::Weak));
}

#[test]
fn day_numbers_count_days() {
    let d = |t: &str| parse_day(t).unwrap();
    assert_eq!(d("2024-03-01") - d("2024-02-28"), 2);
    assert_eq!(d("2023-03-01") - d("2023-02-28"), 1);
    assert_eq!(d("2000-03-01") - d("2000-02-28"), 2);
    assert_eq!(d("1900-03-01") - d("1900-02-28"), 1);
    assert_eq!(d("2025-01-01") - d("2024-01-01"), 366);
    assert_eq!(d("1970-01-01") - d("0000-03-01"), 719468);
    assert!(parse_day("2024-1-01").is_none());
    assert!(parse_day("2024-01-32").is_none());
}

#[test]
fn related_graph_starts_at_focus() {
    let doc = |id: &str, sender: Option<&str>| DocumentRef { id: id.to_string(), sender: sender.map(|s| s.to_string()) };
    let rel = |id: &str, t: &str, depth: i32| RelatedDocument { document: doc(id, None), relation_type: t.to_string(), depth };
    let related = vec![rel("01ABCDEFGHJ", "references", 1), rel("b", "shared_entity", 2), rel("b", "follows_up", 2)];
    let g = related_graph(&doc("focus", Some("AOK")), &related);
    let (nodes, links) = g.into_parts();
    assert_eq!(nodes.len(), 3);
    assert_eq!((nodes[0].id.as_str(), nodes[0].label.as_str()), ("focus", "AOK"));
    assert_eq!(nodes[1].label, "01ABCDEF");
    assert_eq!(links.len(), 3);
    for (l, r) in links.iter().zip(related.iter()) {
        assert_eq!(l.source, "focus");
        assert_eq!(l.target, r.document.id);
        assert_eq!(l.relation_type, r.relation_type);
    }
}
