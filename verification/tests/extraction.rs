use shrank::documents::ExtractionResult;
use shrank::errors::AppError;
use shrank::extraction::{
    extract_braced, parse, parse_llm_json, parse_llm_json_checked, repair_truncated, strip_fences,
};
use shrank::json::JsonValue;

fn value(text: &str) -> serde_json::Value {
    serde_json::from_str(text).unwrap()
}

#[test]
fn test_clean_json() {
    let raw = r#"{"language": "de", "sender": "AOK"}"#;
    let v = value(&parse_llm_json(raw).unwrap());
    assert_eq!(v["language"], "de");
    assert_eq!(v["sender"], "AOK");
}

#[test]
fn test_markdown_fences() {
    let raw = "```json\n{\"language\": \"en\", \"confidence\": 0.9}\n```";
    let v = value(&parse_llm_json(raw).unwrap());
    assert_eq!(v["language"], "en");
}

#[test]
fn test_preamble_and_trailing() {
    let raw = "Here is the result:\n{\"sender\": \"DKB\"}\nHope this helps!";
    let v = value(&parse_llm_json(raw).unwrap());
    assert_eq!(v["sender"], "DKB");
}

#[test]
fn test_truncated_json() {
    let raw = r#"{"language": "de", "tags": ["tax", "invoice"]"#;
    let v = value(&parse_llm_json(raw).unwrap());
    assert_eq!(v["language"], "de");
}

#[test]
fn test_invalid_input() {
    let result = parse_llm_json("no json here");
    assert!(result.is_err());
}

#[test]
fn clean_json_text_is_returned_trimmed() {
    let raw = "  {\"a\": 1}\n";
    assert_eq!(parse_llm_json(raw).unwrap(), "{\"a\": 1}");
}

#[test]
fn invalid_input_error_quotes_the_answer() {
    match parse_llm_json("no json here") {
        Err(AppError::Inference(m)) => {
            assert_eq!(m, "could not extract valid JSON from LLM response: no json here")
        }
        _ => panic!("expected an inference error"),
    }
}

#[test]
fn long_invalid_input_quotes_200_bytes() {
    let raw = "x".repeat(300);
    match parse_llm_json(&raw) {
        Err(AppError::Inference(m)) => {
            let expected = format!("could not extract valid JSON from LLM response: {}", "x".repeat(200));
            assert_eq!(m, expected);
        }
        _ => panic!("expected an inference error"),
    }
}

#[test]
fn checked_parse_refuses_split_character_quote() {
    // 199 ASCII bytes, then a two-byte character across byte 200: no JSON.
    let raw = format!("{}é tail", "y".repeat(199));
    assert!(parse_llm_json_checked(&raw).is_none());
    let ok = format!("{}{{\"k\": 2}}", "é".repeat(150));
    let r = parse_llm_json_checked(&ok).unwrap().unwrap();
    assert_eq!(r, "{\"k\": 2}");
}

#[test]
fn fences_without_language_tag_and_unclosed() {
    assert_eq!(strip_fences("```\n{\"a\":1}\n```"), "{\"a\":1}");
    assert_eq!(strip_fences("intro ```json\n {\"a\":1} "), "{\"a\":1}");
    assert_eq!(strip_fences("no fence"), "no fence");
}

#[test]
fn braced_part_spans_first_open_to_last_close() {
    assert_eq!(extract_braced("x {a} y {b} z").unwrap(), "{a} y {b}");
    assert!(extract_braced("} before {").is_none());
    assert!(extract_braced("nothing").is_none());
}

#[test]
fn repair_closes_open_string_brackets_and_braces() {
    assert_eq!(repair_truncated("{\"a\": [\"x").unwrap(), "{\"a\": [\"x\"]}");
    assert_eq!(repair_truncated("pre {\"a\": 1,  ").unwrap(), "{\"a\": 1}");
    assert_eq!(repair_truncated("{\"a\": \"}\"").unwrap(), "{\"a\": \"}\"}");
    assert!(repair_truncated("no brace").is_none());
    assert!(repair_truncated("{}}").is_none());
    assert!(repair_truncated("{{{{{{{").is_none());
    assert_eq!(repair_truncated("{\"a\": \"\\\"q").unwrap(), "{\"a\": \"\\\"q\"}");
}

#[test]
fn repair_closes_innermost_first() {
    let raw = r#"{"sender": "AOK", "entities": [{"type": "organization""#;
    assert_eq!(
        repair_truncated(raw).unwrap(),
        r#"{"sender": "AOK", "entities": [{"type": "organization"}]}"#
    );
    let v = value(&parse_llm_json(raw).unwrap());
    assert_eq!(v["sender"], "AOK");
    assert_eq!(v["entities"][0]["type"], "organization");
    assert_eq!(repair_truncated("{\"a\": [1, {\"b\": [2").unwrap(), "{\"a\": [1, {\"b\": [2]}]}");
    assert!(repair_truncated("{\"a\": [1}").is_none());
}

#[test]
fn complete_json_is_not_repaired() {
    assert_eq!(repair_truncated("{\"a\": 1}  ").unwrap(), "{\"a\": 1}");
}

fn s(x: &str) -> JsonValue {
    JsonValue::Str(x.to_string())
}

fn obj(members: Vec<(&str, JsonValue)>) -> JsonValue {
    JsonValue::Object(members.into_iter().map(|(k, v)| (k.to_string(), v)).collect())
}

fn parsed(v: JsonValue) -> ExtractionResult {
    match parse(v, "raw".to_string()) {
        Ok(r) => r,
        Err(_) => panic!("expected a result"),
    }
}

#[test]
fn parse_reads_all_fields() {
    let v = obj(vec![
        ("language", s("de")),
        ("sender", s("AOK Bayern")),
        ("document_date", s("2026-03-15")),
        ("document_type", s("INVOICE")),
        ("subject", s("Beitrag")),
        ("extracted_text", s("text")),
        ("amounts", JsonValue::Array(vec![obj(vec![("value", JsonValue::Number("12.5".to_string()))])])),
        ("dates", s("not an array")),
        ("reference_ids", JsonValue::Array(vec![obj(vec![("type", s("policy")), ("value", s("VN-1"))])])),
        ("tags", JsonValue::Array(vec![s("Health Insurance"), JsonValue::Null, s("Premium-Notice")])),
        ("confidence", JsonValue::Number("0.8".to_string())),
        (
            "entities",
            JsonValue::Array(vec![
                obj(vec![("type", s("organization")), ("value", s("AOK")), ("role", s("sender"))]),
                obj(vec![("type", s("person")), ("value", s("Max"))]),
                obj(vec![("value", s("no type"))]),
                s("not an object"),
            ]),
        ),
    ]);
    let r = parsed(v);
    assert_eq!(r.language.as_deref(), Some("de"));
    assert_eq!(r.sender.as_deref(), Some("AOK Bayern"));
    assert_eq!(r.sender_normalized.as_deref(), Some("AOK Bayern"));
    assert_eq!(r.document_date.as_deref(), Some("2026-03-15"));
    assert_eq!(r.document_type.as_deref(), Some("invoice"));
    assert_eq!(r.subject.as_deref(), Some("Beitrag"));
    assert_eq!(r.extracted_text.as_deref(), Some("text"));
    assert!(matches!(r.amounts, Some(JsonValue::Array(ref a)) if a.len() == 1));
    assert!(r.dates.is_none());
    assert!(matches!(r.reference_ids, Some(JsonValue::Array(_))));
    match r.tags {
        Some(JsonValue::Array(tags)) => {
            let names: Vec<String> = tags
                .into_iter()
                .map(|t| match t {
                    JsonValue::Str(x) => x,
                    _ => panic!("tag is no string"),
                })
                .collect();
            assert_eq!(names, vec!["health_insurance".to_string(), "premium_notice".to_string()]);
        }
        _ => panic!("expected tags"),
    }
    assert_eq!(r.confidence.as_deref(), Some("0.8"));
    assert_eq!(r.raw_response, "raw");
    assert_eq!(r.entities.len(), 2);
    assert_eq!(r.entities[0].entity_type, "organization");
    assert_eq!(r.entities[0].role, "sender");
    assert_eq!(r.entities[1].value, "Max");
    assert_eq!(r.entities[1].role, "referenced");
}

#[test]
fn parse_prefers_explicit_normalized_sender_and_drops_null_dates() {
    let r = parsed(obj(vec![
        ("sender", s("DKB AG")),
        ("sender_normalized", s("DKB")),
        ("document_date", s("null")),
        ("confidence", s("high")),
    ]));
    assert_eq!(r.sender_normalized.as_deref(), Some("DKB"));
    assert!(r.document_date.is_none());
    assert!(r.confidence.is_none());
    assert!(r.tags.is_none());
    assert!(r.entities.is_empty());
    let r = parsed(obj(vec![("document_date", s(""))]));
    assert!(r.document_date.is_none());
    assert!(r.sender_normalized.is_none());
}

#[test]
fn parse_takes_the_first_of_repeated_members() {
    let r = parsed(obj(vec![("language", s("de")), ("language", s("en"))]));
    assert_eq!(r.language.as_deref(), Some("de"));
}

#[test]
fn parse_refuses_non_objects() {
    match parse(JsonValue::Array(vec![]), String::new()) {
        Err(AppError::Inference(m)) => assert_eq!(m, "extraction response is not a JSON object"),
        _ => panic!("expected an inference error"),
    }
}
