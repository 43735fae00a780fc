use shrank::documents::{ExtractedEntity, ExtractionResult};
use shrank::errors::AppError;
use shrank::json::JsonValue;
use shrank::processing::{begin, is_finished, step, Action, Event, Stage};
use shrank::relationships::{relationship_plan, RelationStep};
use shrank::schema::{pending_migrations, SCHEMA_VERSION};
use shrank::upload::{form_field, FormField, UploadForm};

fn extraction(refs: Option<JsonValue>, sender: Option<&str>, entities: Vec<ExtractedEntity>) -> ExtractionResult {
    ExtractionResult {
        language: None,
        sender: None,
        sender_normalized: sender.map(|s| s.to_string()),
        document_date: None,
        document_type: None,
        subject: None,
        extracted_text: None,
        amounts: None,
        dates: None,
        reference_ids: refs,
        tags: None,
        confidence: None,
        raw_response: String::new(),
        entities,
    }
}

fn ref_entry(v: &str) -> JsonValue {
    JsonValue::Object(vec![("value".to_string(), JsonValue::Str(v.to_string()))])
}

/// Runs the state machine with a fixed report for each action and returns
/// the actions taken.
fn run(has_markdown: bool, has_text: bool, fail_at: Option<&str>) -> (Vec<String>, Stage) {
    let (mut stage, mut action) = begin();
    let mut taken = Vec::new();
    loop {
        let name = format!("{:?}", action);
        taken.push(name.clone());
        if is_finished(&stage) {
            return (taken, stage);
        }
        let event = if fail_at == Some(name.as_str()) {
            Event::StepFailed { message: format!("{name} broke") }
        } else {
            match action {
                Action::LoadDocument => Event::DocumentLoaded { has_markdown },
                Action::StoreExtraction => Event::ExtractionStored { has_text },
                _ => Event::Done,
            }
        };
        let next = step(stage, event);
        stage = next.0;
        action = next.1;
    }
}

#[test]
fn fresh_document_runs_both_passes() {
    let (taken, stage) = run(false, true, None);
    assert_eq!(
        taken,
        vec![
            "MarkProcessing", "LoadDocument", "ReadImage", "RunOcr", "StoreMarkdown", "LoadVocabulary",
            "Extract", "StoreExtraction", "InferRelationships", "Embed", "Finish"
        ]
    );
    assert!(matches!(stage, Stage::Complete));
}

#[test]
fn reprocessed_document_skips_ocr() {
    let (taken, _) = run(true, true, None);
    assert!(!taken.iter().any(|a| a == "RunOcr" || a == "ReadImage" || a == "StoreMarkdown"));
    assert_eq!(taken[2], "LoadVocabulary");
}

#[test]
fn no_text_means_no_embedding() {
    let (taken, stage) = run(false, false, None);
    assert!(!taken.iter().any(|a| a == "Embed"));
    assert!(matches!(stage, Stage::Complete));
}

#[test]
fn failed_step_records_error() {
    let (taken, stage) = run(false, true, Some("Extract"));
    assert_eq!(taken.last().unwrap(), &format!("{:?}", Action::RecordError { message: "Extract broke".to_string() }));
    assert!(matches!(stage, Stage::Failed));
}

#[test]
fn failed_embedding_is_not_fatal() {
    let (taken, stage) = run(false, true, Some("Embed"));
    assert_eq!(taken.last().unwrap(), "Finish");
    assert!(matches!(stage, Stage::Complete));
}

#[test]
fn plan_orders_references_entities_followup() {
    let ext = extraction(
        Some(JsonValue::Array(vec![ref_entry("R-1"), JsonValue::Null, ref_entry("R-2")])),
        Some("acme"),
        vec![ExtractedEntity { entity_type: "org".into(), value: "ACME".into(), role: "sender".into() }],
    );
    let plan = relationship_plan(&ext);
    assert_eq!(plan.len(), 4);
    assert!(matches!(&plan[0], RelationStep::MatchReference { value } if value == "R-1"));
    assert!(matches!(&plan[1], RelationStep::MatchReference { value } if value == "R-2"));
    assert!(matches!(&plan[2], RelationStep::LinkEntity { entity_type, value, role }
        if entity_type == "org" && value == "ACME" && role == "sender"));
    assert!(matches!(&plan[3], RelationStep::FollowUp { sender } if sender == "acme"));
}

#[test]
fn plan_without_sender_or_refs() {
    let ext = extraction(None, None, vec![]);
    assert!(relationship_plan(&ext).is_empty());
    let weak = extraction(None, Some("x"), vec![]);
    let plan = relationship_plan(&weak);
    assert!(matches!(&plan[0], RelationStep::FollowUp { sender } if sender == "x"));
}

#[test]
fn migrations_from_each_version() {
    assert_eq!(pending_migrations(0), vec![1, 2]);
    assert_eq!(pending_migrations(1), vec![2]);
    assert_eq!(pending_migrations(2), Vec::<i64>::new());
    assert_eq!(pending_migrations(7), Vec::<i64>::new());
    assert_eq!(pending_migrations(-3), vec![1, 2]);
    assert_eq!(SCHEMA_VERSION, 2);
}

#[test]
fn upload_form_fields() {
    assert!(matches!(form_field(Some("image")), FormField::Image));
    assert!(matches!(form_field(Some("captured_at")), FormField::CapturedAt));
    assert!(matches!(form_field(Some("Image")), FormField::Other));
    assert!(matches!(form_field(None), FormField::Other));
}

#[test]
fn upload_form_needs_an_image() {
    let form = UploadForm::new();
    match form.finish("now".to_string()) {
        Err(AppError::Validation(m)) => assert_eq!(m, "missing 'image' field"),
        other => panic!("unexpected {other:?}"),
    }
    let mut form = UploadForm::new();
    form.image = Some(vec![1, 2]);
    let (img, at) = form.finish("now".to_string()).unwrap();
    assert_eq!((img, at.as_str()), (vec![1, 2], "now"));
    let mut form = UploadForm::new();
    form.image = Some(vec![3]);
    form.captured_at = Some("2024-01-01".to_string());
    assert_eq!(form.finish("now".to_string()).unwrap().1, "2024-01-01");
}
