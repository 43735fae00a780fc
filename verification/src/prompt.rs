//! The prompts of the two inference passes: OCR (image to Markdown) and
//! extraction (Markdown to structured JSON).

use vstd::prelude::*;
use vstd::string::StringSliceAdditionalSpecFns;
use vstd::utf8::{decode_utf8, is_char_boundary};
use crate::text::{join_with, push_str, views};

verus! {

/// System prompt of the OCR pass.
pub const OCR_SYSTEM_PROMPT: &'static str = r#"You are a precise document OCR engine. You receive a photograph of a physical document (letter, invoice, statement, contract, notice).

Your ONLY job is to transcribe ALL visible text into clean Markdown.

Rules:
1. Transcribe EVERY piece of text visible in the image — headers, body, footers, fine print, stamps, handwriting.
2. Preserve the document's visual structure using Markdown: headings (#), lists (-), tables (|), bold (**), line breaks.
3. For tables, use Markdown table syntax. If alignment is unclear, do your best.
4. Preserve the original language exactly. Do NOT translate anything.
5. If text is partially illegible, transcribe what you can and mark unclear parts with [illegible] or [unclear: best guess].
6. Include amounts, dates, reference numbers, and IBANs exactly as printed — do not reformat them.
7. Output ONLY the Markdown transcription. No commentary, no metadata, no JSON."#;

/// User prompt of the OCR pass.
pub const OCR_USER_PROMPT: &'static str = "Transcribe all text from this document image into Markdown.";

/// System prompt of the extraction pass.
pub const EXTRACTION_SYSTEM_PROMPT: &'static str = r#"You are a document analysis engine for a personal paper mail archive.
You receive the OCR text of a physical mail document (letter, invoice, statement, contract, notice).
Your job is to extract all structured information from this text.

CRITICAL RULES:
1. Detect the document language from the text content. Do NOT assume any language.
2. Identify the sender/organization, dates, amounts, reference numbers.
3. Suggest descriptive tags for categorization. Tags should be in English for consistency,
   but include important domain-specific terms in the original language as additional tags.
4. Generate a one-sentence English summary regardless of document language.
5. Report your confidence (0.0-1.0) in the extraction quality.
6. Output ONLY valid JSON. No markdown, no explanation, no preamble."#;

/// The JSON schema the extraction pass asks for, closing its user prompt.
pub const EXTRACTION_SCHEMA: &'static str = r#"
Respond with a single JSON object in this exact schema:

{
  "language": "<ISO 639-1 code>",
  "sender": "<full sender name as printed>",
  "sender_normalized": "<cleaned/canonical sender name>",
  "document_date": "<YYYY-MM-DD or null if not visible>",
  "document_type": "<one of: invoice, letter, policy, statement, contract, receipt, notification, certificate, form, reminder, other>",
  "subject": "<one-line summary in the document's language>",
  "summary": "<one-sentence English summary of the document's purpose and key information>",
  "extracted_text": "<the full document text from above, cleaned up>",
  "amounts": [
    {"value": <number>, "currency": "<ISO 4217>", "label": "<what this amount represents>"}
  ],
  "dates": [
    {"date": "<YYYY-MM-DD>", "label": "<what this date represents>"}
  ],
  "reference_ids": [
    {"type": "<policy|invoice|account|iban|tax_id|reference|customer_id|contract>", "value": "<the ID>"}
  ],
  "tags": ["<tag1>", "<tag2>", "..."],
  "entities": [
    {"type": "<organization|person|policy|vehicle|property|account>", "value": "<entity value>", "role": "<sender|recipient|referenced|beneficiary>"}
  ],
  "related_references": ["<any explicit references to other documents, e.g. 'Bezug auf Ihr Schreiben vom 15.03.2026'>"],
  "confidence": <0.0 to 1.0>,
  "extraction_notes": "<any issues: unclear text, missing sections>"
}

IMPORTANT: Output ONLY the JSON object. No other text."#;

/// The number of document-text bytes the prompt carries.
pub open spec fn text_limit(n: int) -> int {
    if n < 12000 { n } else { 12000 }
}

/// A list section of the prompt: a heading and at most `max` items, comma
/// separated; nothing when the list is empty.
pub open spec fn list_section(heading: Seq<char>, items: Seq<Seq<char>>, max: int) -> Seq<char> {
    if items.len() == 0 {
        seq![]
    } else {
        heading + join_with(items.take(if items.len() < max { items.len() as int } else { max }), ", "@)
            + seq!['\n']
    }
}

/// The user prompt of the extraction pass: the document text cut to its first
/// 12,000 bytes (with a truncation mark when cut), the first 100 tags and the
/// first 50 senders already in the archive, and the answer schema.
pub open spec fn extraction_prompt(ocr: &str, tags: Seq<Seq<char>>, senders: Seq<Seq<char>>) -> Seq<
    char,
> {
    let n = ocr.spec_bytes().len() as int;
    let limit = text_limit(n);
    "Extract structured information from the following document text.\n\n"@
        + "--- DOCUMENT TEXT ---\n"@ + decode_utf8(ocr.spec_bytes().subrange(0, limit)) + (if n
        > limit {
        "\n[... truncated ...]\n"@
    } else {
        seq![]
    }) + "\n--- END DOCUMENT TEXT ---\n"@ + list_section(
        "\nEXISTING TAGS IN ARCHIVE (reuse these when applicable, add new ones if needed):\n"@,
        tags,
        100,
    ) + list_section(
        "\nKNOWN SENDERS (use exact spelling if this document is from one of these):\n"@,
        senders,
        50,
    ) + EXTRACTION_SCHEMA@
}

/// Appends `items[..count]`, comma separated.
fn push_joined(out: &mut String, items: &[String], count: usize)
    requires
        count <= items@.len(),
    ensures
        final(out)@ == old(out)@ + join_with(views(items@).take(count as int), ", "@),
{
    let ghost start = out@;
    let mut i: usize = 0;
    while i < count
        invariant
            i <= count,
            count <= items@.len(),
            out@ == start + join_with(views(items@).take(i as int), ", "@),
        decreases count - i,
    {
        let ghost before = out@;
        if i > 0 {
            push_str(out, ", ");
        }
        push_str(out, items[i].as_str());
        proof {
            let t = views(items@).take(i as int + 1);
            assert(t.drop_last() =~= views(items@).take(i as int));
            assert(t.last() == items@[i as int]@);
            if i == 0 {
                assert(join_with(t, ", "@) == t[0]);
                assert(out@ =~= start + join_with(t, ", "@));
            } else {
                assert(out@ =~= start + join_with(t, ", "@));
            }
        }
        i = i + 1;
    }
}

/// Builds the user prompt of the extraction pass (see [`extraction_prompt`]).
pub fn build_extraction_prompt(
    ocr_text: &str,
    existing_tags: &[String],
    existing_senders: &[String],
) -> (r: String)
    requires
        ocr_text.spec_bytes().len() <= 12000 || is_char_boundary(ocr_text.spec_bytes(), 12000),
    ensures
        r@ == extraction_prompt(ocr_text, views(existing_tags@), views(existing_senders@)),
{
    let mut prompt = "Extract structured information from the following document text.\n\n".to_string();
    push_str(&mut prompt, "--- DOCUMENT TEXT ---\n");
    let n = ocr_text.as_bytes().len();
    proof {
        vstd::utf8::encode_utf8_valid_utf8(ocr_text@);
        vstd::utf8::is_char_boundary_start_end_of_seq(ocr_text.spec_bytes());
    }
    let limit = if n < 12000 {
        n
    } else {
        12000
    };
    let (head, _) = ocr_text.split_at(limit);
    proof {
        vstd::utf8::encode_utf8_decode_utf8(head@);
    }
    assert(head@ == decode_utf8(ocr_text.spec_bytes().subrange(0, limit as int)));
    push_str(&mut prompt, head);
    if n > limit {
        push_str(&mut prompt, "\n[... truncated ...]\n");
    }
    push_str(&mut prompt, "\n--- END DOCUMENT TEXT ---\n");
    let ghost before_tags = prompt@;
    if existing_tags.len() > 0 {
        push_str(
            &mut prompt,
            "\nEXISTING TAGS IN ARCHIVE (reuse these when applicable, add new ones if needed):\n",
        );
        let tag_limit = if existing_tags.len() < 100 {
            existing_tags.len()
        } else {
            100
        };
        push_joined(&mut prompt, existing_tags, tag_limit);
        crate::text::push_char(&mut prompt, '\n');
    }
    assert(prompt@ =~= before_tags + list_section(
        "\nEXISTING TAGS IN ARCHIVE (reuse these when applicable, add new ones if needed):\n"@,
        views(existing_tags@),
        100,
    ));
    let ghost before_senders = prompt@;
    if existing_senders.len() > 0 {
        push_str(
            &mut prompt,
            "\nKNOWN SENDERS (use exact spelling if this document is from one of these):\n",
        );
        let sender_limit = if existing_senders.len() < 50 {
            existing_senders.len()
        } else {
            50
        };
        push_joined(&mut prompt, existing_senders, sender_limit);
        crate::text::push_char(&mut prompt, '\n');
    }
    assert(prompt@ =~= before_senders + list_section(
        "\nKNOWN SENDERS (use exact spelling if this document is from one of these):\n"@,
        views(existing_senders@),
        50,
    ));
    push_str(&mut prompt, EXTRACTION_SCHEMA);
    prompt
}

} // verus!
