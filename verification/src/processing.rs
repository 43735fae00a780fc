//! The two-pass processing of an uploaded document (OCR, then extraction,
//! then relationships and an embedding), as a state machine: the runner
//! performs each action and reports back how it went.

use vstd::prelude::*;

verus! {

/// Where a document's processing run stands.
#[derive(Debug)]
pub enum Stage {
    MarkingProcessing,
    LoadingDocument,
    ReadingImage,
    RunningOcr,
    StoringMarkdown,
    LoadingVocabulary,
    Extracting,
    StoringExtraction,
    /// Inferring relationships; `embed_after` tells whether the extraction
    /// has text to embed afterwards.
    InferringRelationships { embed_after: bool },
    Embedding,
    Complete,
    Failed,
}

/// How the last action went.
#[derive(Debug)]
pub enum Event {
    /// The action succeeded.
    Done,
    /// The document was loaded; it already has OCR markdown or not.
    DocumentLoaded { has_markdown: bool },
    /// The extraction was parsed and stored; it has non-empty text or not.
    ExtractionStored { has_text: bool },
    /// The action failed with this message.
    StepFailed { message: String },
}

/// What the runner does next.
#[derive(Debug)]
pub enum Action {
    /// Set the document's status to `processing`.
    MarkProcessing,
    /// Load the document record.
    LoadDocument,
    /// Read the original image from disk.
    ReadImage,
    /// Run the OCR pass on the image.
    RunOcr,
    /// Store the OCR markdown right away, so it survives a crash.
    StoreMarkdown,
    /// Load the known tags and senders.
    LoadVocabulary,
    /// Run the extraction pass on the markdown.
    Extract,
    /// Parse the extraction answer and store its metadata.
    StoreExtraction,
    /// Infer the relationships of the document.
    InferRelationships,
    /// Compute the embedding of the extracted text.
    Embed,
    /// The run is over.
    Finish,
    /// Set the document's status to `error` with this message.
    RecordError { message: String },
}

pub open spec fn is_terminal(s: Stage) -> bool {
    s is Complete || s is Failed
}

/// Whether an event is a possible report of the action that led to a stage.
pub open spec fn fits(s: Stage, e: Event) -> bool {
    !is_terminal(s) && match e {
        Event::StepFailed { .. } => true,
        Event::DocumentLoaded { .. } => s is LoadingDocument,
        Event::ExtractionStored { .. } => s is StoringExtraction,
        Event::Done => !(s is LoadingDocument) && !(s is StoringExtraction),
    }
}

/// The view of an action: its variant, with the message of an error as a
/// sequence.
pub enum ActionView {
    MarkProcessing,
    LoadDocument,
    ReadImage,
    RunOcr,
    StoreMarkdown,
    LoadVocabulary,
    Extract,
    StoreExtraction,
    InferRelationships,
    Embed,
    Finish,
    RecordError(Seq<char>),
}

impl View for Action {
    type V = ActionView;

    open spec fn view(&self) -> ActionView {
        match self {
            Action::MarkProcessing => ActionView::MarkProcessing,
            Action::LoadDocument => ActionView::LoadDocument,
            Action::ReadImage => ActionView::ReadImage,
            Action::RunOcr => ActionView::RunOcr,
            Action::StoreMarkdown => ActionView::StoreMarkdown,
            Action::LoadVocabulary => ActionView::LoadVocabulary,
            Action::Extract => ActionView::Extract,
            Action::StoreExtraction => ActionView::StoreExtraction,
            Action::InferRelationships => ActionView::InferRelationships,
            Action::Embed => ActionView::Embed,
            Action::Finish => ActionView::Finish,
            Action::RecordError { message } => ActionView::RecordError(message@),
        }
    }
}

/// The step of the run: from a stage and the report of its action, the next
/// stage and the next action.
///
/// A failed step ends the run with the error recorded, except the embedding,
/// whose failure is not fatal. The OCR pass is skipped for a document that
/// already has markdown; the embedding is skipped when there is no text.
pub open spec fn transition(s: Stage, e: Event) -> (Stage, ActionView) {
    match e {
        Event::StepFailed { message } => if s is Embedding {
            (Stage::Complete, ActionView::Finish)
        } else {
            (Stage::Failed, ActionView::RecordError(message@))
        },
        Event::DocumentLoaded { has_markdown } => if has_markdown {
            (Stage::LoadingVocabulary, ActionView::LoadVocabulary)
        } else {
            (Stage::ReadingImage, ActionView::ReadImage)
        },
        Event::ExtractionStored { has_text } => (
            Stage::InferringRelationships { embed_after: has_text },
            ActionView::InferRelationships,
        ),
        Event::Done => match s {
            Stage::MarkingProcessing => (Stage::LoadingDocument, ActionView::LoadDocument),
            Stage::ReadingImage => (Stage::RunningOcr, ActionView::RunOcr),
            Stage::RunningOcr => (Stage::StoringMarkdown, ActionView::StoreMarkdown),
            Stage::StoringMarkdown => (Stage::LoadingVocabulary, ActionView::LoadVocabulary),
            Stage::LoadingVocabulary => (Stage::Extracting, ActionView::Extract),
            Stage::Extracting => (Stage::StoringExtraction, ActionView::StoreExtraction),
            Stage::InferringRelationships { embed_after } => if embed_after {
                (Stage::Embedding, ActionView::Embed)
            } else {
                (Stage::Complete, ActionView::Finish)
            },
            _ => (Stage::Complete, ActionView::Finish),
        },
    }
}

/// How far a stage is into the run; every step moves strictly forward.
pub open spec fn rank(s: Stage) -> nat {
    match s {
        Stage::MarkingProcessing => 0,
        Stage::LoadingDocument => 1,
        Stage::ReadingImage => 2,
        Stage::RunningOcr => 3,
        Stage::StoringMarkdown => 4,
        Stage::LoadingVocabulary => 5,
        Stage::Extracting => 6,
        Stage::StoringExtraction => 7,
        Stage::InferringRelationships { .. } => 8,
        Stage::Embedding => 9,
        Stage::Complete => 10,
        Stage::Failed => 10,
    }
}

/// The first stage of a run and its action: the document is marked as being
/// processed.
pub fn begin() -> (r: (Stage, Action))
    ensures
        r.0 is MarkingProcessing,
        r.1@ == ActionView::MarkProcessing,
{
    (Stage::MarkingProcessing, Action::MarkProcessing)
}

/// One step of the run (see [`transition`]).
pub fn step(s: Stage, e: Event) -> (r: (Stage, Action))
    requires
        fits(s, e),
    ensures
        (r.0, r.1@) == transition(s, e),
{
    match e {
        Event::StepFailed { message } => match s {
            Stage::Embedding => (Stage::Complete, Action::Finish),
            _ => (Stage::Failed, Action::RecordError { message }),
        },
        Event::DocumentLoaded { has_markdown } => if has_markdown {
            (Stage::LoadingVocabulary, Action::LoadVocabulary)
        } else {
            (Stage::ReadingImage, Action::ReadImage)
        },
        Event::ExtractionStored { has_text } => (
            Stage::InferringRelationships { embed_after: has_text },
            Action::InferRelationships,
        ),
        Event::Done => match s {
            Stage::MarkingProcessing => (Stage::LoadingDocument, Action::LoadDocument),
            Stage::ReadingImage => (Stage::RunningOcr, Action::RunOcr),
            Stage::RunningOcr => (Stage::StoringMarkdown, Action::StoreMarkdown),
            Stage::StoringMarkdown => (Stage::LoadingVocabulary, Action::LoadVocabulary),
            Stage::LoadingVocabulary => (Stage::Extracting, Action::Extract),
            Stage::Extracting => (Stage::StoringExtraction, Action::StoreExtraction),
            Stage::InferringRelationships { embed_after } => if embed_after {
                (Stage::Embedding, Action::Embed)
            } else {
                (Stage::Complete, Action::Finish)
            },
            _ => (Stage::Complete, Action::Finish),
        },
    }
}

/// Whether a stage ends the run.
pub fn is_finished(s: &Stage) -> (r: bool)
    ensures
        r == is_terminal(*s),
{
    match s {
        Stage::Complete | Stage::Failed => true,
        _ => false,
    }
}

/// Every run ends: each step moves strictly forward, so after at most ten
/// steps the run is complete or failed.
pub proof fn lemma_run_progresses(s: Stage, e: Event)
    requires
        fits(s, e),
    ensures
        rank(transition(s, e).0) > rank(s),
        rank(transition(s, e).0) == 10 <==> is_terminal(transition(s, e).0),
{
}

/// The run finishes exactly with `Finish` or with `RecordError`: it is
/// complete after `Finish` and failed after `RecordError`, whose message is
/// that of the failed step.
pub proof fn lemma_run_ends_recorded(s: Stage, e: Event)
    requires
        fits(s, e),
    ensures
        transition(s, e).0 is Complete <==> transition(s, e).1 is Finish,
        transition(s, e).0 is Failed <==> transition(s, e).1 is RecordError,
        transition(s, e).0 is Failed ==> (e matches Event::StepFailed { message }
            && transition(s, e).1 == ActionView::RecordError(message@)),
{
}

/// Only the embedding may fail without failing the run; a document with OCR
/// markdown never goes through the OCR pass again.
pub proof fn lemma_failures_and_ocr_skip(s: Stage, e: Event)
    requires
        fits(s, e),
    ensures
        (e is StepFailed && !(s is Embedding)) ==> transition(s, e).0 is Failed,
        (e is StepFailed && s is Embedding) ==> transition(s, e).0 is Complete,
        (e matches Event::DocumentLoaded { has_markdown } && has_markdown)
            ==> transition(s, e).1 == ActionView::LoadVocabulary,
{
}


/// The document status the run has written once the action that leads out
/// of a stage is done: nothing before the document is marked, `processing`
/// until the extraction is stored, `complete` from then on, and `error`
/// once a failure is recorded.
pub open spec fn status_at(s: Stage) -> Option<Seq<char>> {
    match s {
        Stage::MarkingProcessing => None,
        Stage::InferringRelationships { .. } => Some("complete"@),
        Stage::Embedding => Some("complete"@),
        Stage::Complete => Some("complete"@),
        Stage::Failed => Some("error"@),
        _ => Some("processing"@),
    }
}

/// The status that the action leading out of a stage writes when it
/// succeeds: marking writes `processing`, storing the extraction `complete`.
pub open spec fn written_by(s: Stage) -> Option<Seq<char>> {
    match s {
        Stage::MarkingProcessing => Some("processing"@),
        Stage::StoringExtraction => Some("complete"@),
        _ => None,
    }
}

/// The status follows the run: a successful step leaves the status its
/// action wrote, or the one before; a failure other than the embedding's ends
/// the run with `RecordError`, which writes `error`; a failed embedding
/// keeps `complete`. So a finished run leaves the document `complete` or
/// `error`, never `pending` or `processing`.
pub proof fn lemma_status_follows_run(s: Stage, e: Event)
    requires
        fits(s, e),
    ensures
        !(e is StepFailed) ==> status_at(transition(s, e).0) == match written_by(s) {
            Some(w) => Some(w),
            None => status_at(s),
        },
        (e is StepFailed && !(s is Embedding)) ==> transition(s, e).0 is Failed
            && transition(s, e).1 is RecordError && status_at(transition(s, e).0) == Some("error"@),
        (e is StepFailed && s is Embedding) ==> status_at(transition(s, e).0) == status_at(s),
        is_terminal(transition(s, e).0) ==> (status_at(transition(s, e).0) == Some("complete"@)
            || status_at(transition(s, e).0) == Some("error"@)),
{
}


/// Whether each event of `es` reports the action of the stage it comes to,
/// starting from `s`.
pub open spec fn fits_run(s: Stage, es: Seq<Event>) -> bool
    decreases es.len(),
{
    es.len() == 0 || (fits(s, es[0]) && fits_run(transition(s, es[0]).0, es.drop_first()))
}

/// The stage a run from `s` is at after the events `es`.
pub open spec fn run_end(s: Stage, es: Seq<Event>) -> Stage
    decreases es.len(),
{
    if es.len() == 0 {
        s
    } else {
        run_end(transition(s, es[0]).0, es.drop_first())
    }
}

/// Each step of a run moves it forward by at least one rank.
pub proof fn lemma_run_rank(s: Stage, es: Seq<Event>)
    requires
        fits_run(s, es),
    ensures
        rank(run_end(s, es)) >= rank(s) + es.len(),
    decreases es.len(),
{
    if es.len() > 0 {
        lemma_run_progresses(s, es[0]);
        lemma_run_rank(transition(s, es[0]).0, es.drop_first());
    }
}

/// A whole processing run: from the start, after at most ten reported
/// actions the run is over, and however the actions went, it leaves the
/// document `complete` or `error`; a run that is not over yet can always go
/// on (its action reports success or failure).
pub proof fn lemma_whole_run(es: Seq<Event>)
    requires
        fits_run(Stage::MarkingProcessing, es),
    ensures
        es.len() <= 10,
        es.len() == 10 ==> is_terminal(run_end(Stage::MarkingProcessing, es)),
        is_terminal(run_end(Stage::MarkingProcessing, es)) ==> (status_at(
            run_end(Stage::MarkingProcessing, es),
        ) == Some("complete"@) || status_at(run_end(Stage::MarkingProcessing, es)) == Some(
            "error"@,
        )),
        forall|m: String|
            !is_terminal(run_end(Stage::MarkingProcessing, es)) ==> #[trigger] fits(
                run_end(Stage::MarkingProcessing, es),
                Event::StepFailed { message: m },
            ),
{
    lemma_run_rank(Stage::MarkingProcessing, es);
    let e = run_end(Stage::MarkingProcessing, es);
    assert(rank(e) <= 10);
    if es.len() == 10 {
        assert(rank(e) == 10);
    }
}

} // verus!
