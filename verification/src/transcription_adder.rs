//! The enrichment stage's decision: what one lookup outcome does to a record.
//! The bounded-concurrency dispatch around it performs blocking I/O and lives
//! with the pipeline runner; the record change itself is decided here.
use crate::errors::AppError;
use crate::model::{opt_view, RadioRecord, RecordView, SlotView};
use vstd::prelude::*;

verus! {

/// The record after one enrichment outcome: found text is attached to the
/// first slot only when the record still lacks text there; a miss or any
/// failure (hard or suppressed) passes the record through unchanged.
pub open spec fn enriched(r: RecordView, outcome_text: Option<Seq<char>>) -> RecordView {
    match outcome_text {
        Some(t) => {
            if r.slot1.text is None {
                RecordView { slot1: SlotView { text: Some(t), ..r.slot1 }, ..r }
            } else {
                r
            }
        },
        None => r,
    }
}

/// Fold one transcript-lookup outcome into the record.
pub fn apply_transcription(
    rec: RadioRecord,
    outcome: Result<Option<String>, Option<AppError>>,
) -> (r: RadioRecord)
    ensures
        r@ == enriched(
            rec@,
            match outcome {
                Ok(Some(t)) => Some(t@),
                _ => None,
            },
        ),
{
    let mut rec = rec;
    match outcome {
        Ok(Some(text)) => {
            if rec.slot1.text.is_none() {
                rec.slot1.text = Some(text);
            }
            rec
        },
        _ => rec,
    }
}

/// Enrichment never touches a record's identity: whatever the outcome, the
/// consolidation key is the one the record came with.
pub proof fn lemma_enrichment_keeps_identity(r: RecordView, outcome_text: Option<Seq<char>>)
    ensures
        enriched(r, outcome_text).identity() == r.identity(),
{
}

} // verus!
