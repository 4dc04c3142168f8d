//! Evaluation framework: per-function quality metrics, scoring heuristics
//! and validation with self-correction.
//!
//! The compress path scores every compressed observation and records the
//! score under `"compress"`; the summarize path does the same with
//! `"summarize"`.
pub mod quality;
pub mod validator;
pub mod metrics;

use vstd::prelude::*;
use crate::eval::metrics::{clamp_score, opt_view, with_recorded, MetricsStore};
use crate::eval::quality::{compression_score, score_compression, score_summary, summary_score, SummaryQualityInput};
use crate::eval::validator::{
    compression_fixed, compression_issues, fix_summary_n, sized, summary_rounds, summary_view, title_cut_ok,
    validate_and_correct_compression, validate_and_correct_summary, views, ValidationResult, MIN_QUALITY_THRESHOLD,
};
use crate::types::CompressedObservation;

verus! {

/// Record a quality score on a metrics store.
pub fn record_score(store: &mut MetricsStore, function_name: &str, score: u8, note: Option<String>)
    requires
        old(store).wf(),
    ensures
        final(store).wf(),
        final(store).cap() == old(store).cap(),
        final(store).thresholds() == old(store).thresholds(),
        exists|timestamp: Seq<char>|
            final(store).measurements() == #[trigger] with_recorded(
                old(store).measurements(),
                function_name@,
                (clamp_score(score), timestamp, opt_view(note)),
                old(store).cap(),
            ),
{
    store.record(function_name, score, note);
}

/// Evaluate a compressed observation: score it, record the score under
/// `"compress"`, and validate (and correct) it.
pub fn evaluate_compression(store: &mut MetricsStore, obs: &mut CompressedObservation) -> (r: (u8, ValidationResult))
    requires
        old(store).wf(),
        sized(old(obs).title@),
        sized(old(obs).narrative@),
        title_cut_ok(old(obs).title@, 200, 197),
    ensures
        r.0 == compression_score(*old(obs)),
        final(store).wf(),
        exists|timestamp: Seq<char>|
            final(store).measurements() == #[trigger] with_recorded(
                old(store).measurements(),
                "compress"@,
                (r.0, timestamp, None::<Seq<char>>),
                old(store).cap(),
            ),
        r.1.initial_score == r.0,
        r.1.final_score == compression_score(*final(obs)),
        r.1.issues@.len() == 0,
        compression_issues(*old(obs)).len() == 0 ==> *final(obs) == *old(obs) && r.1.valid && r.1.retries == 0,
        compression_issues(*old(obs)).len() > 0 ==> {
            &&& compression_fixed(*old(obs), *final(obs))
            &&& r.1.retries == 1
            &&& r.1.valid == (compression_score(*final(obs)) >= MIN_QUALITY_THRESHOLD)
        },
{
    let score = score_compression(obs);
    store.record("compress", score, None);
    let validation = validate_and_correct_compression(obs);
    (score, validation)
}

/// Evaluate a session summary: score it, record the score under
/// `"summarize"`, and validate (and correct) it.
pub fn evaluate_summary(
    store: &mut MetricsStore,
    title: &mut String,
    narrative: &mut String,
    key_decisions: &mut Vec<String>,
    files_modified: &mut Vec<String>,
    concepts: &mut Vec<String>,
) -> (r: (u8, ValidationResult))
    requires
        old(store).wf(),
        sized(old(title)@),
        sized(old(narrative)@),
        title_cut_ok(old(title)@, 120, 117),
    ensures
        final(store).wf(),
        ({
            let before = summary_view(*old(title), *old(narrative), *old(key_decisions), *old(files_modified), *old(concepts));
            let k = summary_rounds(before);
            let after = fix_summary_n(before, k);
            &&& r.0 == summary_score(before.title, before.narrative, before.decisions.len(), before.files.len(), before.concepts.len())
            &&& exists|timestamp: Seq<char>|
                final(store).measurements() == #[trigger] with_recorded(
                    old(store).measurements(),
                    "summarize"@,
                    (r.0, timestamp, None::<Seq<char>>),
                    old(store).cap(),
                )
            &&& final(title)@ == after.title
            &&& final(narrative)@ == after.narrative
            &&& views(final(concepts)@) == after.concepts
            &&& final(key_decisions)@ == old(key_decisions)@
            &&& final(files_modified)@ == old(files_modified)@
            &&& r.1.retries == k
            &&& r.1.issues@.len() == 0
            &&& r.1.initial_score == r.0
            &&& r.1.final_score == summary_score(after.title, after.narrative, after.decisions.len(), after.files.len(), after.concepts.len())
            &&& r.1.valid == (k == 0 || r.1.final_score >= MIN_QUALITY_THRESHOLD)
        }),
{
    let input = SummaryQualityInput {
        title: title.as_str(),
        narrative: narrative.as_str(),
        key_decisions: key_decisions.as_slice(),
        files_modified: files_modified.as_slice(),
        concepts: concepts.as_slice(),
    };
    let score = score_summary(&input);
    store.record("summarize", score, None);
    let validation = validate_and_correct_summary(title, narrative, key_decisions, files_modified, concepts);
    (score, validation)
}

} // verus!
