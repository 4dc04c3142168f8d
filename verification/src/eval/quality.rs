//! Quality scoring heuristics for the evaluation framework, each returning
//! a score from 0 to 100.
use vstd::prelude::*;
use crate::text::{byte_len, chars_of, split_str, split_str_exec, str_len, trim, trim_bounds};
use crate::types::CompressedObservation;

verus! {

broadcast use vstd::string::group_string_axioms;

/// Points awarded to a compressed observation: facts 25 (one is enough;
/// more fill no further), narrative up to 25, title 15, concepts 15,
/// importance in range 10, files listed 10.
pub open spec fn compression_score(obs: CompressedObservation) -> int {
    (if obs.facts@.len() > 0 { 25int } else { 0 })
        + (if byte_len(obs.narrative@) >= 20 { 20int } else { 0 }) + (if byte_len(obs.narrative@)
        >= 50 { 5int } else { 0 }) + (if 5 <= byte_len(obs.title@) <= 120 { 15int } else { 0 })
        + (if obs.concepts@.len() > 0 { 15int } else { 0 }) + (if 1 <= obs.importance <= 10 { 10int } else { 0 })
        + (if obs.files@.len() > 0 { 10int } else { 0 })
}

/// Score the quality of a compressed observation (0-100).
pub fn score_compression(obs: &CompressedObservation) -> (r: u8)
    ensures
        r == compression_score(*obs),
        r <= 100,
{
    let mut score: u8 = 0;
    if obs.facts.len() > 0 {
        score += 25;
    }
    let nlen = str_len(obs.narrative.as_str());
    if nlen >= 20 {
        score += 20;
    }
    if nlen >= 50 {
        score += 5;
    }
    let tlen = str_len(obs.title.as_str());
    if tlen >= 5 && tlen <= 120 {
        score += 15;
    }
    if obs.concepts.len() > 0 {
        score += 15;
    }
    if obs.importance >= 1 && obs.importance <= 10 {
        score += 10;
    }
    if obs.files.len() > 0 {
        score += 10;
    }
    score
}

/// Session summary quality data for scoring.
pub struct SummaryQualityInput<'a> {
    pub title: &'a str,
    pub narrative: &'a str,
    pub key_decisions: &'a [String],
    pub files_modified: &'a [String],
    pub concepts: &'a [String],
}

/// Number of pieces that hold something besides white space.
pub open spec fn count_nonblank(ps: Seq<Seq<char>>) -> nat
    decreases ps.len(),
{
    if ps.len() == 0 {
        0
    } else {
        count_nonblank(ps.drop_last()) + if trim(ps.last()).len() > 0 { 1nat } else { 0nat }
    }
}

/// Paragraphs of a narrative: pieces between blank-line separators that
/// hold something besides white space.
pub open spec fn paragraph_count(narrative: Seq<char>) -> nat {
    count_nonblank(split_str(narrative, "\n\n"@))
}

/// Points awarded to a session summary (before the cap at 100).
pub open spec fn summary_score_points(
    title: Seq<char>,
    narrative: Seq<char>,
    decisions: nat,
    files: nat,
    concepts: nat,
) -> int {
    (if title.len() > 0 && 5 <= byte_len(title) <= 80 {
        20int
    } else if title.len() > 0 {
        10int
    } else {
        0
    }) + (if byte_len(narrative) >= 50 { 20int } else { 0 })
        + (if paragraph_count(narrative) >= 2 { 10int } else { 0 }) + (if decisions >= 1 { 10int } else { 0 }) + (
    if decisions >= 2 { 5int } else { 0 }) + (if decisions >= 3 { 5int } else { 0 }) + (if files > 0 { 15int } else { 0 })
        + (if concepts > 0 { 10int } else { 0 }) + (if concepts >= 3 { 5int } else { 0 })
}

pub open spec fn summary_score(
    title: Seq<char>,
    narrative: Seq<char>,
    decisions: nat,
    files: nat,
    concepts: nat,
) -> int {
    let p = summary_score_points(title, narrative, decisions, files, concepts);
    if p < 100 { p } else { 100 }
}

/// Counts the paragraphs of a narrative.
pub fn count_paragraphs(narrative: &str) -> (n: usize)
    ensures
        n == paragraph_count(narrative@),
{
    let v = chars_of(narrative);
    let sep = chars_of("\n\n");
    proof {
        reveal_strlit("\n\n");
    }
    let pieces = split_str_exec(v.as_slice(), sep.as_slice());
    let ghost ps = split_str(narrative@, "\n\n"@);
    let mut n: usize = 0;
    let mut i: usize = 0;
    while i < pieces.len()
        invariant
            pieces@.len() == ps.len(),
            forall|k: int| 0 <= k < pieces@.len() ==> #[trigger] pieces@[k]@ == ps[k],
            i <= pieces@.len(),
            n == count_nonblank(ps.take(i as int)),
            n <= i,
        decreases pieces.len() - i,
    {
        let (lo, hi) = trim_bounds(pieces[i].as_slice());
        proof {
            assert(ps.take(i + 1).drop_last() =~= ps.take(i as int));
            assert(ps.take(i + 1).last() == pieces@[i as int]@);
        }
        if lo < hi {
            n += 1;
        }
        i += 1;
    }
    proof {
        assert(ps.take(ps.len() as int) =~= ps);
    }
    n
}

/// Score the quality of a session summary (0-100): title (0-20: 20 for
/// 5-80 bytes), narrative depth (0-30: 20 for 50+ bytes, 10 for at least
/// two paragraphs), decisions (0-20), files (0-15), concepts (0-15).
pub fn score_summary(input: &SummaryQualityInput) -> (r: u8)
    ensures
        r == summary_score(
            input.title@,
            input.narrative@,
            input.key_decisions@.len(),
            input.files_modified@.len(),
            input.concepts@.len(),
        ),
{
    let mut score: u8 = 0;
    let tlen = str_len(input.title);
    if !input.title.is_empty() && tlen >= 5 && tlen <= 80 {
        score += 20;
    } else if !input.title.is_empty() {
        score += 10;
    }
    let nlen = str_len(input.narrative);
    if nlen >= 50 {
        score += 20;
    }
    if count_paragraphs(input.narrative) >= 2 {
        score += 10;
    }
    let decision_count = input.key_decisions.len();
    if decision_count >= 1 {
        score += 10;
    }
    if decision_count >= 2 {
        score += 5;
    }
    if decision_count >= 3 {
        score += 5;
    }
    if input.files_modified.len() > 0 {
        score += 15;
    }
    if input.concepts.len() > 0 {
        score += 10;
    }
    if input.concepts.len() >= 3 {
        score += 5;
    }
    if score < 100 { score } else { 100 }
}

} // verus!
