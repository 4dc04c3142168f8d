//! Quality scoring for compression, summaries, and context relevance.
//! Each score is an integer from 0 to 100.
use vstd::prelude::*;
use vstd::string::StringSliceAdditionalSpecFns;
use vstd::utf8::encode_utf8;
use crate::text::{byte_len, contains_sub, lowercase, str_contains, str_contains_char, str_len, to_lowercase};

verus! {

broadcast use vstd::string::group_string_axioms;

/// Input to [`score_compression`].
pub struct CompressionObservation {
    /// Observation title.  Length 5–120 contributes +15.
    pub title: Option<String>,
    /// Factual atoms.  >0 contributes +25, >=3 adds +10.
    pub facts: Option<Vec<String>>,
    /// Optional narrative text.  Length >=20 contributes +20, >=50 adds +5.
    pub narrative: Option<String>,
    /// Concept tags.  >0 contributes +15.
    pub concepts: Option<Vec<String>>,
    /// Importance on a 1–10 scale.  Contributes +10.
    pub importance: Option<u32>,
}

/// Input to [`score_summary`].
pub struct SummaryObservation {
    /// Summary title.  Length >=5 contributes +20.
    pub title: Option<String>,
    /// Optional narrative text.  Length >=20 contributes +25, >=100 adds +5.
    pub narrative: Option<String>,
    /// Key decisions.  >0 contributes +20.
    pub key_decisions: Option<Vec<String>>,
    /// Files touched.  >0 contributes +15.
    pub files_modified: Option<Vec<String>>,
    /// Concept tags.  >0 contributes +15.
    pub concepts: Option<Vec<String>>,
}

/// Byte length of an optional text, read as a `u32` the way the scorer
/// reads it.
pub open spec fn len_u32(s: Seq<char>) -> u32 {
    byte_len(s) as u32
}

pub open spec fn compression_points(obs: CompressionObservation) -> int {
    (match obs.facts {
        Some(f) => (if f@.len() > 0 { 25int } else { 0 }) + (if f@.len() >= 3 { 10int } else { 0 }),
        None => 0,
    }) + (match obs.narrative {
        Some(n) => (if len_u32(n@) >= 20 { 20int } else { 0 }) + (if len_u32(n@) >= 50 { 5int } else { 0 }),
        None => 0,
    }) + (match obs.title {
        Some(t) => if 5 <= byte_len(t@) <= 120 { 15int } else { 0 },
        None => 0,
    }) + (match obs.concepts {
        Some(c) => if c@.len() > 0 { 15int } else { 0 },
        None => 0,
    }) + (match obs.importance {
        Some(i) => if 1 <= i <= 10 { 10int } else { 0 },
        None => 0,
    })
}

pub open spec fn cap100(x: int) -> int {
    if x < 100 { x } else { 100 }
}

/// Score a compression observation.  0–100.
pub fn score_compression(obs: &CompressionObservation) -> (r: u32)
    ensures
        r == cap100(compression_points(*obs)),
{
    let mut score = 0u32;
    if let Some(facts) = &obs.facts {
        if facts.len() > 0 {
            score += 25;
        }
        if facts.len() >= 3 {
            score += 10;
        }
    }
    if let Some(narrative) = &obs.narrative {
        let len = str_len(narrative.as_str()) as u32;
        if len >= 20 {
            score += 20;
        }
        if len >= 50 {
            score += 5;
        }
    }
    if let Some(title) = &obs.title {
        let len = str_len(title.as_str());
        if len >= 5 && len <= 120 {
            score += 15;
        }
    }
    if let Some(concepts) = &obs.concepts {
        if concepts.len() > 0 {
            score += 15;
        }
    }
    if let Some(imp) = obs.importance {
        if imp >= 1 && imp <= 10 {
            score += 10;
        }
    }
    if score < 100 { score } else { 100 }
}

pub open spec fn summary_points(s: SummaryObservation) -> int {
    (match s.title {
        Some(t) => if byte_len(t@) >= 5 { 20int } else { 0 },
        None => 0,
    }) + (match s.narrative {
        Some(n) => (if len_u32(n@) >= 20 { 25int } else { 0 }) + (if len_u32(n@) >= 100 { 5int } else { 0 }),
        None => 0,
    }) + (match s.key_decisions {
        Some(k) => if k@.len() > 0 { 20int } else { 0 },
        None => 0,
    }) + (match s.files_modified {
        Some(f) => if f@.len() > 0 { 15int } else { 0 },
        None => 0,
    }) + (match s.concepts {
        Some(c) => if c@.len() > 0 { 15int } else { 0 },
        None => 0,
    })
}

/// Score a summary observation.  0–100.
pub fn score_summary(summary: &SummaryObservation) -> (r: u32)
    ensures
        r == cap100(summary_points(*summary)),
{
    let mut score = 0u32;
    if let Some(title) = &summary.title {
        if str_len(title.as_str()) >= 5 {
            score += 20;
        }
    }
    if let Some(narrative) = &summary.narrative {
        let len = str_len(narrative.as_str()) as u32;
        if len >= 20 {
            score += 25;
        }
        if len >= 100 {
            score += 5;
        }
    }
    if let Some(kd) = &summary.key_decisions {
        if kd.len() > 0 {
            score += 20;
        }
    }
    if let Some(fm) = &summary.files_modified {
        if fm.len() > 0 {
            score += 15;
        }
    }
    if let Some(concepts) = &summary.concepts {
        if concepts.len() > 0 {
            score += 15;
        }
    }
    if score < 100 { score } else { 100 }
}

// ---------------------------------------------------------------------------
// Section tags
// ---------------------------------------------------------------------------

pub open spec fn is_word_byte(b: u8) -> bool {
    (0x30 <= b <= 0x39) || (0x41 <= b <= 0x5a) || (0x61 <= b <= 0x7a) || b == 0x5f
}

/// First position at or after `j` holding `'>'`, or the end of `b`.
pub open spec fn close_pos(b: Seq<u8>, j: int) -> int
    decreases b.len() - j,
{
    if j >= b.len() {
        b.len() as int
    } else if b[j] == 0x3e {
        j
    } else {
        close_pos(b, j + 1)
    }
}

pub open spec fn has_word_byte(b: Seq<u8>, lo: int, hi: int) -> bool {
    exists|k: int| lo <= k < hi && is_word_byte(#[trigger] b[k])
}

/// Number of opening section tags `<name>` in `b` from position `i` on: a
/// `'<'` not followed by `'/'` opens a candidate that ends at the next `'>'`;
/// it counts when a `'>'` closes it and it holds an ASCII letter, digit or
/// `'_'`.  Scanning resumes after the closing position.
pub open spec fn tags_from(b: Seq<u8>, i: int) -> nat
    decreases b.len() - i,
{
    if i < 0 || i >= b.len() {
        0
    } else if b[i] == 0x3c && i + 1 < b.len() && b[i + 1] != 0x2f {
        let j = close_pos(b, i + 1);
        proof {
            lemma_close_pos_bounds(b, i + 1);
        }
        (if has_word_byte(b, i + 1, j) && j < b.len() {
            1nat
        } else {
            0nat
        }) + if j + 1 <= b.len() {
            tags_from(b, j + 1)
        } else {
            0
        }
    } else {
        tags_from(b, i + 1)
    }
}

pub proof fn lemma_close_pos_bounds(b: Seq<u8>, j: int)
    requires
        0 <= j,
    ensures
        j <= close_pos(b, j) <= b.len() || (j > b.len() && close_pos(b, j) == b.len()),
        close_pos(b, j) < b.len() ==> b[close_pos(b, j)] == 0x3e,
        forall|k: int| j <= k < close_pos(b, j) ==> b[k] != 0x3e,
    decreases b.len() - j,
{
    if j < b.len() && b[j] != 0x3e {
        lemma_close_pos_bounds(b, j + 1);
    }
}

/// Count XML-style opening section tags (e.g. `<file>`, `<symbol>`).
pub fn section_tag_count(text: &str) -> (r: usize)
    ensures
        r == tags_from(encode_utf8(text@), 0),
{
    let bytes = text.as_bytes();
    let ghost b = encode_utf8(text@);
    assert(bytes@ == b);
    let len = bytes.len();
    let mut count: usize = 0;
    let mut i: usize = 0;
    while i < len
        invariant
            bytes@ == b,
            len == b.len(),
            i <= len,
            count + tags_from(b, i as int) == tags_from(b, 0),
            count <= i,
        decreases len - i,
    {
        if bytes[i] == 0x3c && i + 1 < len && bytes[i + 1] != 0x2f {
            let mut j = i + 1;
            let mut has_word = false;
            proof {
                lemma_close_pos_bounds(b, j as int);
            }
            while j < len && bytes[j] != 0x3e
                invariant
                    bytes@ == b,
                    len == b.len(),
                    i + 1 <= j <= len,
                    i + 1 < len,
                    close_pos(b, i + 1) == close_pos(b, j as int),
                    has_word == has_word_byte(b, i + 1, j as int),
                decreases len - j,
            {
                let c = bytes[j];
                if (0x30 <= c && c <= 0x39) || (0x41 <= c && c <= 0x5a) || (0x61 <= c && c <= 0x7a)
                    || c == 0x5f {
                    has_word = true;
                }
                proof {
                    if has_word_byte(b, i + 1, j + 1) && !has_word_byte(b, i + 1, j as int) {
                        assert(is_word_byte(b[j as int]));
                    }
                    if has_word_byte(b, i + 1, j as int) {
                        let k = choose|k: int| i + 1 <= k < j && is_word_byte(#[trigger] b[k]);
                        assert(i + 1 <= k < j + 1 && is_word_byte(b[k]));
                    }
                    if is_word_byte(c) {
                        assert(i + 1 <= j < j + 1 && is_word_byte(b[j as int]));
                    }
                }
                j += 1;
            }
            proof {
                assert(close_pos(b, j as int) == j);
            }
            if has_word && j < len && bytes[j] == 0x3e {
                count += 1;
            }
            if j < len {
                i = j + 1;
            } else {
                i = len;
            }
        } else {
            i += 1;
        }
    }
    count
}

// ---------------------------------------------------------------------------
// Context relevance
// ---------------------------------------------------------------------------

pub open spec fn context_points(context: Seq<char>, project: Seq<char>) -> int {
    let ctx_len = len_u32(context);
    let sections = tags_from(encode_utf8(context), 0);
    (if ctx_len > 0 { 20int } else { 0 }) + (if project.len() > 0 && contains_sub(
        lowercase(context),
        lowercase(project),
    ) {
        20int
    } else {
        0
    }) + (if context.contains('<') { 15int } else { 0 }) + (if sections >= 2 { 15int } else { 0 })
        + (if sections >= 4 { 10int } else { 0 }) + (if ctx_len >= 100 { 10int } else { 0 }) + (if ctx_len >= 500 { 10int } else { 0 })
}

/// Score context relevance against a project name.  0–100.
pub fn score_context_relevance(context: &str, project: &str) -> (r: u32)
    ensures
        r == cap100(context_points(context@, project@)),
{
    let mut score = 0u32;
    let ctx_len = str_len(context) as u32;
    if ctx_len > 0 {
        score += 20;
    }
    if !project.is_empty() {
        let lc = to_lowercase(context);
        let lp = to_lowercase(project);
        if str_contains(lc.as_str(), lp.as_str()) {
            score += 20;
        }
    }
    if str_contains_char(context, '<') {
        score += 15;
    }
    let section_count = section_tag_count(context);
    if section_count >= 2 {
        score += 15;
    }
    if section_count >= 4 {
        score += 10;
    }
    if ctx_len >= 100 {
        score += 10;
    }
    if ctx_len >= 500 {
        score += 10;
    }
    if score < 100 { score } else { 100 }
}

/// Every score lies between 0 and 100.
pub proof fn lemma_scores_bounded(obs: CompressionObservation, s: SummaryObservation, c: Seq<char>, p: Seq<char>)
    ensures
        0 <= cap100(compression_points(obs)) <= 100,
        0 <= cap100(summary_points(s)) <= 100,
        0 <= cap100(context_points(c, p)) <= 100,
{
}

} // verus!
