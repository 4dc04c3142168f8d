//! Validation and self-correction for compressed observations and session
//! summaries: issues are listed, heuristic fixes applied, and validation
//! retried a bounded number of times.
use vstd::prelude::*;
use vstd::string::StringExecFns;
use crate::eval::quality::{compression_score, score_compression, score_summary, summary_score, SummaryQualityInput};
use crate::text::{ascii_lower, byte_len, char_width, chars_of, decimal, decimal_string, is_ascii_seq, lemma_utf8_len_concat, lemma_utf8_len_ge_len, lowercase, owned, prefix_within_exec, push_str, safe_truncate_spec, lemma_prefix_within_bounds, str_len, string_from_chars, take_chars, to_lowercase, utf8_len, copy_string};
use crate::types::{type_debug_name, CompressedObservation, ObservationType};

verus! {

broadcast use vstd::string::group_string_axioms;

/// Maximum number of self-correction retries.
pub const MAX_RETRIES: usize = 2;

/// Minimum acceptable quality score (0-100).
pub const MIN_QUALITY_THRESHOLD: u8 = 30;

/// Result of a validation pass.
pub struct ValidationResult {
    /// Whether the input passed validation.
    pub valid: bool,
    /// Quality score before any correction (0-100).
    pub initial_score: u8,
    /// Quality score after correction, if applied (0-100).
    pub final_score: u8,
    /// Number of self-correction retries performed.
    pub retries: usize,
    /// Issues found during validation.
    pub issues: Vec<String>,
}

impl ValidationResult {
    pub fn passed(score: u8) -> (r: Self)
        ensures
            r.valid,
            r.initial_score == score,
            r.final_score == score,
            r.retries == 0,
            r.issues@.len() == 0,
    {
        ValidationResult { valid: true, initial_score: score, final_score: score, retries: 0, issues: Vec::new() }
    }

    pub fn failed(initial_score: u8, final_score: u8, retries: usize, issues: Vec<String>) -> (r: Self)
        ensures
            !r.valid,
            r.initial_score == initial_score,
            r.final_score == final_score,
            r.retries == retries,
            r.issues@ == issues@,
    {
        ValidationResult { valid: false, initial_score, final_score, retries, issues }
    }
}

/// The characters of each string.
pub open spec fn views(v: Seq<String>) -> Seq<Seq<char>> {
    v.map_values(|s: String| s@)
}

// ---------------------------------------------------------------------------
// Compressed observations
// ---------------------------------------------------------------------------

/// Issues found in a compressed observation, in the order they are checked.
pub open spec fn compression_issues(obs: CompressedObservation) -> Seq<Seq<char>> {
    let t = obs.title@;
    let n = obs.narrative@;
    let title_issue: Seq<Seq<char>> = if t.len() == 0 {
        seq!["Title is empty"@]
    } else if byte_len(t) > 200 {
        seq!["Title too long: "@ + decimal(byte_len(t) as nat) + " chars (max 200)"@]
    } else {
        Seq::empty()
    };
    let narrative_issue: Seq<Seq<char>> = if n.len() == 0 {
        seq!["Narrative is empty"@]
    } else if byte_len(n) < 10 {
        seq!["Narrative too short: "@ + decimal(byte_len(n) as nat) + " chars (min 10)"@]
    } else {
        Seq::empty()
    };
    let importance_issue: Seq<Seq<char>> = if obs.importance == 0 || obs.importance > 10 {
        seq!["Importance out of range: "@ + decimal(obs.importance as nat) + " (expected 1-10)"@]
    } else {
        Seq::empty()
    };
    let content_issue: Seq<Seq<char>> = if obs.facts@.len() == 0 && obs.concepts@.len() == 0 {
        seq!["No facts or concepts extracted"@]
    } else {
        Seq::empty()
    };
    title_issue + narrative_issue + importance_issue + content_issue
}

fn push_message(v: &mut Vec<String>, m: String)
    ensures
        final(v)@.len() == old(v)@.len() + 1,
        views(final(v)@) == views(old(v)@).push(m@),
{
    v.push(m);
    proof {
        assert(views(v@) =~= views(old(v)@).push(m@));
    }
}

fn numbered_message(before: &str, n: u64, after: &str) -> (r: String)
    ensures
        r@ == before@ + decimal(n as nat) + after@,
{
    let mut m = owned(before);
    let d = decimal_string(n);
    push_str(&mut m, d.as_str());
    push_str(&mut m, after);
    m
}

/// Validate a compressed observation and return the list of issues.
pub fn validate_compression(obs: &CompressedObservation) -> (r: Vec<String>)
    ensures
        views(r@) == compression_issues(*obs),
{
    let mut issues: Vec<String> = Vec::new();
    let tlen = str_len(obs.title.as_str());
    if obs.title.as_str().is_empty() {
        push_message(&mut issues, owned("Title is empty"));
    } else if tlen > 200 {
        push_message(&mut issues, numbered_message("Title too long: ", tlen as u64, " chars (max 200)"));
    }
    let nlen = str_len(obs.narrative.as_str());
    if obs.narrative.as_str().is_empty() {
        push_message(&mut issues, owned("Narrative is empty"));
    } else if nlen < 10 {
        push_message(&mut issues, numbered_message("Narrative too short: ", nlen as u64, " chars (min 10)"));
    }
    if obs.importance == 0 || obs.importance > 10 {
        push_message(
            &mut issues,
            numbered_message("Importance out of range: ", obs.importance as u64, " (expected 1-10)"),
        );
    }
    if obs.facts.len() == 0 && obs.concepts.len() == 0 {
        push_message(&mut issues, owned("No facts or concepts extracted"));
    }
    proof {
        assert(views(issues@) =~= compression_issues(*obs));
    }
    issues
}

/// `s` with every `'_'` replaced by a space.
pub open spec fn underscores_to_spaces(s: Seq<char>) -> Seq<char> {
    s.map_values(|c: char| if c == '_' { ' ' } else { c })
}

/// The title an observation of type `ty` gets when it has none.
pub open spec fn default_title(ty: ObservationType) -> Seq<char> {
    underscores_to_spaces(lower_debug_name(ty))
}

/// The type's variant name in lower case.
pub open spec fn lower_debug_name(ty: ObservationType) -> Seq<char> {
    type_debug_name(ty).map_values(|c: char| ascii_lower(c))
}

/// Title after the compression fixes: an over-long title is cut to 197
/// bytes and marked with `"..."`; an empty one is named after the type.
pub open spec fn fixed_title(t: Seq<char>, ty: ObservationType) -> Seq<char> {
    let t1 = if byte_len(t) > 200 {
        safe_truncate_spec(t, 197) + "..."@
    } else {
        t
    };
    if t1.len() == 0 {
        default_title(ty)
    } else {
        t1
    }
}

/// Narrative after the compression fixes.
pub open spec fn fixed_narrative(n: Seq<char>, ty: ObservationType) -> Seq<char> {
    if n.len() == 0 {
        type_debug_name(ty) + " operation performed"@
    } else if byte_len(n) < 10 {
        n + " (minimal observation)"@
    } else {
        n
    }
}

/// Importance after the compression fixes.
pub open spec fn fixed_importance(i: u8) -> u8 {
    if i == 0 {
        5
    } else if i > 10 {
        10
    } else {
        i
    }
}

/// `new` is `old` with the compression fixes applied.
pub open spec fn compression_fixed(old: CompressedObservation, new: CompressedObservation) -> bool {
    &&& new.title@ == fixed_title(old.title@, old.observation_type)
    &&& new.narrative@ == fixed_narrative(old.narrative@, old.observation_type)
    &&& new.importance == fixed_importance(old.importance)
    &&& if old.facts@.len() == 0 && old.concepts@.len() == 0 {
        views(new.concepts@) == seq![lower_debug_name(old.observation_type)]
    } else {
        new.concepts@ == old.concepts@
    }
    &&& new.facts@ == old.facts@
    &&& new.id == old.id
    &&& new.session_id == old.session_id
    &&& new.timestamp == old.timestamp
    &&& new.observation_type == old.observation_type
    &&& new.subtitle == old.subtitle
    &&& new.files == old.files
    &&& new.confidence_hundredths == old.confidence_hundredths
    &&& new.image_ref == old.image_ref
    &&& new.image_description == old.image_description
    &&& new.modality == old.modality
    &&& new.agent_id == old.agent_id
}

/// A title longer than 200 bytes has a character boundary at byte 197,
/// where it is cut.
pub open spec fn title_cut_ok(t: Seq<char>, limit: nat, cut: nat) -> bool {
    byte_len(t) > limit ==> utf8_len(safe_truncate_spec(t, cut)) == cut
}

fn replace_underscores(s: &String) -> (r: String)
    ensures
        r@ == underscores_to_spaces(s@),
{
    let v = chars_of(s.as_str());
    let mut out: Vec<char> = Vec::new();
    let mut i: usize = 0;
    while i < v.len()
        invariant
            v@ == s@,
            i <= v.len(),
            out@ == underscores_to_spaces(v@.take(i as int)),
        decreases v.len() - i,
    {
        out.push(if v[i] == '_' { ' ' } else { v[i] });
        proof {
            assert(underscores_to_spaces(v@.take(i + 1)) =~= underscores_to_spaces(v@.take(i as int)).push(
                if v@[i as int] == '_' { ' ' } else { v@[i as int] },
            ));
        }
        i += 1;
    }
    proof {
        assert(v@.take(v@.len() as int) =~= v@);
    }
    string_from_chars(out.as_slice())
}

/// `s` cut to its first `cut` bytes, followed by `"..."`.
fn cut_with_ellipsis(s: &String, cut: usize) -> (r: String)
    ensures
        r@ == safe_truncate_spec(s@, cut as nat) + "..."@,
{
    let v = chars_of(s.as_str());
    let k = prefix_within_exec(v.as_slice(), cut);
    proof {
        lemma_prefix_within_bounds(s@, cut as nat);
    }
    let t = take_chars(v.as_slice(), k);
    let mut r = string_from_chars(t.as_slice());
    push_str(&mut r, "...");
    r
}

/// Apply the heuristic fixes to a compressed observation.
pub fn apply_compression_fixes(obs: &mut CompressedObservation)
    requires
        title_cut_ok(old(obs).title@, 200, 197),
    ensures
        compression_fixed(*old(obs), *final(obs)),
{
    if str_len(obs.title.as_str()) > 200 {
        obs.title = cut_with_ellipsis(&obs.title, 197);
    }
    if obs.title.as_str().is_empty() {
        let name = obs.observation_type.debug_name();
        proof {
            lemma_debug_name_ascii(obs.observation_type);
        }
        let lower = to_lowercase(name.as_str());
        obs.title = replace_underscores(&lower);
    }
    if obs.narrative.as_str().is_empty() {
        let mut n = obs.observation_type.debug_name();
        push_str(&mut n, " operation performed");
        obs.narrative = n;
    } else if str_len(obs.narrative.as_str()) < 10 {
        let mut n = copy_string(&obs.narrative);
        push_str(&mut n, " (minimal observation)");
        obs.narrative = n;
    }
    if obs.importance == 0 {
        obs.importance = 5;
    } else if obs.importance > 10 {
        obs.importance = 10;
    }
    if obs.facts.len() == 0 && obs.concepts.len() == 0 {
        let name = obs.observation_type.debug_name();
        proof {
            lemma_debug_name_ascii(obs.observation_type);
        }
        let c = to_lowercase(name.as_str());
        obs.concepts.push(c);
        proof {
            assert(views(obs.concepts@) =~= seq![lower_debug_name(obs.observation_type)]);
        }
    }
}

// ---------------------------------------------------------------------------
// Why one round of fixes always suffices
// ---------------------------------------------------------------------------

pub proof fn lemma_ascii_utf8_len(s: Seq<char>)
    requires
        is_ascii_seq(s),
    ensures
        utf8_len(s) == s.len(),
    decreases s.len(),
{
    if s.len() > 0 {
        assert(is_ascii_seq(s.drop_first()));
        lemma_ascii_utf8_len(s.drop_first());
    }
}

pub proof fn lemma_debug_name_ascii(ty: ObservationType)
    ensures
        is_ascii_seq(type_debug_name(ty)),
        4 <= type_debug_name(ty).len() <= 12,
{
    reveal_strlit("FileRead");
    reveal_strlit("FileWrite");
    reveal_strlit("FileEdit");
    reveal_strlit("CommandRun");
    reveal_strlit("Search");
    reveal_strlit("WebFetch");
    reveal_strlit("Conversation");
    reveal_strlit("Error");
    reveal_strlit("Decision");
    reveal_strlit("Discovery");
    reveal_strlit("Subagent");
    reveal_strlit("Notification");
    reveal_strlit("Task");
    reveal_strlit("Other");
}

pub proof fn lemma_default_title_len(ty: ObservationType)
    ensures
        4 <= default_title(ty).len() <= 12,
        utf8_len(default_title(ty)) == default_title(ty).len(),
{
    lemma_debug_name_ascii(ty);
    let d = type_debug_name(ty);
    let l = lower_debug_name(ty);
    let u = underscores_to_spaces(l);
    assert forall|i: int| 0 <= i < u.len() implies (#[trigger] u[i] as u32) < 0x80 by {
        assert((d[i] as u32) < 0x80);
        assert(l[i] == ascii_lower(d[i]));
    }
    lemma_ascii_utf8_len(u);
}

/// Strings of reasonable size: their byte lengths, with room for the text
/// the fixes append, fit in a `usize`.
pub open spec fn sized(s: Seq<char>) -> bool {
    utf8_len(s) + 64 <= usize::MAX
}

/// After one round of fixes an observation has no issues left.
pub proof fn lemma_compression_fixes_clear_issues(old: CompressedObservation, new: CompressedObservation)
    requires
        sized(old.title@),
        sized(old.narrative@),
        title_cut_ok(old.title@, 200, 197),
        compression_fixed(old, new),
    ensures
        compression_issues(new).len() == 0,
{
    let t = old.title@;
    let ty = old.observation_type;
    reveal_strlit("...");
    reveal_strlit(" operation performed");
    reveal_strlit(" (minimal observation)");
    lemma_ascii_utf8_len("..."@);
    lemma_ascii_utf8_len(" operation performed"@);
    lemma_ascii_utf8_len(" (minimal observation)"@);
    if byte_len(t) > 200 {
        let p = safe_truncate_spec(t, 197);
        lemma_utf8_len_concat(p, "..."@);
        assert(utf8_len(new.title@) == 200);
        assert(new.title@.len() > 0);
    } else if t.len() == 0 {
        lemma_default_title_len(ty);
    }
    let n = old.narrative@;
    if n.len() == 0 {
        lemma_debug_name_ascii(ty);
        lemma_ascii_utf8_len(type_debug_name(ty));
        lemma_utf8_len_concat(type_debug_name(ty), " operation performed"@);
        assert(utf8_len(new.narrative@) >= 20);
        assert(utf8_len(new.narrative@) <= 40);
    } else if byte_len(n) < 10 {
        lemma_utf8_len_concat(n, " (minimal observation)"@);
        assert(utf8_len(new.narrative@) >= 22);
        assert(utf8_len(new.narrative@) <= usize::MAX);
    }
}

/// Validate a compressed observation and attempt self-correction.
///
/// Checks the title, narrative, importance and content; when an issue is
/// found the fixes are applied and validation repeated, at most
/// `MAX_RETRIES` times.  One round of fixes always clears every issue.
pub fn validate_and_correct_compression(obs: &mut CompressedObservation) -> (r: ValidationResult)
    requires
        sized(old(obs).title@),
        sized(old(obs).narrative@),
        title_cut_ok(old(obs).title@, 200, 197),
    ensures
        r.initial_score == compression_score(*old(obs)),
        r.final_score == compression_score(*final(obs)),
        r.issues@.len() == 0,
        compression_issues(*old(obs)).len() == 0 ==> {
            &&& *final(obs) == *old(obs)
            &&& r.retries == 0
            &&& r.valid
        },
        compression_issues(*old(obs)).len() > 0 ==> {
            &&& compression_fixed(*old(obs), *final(obs))
            &&& r.retries == 1
            &&& r.valid == (compression_score(*final(obs)) >= MIN_QUALITY_THRESHOLD)
        },
{
    let score_before = score_compression(obs);
    let mut issues = validate_compression(obs);
    if issues.len() == 0 {
        return ValidationResult::passed(score_before);
    }
    let ghost original = *obs;
    proof {
        assert(compression_issues(original).len() > 0);
    }
    let mut retries: usize = 0;
    let mut round: usize = 0;
    while round < MAX_RETRIES
        invariant_except_break
            round == 0,
            retries == 0,
            *obs == original,
            issues@.len() > 0,
        invariant
            sized(original.title@),
            sized(original.narrative@),
            title_cut_ok(original.title@, 200, 197),
        ensures
            retries == 1,
            compression_fixed(original, *obs),
            issues@.len() == 0,
        decreases MAX_RETRIES - round,
    {
        retries += 1;
        apply_compression_fixes(obs);
        proof {
            lemma_compression_fixes_clear_issues(original, *obs);
        }
        issues = validate_compression(obs);
        round += 1;
        if issues.len() == 0 {
            break;
        }
    }
    let score_after = score_compression(obs);
    if score_after >= MIN_QUALITY_THRESHOLD {
        ValidationResult { valid: true, initial_score: score_before, final_score: score_after, retries, issues }
    } else {
        ValidationResult::failed(score_before, score_after, retries, issues)
    }
}


// ---------------------------------------------------------------------------
// Session summaries
// ---------------------------------------------------------------------------

/// The parts of a session summary that validation reads and fixes.
pub struct SummaryView {
    pub title: Seq<char>,
    pub narrative: Seq<char>,
    pub decisions: Seq<Seq<char>>,
    pub files: Seq<Seq<char>>,
    pub concepts: Seq<Seq<char>>,
}

/// Issues found in a session summary, in the order they are checked.
pub open spec fn summary_issues(st: SummaryView) -> Seq<Seq<char>> {
    let t = st.title;
    let n = st.narrative;
    let title_issue: Seq<Seq<char>> = if t.len() == 0 {
        seq!["Summary title is empty"@]
    } else if byte_len(t) > 120 {
        seq!["Summary title too long: "@ + decimal(byte_len(t) as nat) + " chars (max 120)"@]
    } else {
        Seq::empty()
    };
    let narrative_issue: Seq<Seq<char>> = if n.len() == 0 {
        seq!["Summary narrative is empty"@]
    } else if byte_len(n) < 20 {
        seq!["Summary narrative too short: "@ + decimal(byte_len(n) as nat) + " chars (min 20)"@]
    } else {
        Seq::empty()
    };
    let content_issue: Seq<Seq<char>> = if st.decisions.len() == 0 && st.concepts.len() == 0 {
        seq!["No decisions or concepts in summary"@]
    } else {
        Seq::empty()
    };
    title_issue + narrative_issue + content_issue
}

/// A session summary after one round of fixes.
pub open spec fn fix_summary(st: SummaryView) -> SummaryView {
    let t1 = if byte_len(st.title) > 120 {
        safe_truncate_spec(st.title, 117) + "..."@
    } else {
        st.title
    };
    let title = if t1.len() == 0 {
        "Session Summary"@
    } else {
        t1
    };
    let narrative = if st.narrative.len() == 0 {
        "Session completed with operations performed."@
    } else if byte_len(st.narrative) < 20 {
        st.narrative + " (minimal summary)"@
    } else {
        st.narrative
    };
    let concepts = if st.decisions.len() == 0 && st.concepts.len() == 0 {
        st.concepts.push("session"@)
    } else {
        st.concepts
    };
    SummaryView { title, narrative, decisions: st.decisions, files: st.files, concepts }
}

/// How many rounds of fixes validation runs: none when the summary is
/// already clean, otherwise until it is clean, at most two.
pub open spec fn summary_rounds(st: SummaryView) -> nat {
    if summary_issues(st).len() == 0 {
        0
    } else if summary_issues(fix_summary(st)).len() == 0 {
        1
    } else {
        2
    }
}

pub open spec fn fix_summary_n(st: SummaryView, k: nat) -> SummaryView
    decreases k,
{
    if k == 0 {
        st
    } else {
        fix_summary(fix_summary_n(st, (k - 1) as nat))
    }
}

pub open spec fn summary_view(
    title: String,
    narrative: String,
    decisions: Vec<String>,
    files: Vec<String>,
    concepts: Vec<String>,
) -> SummaryView {
    SummaryView {
        title: title@,
        narrative: narrative@,
        decisions: views(decisions@),
        files: views(files@),
        concepts: views(concepts@),
    }
}

/// Validate a session summary and return the list of issues.
pub fn validate_summary(title: &str, narrative: &str, key_decisions: &[String], concepts: &[String]) -> (r: Vec<String>)
    ensures
        views(r@) == summary_issues(
            SummaryView {
                title: title@,
                narrative: narrative@,
                decisions: views(key_decisions@),
                files: Seq::empty(),
                concepts: views(concepts@),
            },
        ),
{
    let mut issues: Vec<String> = Vec::new();
    let tlen = str_len(title);
    if title.is_empty() {
        push_message(&mut issues, owned("Summary title is empty"));
    } else if tlen > 120 {
        push_message(&mut issues, numbered_message("Summary title too long: ", tlen as u64, " chars (max 120)"));
    }
    let nlen = str_len(narrative);
    if narrative.is_empty() {
        push_message(&mut issues, owned("Summary narrative is empty"));
    } else if nlen < 20 {
        push_message(&mut issues, numbered_message("Summary narrative too short: ", nlen as u64, " chars (min 20)"));
    }
    if key_decisions.len() == 0 && concepts.len() == 0 {
        push_message(&mut issues, owned("No decisions or concepts in summary"));
    }
    proof {
        let st = SummaryView {
            title: title@,
            narrative: narrative@,
            decisions: views(key_decisions@),
            files: Seq::empty(),
            concepts: views(concepts@),
        };
        assert(views(issues@) =~= summary_issues(st));
    }
    issues
}

/// Apply the heuristic fixes to a session summary.
pub fn apply_summary_fixes(
    title: &mut String,
    narrative: &mut String,
    key_decisions: &mut Vec<String>,
    concepts: &mut Vec<String>,
)
    requires
        title_cut_ok(old(title)@, 120, 117),
    ensures
        ({
            let before = SummaryView {
                title: old(title)@,
                narrative: old(narrative)@,
                decisions: views(old(key_decisions)@),
                files: Seq::empty(),
                concepts: views(old(concepts)@),
            };
            let after = fix_summary(before);
            &&& final(title)@ == after.title
            &&& final(narrative)@ == after.narrative
            &&& views(final(concepts)@) == after.concepts
        }),
        final(key_decisions)@ == old(key_decisions)@,
{
    if str_len(title.as_str()) > 120 {
        *title = cut_with_ellipsis(title, 117);
    }
    if title.as_str().is_empty() {
        *title = owned("Session Summary");
    }
    if narrative.as_str().is_empty() {
        *narrative = owned("Session completed with operations performed.");
    } else if str_len(narrative.as_str()) < 20 {
        let mut n = copy_string(narrative);
        push_str(&mut n, " (minimal summary)");
        *narrative = n;
    }
    if key_decisions.len() == 0 && concepts.len() == 0 {
        let ghost before = views(concepts@);
        concepts.push(owned("session"));
        proof {
            assert(views(concepts@) =~= before.push("session"@));
        }
    }
}

/// A summary whose title and narrative have reasonable sizes keeps them
/// after a round of fixes.
pub proof fn lemma_fix_summary_sized(st: SummaryView)
    requires
        sized(st.title),
        sized(st.narrative),
        title_cut_ok(st.title, 120, 117),
    ensures
        sized(fix_summary(st).title),
        sized(fix_summary(st).narrative),
        byte_len(fix_summary(st).title) <= 120,
        fix_summary(st).title.len() > 0,
        title_cut_ok(fix_summary(st).title, 120, 117),
{
    reveal_strlit("...");
    reveal_strlit("Session Summary");
    reveal_strlit("Session completed with operations performed.");
    reveal_strlit(" (minimal summary)");
    lemma_ascii_utf8_len("..."@);
    lemma_ascii_utf8_len("Session Summary"@);
    lemma_ascii_utf8_len("Session completed with operations performed."@);
    lemma_ascii_utf8_len(" (minimal summary)"@);
    if byte_len(st.title) > 120 {
        let p = safe_truncate_spec(st.title, 117);
        lemma_prefix_within_bounds(st.title, 117);
        assert(p == st.title.take(crate::text::prefix_within(st.title, 117) as int));
        lemma_utf8_len_concat(p, "..."@);
    }
    if st.narrative.len() > 0 && byte_len(st.narrative) < 20 {
        lemma_utf8_len_concat(st.narrative, " (minimal summary)"@);
    }
}

/// Two rounds of fixes always leave a summary without issues (one round may
/// not: a one-byte narrative is still too short after the first).
pub proof fn lemma_summary_two_rounds_clear_issues(st: SummaryView)
    requires
        sized(st.title),
        sized(st.narrative),
        title_cut_ok(st.title, 120, 117),
    ensures
        summary_issues(fix_summary(fix_summary(st))).len() == 0,
{
    reveal_strlit(" (minimal summary)");
    reveal_strlit("Session completed with operations performed.");
    reveal_strlit("session");
    lemma_ascii_utf8_len(" (minimal summary)"@);
    lemma_ascii_utf8_len("Session completed with operations performed."@);
    let s1 = fix_summary(st);
    lemma_fix_summary_sized(st);
    let s2 = fix_summary(s1);
    lemma_fix_summary_sized(s1);
    let n = st.narrative;
    if n.len() > 0 && byte_len(n) < 20 {
        lemma_utf8_len_concat(n, " (minimal summary)"@);
        lemma_utf8_len_ge_len(n);
        let n1 = s1.narrative;
        if byte_len(n1) < 20 {
            lemma_utf8_len_concat(n1, " (minimal summary)"@);
        }
    }
    lemma_utf8_len_ge_len(s2.narrative);
    assert(byte_len(s2.narrative) >= 20);
}

/// Validate a session summary and attempt self-correction: fixes are
/// applied until no issue is left, at most `MAX_RETRIES` times.
pub fn validate_and_correct_summary(
    title: &mut String,
    narrative: &mut String,
    key_decisions: &mut Vec<String>,
    files_modified: &mut Vec<String>,
    concepts: &mut Vec<String>,
) -> (r: ValidationResult)
    requires
        sized(old(title)@),
        sized(old(narrative)@),
        title_cut_ok(old(title)@, 120, 117),
    ensures
        ({
            let before = summary_view(*old(title), *old(narrative), *old(key_decisions), *old(files_modified), *old(concepts));
            let k = summary_rounds(before);
            let after = fix_summary_n(before, k);
            &&& final(title)@ == after.title
            &&& final(narrative)@ == after.narrative
            &&& views(final(concepts)@) == after.concepts
            &&& final(key_decisions)@ == old(key_decisions)@
            &&& final(files_modified)@ == old(files_modified)@
            &&& r.retries == k
            &&& r.issues@.len() == 0
            &&& r.initial_score == summary_score(before.title, before.narrative, before.decisions.len(), before.files.len(), before.concepts.len())
            &&& r.final_score == summary_score(after.title, after.narrative, after.decisions.len(), after.files.len(), after.concepts.len())
            &&& r.valid == (k == 0 || r.final_score >= MIN_QUALITY_THRESHOLD)
        }),
{
    let ghost before = summary_view(*title, *narrative, *key_decisions, *files_modified, *concepts);
    let input = SummaryQualityInput {
        title: title.as_str(),
        narrative: narrative.as_str(),
        key_decisions: key_decisions.as_slice(),
        files_modified: files_modified.as_slice(),
        concepts: concepts.as_slice(),
    };
    let score_before = score_summary(&input);
    let mut issues = validate_summary(title.as_str(), narrative.as_str(), key_decisions.as_slice(), concepts.as_slice());
    proof {
        assert(summary_issues(before) == summary_issues(SummaryView { files: Seq::empty(), ..before }));
    }
    if issues.len() == 0 {
        proof {
            assert(fix_summary_n(before, 0) == before);
            assert(summary_rounds(before) == 0);
        }
        return ValidationResult::passed(score_before);
    }
    let mut retries: usize = 0;
    let mut round: usize = 0;
    while round < MAX_RETRIES
        invariant_except_break
            round > 0 ==> issues@.len() > 0,
        invariant
            round <= MAX_RETRIES,
            retries == round,
            summary_issues(before).len() > 0,
            sized(before.title),
            sized(before.narrative),
            title_cut_ok(before.title, 120, 117),
            ({
                let cur = fix_summary_n(before, round as nat);
                &&& title@ == cur.title
                &&& narrative@ == cur.narrative
                &&& views(concepts@) == cur.concepts
                &&& views(key_decisions@) == before.decisions
                &&& key_decisions@ == old(key_decisions)@
                &&& files_modified@ == old(files_modified)@
                &&& round > 0 ==> views(issues@) == summary_issues(cur)
                &&& round > 0 ==> summary_issues(fix_summary_n(before, (round - 1) as nat)).len() > 0
                &&& round == 2 ==> issues@.len() == 0
                &&& round < 2 ==> sized(cur.title) && sized(cur.narrative)
                &&& title_cut_ok(cur.title, 120, 117)
            }),
        ensures
            retries == summary_rounds(before),
            issues@.len() == 0,
            ({
                let cur = fix_summary_n(before, retries as nat);
                &&& title@ == cur.title
                &&& narrative@ == cur.narrative
                &&& views(concepts@) == cur.concepts
                &&& key_decisions@ == old(key_decisions)@
                &&& files_modified@ == old(files_modified)@
            }),
        decreases MAX_RETRIES - round,
    {
        let ghost cur = fix_summary_n(before, round as nat);
        retries += 1;
        apply_summary_fixes(title, narrative, key_decisions, concepts);
        issues = validate_summary(title.as_str(), narrative.as_str(), key_decisions.as_slice(), concepts.as_slice());
        round += 1;
        proof {
            let next = fix_summary_n(before, round as nat);
            assert(next == fix_summary(cur));
            assert(summary_issues(next) == summary_issues(SummaryView { files: Seq::empty(), ..next }));
            lemma_fix_summary_sized(cur);
            if round == 2 {
                lemma_summary_two_rounds_clear_issues(before);
                assert(fix_summary_n(before, 1) == fix_summary(before));
                assert(fix_summary_n(before, 2) == fix_summary(fix_summary(before)));
            }
            if round == 1 {
                assert(next == fix_summary(before));
                assert(fix_summary_n(before, 0) == before);
            }
        }
        if issues.len() == 0 {
            break;
        }
    }
    let input = SummaryQualityInput {
        title: title.as_str(),
        narrative: narrative.as_str(),
        key_decisions: key_decisions.as_slice(),
        files_modified: files_modified.as_slice(),
        concepts: concepts.as_slice(),
    };
    let score_after = score_summary(&input);
    proof {
        let after = fix_summary_n(before, retries as nat);
        assert(views(key_decisions@).len() == key_decisions@.len());
        assert(views(files_modified@).len() == files_modified@.len());
        assert(views(concepts@).len() == concepts@.len());
        assert(after.decisions == before.decisions) by {
            if retries == 1 {
                assert(after == fix_summary(fix_summary_n(before, 0)));
            } else {
                assert(after == fix_summary(fix_summary_n(before, 1)));
                assert(fix_summary_n(before, 1) == fix_summary(fix_summary_n(before, 0)));
            }
        }
        assert(after.files == before.files) by {
            if retries == 1 {
                assert(after == fix_summary(fix_summary_n(before, 0)));
            } else {
                assert(after == fix_summary(fix_summary_n(before, 1)));
                assert(fix_summary_n(before, 1) == fix_summary(fix_summary_n(before, 0)));
            }
        }
    }
    let retries_reported = if MAX_RETRIES < retries { MAX_RETRIES } else { retries };
    if score_after >= MIN_QUALITY_THRESHOLD {
        ValidationResult {
            valid: true,
            initial_score: score_before,
            final_score: score_after,
            retries: retries_reported,
            issues,
        }
    } else {
        ValidationResult::failed(score_before, score_after, retries, issues)
    }
}

} // verus!
