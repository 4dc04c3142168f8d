//! Verify text against known facts: registered entity names and the
//! knowledge graph.
//!
//! Three classes of issue are reported:
//! * `SimilarName`: the text mentions a name one or two edits away from
//!   another registered name (a possible typo or mix-up);
//! * `RelationshipMismatch`: the text asserts a role between two entities
//!   while the graph records a different current role for the same pair;
//! * `StaleFact`: the text asserts a fact that the graph marks closed.
use vstd::prelude::*;
use crate::edit_distance::{edit_distance, lev};
use crate::text::{
    ascii_lower, chars_of, copy_string, decimal, decimal_string, is_ascii_seq, lowercase, owned, push_str,
    seq_eq, str_eq, str_views, to_lowercase, trim, trim_chars, lex_lt, str_lt,
};

verus! {

broadcast use vstd::string::group_string_axioms;

// ---------------------------------------------------------------------------
// Regular expressions (the `regex` crate)
// ---------------------------------------------------------------------------

/// The capture groups of each successive non-overlapping match of
/// `pattern` in `text`.
pub uninterp spec fn regex_captures(pattern: Seq<char>, text: Seq<char>) -> Seq<Seq<Seq<char>>>;

/// What `Regex::new(pattern)` then `is_match(text)` gives: `None` when the
/// pattern does not compile.
pub uninterp spec fn regex_match_result(pattern: Seq<char>, text: Seq<char>) -> Option<bool>;

/// The pattern that matches `name` as a whole word: `\b(<name, escaped>)\b`.
pub open spec fn whole_word_pattern(name: Seq<char>) -> Seq<char> {
    "\\b("@ + crate::claude_code::regex_escaped(name) + ")\\b"@
}

/// Whether `text` holds `name` as a whole word: the whole-word pattern
/// compiles and matches.
pub open spec fn whole_word_match(name: Seq<char>, text: Seq<char>) -> bool {
    regex_match_result(whole_word_pattern(name), text) == Some(true)
}

/// "X is Y's role".
pub open spec fn claim_pattern_forward() -> Seq<char> {
    "\\b([A-Z][\\w-]+)\\s+is\\s+([A-Z][\\w-]+)'s\\s+([a-z]{3,20})\\b"@
}

/// "Y's role is X".
pub open spec fn claim_pattern_backward() -> Seq<char> {
    "\\b([A-Z][\\w-]+)'s\\s+([a-z]{3,20})\\s+is\\s+([A-Z][\\w-]+)\\b"@
}

/// `regex::Regex::new(pattern)` then `captures_iter(text)` with
/// `Captures::extract::<3>`: the three groups of every match, named by
/// [`regex_captures`].  Both claim patterns compile and have exactly three
/// groups, so `extract` does not panic on them.
#[verifier::external_body]
fn captures3(pattern: &str, text: &str) -> (r: Vec<Vec<String>>)
    requires
        pattern@ == claim_pattern_forward() || pattern@ == claim_pattern_backward(),
    ensures
        r@.len() == regex_captures(pattern@, text@).len(),
        forall|k: int| 0 <= k < r@.len() ==> (#[trigger] r@[k])@.len() == 3,
        forall|k: int, g: int| 0 <= k < r@.len() && 0 <= g < 3 ==> (#[trigger] r@[k]@[g])@ == regex_captures(pattern@, text@)[k][g],
{
    match regex::Regex::new(pattern) {
        Ok(re) => re.captures_iter(text).map(|c| c.extract::<3>().1.iter().map(|s| s.to_string()).collect()).collect(),
        Err(_) => Vec::new(),
    }
}

/// `regex::Regex::new(pattern)`, then `is_match(text)` on success.  The
/// result is named by [`regex_match_result`]; `None` stands for the
/// pattern's compile error.
#[verifier::external_body]
fn regex_is_match(pattern: &str, text: &str) -> (r: Option<bool>)
    ensures
        r == regex_match_result(pattern@, text@),
{
    match regex::Regex::new(pattern) {
        Ok(re) => Some(re.is_match(text)),
        Err(_) => None,
    }
}

/// Whether `text` mentions `name` as a whole word; `false` when the
/// pattern built from the name does not compile.
fn mentions_word(name: &str, text: &str) -> (r: bool)
    ensures
        r == whole_word_match(name@, text@),
{
    let mut pattern = owned("\\b(");
    let escaped = crate::claude_code::escape_regex(name);
    push_str(&mut pattern, escaped.as_str());
    push_str(&mut pattern, ")\\b");
    match regex_is_match(pattern.as_str(), text) {
        Some(b) => b,
        None => false,
    }
}

// ---------------------------------------------------------------------------
// Data
// ---------------------------------------------------------------------------

/// Kinds of fact issue.
#[derive(Clone, Copy, PartialEq, Eq)]
pub enum FactIssueType {
    SimilarName,
    RelationshipMismatch,
    StaleFact,
}

/// A claimed relationship.
pub struct Claim {
    pub predicate: String,
    pub object: String,
}

/// A relationship recorded in the knowledge graph.
pub struct KgFact {
    pub predicate: String,
    pub object: String,
}

/// One issue detected in text.
pub struct FactIssue {
    pub issue_type: FactIssueType,
    pub detail: String,
    pub names: Option<Vec<String>>,
    pub distance: Option<usize>,
    pub entity: Option<String>,
    pub claim: Option<Claim>,
    pub kg_fact: Option<KgFact>,
    pub valid_to: Option<String>,
}

/// Structured report of all issues found in text.
pub struct FactCheckReport {
    /// Detected issues (empty = no contradictions found).
    pub issues: Vec<FactIssue>,
    /// Number of claims parsed from text.
    pub claims_checked: usize,
}

/// A fact issue as plain values.
pub struct FactIssueView {
    pub issue_type: FactIssueType,
    pub detail: Seq<char>,
    pub names: Option<Seq<Seq<char>>>,
    pub distance: Option<usize>,
    pub entity: Option<Seq<char>>,
    pub claim: Option<(Seq<char>, Seq<char>)>,
    pub kg_fact: Option<(Seq<char>, Seq<char>)>,
    pub valid_to: Option<Seq<char>>,
}

pub open spec fn opt_str(o: Option<String>) -> Option<Seq<char>> {
    match o {
        Some(s) => Some(s@),
        None => None,
    }
}


impl View for FactIssue {
    type V = FactIssueView;

    open spec fn view(&self) -> FactIssueView {
        FactIssueView {
            issue_type: self.issue_type,
            detail: self.detail@,
            names: match self.names {
                Some(v) => Some(str_views(v@)),
                None => None,
            },
            distance: self.distance,
            entity: opt_str(self.entity),
            claim: match self.claim {
                Some(c) => Some((c.predicate@, c.object@)),
                None => None,
            },
            kg_fact: match self.kg_fact {
                Some(k) => Some((k.predicate@, k.object@)),
                None => None,
            },
            valid_to: opt_str(self.valid_to),
        }
    }
}

pub open spec fn issue_views(v: Seq<FactIssue>) -> Seq<FactIssueView> {
    v.map_values(|i: FactIssue| i@)
}

/// A relationship claim parsed from text: `subject` is `object`'s
/// `predicate`.
pub struct ParsedClaim {
    pub subject: String,
    pub predicate: String,
    pub object: String,
    pub span: String,
}

/// A claim as plain values: subject, predicate, object, span.
pub type ClaimView = (Seq<char>, Seq<char>, Seq<char>, Seq<char>);

impl View for ParsedClaim {
    type V = ClaimView;

    open spec fn view(&self) -> ClaimView {
        (self.subject@, self.predicate@, self.object@, self.span@)
    }
}

pub open spec fn claim_views(v: Seq<ParsedClaim>) -> Seq<ClaimView> {
    v.map_values(|c: ParsedClaim| c@)
}

/// A knowledge-graph answer about a subject's outgoing relationships.
pub struct EntityQueryResult {
    pub predicate: String,
    pub object: String,
    /// Whether the fact is currently valid.
    pub current: bool,
    /// When the fact stopped being valid (`YYYY-MM-DD`), if it did.
    pub valid_to: Option<String>,
    /// Set when a later correction superseded this fact.
    pub t_expired: Option<String>,
}

// ---------------------------------------------------------------------------
// Claims
// ---------------------------------------------------------------------------

/// Claims from the forward pattern ("Bob is Alice's brother").
pub open spec fn forward_claims(text: Seq<char>) -> Seq<ClaimView> {
    regex_captures(claim_pattern_forward(), text).map_values(
        |g: Seq<Seq<char>>| (g[0], lowercase(g[2]), g[1], g[0]),
    )
}

/// Claims from the backward pattern ("Alice's brother is Bob").
pub open spec fn backward_claims(text: Seq<char>) -> Seq<ClaimView> {
    regex_captures(claim_pattern_backward(), text).map_values(
        |g: Seq<Seq<char>>| (g[2], lowercase(g[1]), g[0], g[0]),
    )
}

/// All claims in text: forward-pattern matches first, then backward ones.
pub open spec fn claims_spec(text: Seq<char>) -> Seq<ClaimView> {
    forward_claims(text) + backward_claims(text)
}

/// Parse relationship claims from text.
pub fn extract_claims(text: &str) -> (r: Vec<ParsedClaim>)
    ensures
        claim_views(r@) == claims_spec(text@),
{
    let mut claims: Vec<ParsedClaim> = Vec::new();
    let mut which: usize = 0;
    while which < 2
        invariant
            which <= 2,
            which == 0 ==> claim_views(claims@) == Seq::<ClaimView>::empty(),
            which == 1 ==> claim_views(claims@) == forward_claims(text@),
            which == 2 ==> claim_views(claims@) == claims_spec(text@),
        decreases 2 - which,
    {
        let pattern = if which == 0 {
            "\\b([A-Z][\\w-]+)\\s+is\\s+([A-Z][\\w-]+)'s\\s+([a-z]{3,20})\\b"
        } else {
            "\\b([A-Z][\\w-]+)'s\\s+([a-z]{3,20})\\s+is\\s+([A-Z][\\w-]+)\\b"
        };
        let caps = captures3(pattern, text);
        let ghost base = claim_views(claims@);
        let ghost produced = if which == 0 { forward_claims(text@) } else { backward_claims(text@) };
        let mut k: usize = 0;
        while k < caps.len()
            invariant
                which < 2,
                pattern@ == (if which == 0 { claim_pattern_forward() } else { claim_pattern_backward() }),
                produced == (if which == 0 { forward_claims(text@) } else { backward_claims(text@) }),
                caps@.len() == regex_captures(pattern@, text@).len(),
                forall|q: int| 0 <= q < caps@.len() ==> (#[trigger] caps@[q])@.len() == 3,
                forall|q: int, g: int| 0 <= q < caps@.len() && 0 <= g < 3 ==> (#[trigger] caps@[q]@[g])@ == regex_captures(pattern@, text@)[q][g],
                k <= caps@.len(),
                claim_views(claims@) == base + produced.take(k as int),
            decreases caps.len() - k,
        {
            let groups = &caps[k];
            let (subject, possessor, role) = if which == 0 {
                (&groups[0], &groups[1], &groups[2])
            } else {
                (&groups[2], &groups[0], &groups[1])
            };
            let claim = ParsedClaim {
                subject: copy_string(subject),
                predicate: to_lowercase(role.as_str()),
                object: copy_string(possessor),
                span: copy_string(&groups[0]),
            };
            let ghost prev = claims@;
            claims.push(claim);
            proof {
                assert(claims@ == prev.push(claim));
                assert(claim_views(prev.push(claim)) =~= claim_views(prev).push(claim@));
                assert(produced.take(k + 1) =~= produced.take(k as int).push(produced[k as int]));
                assert(caps@[k as int]@[0]@ == regex_captures(pattern@, text@)[k as int][0]);
                assert(caps@[k as int]@[1]@ == regex_captures(pattern@, text@)[k as int][1]);
                assert(caps@[k as int]@[2]@ == regex_captures(pattern@, text@)[k as int][2]);
            }
            k += 1;
        }
        proof {
            assert(produced.take(caps@.len() as int) =~= produced);
            if which == 0 {
                assert(Seq::<ClaimView>::empty() + forward_claims(text@) =~= forward_claims(text@));
            }
        }
        which += 1;
    }
    claims
}

/// Number of claims in text.
pub open spec fn claim_count(text: Seq<char>) -> nat {
    regex_captures(claim_pattern_forward(), text).len() + regex_captures(claim_pattern_backward(), text).len()
}

/// Count relationship claims in text.
pub fn claims_in_text(text: &str) -> (r: usize)
    ensures
        r == claim_count(text@),
{
    let claims = extract_claims(text);
    proof {
        assert(claim_views(claims@).len() == claims@.len());
    }
    claims.len()
}

// ---------------------------------------------------------------------------
// Comparing objects and dates
// ---------------------------------------------------------------------------

/// Both are non-empty and equal once trimmed, ignoring ASCII case.
pub open spec fn objects_match_spec(kg_obj: Seq<char>, claim_obj: Seq<char>) -> bool {
    kg_obj.len() > 0 && claim_obj.len() > 0 && trim(kg_obj).map_values(|c: char| ascii_lower(c)) == trim(
        claim_obj,
    ).map_values(|c: char| ascii_lower(c))
}

/// Whether a graph object and a claimed object name the same thing.
pub fn objects_match(kg_obj: &str, claim_obj: &str) -> (r: bool)
    ensures
        r == objects_match_spec(kg_obj@, claim_obj@),
{
    if kg_obj.is_empty() || claim_obj.is_empty() {
        return false;
    }
    let a = chars_of(kg_obj);
    let b = chars_of(claim_obj);
    let ta = trim_chars(a.as_slice());
    let tb = trim_chars(b.as_slice());
    if ta.len() != tb.len() {
        proof {
            let ma = ta@.map_values(|c: char| ascii_lower(c));
            let mb = tb@.map_values(|c: char| ascii_lower(c));
            assert(ma.len() == ta@.len());
            assert(mb.len() == tb@.len());
            assert(ma != mb);
        }
        return false;
    }
    let mut i: usize = 0;
    while i < ta.len()
        invariant
            ta@ == trim(kg_obj@),
            tb@ == trim(claim_obj@),
            kg_obj@.len() > 0,
            claim_obj@.len() > 0,
            ta@.len() == tb@.len(),
            i <= ta@.len(),
            forall|k: int| 0 <= k < i ==> ascii_lower(ta@[k]) == ascii_lower(tb@[k]),
        decreases ta.len() - i,
    {
        if crate::text::to_ascii_lower(ta[i]) != crate::text::to_ascii_lower(tb[i]) {
            proof {
                assert(ta@.map_values(|c: char| ascii_lower(c))[i as int] != tb@.map_values(|c: char| ascii_lower(c))[i as int]);
            }
            return false;
        }
        i += 1;
    }
    proof {
        assert(ta@.map_values(|c: char| ascii_lower(c)) =~= tb@.map_values(|c: char| ascii_lower(c)));
    }
    true
}

// ---------------------------------------------------------------------------
// Knowledge-graph contradictions
// ---------------------------------------------------------------------------

pub open spec fn mismatch_detail(c: ClaimView, kg_pred: Seq<char>, kg_obj: Seq<char>) -> Seq<char> {
    "Text says '"@ + c.3 + "' but KG records "@ + c.0 + " "@ + kg_pred + " "@ + kg_obj
}

pub open spec fn stale_detail(c: ClaimView, valid_to: Seq<char>) -> Seq<char> {
    "Text says '"@ + c.3 + "' but KG marks this fact closed on "@ + valid_to
}

/// Issues from the current facts in `facts` that relate the claim's
/// subject and object by a different role.
pub open spec fn mismatch_issues(c: ClaimView, facts: Seq<EntityQueryResult>) -> Seq<FactIssueView>
    decreases facts.len(),
{
    if facts.len() == 0 {
        Seq::empty()
    } else {
        let prev = mismatch_issues(c, facts.drop_last());
        let f = facts.last();
        let kg_pred = lowercase(f.predicate@);
        if f.current && objects_match_spec(f.object@, c.2) && kg_pred.len() > 0 && kg_pred != c.1 {
            prev.push(
                FactIssueView {
                    issue_type: FactIssueType::RelationshipMismatch,
                    detail: mismatch_detail(c, kg_pred, f.object@),
                    names: None,
                    distance: None,
                    entity: Some(c.0),
                    claim: Some((c.1, c.2)),
                    kg_fact: Some((kg_pred, f.object@)),
                    valid_to: None,
                },
            )
        } else {
            prev
        }
    }
}

/// Issues from closed (not current, not superseded) facts that match the
/// claim and ended before `now`.
pub open spec fn stale_issues(c: ClaimView, facts: Seq<EntityQueryResult>, now: Seq<char>) -> Seq<FactIssueView>
    decreases facts.len(),
{
    if facts.len() == 0 {
        Seq::empty()
    } else {
        let prev = stale_issues(c, facts.drop_last(), now);
        let f = facts.last();
        if !f.current && lowercase(f.predicate@) == c.1 && objects_match_spec(f.object@, c.2) && f.t_expired is None
            && f.valid_to is Some && lex_lt(opt_str(f.valid_to)->0, now) {
            prev.push(
                FactIssueView {
                    issue_type: FactIssueType::StaleFact,
                    detail: stale_detail(c, opt_str(f.valid_to)->0),
                    names: None,
                    distance: None,
                    entity: Some(c.0),
                    claim: None,
                    kg_fact: None,
                    valid_to: opt_str(f.valid_to),
                },
            )
        } else {
            prev
        }
    }
}

/// Issues for each claim, given the graph's answer about each claim's
/// subject (`None` when the lookup failed).
pub open spec fn kg_issues(
    claims: Seq<ClaimView>,
    lookups: Seq<Option<Seq<EntityQueryResult>>>,
    now: Seq<char>,
) -> Seq<FactIssueView>
    decreases claims.len(),
{
    if claims.len() == 0 || lookups.len() < claims.len() {
        Seq::empty()
    } else {
        let n = (claims.len() - 1) as int;
        let prev = kg_issues(claims.drop_last(), lookups.take(n), now);
        match lookups[n] {
            Some(facts) => if facts.len() == 0 {
                prev
            } else {
                prev + mismatch_issues(claims[n], facts) + stale_issues(claims[n], facts, now)
            },
            None => prev,
        }
    }
}

/// A relationship mismatch comes from a current fact only: each one names
/// a fact whose `current` flag is set, whose object is the claim's and
/// whose role differs from the claim's; with no current fact, there is
/// none.
pub proof fn lemma_mismatch_from_current_fact(c: ClaimView, facts: Seq<EntityQueryResult>)
    ensures
        forall|k: int| 0 <= k < mismatch_issues(c, facts).len() ==> {
            let i = #[trigger] mismatch_issues(c, facts)[k];
            &&& i.issue_type == FactIssueType::RelationshipMismatch
            &&& exists|j: int|
                0 <= j < facts.len() && (#[trigger] facts[j]).current && objects_match_spec(facts[j].object@, c.2)
                    && lowercase(facts[j].predicate@) != c.1 && i.kg_fact == Some(
                    (lowercase(facts[j].predicate@), facts[j].object@),
                )
        },
        (forall|j: int| 0 <= j < facts.len() ==> !(#[trigger] facts[j]).current) ==> mismatch_issues(c, facts).len()
            == 0,
    decreases facts.len(),
{
    if facts.len() > 0 {
        let p = facts.drop_last();
        lemma_mismatch_from_current_fact(c, p);
        assert forall|j: int| 0 <= j < p.len() implies #[trigger] p[j] == facts[j] by {}
        let prev = mismatch_issues(c, p);
        let m = mismatch_issues(c, facts);
        assert forall|k: int| 0 <= k < m.len() implies {
            let i = #[trigger] m[k];
            &&& i.issue_type == FactIssueType::RelationshipMismatch
            &&& exists|j: int|
                0 <= j < facts.len() && (#[trigger] facts[j]).current && objects_match_spec(facts[j].object@, c.2)
                    && lowercase(facts[j].predicate@) != c.1 && i.kg_fact == Some(
                    (lowercase(facts[j].predicate@), facts[j].object@),
                )
        } by {
            if k < prev.len() {
                assert(m[k] == prev[k]);
                let i = prev[k];
                let j = choose|j: int|
                    0 <= j < p.len() && (#[trigger] p[j]).current && objects_match_spec(p[j].object@, c.2)
                        && lowercase(p[j].predicate@) != c.1 && i.kg_fact == Some((lowercase(p[j].predicate@), p[j].object@));
                assert(facts[j] == p[j]);
            } else {
                assert(facts[facts.len() - 1] == facts.last());
            }
        }
        if forall|j: int| 0 <= j < facts.len() ==> !(#[trigger] facts[j]).current {
            assert(!facts[facts.len() - 1].current);
            assert forall|j: int| 0 <= j < p.len() implies !(#[trigger] p[j]).current by {
                assert(facts[j] == p[j]);
            }
        }
    }
}

/// Every current fact whose object is the claim's and whose non-empty role
/// differs from the claim's raises a relationship mismatch naming it.
pub proof fn lemma_current_conflict_is_reported(c: ClaimView, facts: Seq<EntityQueryResult>)
    ensures
        forall|j: int|
            0 <= j < facts.len() && (#[trigger] facts[j]).current && objects_match_spec(facts[j].object@, c.2)
                && lowercase(facts[j].predicate@).len() > 0 && lowercase(facts[j].predicate@) != c.1 ==> exists|k: int|
                0 <= k < mismatch_issues(c, facts).len() && (#[trigger] mismatch_issues(c, facts)[k]).kg_fact == Some(
                    (lowercase(facts[j].predicate@), facts[j].object@),
                ),
    decreases facts.len(),
{
    if facts.len() > 0 {
        let p = facts.drop_last();
        lemma_current_conflict_is_reported(c, p);
        let prev = mismatch_issues(c, p);
        let m = mismatch_issues(c, facts);
        assert forall|j: int|
            0 <= j < facts.len() && (#[trigger] facts[j]).current && objects_match_spec(facts[j].object@, c.2)
                && lowercase(facts[j].predicate@).len() > 0 && lowercase(facts[j].predicate@) != c.1 implies exists|
            k: int,
        | 0 <= k < m.len() && (#[trigger] m[k]).kg_fact == Some((lowercase(facts[j].predicate@), facts[j].object@)) by {
            if j < p.len() {
                assert(p[j] == facts[j]);
                let k = choose|k: int|
                    0 <= k < prev.len() && (#[trigger] prev[k]).kg_fact == Some((lowercase(p[j].predicate@), p[j].object@));
                assert(m[k] == prev[k]);
            } else {
                assert(facts[j] == facts.last());
                assert(m[prev.len() as int].kg_fact == Some((lowercase(facts[j].predicate@), facts[j].object@)));
            }
        }
    }
}

/// A stale-fact issue is of that kind.
proof fn lemma_stale_kind(c: ClaimView, facts: Seq<EntityQueryResult>, now: Seq<char>)
    ensures
        forall|k: int| 0 <= k < stale_issues(c, facts, now).len() ==> (#[trigger] stale_issues(c, facts, now)[k]).issue_type
            == FactIssueType::StaleFact,
    decreases facts.len(),
{
    if facts.len() > 0 {
        lemma_stale_kind(c, facts.drop_last(), now);
    }
}

/// The facts a lookup returned (none when it failed).
pub open spec fn lookup_facts(l: Option<Seq<EntityQueryResult>>) -> Seq<EntityQueryResult> {
    match l {
        Some(fs) => fs,
        None => Seq::empty(),
    }
}

/// Every relationship mismatch in a check against the graph names a fact
/// that the graph returned as current for some claim's subject; so when
/// no fact the graph returned is current, no mismatch is reported.
pub proof fn lemma_kg_mismatch_from_current_fact(
    claims: Seq<ClaimView>,
    lookups: Seq<Option<Seq<EntityQueryResult>>>,
    now: Seq<char>,
)
    ensures
        forall|k: int|
            0 <= k < kg_issues(claims, lookups, now).len() && (#[trigger] kg_issues(claims, lookups, now)[k]).issue_type
                == FactIssueType::RelationshipMismatch ==> exists|n: int, j: int|
                0 <= n < claims.len() && n < lookups.len() && 0 <= j < lookup_facts(lookups[n]).len()
                    && (#[trigger] lookup_facts(lookups[n])[j]).current && kg_issues(claims, lookups, now)[k].kg_fact
                    == Some((lowercase(lookup_facts(lookups[n])[j].predicate@), lookup_facts(lookups[n])[j].object@)),
        (forall|n: int, j: int|
            0 <= n < lookups.len() && 0 <= j < lookup_facts(lookups[n]).len() ==> !(#[trigger] lookup_facts(
                lookups[n],
            )[j]).current) ==> forall|k: int|
            0 <= k < kg_issues(claims, lookups, now).len() ==> (#[trigger] kg_issues(claims, lookups, now)[k]).issue_type
                != FactIssueType::RelationshipMismatch,
    decreases claims.len(),
{
    if claims.len() > 0 && lookups.len() >= claims.len() {
        let n = (claims.len() - 1) as int;
        let pc = claims.drop_last();
        let pl = lookups.take(n);
        lemma_kg_mismatch_from_current_fact(pc, pl, now);
        let prev = kg_issues(pc, pl, now);
        let all = kg_issues(claims, lookups, now);
        let facts = lookup_facts(lookups[n]);
        lemma_mismatch_from_current_fact(claims[n], facts);
        lemma_stale_kind(claims[n], facts, now);
        assert forall|k: int|
            0 <= k < all.len() && (#[trigger] all[k]).issue_type == FactIssueType::RelationshipMismatch implies exists|
            n2: int,
            j: int,
        |
            0 <= n2 < claims.len() && n2 < lookups.len() && 0 <= j < lookup_facts(lookups[n2]).len()
                && (#[trigger] lookup_facts(lookups[n2])[j]).current && all[k].kg_fact == Some(
                (lowercase(lookup_facts(lookups[n2])[j].predicate@), lookup_facts(lookups[n2])[j].object@),
            ) by {
            if k < prev.len() {
                assert(all[k] == prev[k]);
                let (n2, j) = choose|n2: int, j: int|
                    0 <= n2 < pc.len() && n2 < pl.len() && 0 <= j < lookup_facts(pl[n2]).len()
                        && (#[trigger] lookup_facts(pl[n2])[j]).current && prev[k].kg_fact == Some(
                        (lowercase(lookup_facts(pl[n2])[j].predicate@), lookup_facts(pl[n2])[j].object@),
                    );
                assert(pl[n2] == lookups[n2]);
            } else {
                let mi = mismatch_issues(claims[n], facts);
                let si = stale_issues(claims[n], facts, now);
                assert(lookups[n] is Some && facts.len() > 0);
                assert(all == prev + mi + si);
                if k < prev.len() + mi.len() {
                    assert(all[k] == mi[k - prev.len()]);
                    let i = mi[k - prev.len()];
                    let j = choose|j: int|
                        0 <= j < facts.len() && (#[trigger] facts[j]).current && objects_match_spec(
                            facts[j].object@,
                            claims[n].2,
                        ) && lowercase(facts[j].predicate@) != claims[n].1 && i.kg_fact == Some(
                            (lowercase(facts[j].predicate@), facts[j].object@),
                        );
                    assert(lookup_facts(lookups[n])[j] == facts[j]);
                } else {
                    assert(all[k] == si[k - prev.len() - mi.len()]);
                }
            }
        }
        if forall|n2: int, j: int|
            0 <= n2 < lookups.len() && 0 <= j < lookup_facts(lookups[n2]).len() ==> !(#[trigger] lookup_facts(
                lookups[n2],
            )[j]).current {
            assert forall|k: int|
                0 <= k < all.len() implies (#[trigger] all[k]).issue_type != FactIssueType::RelationshipMismatch by {
                if all[k].issue_type == FactIssueType::RelationshipMismatch {
                    let (n2, j) = choose|n2: int, j: int|
                        0 <= n2 < claims.len() && n2 < lookups.len() && 0 <= j < lookup_facts(lookups[n2]).len()
                            && (#[trigger] lookup_facts(lookups[n2])[j]).current && all[k].kg_fact == Some(
                            (lowercase(lookup_facts(lookups[n2])[j].predicate@), lookup_facts(lookups[n2])[j].object@),
                        );
                }
            }
        }
    }
}

fn opt_copy(o: &Option<String>) -> (r: Option<String>)
    ensures
        opt_str(r) == opt_str(*o),
{
    match o {
        Some(s) => Some(copy_string(s)),
        None => None,
    }
}

fn push_issue(v: &mut Vec<FactIssue>, i: FactIssue)
    ensures
        issue_views(final(v)@) == issue_views(old(v)@).push(i@),
{
    let ghost prev = v@;
    v.push(i);
    proof {
        assert(issue_views(v@) =~= issue_views(prev).push(i@));
    }
}

/// Issues raised by one claim against the graph's facts about its subject.
fn check_claim_facts(claim: &ParsedClaim, facts: &Vec<EntityQueryResult>, now: &str, issues: &mut Vec<FactIssue>)
    ensures
        issue_views(final(issues)@) == issue_views(old(issues)@) + mismatch_issues(claim@, facts@) + stale_issues(
            claim@,
            facts@,
            now@,
        ),
{
    let ghost start = issue_views(issues@);
    let mut i: usize = 0;
    while i < facts.len()
        invariant
            i <= facts@.len(),
            issue_views(issues@) == start + mismatch_issues(claim@, facts@.take(i as int)),
        decreases facts.len() - i,
    {
        let fact = &facts[i];
        proof {
            assert(facts@.take(i + 1).drop_last() =~= facts@.take(i as int));
            assert(facts@.take(i + 1).last() == *fact);
        }
        if fact.current && objects_match(fact.object.as_str(), claim.object.as_str()) {
            let kg_pred = to_lowercase(fact.predicate.as_str());
            if !kg_pred.as_str().is_empty() && !str_eq(kg_pred.as_str(), claim.predicate.as_str()) {
                let mut detail = owned("Text says '");
                push_str(&mut detail, claim.span.as_str());
                push_str(&mut detail, "' but KG records ");
                push_str(&mut detail, claim.subject.as_str());
                push_str(&mut detail, " ");
                push_str(&mut detail, kg_pred.as_str());
                push_str(&mut detail, " ");
                push_str(&mut detail, fact.object.as_str());
                let issue = FactIssue {
                    issue_type: FactIssueType::RelationshipMismatch,
                    detail,
                    names: None,
                    distance: None,
                    entity: Some(copy_string(&claim.subject)),
                    claim: Some(Claim { predicate: copy_string(&claim.predicate), object: copy_string(&claim.object) }),
                    kg_fact: Some(KgFact { predicate: kg_pred, object: copy_string(&fact.object) }),
                    valid_to: None,
                };
                push_issue(issues, issue);
            }
        }
        i += 1;
    }
    proof {
        assert(facts@.take(facts@.len() as int) =~= facts@);
    }
    let ghost mid = issue_views(issues@);
    let mut j: usize = 0;
    while j < facts.len()
        invariant
            j <= facts@.len(),
            issue_views(issues@) == mid + stale_issues(claim@, facts@.take(j as int), now@),
        decreases facts.len() - j,
    {
        let fact = &facts[j];
        proof {
            assert(facts@.take(j + 1).drop_last() =~= facts@.take(j as int));
            assert(facts@.take(j + 1).last() == *fact);
        }
        if !fact.current {
            let kg_pred = to_lowercase(fact.predicate.as_str());
            if str_eq(kg_pred.as_str(), claim.predicate.as_str()) && objects_match(
                fact.object.as_str(),
                claim.object.as_str(),
            ) && fact.t_expired.is_none() {
                if let Some(valid_to) = &fact.valid_to {
                    if str_lt(valid_to.as_str(), now) {
                        let mut detail = owned("Text says '");
                        push_str(&mut detail, claim.span.as_str());
                        push_str(&mut detail, "' but KG marks this fact closed on ");
                        push_str(&mut detail, valid_to.as_str());
                        let issue = FactIssue {
                            issue_type: FactIssueType::StaleFact,
                            detail,
                            names: None,
                            distance: None,
                            entity: Some(copy_string(&claim.subject)),
                            claim: None,
                            kg_fact: None,
                            valid_to: Some(copy_string(valid_to)),
                        };
                        push_issue(issues, issue);
                    }
                }
            }
        }
        j += 1;
    }
    proof {
        assert(facts@.take(facts@.len() as int) =~= facts@);
    }
}

/// Check claims against the graph: `lookups[i]` is the graph's answer
/// about the subject of `claims[i]` (its outgoing relationships), `None`
/// when that lookup failed; `now` is today's `YYYY-MM-DD` date.
pub fn check_claims_against_facts(
    claims: &Vec<ParsedClaim>,
    lookups: &Vec<Option<Vec<EntityQueryResult>>>,
    now: &str,
) -> (r: Vec<FactIssue>)
    requires
        lookups@.len() == claims@.len(),
    ensures
        issue_views(r@) == kg_issues(
            claim_views(claims@),
            lookups@.map_values(|o: Option<Vec<EntityQueryResult>>| match o {
                Some(v) => Some(v@),
                None => None,
            }),
            now@,
        ),
{
    let ghost cv = claim_views(claims@);
    let ghost lv = lookups@.map_values(|o: Option<Vec<EntityQueryResult>>| match o {
        Some(v) => Some(v@),
        None => None,
    });
    let mut issues: Vec<FactIssue> = Vec::new();
    let mut i: usize = 0;
    while i < claims.len()
        invariant
            lookups@.len() == claims@.len(),
            cv == claim_views(claims@),
            lv == lookups@.map_values(|o: Option<Vec<EntityQueryResult>>| match o {
                Some(v) => Some(v@),
                None => None,
            }),
            i <= claims@.len(),
            issue_views(issues@) == kg_issues(cv.take(i as int), lv.take(i as int), now@),
        decreases claims.len() - i,
    {
        proof {
            assert(cv.take(i + 1).drop_last() =~= cv.take(i as int));
            assert(lv.take(i + 1).take(i as int) =~= lv.take(i as int));
            assert(cv.take(i + 1)[i as int] == claims@[i as int]@);
            assert(lv.take(i + 1)[i as int] == lv[i as int]);
        }
        match &lookups[i] {
            Some(facts) => {
                if facts.len() > 0 {
                    check_claim_facts(&claims[i], facts, now, &mut issues);
                }
            },
            None => {},
        }
        i += 1;
    }
    proof {
        assert(cv.take(claims@.len() as int) =~= cv);
        assert(lv.take(claims@.len() as int) =~= lv);
    }
    issues
}

// ---------------------------------------------------------------------------
// Entity-name confusion
// ---------------------------------------------------------------------------

/// Progress of the name-confusion scan: issues so far and the unordered
/// name pairs already settled.
pub struct ConfusionState {
    pub issues: Seq<FactIssueView>,
    pub seen: Seq<(Seq<char>, Seq<char>)>,
}

/// The pair key: the two names ordered, the smaller first.
pub open spec fn pair_key(a: Seq<char>, b: Seq<char>) -> (Seq<char>, Seq<char>) {
    if lex_lt(b, a) {
        (b, a)
    } else {
        (a, b)
    }
}

pub open spec fn similar_detail(a: Seq<char>, b: Seq<char>, d: nat) -> Seq<char> {
    "'"@ + a + "' mentioned — did you mean '"@ + b + "'? (edit distance "@ + decimal(d) + ")"@
}

/// One step of the scan: mentioned name `a` against registered name `b`.
pub open spec fn confusion_step(st: ConfusionState, a: Seq<char>, b: Seq<char>, mentioned: Seq<Seq<char>>) -> ConfusionState {
    if b == a {
        st
    } else {
        let key = pair_key(lowercase(a), b);
        if st.seen.contains(key) {
            st
        } else if mentioned.contains(b) {
            ConfusionState { issues: st.issues, seen: st.seen.push(key) }
        } else {
            let d = lev(lowercase(a), lowercase(b));
            if 0 < d <= 2 {
                ConfusionState {
                    issues: st.issues.push(
                        FactIssueView {
                            issue_type: FactIssueType::SimilarName,
                            detail: similar_detail(a, b, d),
                            names: Some(seq![a, b]),
                            distance: Some(d as usize),
                            entity: None,
                            claim: None,
                            kg_fact: None,
                            valid_to: None,
                        },
                    ),
                    seen: st.seen.push(key),
                }
            } else {
                st
            }
        }
    }
}

/// The scan of mentioned name `a` against the first `j` registered names.
pub open spec fn confusion_inner(
    st: ConfusionState,
    a: Seq<char>,
    names: Seq<Seq<char>>,
    j: nat,
    mentioned: Seq<Seq<char>>,
) -> ConfusionState
    decreases j,
{
    if j == 0 || j > names.len() {
        st
    } else {
        confusion_step(confusion_inner(st, a, names, (j - 1) as nat, mentioned), a, names[j - 1], mentioned)
    }
}

/// The scan of the first `i` mentioned names against all registered names.
pub open spec fn confusion_outer(mentioned: Seq<Seq<char>>, names: Seq<Seq<char>>, i: nat) -> ConfusionState
    decreases i,
{
    if i == 0 || i > mentioned.len() {
        ConfusionState { issues: Seq::empty(), seen: Seq::empty() }
    } else {
        confusion_inner(
            confusion_outer(mentioned, names, (i - 1) as nat),
            mentioned[i - 1],
            names,
            names.len(),
            mentioned,
        )
    }
}

/// The registered names that occur in `text` as whole words, in order.
pub open spec fn mentioned_names(names: Seq<Seq<char>>, text: Seq<char>) -> Seq<Seq<char>> {
    names.filter(|n: Seq<char>| whole_word_match(n, text))
}

/// Similar-name issues in `text` for the registered `names`.
pub open spec fn confusion_issues(text: Seq<char>, names: Seq<Seq<char>>) -> Seq<FactIssueView> {
    let m = mentioned_names(names, text);
    if names.len() == 0 || m.len() == 0 {
        Seq::empty()
    } else {
        confusion_outer(m, names, m.len()).issues
    }
}

fn seq_contains_key(seen: &Vec<(Vec<char>, Vec<char>)>, key: &(Vec<char>, Vec<char>)) -> (r: bool)
    ensures
        r == seen@.map_values(|p: (Vec<char>, Vec<char>)| (p.0@, p.1@)).contains((key.0@, key.1@)),
{
    let ghost sv = seen@.map_values(|p: (Vec<char>, Vec<char>)| (p.0@, p.1@));
    let mut i: usize = 0;
    while i < seen.len()
        invariant
            sv == seen@.map_values(|p: (Vec<char>, Vec<char>)| (p.0@, p.1@)),
            i <= seen@.len(),
            forall|k: int| 0 <= k < i ==> sv[k] != (key.0@, key.1@),
        decreases seen.len() - i,
    {
        if seq_eq(seen[i].0.as_slice(), key.0.as_slice()) && seq_eq(seen[i].1.as_slice(), key.1.as_slice()) {
            proof {
                assert(sv[i as int] == (key.0@, key.1@));
            }
            return true;
        }
        i += 1;
    }
    false
}

fn lex_lt_chars(a: &Vec<char>, b: &Vec<char>) -> (r: bool)
    ensures
        r == lex_lt(a@, b@),
{
    let sa = crate::text::string_from_chars(a.as_slice());
    let sb = crate::text::string_from_chars(b.as_slice());
    str_lt(sa.as_str(), sb.as_str())
}

/// Report registered names in `text` that are one or two edits away from
/// another registered name (both registered names mentioned means two
/// people, not a typo).
pub fn check_entity_confusion(text: &str, all_names: &Vec<String>) -> (r: Vec<FactIssue>)
    ensures
        issue_views(r@) == confusion_issues(text@, str_views(all_names@)),
{
    let ghost nv = str_views(all_names@);
    if all_names.len() == 0 {
        return Vec::new();
    }
    let mut mentioned: Vec<String> = Vec::new();
    let mut k: usize = 0;
    while k < all_names.len()
        invariant
            nv == str_views(all_names@),
            k <= all_names@.len(),
            str_views(mentioned@) == nv.take(k as int).filter(|n: Seq<char>| whole_word_match(n, text@)),
            forall|q: int| 0 <= q < mentioned@.len() ==> exists|p: int| 0 <= p < k && #[trigger] mentioned@[q]@ == all_names@[p]@,
        decreases all_names.len() - k,
    {
        proof {
            assert(nv.take(k + 1).drop_last() =~= nv.take(k as int));
            reveal(Seq::filter);
        }
        if mentions_word(all_names[k].as_str(), text) {
            let ghost prev = mentioned@;
            mentioned.push(copy_string(&all_names[k]));
            proof {
                assert(str_views(mentioned@) =~= str_views(prev).push(all_names@[k as int]@));
                assert forall|q: int| 0 <= q < mentioned@.len() implies exists|p: int| 0 <= p < k + 1 && #[trigger] mentioned@[q]@ == all_names@[p]@ by {
                    if q < prev.len() {
                        assert(mentioned@[q] == prev[q]);
                    } else {
                        assert(mentioned@[q]@ == all_names@[k as int]@);
                    }
                }
            }
        }
        k += 1;
    }
    proof {
        assert(nv.take(all_names@.len() as int) =~= nv);
    }
    let ghost mv = str_views(mentioned@);
    if mentioned.len() == 0 {
        return Vec::new();
    }
    let mut issues: Vec<FactIssue> = Vec::new();
    let mut seen: Vec<(Vec<char>, Vec<char>)> = Vec::new();
    let mut i: usize = 0;
    while i < mentioned.len()
        invariant
            nv == str_views(all_names@),
            mv == str_views(mentioned@),
            mv == mentioned_names(nv, text@),
            forall|q: int| 0 <= q < mentioned@.len() ==> exists|p: int| 0 <= p < all_names@.len() && #[trigger] mentioned@[q]@ == all_names@[p]@,
            i <= mentioned@.len(),
            ({
                let st = confusion_outer(mv, nv, i as nat);
                &&& issue_views(issues@) == st.issues
                &&& seen@.map_values(|p: (Vec<char>, Vec<char>)| (p.0@, p.1@)) == st.seen
            }),
        decreases mentioned.len() - i,
    {
        let name_a = &mentioned[i];
        let a_lower = to_lowercase(name_a.as_str());
        let a_lower_chars = chars_of(a_lower.as_str());
        let mut j: usize = 0;
        let ghost outer_st = confusion_outer(mv, nv, i as nat);
        while j < all_names.len()
            invariant
                nv == str_views(all_names@),
                mv == str_views(mentioned@),
                i < mentioned@.len(),
                name_a == &mentioned[i as int],
                a_lower@ == lowercase(name_a@),
                a_lower_chars@ == a_lower@,
                j <= all_names@.len(),
                ({
                    let st = confusion_inner(outer_st, mv[i as int], nv, j as nat, mv);
                    &&& issue_views(issues@) == st.issues
                    &&& seen@.map_values(|p: (Vec<char>, Vec<char>)| (p.0@, p.1@)) == st.seen
                }),
            decreases all_names.len() - j,
        {
            let name_b = &all_names[j];
            let ghost st0 = confusion_inner(outer_st, mv[i as int], nv, j as nat, mv);
            proof {
                assert(nv[j as int] == name_b@);
                assert(mv[i as int] == name_a@);
            }
            if !str_eq(name_b.as_str(), name_a.as_str()) {
                let b_chars = chars_of(name_b.as_str());
                let key: (Vec<char>, Vec<char>) = if lex_lt_chars(&b_chars, &a_lower_chars) {
                    (b_chars, chars_of(a_lower.as_str()))
                } else {
                    (chars_of(a_lower.as_str()), chars_of(name_b.as_str()))
                };
                if !seq_contains_key(&seen, &key) {
                    let mut in_mentioned = false;
                    let mut q: usize = 0;
                    while q < mentioned.len()
                        invariant
                            q <= mentioned@.len(),
                            mv == str_views(mentioned@),
                            in_mentioned == mv.take(q as int).contains(name_b@),
                        decreases mentioned.len() - q,
                    {
                        proof {
                            assert(mv.take(q + 1) =~= mv.take(q as int).push(mv[q as int]));
                            assert(mv[q as int] == mentioned@[q as int]@);
                        }
                        if str_eq(mentioned[q].as_str(), name_b.as_str()) {
                            in_mentioned = true;
                            proof {
                                assert(mv.take(q + 1)[q as int] == name_b@);
                            }
                        } else {
                            proof {
                                assert forall|t: int| 0 <= t < q + 1 && #[trigger] mv.take(q + 1)[t] == name_b@ implies mv.take(q as int).contains(name_b@) by {
                                    assert(t != q);
                                    assert(mv.take(q as int)[t] == name_b@);
                                }
                            }
                        }
                        q += 1;
                    }
                    proof {
                        assert(mv.take(mentioned@.len() as int) =~= mv);
                    }
                    if in_mentioned {
                        let ghost prev = seen@;
                        seen.push(key);
                        proof {
                            assert(seen@.map_values(|p: (Vec<char>, Vec<char>)| (p.0@, p.1@)) =~= prev.map_values(
                                |p: (Vec<char>, Vec<char>)| (p.0@, p.1@),
                            ).push((key.0@, key.1@)));
                        }
                    } else {
                        let b_lower = to_lowercase(name_b.as_str());
                        let d = edit_distance(a_lower.as_str(), b_lower.as_str());
                        if d > 0 && d <= 2 {
                            let mut detail = owned("'");
                            push_str(&mut detail, name_a.as_str());
                            push_str(&mut detail, "' mentioned — did you mean '");
                            push_str(&mut detail, name_b.as_str());
                            push_str(&mut detail, "'? (edit distance ");
                            let ds = decimal_string(d as u64);
                            push_str(&mut detail, ds.as_str());
                            push_str(&mut detail, ")");
                            let mut pair: Vec<String> = Vec::new();
                            pair.push(copy_string(name_a));
                            pair.push(copy_string(name_b));
                            proof {
                                assert(str_views(pair@) =~= seq![name_a@, name_b@]);
                            }
                            let issue = FactIssue {
                                issue_type: FactIssueType::SimilarName,
                                detail,
                                names: Some(pair),
                                distance: Some(d),
                                entity: None,
                                claim: None,
                                kg_fact: None,
                                valid_to: None,
                            };
                            push_issue(&mut issues, issue);
                            let ghost prev = seen@;
                            seen.push(key);
                            proof {
                                assert(seen@.map_values(|p: (Vec<char>, Vec<char>)| (p.0@, p.1@)) =~= prev.map_values(
                                    |p: (Vec<char>, Vec<char>)| (p.0@, p.1@),
                                ).push((key.0@, key.1@)));
                            }
                        }
                    }
                }
            }
            j += 1;
        }
        i += 1;
    }
    issues
}

// ---------------------------------------------------------------------------
// Whole reports
// ---------------------------------------------------------------------------

/// What a report on `text` holds: nothing for empty text; otherwise the
/// similar-name issues, then the graph contradictions.
pub open spec fn report_issues(
    text: Seq<char>,
    names: Seq<Seq<char>>,
    lookups: Seq<Option<Seq<EntityQueryResult>>>,
    now: Seq<char>,
) -> Seq<FactIssueView> {
    if text.len() == 0 {
        Seq::empty()
    } else {
        confusion_issues(text, names) + kg_issues(claims_spec(text), lookups, now)
    }
}

/// Every issue of the sequence is a similar-name issue.
pub open spec fn all_similar_name(s: Seq<FactIssueView>) -> bool {
    forall|k: int| 0 <= k < s.len() ==> (#[trigger] s[k]).issue_type == FactIssueType::SimilarName
}

proof fn lemma_confusion_inner_similar(
    st: ConfusionState,
    a: Seq<char>,
    names: Seq<Seq<char>>,
    j: nat,
    mentioned: Seq<Seq<char>>,
)
    requires
        all_similar_name(st.issues),
    ensures
        all_similar_name(confusion_inner(st, a, names, j, mentioned).issues),
    decreases j,
{
    if j > 0 && j <= names.len() {
        lemma_confusion_inner_similar(st, a, names, (j - 1) as nat, mentioned);
        let prev = confusion_inner(st, a, names, (j - 1) as nat, mentioned);
        let next = confusion_step(prev, a, names[j - 1], mentioned);
        assert forall|k: int| 0 <= k < next.issues.len() implies (#[trigger] next.issues[k]).issue_type
            == FactIssueType::SimilarName by {
            if k < prev.issues.len() {
                assert(next.issues[k] == prev.issues[k]);
            }
        }
    }
}

proof fn lemma_confusion_outer_similar(mentioned: Seq<Seq<char>>, names: Seq<Seq<char>>, i: nat)
    ensures
        all_similar_name(confusion_outer(mentioned, names, i).issues),
    decreases i,
{
    if i > 0 && i <= mentioned.len() {
        lemma_confusion_outer_similar(mentioned, names, (i - 1) as nat);
        lemma_confusion_inner_similar(
            confusion_outer(mentioned, names, (i - 1) as nat),
            mentioned[i - 1],
            names,
            names.len(),
            mentioned,
        );
    }
}

/// In a full report, every relationship mismatch names a fact the graph
/// returned as current for some claim's subject; when no returned fact is
/// current, the report has no relationship mismatch at all.
pub proof fn lemma_report_mismatch_from_current_fact(
    text: Seq<char>,
    names: Seq<Seq<char>>,
    lookups: Seq<Option<Seq<EntityQueryResult>>>,
    now: Seq<char>,
)
    ensures
        forall|k: int|
            0 <= k < report_issues(text, names, lookups, now).len() && (#[trigger] report_issues(
                text,
                names,
                lookups,
                now,
            )[k]).issue_type == FactIssueType::RelationshipMismatch ==> exists|n: int, j: int|
                0 <= n < lookups.len() && 0 <= j < lookup_facts(lookups[n]).len() && (#[trigger] lookup_facts(
                    lookups[n],
                )[j]).current && report_issues(text, names, lookups, now)[k].kg_fact == Some(
                    (lowercase(lookup_facts(lookups[n])[j].predicate@), lookup_facts(lookups[n])[j].object@),
                ),
        (forall|n: int, j: int|
            0 <= n < lookups.len() && 0 <= j < lookup_facts(lookups[n]).len() ==> !(#[trigger] lookup_facts(
                lookups[n],
            )[j]).current) ==> forall|k: int|
            0 <= k < report_issues(text, names, lookups, now).len() ==> (#[trigger] report_issues(
                text,
                names,
                lookups,
                now,
            )[k]).issue_type != FactIssueType::RelationshipMismatch,
{
    if text.len() > 0 {
        let ci = confusion_issues(text, names);
        let kg = kg_issues(claims_spec(text), lookups, now);
        let all = report_issues(text, names, lookups, now);
        let m = mentioned_names(names, text);
        if names.len() > 0 && m.len() > 0 {
            lemma_confusion_outer_similar(m, names, m.len());
        }
        lemma_kg_mismatch_from_current_fact(claims_spec(text), lookups, now);
        assert forall|k: int|
            0 <= k < all.len() && (#[trigger] all[k]).issue_type == FactIssueType::RelationshipMismatch implies exists|
            n: int,
            j: int,
        |
            0 <= n < lookups.len() && 0 <= j < lookup_facts(lookups[n]).len() && (#[trigger] lookup_facts(
                lookups[n],
            )[j]).current && all[k].kg_fact == Some(
                (lowercase(lookup_facts(lookups[n])[j].predicate@), lookup_facts(lookups[n])[j].object@),
            ) by {
            if k < ci.len() {
                assert(all[k] == ci[k]);
            } else {
                assert(all[k] == kg[k - ci.len()]);
            }
        }
        if forall|n: int, j: int|
            0 <= n < lookups.len() && 0 <= j < lookup_facts(lookups[n]).len() ==> !(#[trigger] lookup_facts(
                lookups[n],
            )[j]).current {
            assert forall|k: int| 0 <= k < all.len() implies (#[trigger] all[k]).issue_type
                != FactIssueType::RelationshipMismatch by {
                if k < ci.len() {
                    assert(all[k] == ci[k]);
                } else {
                    assert(all[k] == kg[k - ci.len()]);
                }
            }
        }
    }
}

/// What a graph-only report on `text` holds: nothing for empty text;
/// otherwise the graph contradictions alone.
pub open spec fn kg_report_issues(
    text: Seq<char>,
    lookups: Seq<Option<Seq<EntityQueryResult>>>,
    now: Seq<char>,
) -> Seq<FactIssueView> {
    if text.len() == 0 {
        Seq::empty()
    } else {
        kg_issues(claims_spec(text), lookups, now)
    }
}

/// Check text against the knowledge graph only (no entity-name confusion
/// check).  `lookups[i]` is the graph's answer about the subject of the
/// `i`-th claim of [`extract_claims`] (`None` when the lookup failed);
/// `now` is today's `YYYY-MM-DD` date.
pub fn check_text_with_kg(
    text: &str,
    lookups: &Vec<Option<Vec<EntityQueryResult>>>,
    now: &str,
) -> (r: FactCheckReport)
    requires
        lookups@.len() == claims_spec(text@).len(),
    ensures
        issue_views(r.issues@) == kg_report_issues(
            text@,
            lookups@.map_values(|o: Option<Vec<EntityQueryResult>>| match o {
                Some(v) => Some(v@),
                None => None,
            }),
            now@,
        ),
        r.claims_checked == if text@.len() == 0 { 0 } else { claim_count(text@) },
{
    if text.is_empty() {
        return FactCheckReport { issues: Vec::new(), claims_checked: 0 };
    }
    let claims_checked = claims_in_text(text);
    let claims = extract_claims(text);
    let issues = check_claims_against_facts(&claims, lookups, now);
    FactCheckReport { issues, claims_checked }
}

/// `l` is an answer the graph query may give about `subject`.
pub open spec fn lookup_ok<F: Fn(&str) -> Option<Vec<EntityQueryResult>>>(
    query: F,
    subject: Seq<char>,
    l: Option<Seq<EntityQueryResult>>,
) -> bool {
    exists|s: &str, r: Option<Vec<EntityQueryResult>>|
        s@ == subject && #[trigger] call_ensures(query, (s,), r) && l == match r {
            Some(v) => Some(v@),
            None => None,
        }
}

/// The answers `ls` are what the graph query gave for the subjects of the
/// claims of `text`, in order.
pub open spec fn lookups_ok<F: Fn(&str) -> Option<Vec<EntityQueryResult>>>(
    query: F,
    text: Seq<char>,
    ls: Seq<Option<Seq<EntityQueryResult>>>,
) -> bool {
    &&& ls.len() == claims_spec(text).len()
    &&& forall|i: int| 0 <= i < ls.len() ==> #[trigger] lookup_ok(query, claims_spec(text)[i].0, ls[i])
}

/// Check text against the registered names and the knowledge graph, asking
/// `query_entity` for the outgoing facts of each claim's subject (`None`
/// when the lookup fails); `now` is today's `YYYY-MM-DD` date.
pub fn check_text<F: Fn(&str) -> Option<Vec<EntityQueryResult>>>(
    text: &str,
    entity_names: &Vec<String>,
    query_entity: F,
    now: &str,
) -> (r: FactCheckReport)
    requires
        forall|s: &str| call_requires(query_entity, (s,)),
    ensures
        exists|ls: Seq<Option<Seq<EntityQueryResult>>>|
            #[trigger] lookups_ok(query_entity, text@, ls) && issue_views(r.issues@) == report_issues(
                text@,
                str_views(entity_names@),
                ls,
                now@,
            ),
        r.claims_checked == if text@.len() == 0 { 0 } else { claim_count(text@) },
{
    let claims = extract_claims(text);
    let ghost cs = claims_spec(text@);
    let mut lookups: Vec<Option<Vec<EntityQueryResult>>> = Vec::new();
    let mut k: usize = 0;
    while k < claims.len()
        invariant
            k <= claims@.len(),
            claim_views(claims@) == cs,
            cs == claims_spec(text@),
            forall|s: &str| call_requires(query_entity, (s,)),
            lookups@.len() == k,
            forall|i: int| 0 <= i < k ==> #[trigger] lookup_ok(query_entity, cs[i].0, lview(lookups@[i])),
        decreases claims.len() - k,
    {
        let answer = query_entity(claims[k].subject.as_str());
        proof {
            assert(cs[k as int].0 == claims@[k as int].subject@);
            assert(lookup_ok(query_entity, cs[k as int].0, lview(answer)));
        }
        lookups.push(answer);
        k += 1;
    }
    let ghost ls = lookups@.map_values(|o: Option<Vec<EntityQueryResult>>| lview(o));
    proof {
        assert(claim_views(claims@).len() == claims@.len());
        assert forall|i: int| 0 <= i < ls.len() implies #[trigger] lookup_ok(query_entity, claims_spec(text@)[i].0, ls[i]) by {
            assert(ls[i] == lview(lookups@[i]));
        }
        assert(lookups_ok(query_entity, text@, ls));
        assert(ls =~= lookups@.map_values(|o: Option<Vec<EntityQueryResult>>| match o {
            Some(v) => Some(v@),
            None => None,
        }));
    }
    let report = check_text_with_kg(text, &lookups, now);
    if text.is_empty() {
        return report;
    }
    let mut issues = check_entity_confusion(text, entity_names);
    let mut more = report.issues;
    let ghost a = issue_views(issues@);
    let ghost b = issue_views(more@);
    issues.append(&mut more);
    proof {
        assert(issue_views(issues@) =~= a + b);
    }
    FactCheckReport { issues, claims_checked: report.claims_checked }
}

pub open spec fn lview(o: Option<Vec<EntityQueryResult>>) -> Option<Seq<EntityQueryResult>> {
    match o {
        Some(v) => Some(v@),
        None => None,
    }
}

} // verus!
