//! The work frontier: which open actions an agent may pick up next, ranked
//! by urgency.
//!
//! An action is on the frontier while it is pending, in progress or failed,
//! unless another agent holds a lease on it.  Its score is `(5 - priority) *
//! 10` points, plus half a point per hour of age up to 20 points, plus 15
//! points while it is in progress.  Scores are kept exactly, in units of
//! 1/7200 of a point (one unit per second of age), and the frontier lists
//! the highest score first, equal scores in the order the actions came.
use vstd::prelude::*;
use crate::connect::opt_str;
use crate::text::{copy_string, str_eq};

verus! {

/// Where an action stands.
#[derive(Clone, Copy, Debug, PartialEq, Eq, Structural)]
pub enum ActionStatus {
    Pending,
    InProgress,
    Completed,
    Failed,
    Cancelled,
    Blocked,
}

/// An action on the work queue, as far as the frontier reads it: its id,
/// status, priority (1 is the most urgent) and creation time in seconds
/// since the Unix epoch.
#[derive(Debug)]
pub struct Action {
    pub id: String,
    pub status: ActionStatus,
    pub priority: u8,
    pub created_at: i64,
}

/// An action on the frontier with its score, in units of 1/7200 of a point.
#[derive(Debug)]
pub struct FrontierEntry {
    pub action: Action,
    pub score: i128,
}

/// Units of score per point: one unit per second of age.
pub const SCORE_UNITS_PER_POINT: i128 = 7200;

pub type ActionView = (Seq<char>, ActionStatus, u8, i64);

pub type EntryView = (ActionView, int);

pub open spec fn action_view(a: Action) -> ActionView {
    (a.id@, a.status, a.priority, a.created_at)
}

pub open spec fn actions_view(s: Seq<Action>) -> Seq<ActionView> {
    s.map_values(|a: Action| action_view(a))
}

pub open spec fn entries_view(s: Seq<FrontierEntry>) -> Seq<EntryView> {
    s.map_values(|e: FrontierEntry| (action_view(e.action), e.score as int))
}

pub open spec fn leases_view(s: Seq<(String, String)>) -> Seq<(Seq<char>, Seq<char>)> {
    s.map_values(|l: (String, String)| (l.0@, l.1@))
}

/// Still open: pending, in progress or failed.
pub open spec fn open_status(s: ActionStatus) -> bool {
    s == ActionStatus::Pending || s == ActionStatus::InProgress || s == ActionStatus::Failed
}

/// Some lease names the action and a holder other than `agent`.
pub open spec fn leased_elsewhere(id: Seq<char>, agent: Seq<char>, leases: Seq<(Seq<char>, Seq<char>)>) -> bool {
    exists|i: int| 0 <= i < leases.len() && #[trigger] leases[i].0 == id && leases[i].1 != agent
}

/// The action may go on the frontier of `agent` (any agent when `None`).
pub open spec fn included(a: ActionView, agent: Option<Seq<char>>, leases: Seq<(Seq<char>, Seq<char>)>) -> bool {
    open_status(a.1) && match agent {
        Some(g) => !leased_elsewhere(a.0, g, leases),
        None => true,
    }
}

/// The score of an action at `now` (seconds since the epoch), in units.
pub open spec fn action_score(a: ActionView, now: int) -> int {
    let age = now - a.3;
    (5 - a.2) * 72000 + (if age < 144000 { age } else { 144000 }) + (if a.1 == ActionStatus::InProgress {
        108000int
    } else {
        0int
    })
}

/// The included actions with their scores, in the order they came.
pub open spec fn candidates(
    v: Seq<ActionView>,
    agent: Option<Seq<char>>,
    leases: Seq<(Seq<char>, Seq<char>)>,
    now: int,
) -> Seq<EntryView>
    decreases v.len(),
{
    if v.len() == 0 {
        Seq::empty()
    } else {
        let c = candidates(v.drop_last(), agent, leases, now);
        if included(v.last(), agent, leases) {
            c.push((v.last(), action_score(v.last(), now)))
        } else {
            c
        }
    }
}

/// Where an entry goes among entries ranked by score: before the first one
/// with a lower score (after any with an equal one).
pub open spec fn score_slot(sorted: Seq<EntryView>, e: EntryView) -> int
    decreases sorted.len(),
{
    if sorted.len() == 0 || e.1 > sorted[0].1 {
        0
    } else {
        1 + score_slot(sorted.drop_first(), e)
    }
}

/// Entries ranked by score, highest first; equal scores keep their order.
pub open spec fn by_score(v: Seq<EntryView>) -> Seq<EntryView>
    decreases v.len(),
{
    if v.len() == 0 {
        Seq::empty()
    } else {
        let s = by_score(v.drop_last());
        s.insert(score_slot(s, v.last()), v.last())
    }
}

/// The frontier of `agent` at `now`.
pub open spec fn frontier(
    v: Seq<ActionView>,
    agent: Option<Seq<char>>,
    leases: Seq<(Seq<char>, Seq<char>)>,
    now: int,
) -> Seq<EntryView> {
    by_score(candidates(v, agent, leases, now))
}

/// Whether `action` may go on the frontier of `agent_id`: it is open, and
/// when an agent is named no lease gives it to another holder.
pub fn should_include(action: &Action, agent_id: Option<&str>, active_leases: &[(String, String)]) -> (r: bool)
    ensures
        r == included(action_view(*action), opt_str(agent_id), leases_view(active_leases@)),
{
    match action.status {
        ActionStatus::Completed | ActionStatus::Cancelled | ActionStatus::Blocked => false,
        ActionStatus::Pending | ActionStatus::InProgress | ActionStatus::Failed => {
            match agent_id {
                None => true,
                Some(aid) => {
                    let ghost lv = leases_view(active_leases@);
                    let mut i: usize = 0;
                    while i < active_leases.len()
                        invariant
                            i <= active_leases@.len(),
                            lv == leases_view(active_leases@),
                            agent_id == Some(aid),
                            open_status(action.status),
                            forall|j: int| 0 <= j < i ==> !(#[trigger] lv[j].0 == action.id@ && lv[j].1 != aid@),
                        decreases active_leases.len() - i,
                    {
                        let lease = &active_leases[i];
                        if str_eq(lease.0.as_str(), action.id.as_str()) && !str_eq(lease.1.as_str(), aid) {
                            proof {
                                assert(lv[i as int].0 == action.id@ && lv[i as int].1 != aid@);
                                assert(leased_elsewhere(action.id@, aid@, lv));
                            }
                            return false;
                        }
                        i += 1;
                    }
                    true
                },
            }
        },
    }
}

/// The score of `action` at `now` (seconds since the epoch), in units of
/// 1/7200 of a point.
pub fn compute_score(action: &Action, now: i64) -> (r: i128)
    ensures
        r == action_score(action_view(*action), now as int),
{
    let age: i128 = now as i128 - action.created_at as i128;
    let age_part: i128 = if age < 144000 { age } else { 144000 };
    let priority_part: i128 = (5 - action.priority as i128) * 72000;
    let mut score: i128 = priority_part + age_part;
    if action.status == ActionStatus::InProgress {
        score = score + 108000;
    }
    score
}

fn copy_action(a: &Action) -> (r: Action)
    ensures
        action_view(r) == action_view(*a),
{
    Action { id: copy_string(&a.id), status: a.status, priority: a.priority, created_at: a.created_at }
}

proof fn lemma_score_slot_bounds(sorted: Seq<EntryView>, e: EntryView)
    ensures
        0 <= score_slot(sorted, e) <= sorted.len(),
    decreases sorted.len(),
{
    if sorted.len() > 0 && !(e.1 > sorted[0].1) {
        lemma_score_slot_bounds(sorted.drop_first(), e);
    }
}

proof fn lemma_score_slot_prefix(sorted: Seq<EntryView>, e: EntryView, k: int)
    requires
        0 <= k <= sorted.len(),
        forall|j: int| 0 <= j < k ==> !(e.1 > #[trigger] sorted[j].1),
    ensures
        score_slot(sorted, e) == k + score_slot(sorted.skip(k), e),
    decreases k,
{
    if k == 0 {
        assert(sorted.skip(0) =~= sorted);
    } else {
        let t = sorted.drop_first();
        assert forall|j: int| 0 <= j < k - 1 implies !(e.1 > #[trigger] t[j].1) by {
            assert(t[j] == sorted[j + 1]);
        }
        lemma_score_slot_prefix(t, e, k - 1);
        assert(t.skip(k - 1) =~= sorted.skip(k));
    }
}

/// Rank the candidate entries by score (a stable insertion sort).
fn rank_by_score(v: Vec<FrontierEntry>) -> (r: Vec<FrontierEntry>)
    ensures
        entries_view(r@) == by_score(entries_view(v@)),
{
    let ghost all = entries_view(v@);
    let n = v.len();
    let mut rest = v;
    let mut out: Vec<FrontierEntry> = Vec::new();
    let mut k: usize = 0;
    proof {
        assert(all.take(0) =~= Seq::<EntryView>::empty());
        assert(entries_view(out@) =~= Seq::<EntryView>::empty());
        assert(entries_view(rest@) =~= all.skip(0));
    }
    while rest.len() > 0
        invariant
            k <= n,
            all.len() == n,
            entries_view(rest@) == all.skip(k as int),
            rest@.len() == n - k,
            entries_view(out@) == by_score(all.take(k as int)),
        decreases rest@.len(),
    {
        let ghost old_rest = rest@;
        let e = rest.remove(0);
        let ghost ev: EntryView = (action_view(e.action), e.score as int);
        proof {
            assert(rest@ =~= old_rest.drop_first());
            assert forall|i: int| 0 <= i < rest@.len() implies #[trigger] entries_view(rest@)[i] == all.skip(k + 1)[i] by {
                assert(entries_view(old_rest)[i + 1] == all.skip(k as int)[i + 1]);
            }
            assert(all.skip(k as int)[0] == ev);
            assert(all.take(k + 1).drop_last() =~= all.take(k as int));
            assert(all.take(k + 1).last() == ev);
            assert(entries_view(rest@) =~= all.skip(k + 1));
        }
        let ghost ov = entries_view(out@);
        let mut j: usize = 0;
        let mut stop = false;
        while j < out.len() && !stop
            invariant
                j <= out@.len(),
                ov == entries_view(out@),
                ev == (action_view(e.action), e.score as int),
                forall|i: int| 0 <= i < j ==> !(ev.1 > #[trigger] ov[i].1),
                stop ==> j < out@.len() && ev.1 > ov[j as int].1,
            decreases out@.len() - j + (if stop { 0int } else { 1int }),
        {
            if e.score > out[j].score {
                stop = true;
            } else {
                j += 1;
            }
        }
        proof {
            lemma_score_slot_prefix(ov, ev, j as int);
            if j < ov.len() {
                assert(ov.skip(j as int)[0] == ov[j as int]);
            } else {
                assert(ov.skip(j as int) =~= Seq::<EntryView>::empty());
            }
        }
        out.insert(j, e);
        proof {
            assert(entries_view(out@) =~= ov.insert(j as int, ev));
        }
        k += 1;
    }
    proof {
        assert(all.take(n as int) =~= all);
    }
    out
}

/// The frontier of `agent_id` at `now` (seconds since the epoch): the open
/// actions no other agent holds, with their scores, highest first.
pub fn compute_frontier_at(
    actions: &[Action],
    agent_id: Option<&str>,
    active_leases: &[(String, String)],
    now: i64,
) -> (r: Vec<FrontierEntry>)
    ensures
        entries_view(r@) == frontier(actions_view(actions@), opt_str(agent_id), leases_view(active_leases@), now as int),
{
    let ghost av = actions_view(actions@);
    let ghost agent = opt_str(agent_id);
    let ghost lv = leases_view(active_leases@);
    let mut entries: Vec<FrontierEntry> = Vec::new();
    let mut i: usize = 0;
    proof {
        assert(av.take(0) =~= Seq::<ActionView>::empty());
    }
    while i < actions.len()
        invariant
            i <= actions@.len(),
            av == actions_view(actions@),
            agent == opt_str(agent_id),
            lv == leases_view(active_leases@),
            entries_view(entries@) == candidates(av.take(i as int), agent, lv, now as int),
        decreases actions.len() - i,
    {
        let a = &actions[i];
        proof {
            assert(av.take(i + 1).drop_last() =~= av.take(i as int));
            assert(av.take(i + 1).last() == action_view(*a));
        }
        if should_include(a, agent_id, active_leases) {
            let score = compute_score(a, now);
            let ghost before = entries_view(entries@);
            entries.push(FrontierEntry { action: copy_action(a), score });
            proof {
                assert(entries_view(entries@) =~= before.push((action_view(*a), score as int)));
            }
        }
        i += 1;
    }
    proof {
        assert(av.take(actions@.len() as int) =~= av);
    }
    rank_by_score(entries)
}

proof fn lemma_by_score_len(v: Seq<EntryView>)
    ensures
        by_score(v).len() == v.len(),
    decreases v.len(),
{
    if v.len() > 0 {
        lemma_by_score_len(v.drop_last());
        lemma_score_slot_bounds(by_score(v.drop_last()), v.last());
    }
}

proof fn lemma_score_slot_char(sorted: Seq<EntryView>, e: EntryView)
    ensures
        forall|j: int| 0 <= j < score_slot(sorted, e) ==> !(e.1 > #[trigger] sorted[j].1),
        score_slot(sorted, e) < sorted.len() ==> e.1 > sorted[score_slot(sorted, e)].1,
    decreases sorted.len(),
{
    lemma_score_slot_bounds(sorted, e);
    if sorted.len() > 0 && !(e.1 > sorted[0].1) {
        let t = sorted.drop_first();
        lemma_score_slot_char(t, e);
        lemma_score_slot_bounds(t, e);
        assert forall|j: int| 0 <= j < score_slot(sorted, e) implies !(e.1 > #[trigger] sorted[j].1) by {
            if j > 0 {
                assert(sorted[j] == t[j - 1]);
            }
        }
        if score_slot(sorted, e) < sorted.len() {
            assert(sorted[score_slot(sorted, e)] == t[score_slot(t, e)]);
        }
    }
}

/// Ranked by score: no entry scores higher than one before it.
pub open spec fn ranked(s: Seq<EntryView>) -> bool {
    forall|i: int, j: int| 0 <= i < j < s.len() ==> #[trigger] s[i].1 >= #[trigger] s[j].1
}

/// Ranking by score keeps every entry, adds none, and puts a higher score
/// never after a lower one.
pub proof fn lemma_by_score_ranked(v: Seq<EntryView>)
    ensures
        ranked(by_score(v)),
        by_score(v).len() == v.len(),
        by_score(v).to_multiset() =~= v.to_multiset(),
    decreases v.len(),
{
    lemma_by_score_len(v);
    if v.len() > 0 {
        let p = v.drop_last();
        let e = v.last();
        lemma_by_score_ranked(p);
        let s = by_score(p);
        lemma_score_slot_bounds(s, e);
        lemma_score_slot_char(s, e);
        let k = score_slot(s, e);
        let r = s.insert(k, e);
        assert forall|i: int, j: int| 0 <= i < j < r.len() implies #[trigger] r[i].1 >= #[trigger] r[j].1 by {
            if j < k {
                assert(r[i] == s[i] && r[j] == s[j]);
            } else if j == k {
                assert(r[i] == s[i]);
            } else if i == k {
                assert(r[j] == s[j - 1]);
                if j - 1 > k {
                    assert(s[k].1 >= s[j - 1].1);
                }
            } else if i < k {
                assert(r[i] == s[i] && r[j] == s[j - 1]);
                if i < j - 1 {
                    assert(s[i].1 >= s[j - 1].1);
                }
            } else {
                assert(r[i] == s[i - 1] && r[j] == s[j - 1]);
            }
        }
        assert(by_score(v) == r);
        vstd::seq_lib::to_multiset_insert(s, k, e);
        assert(v =~= p.push(e));
        vstd::seq_lib::to_multiset_build(p, e);
        assert(r.to_multiset() =~= v.to_multiset());
    } else {
        assert(v =~= Seq::<EntryView>::empty());
        assert(by_score(v) =~= Seq::<EntryView>::empty());
    }
}

proof fn lemma_candidates_scored(
    v: Seq<ActionView>,
    agent: Option<Seq<char>>,
    leases: Seq<(Seq<char>, Seq<char>)>,
    now: int,
)
    ensures
        forall|x: EntryView|
            candidates(v, agent, leases, now).contains(x) ==> included(x.0, agent, leases) && x.1 == action_score(
                x.0,
                now,
            ) && v.contains(x.0),
        forall|a: ActionView|
            v.contains(a) && included(a, agent, leases) ==> candidates(v, agent, leases, now).contains(
                (a, action_score(a, now)),
            ),
    decreases v.len(),
{
    if v.len() > 0 {
        let p = v.drop_last();
        lemma_candidates_scored(p, agent, leases, now);
        let c = candidates(p, agent, leases, now);
        assert forall|x: EntryView| candidates(v, agent, leases, now).contains(x) implies included(
            x.0,
            agent,
            leases,
        ) && x.1 == action_score(x.0, now) && v.contains(x.0) by {
            let i = choose|i: int| 0 <= i < candidates(v, agent, leases, now).len() && candidates(v, agent, leases, now)[i] == x;
            if i < c.len() {
                assert(c[i] == x);
                assert(c.contains(x));
                let q = choose|q: int| 0 <= q < p.len() && p[q] == x.0;
                assert(v[q] == x.0);
            } else {
                assert(v[v.len() - 1] == x.0);
            }
        }
        assert forall|a: ActionView| v.contains(a) && included(a, agent, leases) implies candidates(
            v,
            agent,
            leases,
            now,
        ).contains((a, action_score(a, now))) by {
            let q = choose|q: int| 0 <= q < v.len() && v[q] == a;
            if q < p.len() {
                assert(p[q] == a);
                assert(p.contains(a));
                let i = choose|i: int| 0 <= i < c.len() && c[i] == (a, action_score(a, now));
                assert(candidates(v, agent, leases, now)[i] == (a, action_score(a, now)));
            } else {
                let cv = candidates(v, agent, leases, now);
                assert(cv[cv.len() - 1] == (a, action_score(a, now)));
            }
        }
    }
}

/// The frontier ranks by score, highest first; it holds exactly the open
/// actions that no lease gives to another agent, each once for each time it
/// came, with its score at `now`.
pub proof fn lemma_frontier_ranked(
    v: Seq<ActionView>,
    agent: Option<Seq<char>>,
    leases: Seq<(Seq<char>, Seq<char>)>,
    now: int,
)
    ensures
        ranked(frontier(v, agent, leases, now)),
        frontier(v, agent, leases, now).to_multiset() =~= candidates(v, agent, leases, now).to_multiset(),
        forall|i: int|
            0 <= i < frontier(v, agent, leases, now).len() ==> included(
                #[trigger] frontier(v, agent, leases, now)[i].0,
                agent,
                leases,
            ) && frontier(v, agent, leases, now)[i].1 == action_score(frontier(v, agent, leases, now)[i].0, now)
                && v.contains(frontier(v, agent, leases, now)[i].0),
        forall|a: ActionView|
            v.contains(a) && included(a, agent, leases) ==> #[trigger] frontier(v, agent, leases, now).contains(
                (a, action_score(a, now)),
            ),
{
    let c = candidates(v, agent, leases, now);
    let f = frontier(v, agent, leases, now);
    lemma_by_score_ranked(c);
    lemma_candidates_scored(v, agent, leases, now);
    assert forall|i: int| 0 <= i < f.len() implies included(#[trigger] f[i].0, agent, leases) && f[i].1
        == action_score(f[i].0, now) && v.contains(f[i].0) by {
        assert(f.contains(f[i]));
        vstd::seq_lib::to_multiset_contains(f, f[i]);
        vstd::seq_lib::to_multiset_contains(c, f[i]);
        assert(c.contains(f[i]));
    }
    assert forall|a: ActionView| v.contains(a) && included(a, agent, leases) implies #[trigger] f.contains(
        (a, action_score(a, now)),
    ) by {
        let x = (a, action_score(a, now));
        assert(c.contains(x));
        vstd::seq_lib::to_multiset_contains(c, x);
        vstd::seq_lib::to_multiset_contains(f, x);
    }
}

/// The current time in seconds since the Unix epoch, from the system
/// clock (0 before the epoch).  Nothing is stated of it.
fn utc_now_secs() -> i64 {
    let secs = crate::civil_date::now_unix_secs();
    if secs > 0x7fff_ffff_ffff_ffff {
        0x7fff_ffff_ffff_ffff
    } else {
        secs as i64
    }
}

/// The frontier of `agent_id` now: as [`compute_frontier_at`] at the
/// current time, whatever the clock reads.
pub fn compute_frontier(actions: &[Action], agent_id: Option<&str>, active_leases: &[(String, String)]) -> (r: Vec<
    FrontierEntry,
>)
    ensures
        exists|now: i64|
            entries_view(r@) == #[trigger] frontier(
                actions_view(actions@),
                opt_str(agent_id),
                leases_view(active_leases@),
                now as int,
            ),
{
    let now = utc_now_secs();
    compute_frontier_at(actions, agent_id, active_leases, now)
}

} // verus!
