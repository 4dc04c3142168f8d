//! Retrieval over the knowledge graph: a breadth-first walk from named
//! entities along the facts the graph gives for each, and the statistics
//! it reports.  The graph itself is asked through a query the caller
//! hands in.
use vstd::prelude::*;
use crate::text::{lowercase, owned, push_str, str_eq, str_views, to_lowercase};

verus! {

broadcast use vstd::string::group_string_axioms;

/// What the knowledge graph reports about itself.
pub struct KgStats {
    pub total_entities: usize,
    pub total_triples: usize,
    pub current_facts: usize,
    pub expired_facts: usize,
    pub relationship_types: Vec<String>,
}

/// The statistics as named counts, in this order: entities, triples,
/// current facts, expired facts, relationship types.
pub open spec fn stats_entries(s: KgStats) -> Seq<(Seq<char>, usize)> {
    seq![
        ("total_entities"@, s.total_entities),
        ("total_triples"@, s.total_triples),
        ("current_facts"@, s.current_facts),
        ("expired_facts"@, s.expired_facts),
        ("relationship_types"@, s.relationship_types@.len() as usize),
    ]
}

/// The graph's statistics as named counts.
pub fn graph_stats(stats: &KgStats) -> (r: Vec<(String, usize)>)
    ensures
        r@.map_values(|e: (String, usize)| (e.0@, e.1)) == stats_entries(*stats),
{
    let mut r: Vec<(String, usize)> = Vec::new();
    r.push((owned("total_entities"), stats.total_entities));
    r.push((owned("total_triples"), stats.total_triples));
    r.push((owned("current_facts"), stats.current_facts));
    r.push((owned("expired_facts"), stats.expired_facts));
    r.push((owned("relationship_types"), stats.relationship_types.len()));
    proof {
        assert(r@.map_values(|e: (String, usize)| (e.0@, e.1)) =~= stats_entries(*stats));
    }
    r
}

// ---------------------------------------------------------------------------
// Facts and relationships
// ---------------------------------------------------------------------------

/// A fact the graph gives about an entity; `direction` is `outgoing` when
/// the entity is the subject.  `C` is the confidence's type.
pub struct GraphFact<C> {
    pub subject: String,
    pub predicate: String,
    pub object: String,
    pub direction: String,
    pub confidence: Option<C>,
    pub current: bool,
}

/// A relationship found by a walk.
pub struct RelationshipInfo<C> {
    pub subject: String,
    pub predicate: String,
    pub object: String,
    pub confidence: Option<C>,
    pub current: bool,
}

/// What a walk found: the entities it visited (by the names it recorded
/// them under), the relationships, and the depth it was allowed.
pub struct GraphRetrievalResult<C> {
    pub entities: Vec<String>,
    pub relationships: Vec<RelationshipInfo<C>>,
    pub depth: usize,
}

pub type RelView<C> = (Seq<char>, Seq<char>, Seq<char>, Option<C>, bool);

pub open spec fn fact_rel<C>(f: GraphFact<C>) -> RelView<C> {
    (f.subject@, f.predicate@, f.object@, f.confidence, f.current)
}

pub open spec fn rel_view<C>(r: RelationshipInfo<C>) -> RelView<C> {
    (r.subject@, r.predicate@, r.object@, r.confidence, r.current)
}

/// The key an edge is recognised by: `subject|predicate|object`.
pub open spec fn edge_key<C>(f: GraphFact<C>) -> Seq<char> {
    f.subject@ + "|"@ + f.predicate@ + "|"@ + f.object@
}

/// The entity at the other end of a fact.
pub open spec fn other_end<C>(f: GraphFact<C>) -> Seq<char> {
    if f.direction@ == "outgoing"@ {
        f.object@
    } else {
        f.subject@
    }
}

/// How a starting name is recorded: lower-cased, spaces as `_`, without
/// apostrophes.
pub open spec fn entity_key(name: Seq<char>) -> Seq<char> {
    strip_apostrophes(lowercase(name).map_values(|c: char| if c == ' ' { '_' } else { c }))
}

pub open spec fn strip_apostrophes(s: Seq<char>) -> Seq<char>
    decreases s.len(),
{
    if s.len() == 0 {
        s
    } else if s.last() == '\'' {
        strip_apostrophes(s.drop_last())
    } else {
        strip_apostrophes(s.drop_last()).push(s.last())
    }
}

// ---------------------------------------------------------------------------
// The walk
// ---------------------------------------------------------------------------

/// A walk in progress: the queue (entity and depth), the entities
/// recorded, the edges seen, the relationships found, and the entities
/// asked about so far.
pub type WalkState<C> = (
    Seq<(Seq<char>, nat)>,
    Seq<Seq<char>>,
    Seq<Seq<char>>,
    Seq<RelView<C>>,
    Seq<Seq<char>>,
);

/// Taking in one fact about an entity at depth `d`: a new edge adds its
/// relationship, and its other end, when not recorded yet and the depth
/// allows, is recorded (lower-cased) and queued one level deeper.
pub open spec fn absorb<C>(st: WalkState<C>, f: GraphFact<C>, d: nat, max_depth: nat) -> WalkState<C> {
    let key = edge_key(f);
    if st.2.contains(key) {
        st
    } else {
        let other = other_end(f);
        let ol = lowercase(other);
        let add = !st.1.contains(ol) && d < max_depth;
        (
            if add {
                st.0.push((other, d + 1))
            } else {
                st.0
            },
            if add {
                st.1.push(ol)
            } else {
                st.1
            },
            st.2.push(key),
            st.3.push(fact_rel(f)),
            st.4,
        )
    }
}

pub open spec fn absorb_all<C>(st: WalkState<C>, facts: Seq<GraphFact<C>>, d: nat, max_depth: nat) -> WalkState<C>
    decreases facts.len(),
{
    if facts.len() == 0 {
        st
    } else {
        absorb(absorb_all(st, facts.drop_last(), d, max_depth), facts.last(), d, max_depth)
    }
}

/// The walk run on the graph's answers, in the order the entities are
/// asked about: `(0, state)` when it finished (queue empty, or at least
/// `limit` relationships), `(1, _)` when an answer was a failed lookup,
/// `(2, _)` when the answers ran out first.
pub open spec fn walk<C>(st: WalkState<C>, answers: Seq<Option<Seq<GraphFact<C>>>>, max_depth: nat, limit: nat) -> (
    nat,
    WalkState<C>,
)
    decreases answers.len(), st.0.len(),
{
    if st.0.len() == 0 {
        (0, st)
    } else {
        let (name, d) = st.0[0];
        let st1 = (st.0.drop_first(), st.1, st.2, st.3, st.4);
        if d > max_depth {
            walk(st1, answers, max_depth, limit)
        } else if answers.len() == 0 {
            (2, st1)
        } else {
            let asked = (st1.0, st1.1, st1.2, st1.3, st1.4.push(name));
            match answers[0] {
                None => (1, asked),
                Some(facts) => {
                    let st2 = absorb_all(asked, facts, d, max_depth);
                    if st2.3.len() >= limit {
                        (0, st2)
                    } else {
                        walk(st2, answers.drop_first(), max_depth, limit)
                    }
                },
            }
        }
    }
}

/// The starting names' keys, each once.
pub open spec fn start_keys(names: Seq<Seq<char>>) -> Seq<Seq<char>>
    decreases names.len(),
{
    if names.len() == 0 {
        Seq::empty()
    } else {
        let p = start_keys(names.drop_last());
        let k = entity_key(names.last());
        if p.contains(k) {
            p
        } else {
            p.push(k)
        }
    }
}

/// The walk's start: every name queued at depth 0, their keys recorded.
pub open spec fn walk_start<C>(names: Seq<Seq<char>>) -> WalkState<C> {
    (names.map_values(|n: Seq<char>| (n, 0nat)), start_keys(names), Seq::empty(), Seq::empty(), Seq::empty())
}

/// `a` is an answer the query may give about `name`.
pub open spec fn answer_ok<C, F: Fn(&str) -> Option<Vec<GraphFact<C>>>>(
    query: F,
    name: Seq<char>,
    a: Option<Seq<GraphFact<C>>>,
) -> bool {
    exists|s: &str, r: Option<Vec<GraphFact<C>>>|
        s@ == name && #[trigger] call_ensures(query, (s,), r) && a == match r {
            Some(v) => Some(v@),
            None => None,
        }
}

/// The answers are what the query gave for the entities asked about, in
/// order.
pub open spec fn answers_ok<C, F: Fn(&str) -> Option<Vec<GraphFact<C>>>>(
    query: F,
    asked: Seq<Seq<char>>,
    answers: Seq<Option<Seq<GraphFact<C>>>>,
) -> bool {
    &&& asked.len() == answers.len()
    &&& forall|k: int| 0 <= k < answers.len() ==> #[trigger] answer_ok(query, asked[k], answers[k])
}

/// The number of queued entries at a depth.
pub open spec fn at_depth(q: Seq<(Seq<char>, nat)>, i: nat) -> nat
    decreases q.len(),
{
    if q.len() == 0 {
        0
    } else {
        (if q[0].1 == i {
            1nat
        } else {
            0nat
        }) + at_depth(q.drop_first(), i)
    }
}

proof fn lemma_at_depth_push(q: Seq<(Seq<char>, nat)>, x: (Seq<char>, nat), i: nat)
    ensures
        at_depth(q.push(x), i) == at_depth(q, i) + (if x.1 == i {
            1nat
        } else {
            0nat
        }),
    decreases q.len(),
{
    if q.len() == 0 {
        assert(q.push(x).drop_first() =~= Seq::<(Seq<char>, nat)>::empty());
        assert(at_depth(Seq::<(Seq<char>, nat)>::empty(), i) == 0);
        assert(q.push(x)[0] == x);
    } else {
        assert(q.push(x).drop_first() =~= q.drop_first().push(x));
        assert(q.push(x)[0] == q[0]);
        lemma_at_depth_push(q.drop_first(), x, i);
    }
}

pub open spec fn queue_view(q: Seq<(String, usize)>) -> Seq<(Seq<char>, nat)> {
    q.map_values(|e: (String, usize)| (e.0@, e.1 as nat))
}

pub open spec fn rel_views<C>(v: Seq<RelationshipInfo<C>>) -> Seq<RelView<C>> {
    v.map_values(|r: RelationshipInfo<C>| rel_view(r))
}

fn contains_string(v: &Vec<String>, s: &str) -> (r: bool)
    ensures
        r == str_views(v@).contains(s@),
{
    let mut k: usize = 0;
    while k < v.len()
        invariant
            k <= v@.len(),
            forall|i: int| 0 <= i < k ==> str_views(v@)[i] != s@,
        decreases v.len() - k,
    {
        if str_eq(v[k].as_str(), s) {
            proof {
                assert(str_views(v@)[k as int] == s@);
            }
            return true;
        }
        k += 1;
    }
    false
}

fn entity_key_exec(name: &str) -> (r: String)
    ensures
        r@ == entity_key(name@),
{
    let low = to_lowercase(name);
    let cs = crate::text::chars_of(low.as_str());
    let ghost under = low@.map_values(|c: char| if c == ' ' { '_' } else { c });
    let mut out = String::new();
    let mut k: usize = 0;
    proof {
        assert(under.take(0) =~= Seq::<char>::empty());
    }
    while k < cs.len()
        invariant
            k <= cs@.len(),
            cs@ == low@,
            under == low@.map_values(|c: char| if c == ' ' { '_' } else { c }),
            out@ == strip_apostrophes(under.take(k as int)),
        decreases cs.len() - k,
    {
        let c = cs[k];
        let c2 = if c == ' ' {
            '_'
        } else {
            c
        };
        proof {
            assert(under.take(k + 1).drop_last() =~= under.take(k as int));
            assert(under.take(k + 1).last() == c2);
        }
        if c2 != '\'' {
            crate::text::push_char(&mut out, c2);
        }
        k += 1;
    }
    proof {
        assert(under.take(cs@.len() as int) =~= under);
    }
    out
}

fn copy_rel<C: Copy>(f: &GraphFact<C>) -> (r: RelationshipInfo<C>)
    ensures
        rel_view(r) == fact_rel(*f),
{
    RelationshipInfo {
        subject: crate::text::copy_string(&f.subject),
        predicate: crate::text::copy_string(&f.predicate),
        object: crate::text::copy_string(&f.object),
        confidence: f.confidence,
        current: f.current,
    }
}

fn edge_key_exec<C>(f: &GraphFact<C>) -> (r: String)
    ensures
        r@ == edge_key(*f),
{
    let mut k = crate::text::copy_string(&f.subject);
    push_str(&mut k, "|");
    push_str(&mut k, f.predicate.as_str());
    push_str(&mut k, "|");
    push_str(&mut k, f.object.as_str());
    k
}

/// The walk's state as the working values hold it.
pub open spec fn state_of<C>(
    queue: Seq<(String, usize)>,
    head: int,
    seen: Seq<String>,
    edges: Seq<String>,
    rels: Seq<RelationshipInfo<C>>,
    asked: Seq<Seq<char>>,
) -> WalkState<C> {
    (queue_view(queue).skip(head), str_views(seen), str_views(edges), rel_views(rels), asked)
}

/// A walk's answers are consistent with the query and lead to `outcome`.
pub open spec fn walk_ok<C, F: Fn(&str) -> Option<Vec<GraphFact<C>>>>(
    query: F,
    names: Seq<Seq<char>>,
    max_depth: nat,
    limit: nat,
    answers: Seq<Option<Seq<GraphFact<C>>>>,
) -> bool {
    answers_ok(query, walk(walk_start::<C>(names), answers, max_depth, limit).1.4, answers)
}

proof fn lemma_absorb_keeps<C>(st: WalkState<C>, f: GraphFact<C>, d: nat, max_depth: nat, i: nat)
    requires
        i <= d,
    ensures
        at_depth(absorb(st, f, d, max_depth).0, i) == at_depth(st.0, i),
        absorb(st, f, d, max_depth).4 == st.4,
        forall|j: int| 0 <= j < st.0.len() ==> absorb(st, f, d, max_depth).0[j] == st.0[j],
        absorb(st, f, d, max_depth).0.len() >= st.0.len(),
{
    let key = edge_key(f);
    if !st.2.contains(key) {
        let other = other_end(f);
        let ol = lowercase(other);
        if !st.1.contains(ol) && d < max_depth {
            lemma_at_depth_push(st.0, (other, d + 1), i);
        }
    }
}

proof fn lemma_walk_step<C>(st: WalkState<C>, a: Option<Seq<GraphFact<C>>>, fut: Seq<Option<Seq<GraphFact<C>>>>, max_depth: nat, limit: nat)
    requires
        st.0.len() > 0,
        st.0[0].1 <= max_depth,
    ensures
        walk(st, seq![a] + fut, max_depth, limit) == (match a {
            None => (1nat, (st.0.drop_first(), st.1, st.2, st.3, st.4.push(st.0[0].0))),
            Some(facts) => {
                let st2 = absorb_all((st.0.drop_first(), st.1, st.2, st.3, st.4.push(st.0[0].0)), facts, st.0[0].1, max_depth);
                if st2.3.len() >= limit {
                    (0nat, st2)
                } else {
                    walk(st2, fut, max_depth, limit)
                }
            },
        }),
{
    assert((seq![a] + fut)[0] == a);
    assert((seq![a] + fut).drop_first() =~= fut);
}

pub open spec fn names_of(v: Seq<&str>) -> Seq<Seq<char>> {
    v.map_values(|s: &str| s@)
}

pub open spec fn depth_cap(depth: usize) -> nat {
    if depth < 5 {
        depth as nat
    } else {
        5
    }
}

/// What a walk returns for its outcome: nothing when a lookup failed;
/// otherwise the recorded entities, the relationships cut to `limit`, and
/// the depth allowed.
pub open spec fn result_matches<C>(r: Option<GraphRetrievalResult<C>>, w: (nat, WalkState<C>), max_depth: nat, limit: nat) -> bool {
    match r {
        None => w.0 == 1,
        Some(res) => w.0 == 0 && res.depth == max_depth && str_views(res.entities@) == w.1.1 && rel_views(
            res.relationships@,
        ) == (if w.1.3.len() > limit {
            w.1.3.take(limit as int)
        } else {
            w.1.3
        }),
    }
}

fn finish<C>(seen: Vec<String>, rels: Vec<RelationshipInfo<C>>, limit: usize, max_depth: usize) -> (r: GraphRetrievalResult<C>)
    ensures
        str_views(r.entities@) == str_views(seen@),
        r.depth == max_depth,
        rel_views(r.relationships@) == (if rels@.len() > limit {
            rel_views(rels@).take(limit as int)
        } else {
            rel_views(rels@)
        }),
{
    let mut rels = rels;
    let ghost before = rels@;
    rels.truncate(limit);
    proof {
        if before.len() > limit {
            assert(rel_views(rels@) =~= rel_views(before).take(limit as int));
        } else {
            assert(rels@ =~= before);
        }
    }
    GraphRetrievalResult { entities: seen, relationships: rels, depth: max_depth }
}

/// Walk the graph breadth-first from the named entities, up to `depth`
/// levels (at most 5), stopping once `limit` relationships are found (the
/// result is cut to `limit`).  `query_entity` gives the facts about an
/// entity, both directions (`None` when the lookup fails, which fails the
/// walk).
pub fn search_by_entities<C: Copy, F: Fn(&str) -> Option<Vec<GraphFact<C>>>>(
    query_entity: F,
    entity_names: &[&str],
    depth: usize,
    limit: usize,
) -> (r: Option<GraphRetrievalResult<C>>)
    requires
        forall|s: &str| call_requires(query_entity, (s,)),
    ensures
        exists|ans: Seq<Option<Seq<GraphFact<C>>>>|
            #[trigger] walk_ok(query_entity, names_of(entity_names@), depth_cap(depth), limit as nat, ans)
                && result_matches(
                r,
                walk(walk_start::<C>(names_of(entity_names@)), ans, depth_cap(depth), limit as nat),
                depth_cap(depth),
                limit as nat,
            ),
{
    let max_depth: usize = if depth < 5 {
        depth
    } else {
        5
    };
    let ghost maxd = depth_cap(depth);
    let ghost lim = limit as nat;
    let ghost names = names_of(entity_names@);
    let mut queue: Vec<(String, usize)> = Vec::new();
    let mut seen: Vec<String> = Vec::new();
    let mut i: usize = 0;
    proof {
        assert(names.take(0) =~= Seq::<Seq<char>>::empty());
        assert(queue_view(queue@) =~= Seq::<(Seq<char>, nat)>::empty());
        assert(str_views(seen@) =~= Seq::<Seq<char>>::empty());
    }
    while i < entity_names.len()
        invariant
            i <= entity_names@.len(),
            names == names_of(entity_names@),
            queue_view(queue@) == names.take(i as int).map_values(|n: Seq<char>| (n, 0nat)),
            forall|j: int| 0 <= j < queue@.len() ==> queue@[j].1 == 0,
            str_views(seen@) == start_keys(names.take(i as int)),
        decreases entity_names.len() - i,
    {
        let n = entity_names[i];
        proof {
            assert(names.take(i + 1).drop_last() =~= names.take(i as int));
            assert(names.take(i + 1).last() == n@);
        }
        let ghost q0 = queue@;
        queue.push((owned(n), 0));
        proof {
            assert(queue_view(queue@) =~= queue_view(q0).push((n@, 0nat)));
            assert(names.take(i + 1).map_values(|n: Seq<char>| (n, 0nat)) =~= names.take(i as int).map_values(
                |n: Seq<char>| (n, 0nat),
            ).push((n@, 0nat)));
            assert(queue_view(queue@) =~= names.take(i + 1).map_values(|n: Seq<char>| (n, 0nat)));
        }
        let key = entity_key_exec(n);
        if !contains_string(&seen, key.as_str()) {
            let ghost s0 = seen@;
            seen.push(key);
            proof {
                assert(str_views(seen@) =~= str_views(s0).push(entity_key(n@)));
            }
        }
        i += 1;
    }
    proof {
        assert(names.take(entity_names@.len() as int) =~= names);
        assert(queue_view(queue@).skip(0) =~= queue_view(queue@));
    }
    let mut edges: Vec<String> = Vec::new();
    let mut rels: Vec<RelationshipInfo<C>> = Vec::new();
    let ghost mut asked: Seq<Seq<char>> = Seq::empty();
    let ghost mut ans: Seq<Option<Seq<GraphFact<C>>>> = Seq::empty();
    let ghost start = walk_start::<C>(names);
    let mut head: usize = 0;
    proof {
        assert(str_views(edges@) =~= Seq::<Seq<char>>::empty());
        assert(rel_views(rels@) =~= Seq::<RelView<C>>::empty());
        assert(state_of(queue@, 0, seen@, edges@, rels@, asked) == start);
        assert forall|fut: Seq<Option<Seq<GraphFact<C>>>>| #[trigger] walk(start, ans + fut, maxd, lim) == walk(
            state_of(queue@, head as int, seen@, edges@, rels@, asked),
            fut,
            maxd,
            lim,
        ) by {
            assert(ans + fut =~= fut);
        }
    }
    while head < queue.len()
        invariant
            head <= queue@.len(),
            max_depth == maxd,
            maxd <= 5,
            maxd == depth_cap(depth),
            lim == limit as nat,
            start == walk_start::<C>(names),
            names == names_of(entity_names@),
            forall|s: &str| call_requires(query_entity, (s,)),
            forall|j: int| 0 <= j < queue@.len() ==> queue@[j].1 <= max_depth,
            forall|fut: Seq<Option<Seq<GraphFact<C>>>>| #[trigger] walk(start, ans + fut, maxd, lim) == walk(
                state_of(queue@, head as int, seen@, edges@, rels@, asked),
                fut,
                maxd,
                lim,
            ),
            answers_ok(query_entity, asked, ans),
        decreases
            at_depth(queue_view(queue@).skip(head as int), 0),
            at_depth(queue_view(queue@).skip(head as int), 1),
            at_depth(queue_view(queue@).skip(head as int), 2),
            at_depth(queue_view(queue@).skip(head as int), 3),
            at_depth(queue_view(queue@).skip(head as int), 4),
            at_depth(queue_view(queue@).skip(head as int), 5),
    {
        let ghost cur0 = state_of(queue@, head as int, seen@, edges@, rels@, asked);
        let ghost qv0 = queue_view(queue@);
        let name = crate::text::copy_string(&queue[head].0);
        let d = queue[head].1;
        proof {
            assert(cur0.0[0] == (name@, d as nat));
            assert(cur0.0.drop_first() =~= qv0.skip(head + 1));
        }
        head += 1;
        let answer = query_entity(name.as_str());
        let ghost a = match &answer {
            Some(v) => Some(v@),
            None => None::<Seq<GraphFact<C>>>,
        };
        proof {
            assert(answer_ok(query_entity, name@, a));
        }
        let facts = match answer {
            None => {
                proof {
                    let fut0 = Seq::<Option<Seq<GraphFact<C>>>>::empty();
                    lemma_walk_step(cur0, a, fut0, maxd, lim);
                    assert(ans.push(a) =~= ans + (seq![a] + fut0));
                    assert(walk(start, ans + (seq![a] + fut0), maxd, lim) == walk(cur0, seq![a] + fut0, maxd, lim));
                    let ans2 = ans.push(a);
                    let asked2 = asked.push(name@);
                    assert(walk(start, ans2, maxd, lim).1.4 == asked2);
                    assert forall|k: int| 0 <= k < ans2.len() implies #[trigger] answer_ok(query_entity, asked2[k], ans2[k]) by {
                        if k < ans.len() {
                            assert(asked2[k] == asked[k] && ans2[k] == ans[k]);
                        }
                    }
                    assert(walk_ok(query_entity, names, maxd, lim, ans2));
                    assert(walk(start, ans2, maxd, lim).0 == 1);
                    assert(result_matches(None::<GraphRetrievalResult<C>>, walk(start, ans2, maxd, lim), maxd, lim));
                    assert(walk_ok(query_entity, names_of(entity_names@), depth_cap(depth), limit as nat, ans2)
                        && result_matches(
                        None::<GraphRetrievalResult<C>>,
                        walk(walk_start::<C>(names_of(entity_names@)), ans2, depth_cap(depth), limit as nat),
                        depth_cap(depth),
                        limit as nat,
                    ));
                }
                return None;
            },
            Some(v) => v,
        };
        let ghost st1 = (cur0.0.drop_first(), cur0.1, cur0.2, cur0.3, cur0.4.push(name@));
        proof {
            asked = asked.push(name@);
        }
        let mut k: usize = 0;
        proof {
            assert(facts@.take(0) =~= Seq::<GraphFact<C>>::empty());
            assert(state_of(queue@, head as int, seen@, edges@, rels@, asked) == st1);
        }
        while k < facts.len()
            invariant
                k <= facts@.len(),
                head <= queue@.len(),
                d <= max_depth,
                max_depth == maxd,
                maxd <= 5,
                forall|j: int| 0 <= j < queue@.len() ==> queue@[j].1 <= max_depth,
                state_of(queue@, head as int, seen@, edges@, rels@, asked) == absorb_all(st1, facts@.take(k as int), d as nat, maxd),
                forall|i: nat| i <= d ==> #[trigger] at_depth(queue_view(queue@).skip(head as int), i) == at_depth(st1.0, i),
                queue_view(queue@).len() >= qv0.len(),
                forall|j: int| 0 <= j < qv0.len() ==> queue_view(queue@)[j] == qv0[j],
            decreases facts.len() - k,
        {
            let f = &facts[k];
            let ghost before = state_of(queue@, head as int, seen@, edges@, rels@, asked);
            proof {
                assert(facts@.take(k + 1).drop_last() =~= facts@.take(k as int));
                assert(facts@.take(k + 1).last() == *f);
            }
            let key = edge_key_exec(f);
            if !contains_string(&edges, key.as_str()) {
                let other: &str = if str_eq(f.direction.as_str(), "outgoing") {
                    f.object.as_str()
                } else {
                    f.subject.as_str()
                };
                let ol = to_lowercase(other);
                if !contains_string(&seen, ol.as_str()) && d < max_depth {
                    let ghost q0 = queue@;
                    queue.push((owned(other), d + 1));
                    let ghost s0 = seen@;
                    seen.push(ol);
                    proof {
                        assert(queue_view(queue@) =~= queue_view(q0).push((other@, (d + 1) as nat)));
                        assert(queue_view(queue@).skip(head as int) =~= queue_view(q0).skip(head as int).push((other@, (d + 1) as nat)));
                        assert(str_views(seen@) =~= str_views(s0).push(ol@));
                    }
                }
                let ghost e0 = edges@;
                edges.push(key);
                let ghost r0 = rels@;
                rels.push(copy_rel(f));
                proof {
                    assert(str_views(edges@) =~= str_views(e0).push(edge_key(*f)));
                    assert(rel_views(rels@) =~= rel_views(r0).push(fact_rel(*f)));
                }
            }
            proof {
                assert(state_of(queue@, head as int, seen@, edges@, rels@, asked) =~~= absorb(before, *f, d as nat, maxd));
                assert forall|i: nat| i <= d implies #[trigger] at_depth(queue_view(queue@).skip(head as int), i) == at_depth(st1.0, i) by {
                    lemma_absorb_keeps(before, *f, d as nat, maxd, i);
                    assert(queue_view(queue@).skip(head as int) == absorb(before, *f, d as nat, maxd).0);
                    assert(at_depth(before.0, i) == at_depth(st1.0, i));
                }
            }
            k += 1;
        }
        proof {
            assert(facts@.take(facts@.len() as int) =~= facts@);
            let cur2 = state_of(queue@, head as int, seen@, edges@, rels@, asked);
            assert forall|fut: Seq<Option<Seq<GraphFact<C>>>>| #[trigger] walk(start, ans.push(a) + fut, maxd, lim) == (if cur2.3.len() >= lim {
                (0nat, cur2)
            } else {
                walk(cur2, fut, maxd, lim)
            }) by {
                assert(ans.push(a) + fut =~= ans + (seq![a] + fut));
                assert(walk(start, ans + (seq![a] + fut), maxd, lim) == walk(cur0, seq![a] + fut, maxd, lim));
                lemma_walk_step(cur0, a, fut, maxd, lim);
            }
            let ans2 = ans.push(a);
            assert forall|kk: int| 0 <= kk < ans2.len() implies #[trigger] answer_ok(query_entity, asked[kk], ans2[kk]) by {
                if kk < ans.len() {
                    assert(ans2[kk] == ans[kk]);
                }
            }
            ans = ans2;
        }
        if rels.len() >= limit {
            proof {
                let cur2 = state_of(queue@, head as int, seen@, edges@, rels@, asked);
                assert(ans + Seq::<Option<Seq<GraphFact<C>>>>::empty() =~= ans);
                assert(walk(start, ans + Seq::<Option<Seq<GraphFact<C>>>>::empty(), maxd, lim) == (0nat, cur2));
                assert(walk_ok(query_entity, names, maxd, lim, ans));
            }
            let res = finish(seen, rels, limit, max_depth);
            proof {
                assert(walk_ok(query_entity, names_of(entity_names@), depth_cap(depth), limit as nat, ans)
                    && result_matches(
                    Some(res),
                    walk(walk_start::<C>(names_of(entity_names@)), ans, depth_cap(depth), limit as nat),
                    depth_cap(depth),
                    limit as nat,
                ));
            }
            return Some(res);
        }
        proof {
            // the decreases measure: one entry at depth `d` left the queue,
            // the new entries are deeper.
            assert forall|i: nat| i <= d implies #[trigger] at_depth(queue_view(queue@).skip(head as int), i) == at_depth(
                qv0.skip(head - 1),
                i,
            ) - (if i == d as nat {
                1nat
            } else {
                0nat
            }) by {
                assert(qv0.skip(head - 1)[0] == (name@, d as nat));
                assert(qv0.skip(head - 1).drop_first() =~= qv0.skip(head as int));
            }
        }
    }
    proof {
        let cur = state_of(queue@, head as int, seen@, edges@, rels@, asked);
        assert(cur.0.len() == 0);
        assert(ans + Seq::<Option<Seq<GraphFact<C>>>>::empty() =~= ans);
        assert(walk(start, ans + Seq::<Option<Seq<GraphFact<C>>>>::empty(), maxd, lim) == (0nat, cur));
        assert(walk_ok(query_entity, names, maxd, lim, ans));
    }
    Some(finish(seen, rels, limit, max_depth))
}

// ---------------------------------------------------------------------------
// Several walks, and facts by predicate
// ---------------------------------------------------------------------------

/// `res` is a result a walk from `name` may give.
pub open spec fn walk_result_ok<C, F: Fn(&str) -> Option<Vec<GraphFact<C>>>>(
    query: F,
    name: Seq<char>,
    depth: usize,
    limit: usize,
    res: Option<GraphRetrievalResult<C>>,
) -> bool {
    exists|ans: Seq<Option<Seq<GraphFact<C>>>>|
        #[trigger] walk_ok(query, seq![name], depth_cap(depth), limit as nat, ans) && result_matches(
            res,
            walk(walk_start::<C>(seq![name]), ans, depth_cap(depth), limit as nat),
            depth_cap(depth),
            limit as nat,
        )
}

/// Entities of several walks merged: each once, in order of first
/// appearance.
pub open spec fn merge_entities(acc: Seq<Seq<char>>, es: Seq<Seq<char>>) -> Seq<Seq<char>>
    decreases es.len(),
{
    if es.len() == 0 {
        acc
    } else {
        let m = merge_entities(acc, es.drop_last());
        if m.contains(es.last()) {
            m
        } else {
            m.push(es.last())
        }
    }
}

/// Merging the walks' results in order: `None` when a walk failed; once
/// a walk brings the relationships to `limit`, the merge is stopped (the
/// flag) and later walks do not count.
pub open spec fn merge_walks<C>(rs: Seq<Option<GraphRetrievalResult<C>>>, limit: nat) -> Option<
    (Seq<Seq<char>>, Seq<RelView<C>>, bool),
>
    decreases rs.len(),
{
    if rs.len() == 0 {
        Some((Seq::empty(), Seq::empty(), false))
    } else {
        match merge_walks(rs.drop_last(), limit) {
            None => None,
            Some(acc) => if acc.2 {
                Some(acc)
            } else {
                match rs.last() {
                    None => None,
                    Some(res) => {
                        let rels = acc.1 + rel_views(res.relationships@);
                        Some((merge_entities(acc.0, str_views(res.entities@)), rels, rels.len() >= limit))
                    },
                }
            },
        }
    }
}

/// Merging entities into `acc` keeps what `acc` holds, adds each entity of
/// `es` that is missing, and nothing else; when `acc` has no repeats,
/// neither has the merge.
pub proof fn lemma_merge_entities(acc: Seq<Seq<char>>, es: Seq<Seq<char>>)
    ensures
        forall|x: Seq<char>| #[trigger] merge_entities(acc, es).contains(x) <==> acc.contains(x) || es.contains(x),
        acc.no_duplicates() ==> merge_entities(acc, es).no_duplicates(),
    decreases es.len(),
{
    if es.len() > 0 {
        lemma_merge_entities(acc, es.drop_last());
        let m = merge_entities(acc, es.drop_last());
        assert forall|x: Seq<char>| #[trigger] merge_entities(acc, es).contains(x) <==> acc.contains(x) || es.contains(x) by {
            if es.contains(x) && !es.drop_last().contains(x) {
                let i = choose|i: int| 0 <= i < es.len() && es[i] == x;
                if i < es.len() - 1 {
                    assert(es.drop_last()[i] == x);
                }
            }
            if es.drop_last().contains(x) {
                let i = choose|i: int| 0 <= i < es.drop_last().len() && es.drop_last()[i] == x;
                assert(es[i] == x);
            }
            if !m.contains(es.last()) {
                assert(m.push(es.last())[m.len() as int] == es.last());
                if m.push(es.last()).contains(x) {
                    let i = choose|i: int| 0 <= i < m.len() + 1 && m.push(es.last())[i] == x;
                    if i < m.len() {
                        assert(m[i] == x);
                    }
                }
                if m.contains(x) {
                    let i = choose|i: int| 0 <= i < m.len() && m[i] == x;
                    assert(m.push(es.last())[i] == x);
                }
            }
        }
    }
}

/// The entities a walk found (none when it failed).
pub open spec fn walk_entities<C>(r: Option<GraphRetrievalResult<C>>) -> Seq<Seq<char>> {
    match r {
        Some(res) => str_views(res.entities@),
        None => Seq::empty(),
    }
}

/// The `k`-th walk counts in a merge: the walks before it merged without
/// reaching the relationship limit.
pub open spec fn walk_counts<C>(rs: Seq<Option<GraphRetrievalResult<C>>>, k: int, limit: nat) -> bool {
    merge_walks(rs.take(k), limit) matches Some(a) && !a.2
}

/// The entities of a merge of walks: no entity twice, every entity of
/// every walk that counts is there, and each comes from some walk.
pub proof fn lemma_merged_walk_entities<C>(rs: Seq<Option<GraphRetrievalResult<C>>>, limit: nat)
    ensures
        merge_walks(rs, limit) matches Some(m) ==> {
            &&& m.0.no_duplicates()
            &&& forall|k: int, x: Seq<char>|
                0 <= k < rs.len() && walk_counts(rs, k, limit) && #[trigger] walk_entities(rs[k]).contains(x)
                    ==> m.0.contains(x)
            &&& forall|x: Seq<char>|
                #[trigger] m.0.contains(x) ==> exists|k: int| 0 <= k < rs.len() && #[trigger] walk_entities(rs[k]).contains(x)
        },
    decreases rs.len(),
{
    if rs.len() > 0 {
        let p = rs.drop_last();
        lemma_merged_walk_entities(p, limit);
        match merge_walks(p, limit) {
            None => {},
            Some(acc) => {
                if !acc.2 {
                    match rs.last() {
                        None => {},
                        Some(res) => {
                            lemma_merge_entities(acc.0, str_views(res.entities@));
                        },
                    }
                }
                let mo = merge_walks(rs, limit);
                if mo is Some {
                    let m = mo->0;
                    assert forall|k: int, x: Seq<char>|
                        0 <= k < rs.len() && walk_counts(rs, k, limit) && #[trigger] walk_entities(rs[k]).contains(
                            x,
                        ) implies m.0.contains(x) by {
                        if k < rs.len() - 1 {
                            assert(p.take(k) =~= rs.take(k));
                            assert(p[k] == rs[k]);
                            assert(walk_counts(p, k, limit));
                            assert(acc.0.contains(x));
                        } else {
                            assert(rs.take(k) =~= p);
                        }
                    }
                    assert forall|x: Seq<char>| #[trigger] m.0.contains(x) implies exists|k: int|
                        0 <= k < rs.len() && #[trigger] walk_entities(rs[k]).contains(x) by {
                        if acc.0.contains(x) {
                            let k = choose|k: int| 0 <= k < p.len() && #[trigger] walk_entities(p[k]).contains(x);
                            assert(p[k] == rs[k]);
                        } else {
                            assert(walk_entities(rs[rs.len() - 1]).contains(x));
                        }
                    }
                }
            },
        }
    }
}

/// The depth of each walk an expansion makes: at most 1.
pub open spec fn sub_depth_of(depth: usize) -> usize {
    if depth < 1 {
        depth
    } else {
        1
    }
}

/// Expand from observation ids: a walk of depth at most 1 from each id in
/// turn, entities merged (each once), relationships gathered until
/// `limit` are found, then cut to `limit`.  `None` when a walk fails.
pub fn expand_from_chunks<C: Copy, F: Fn(&str) -> Option<Vec<GraphFact<C>>> + Copy>(
    query_entity: F,
    top_observation_ids: &Vec<String>,
    depth: usize,
    limit: usize,
) -> (r: Option<GraphRetrievalResult<C>>)
    requires
        forall|s: &str| call_requires(query_entity, (s,)),
    ensures
        exists|rs: Seq<Option<GraphRetrievalResult<C>>>|
            #![trigger merge_walks(rs, limit as nat)]
            rs.len() <= top_observation_ids@.len() && (forall|k: int|
                0 <= k < rs.len() ==> #[trigger] walk_result_ok(
                    query_entity,
                    top_observation_ids@[k]@,
                    sub_depth_of(depth),
                    limit,
                    rs[k],
                )) && match (r, merge_walks(rs, limit as nat)) {
                (None, None) => true,
                (Some(res), Some(m)) => (rs.len() == top_observation_ids@.len() || m.2) && res.depth
                    == 0 && str_views(res.entities@) == m.0 && rel_views(res.relationships@) == (if m.1.len()
                    > limit {
                    m.1.take(limit as int)
                } else {
                    m.1
                }),
                _ => false,
            },
        r matches Some(res) ==> str_views(res.entities@).no_duplicates(),
{
    let sub_depth: usize = if depth < 1 {
        depth
    } else {
        1
    };
    let mut entities: Vec<String> = Vec::new();
    let mut rels: Vec<RelationshipInfo<C>> = Vec::new();
    let ghost mut rs: Seq<Option<GraphRetrievalResult<C>>> = Seq::empty();
    let mut k: usize = 0;
    let ids = top_observation_ids;
    proof {
        assert(str_views(entities@) =~= Seq::<Seq<char>>::empty());
        assert(rel_views(rels@) =~= Seq::<RelView<C>>::empty());
    }
    while k < ids.len()
        invariant
            k <= ids@.len(),
            ids@ == top_observation_ids@,
            sub_depth == sub_depth_of(depth),
            forall|s: &str| call_requires(query_entity, (s,)),
            rs.len() == k,
            forall|j: int| 0 <= j < k ==> #[trigger] walk_result_ok(query_entity, ids@[j]@, sub_depth, limit, rs[j]),
            merge_walks(rs, limit as nat) == Some((str_views(entities@), rel_views(rels@), false)),
        decreases ids.len() - k,
    {
        let one: [&str; 1] = [ids[k].as_str()];
        let res = search_by_entities(query_entity, one.as_slice(), sub_depth, limit);
        proof {
            assert(names_of(one@) =~= seq![ids@[k as int]@]);
            assert(walk_result_ok(query_entity, ids@[k as int]@, sub_depth, limit, res));
        }
        let ghost rs0 = rs;
        proof {
            rs = rs.push(res);
            assert(rs.drop_last() =~= rs0);
            assert forall|j: int| 0 <= j < k + 1 implies #[trigger] walk_result_ok(query_entity, ids@[j]@, sub_depth, limit, rs[j]) by {
                if j < k {
                    assert(rs[j] == rs0[j]);
                }
            }
        }
        match res {
            None => {
                proof {
                    assert(merge_walks(rs, limit as nat) is None);
                }
                return None;
            },
            Some(found) => {
                let GraphRetrievalResult { entities: es, relationships: rl, depth: _ } = found;
                let ghost acc0 = str_views(entities@);
                let mut j: usize = 0;
                proof {
                    assert(str_views(es@).take(0) =~= Seq::<Seq<char>>::empty());
                }
                while j < es.len()
                    invariant
                        j <= es@.len(),
                        str_views(entities@) == merge_entities(acc0, str_views(es@).take(j as int)),
                    decreases es.len() - j,
                {
                    proof {
                        assert(str_views(es@).take(j + 1).drop_last() =~= str_views(es@).take(j as int));
                        assert(str_views(es@).take(j + 1).last() == es@[j as int]@);
                    }
                    if !contains_string(&entities, es[j].as_str()) {
                        let ghost e0 = entities@;
                        entities.push(crate::text::copy_string(&es[j]));
                        proof {
                            assert(str_views(entities@) =~= str_views(e0).push(es@[j as int]@));
                        }
                    }
                    j += 1;
                }
                proof {
                    assert(str_views(es@).take(es@.len() as int) =~= str_views(es@));
                }
                let ghost r0 = rel_views(rels@);
                let mut rl = rl;
                rels.append(&mut rl);
                proof {
                    assert(rel_views(rels@) =~= r0 + rel_views(found.relationships@));
                }
            },
        }
        k += 1;
        if rels.len() >= limit {
            let res = finish(entities, rels, limit, 0);
            proof {
                assert(merge_walks(rs, limit as nat) == Some((str_views(entities@), rel_views(rels@), true)));
                lemma_merged_walk_entities(rs, limit as nat);
            }
            return Some(res);
        }
    }
    proof {
        lemma_merged_walk_entities(rs, limit as nat);
    }
    let res = finish(entities, rels, limit, 0);
    Some(res)
}

/// A triple the graph holds.
pub struct Triple<C> {
    pub subject: String,
    pub predicate: String,
    pub object: String,
    pub confidence: Option<C>,
    pub current: bool,
}

pub open spec fn triple_rel<C>(t: Triple<C>) -> RelView<C> {
    (t.subject@, t.predicate@, t.object@, t.confidence, t.current)
}

/// The relationships with a predicate (as of a date, when given), as the
/// graph's `query_relationship` answers them; `None` when the lookup
/// fails.
pub fn query_by_predicate<C: Copy, F: Fn(&str, Option<&str>) -> Option<Vec<Triple<C>>>>(
    query_relationship: F,
    predicate: &str,
    as_of: Option<&str>,
) -> (r: Option<Vec<RelationshipInfo<C>>>)
    requires
        call_requires(query_relationship, (predicate, as_of)),
    ensures
        exists|t: Option<Vec<Triple<C>>>|
            #[trigger] call_ensures(query_relationship, (predicate, as_of), t) && match (t, r) {
                (None, None) => true,
                (Some(ts), Some(rs)) => rel_views(rs@) == ts@.map_values(|x: Triple<C>| triple_rel(x)),
                _ => false,
            },
{
    let answer = query_relationship(predicate, as_of);
    let ghost a = answer;
    let ts = match answer {
        None => {
            return None;
        },
        Some(ts) => ts,
    };
    let mut out: Vec<RelationshipInfo<C>> = Vec::new();
    let mut k: usize = 0;
    while k < ts.len()
        invariant
            k <= ts@.len(),
            rel_views(out@) == ts@.take(k as int).map_values(|x: Triple<C>| triple_rel(x)),
        decreases ts.len() - k,
    {
        let t = &ts[k];
        let ghost o0 = out@;
        out.push(
            RelationshipInfo {
                subject: crate::text::copy_string(&t.subject),
                predicate: crate::text::copy_string(&t.predicate),
                object: crate::text::copy_string(&t.object),
                confidence: t.confidence,
                current: t.current,
            },
        );
        proof {
            assert(rel_views(out@) =~= rel_views(o0).push(triple_rel(*t)));
            assert(ts@.take(k + 1).map_values(|x: Triple<C>| triple_rel(x)) =~= ts@.take(k as int).map_values(
                |x: Triple<C>| triple_rel(x),
            ).push(triple_rel(ts@[k as int])));
        }
        k += 1;
    }
    proof {
        assert(ts@.take(ts@.len() as int) =~= ts@);
    }
    Some(out)
}

} // verus!
