//! The sections of injected context, rendered from what the palace holds:
//! pinned slots, the project profile, recent lessons and recent session
//! summaries.  Each section is a list of `- ` lines; each quoted block is
//! cut to [`MAX_BLOCK_CHARS`] bytes.
use vstd::prelude::*;
use crate::context_inject::{truncate_block, truncate_block_spec, MAX_BLOCK_CHARS};
use crate::dedup::{by_key_desc, lemma_by_key_desc_contains, lemma_by_key_desc_len, pairs_view, rank_by_key_desc};
use crate::obsidian_export::{format_utc, join_strings, utc_formatted};
use crate::text::{
    chars_of, decimal, decimal_string, join, owned, push_str, split_chars, split_on, str_eq, str_views,
    string_from_chars, trim, trim_chars,
};

verus! {

broadcast use vstd::string::group_string_axioms;

/// Pinned slots shown at most.
pub const MAX_PINNED_SLOTS: usize = 5;

/// Lessons shown at most.
pub const MAX_LESSONS: usize = 5;

/// Sessions looked at for summaries.
pub const MAX_SESSION_SUMMARIES: usize = 5;

/// Concepts the profile names at most.
pub const TOP_CONCEPTS: usize = 8;

/// Rooms the profile names at most.
pub const TOP_ROOMS: usize = 5;

/// Lines joined one after another.
pub open spec fn concat(ls: Seq<Seq<char>>) -> Seq<char>
    decreases ls.len(),
{
    if ls.len() == 0 {
        Seq::empty()
    } else {
        concat(ls.drop_last()) + ls.last()
    }
}

pub open spec fn min_len(n: nat, k: nat) -> int {
    if n < k {
        n as int
    } else {
        k as int
    }
}

// ---------------------------------------------------------------------------
// Pinned slots
// ---------------------------------------------------------------------------

/// A memory slot: its label, its content and whether it is pinned.
pub struct SlotRow {
    pub label: String,
    pub content: String,
    pub pinned: bool,
}

pub open spec fn pinned_of(s: Seq<SlotRow>) -> Seq<SlotRow>
    decreases s.len(),
{
    if s.len() == 0 {
        Seq::empty()
    } else if s.last().pinned {
        pinned_of(s.drop_last()).push(s.last())
    } else {
        pinned_of(s.drop_last())
    }
}

pub open spec fn slot_line(s: SlotRow) -> Seq<char> {
    "- **"@ + s.label@ + "**: "@ + truncate_block_spec(s.content@) + "\n"@
}

/// The pinned-slot lines: the first [`MAX_PINNED_SLOTS`] pinned slots.
pub open spec fn pinned_text(slots: Seq<SlotRow>) -> Seq<char> {
    let p = pinned_of(slots);
    concat(p.take(min_len(p.len(), MAX_PINNED_SLOTS as nat)).map_values(|s: SlotRow| slot_line(s)))
}

/// Render the pinned slots.
pub fn render_pinned_slots(slots: &[SlotRow]) -> (r: String)
    ensures
        r@ == pinned_text(slots@),
{
    let mut out = String::new();
    let mut n: usize = 0;
    let mut k: usize = 0;
    proof {
        assert(slots@.take(0) =~= Seq::<SlotRow>::empty());
        assert(pinned_of(slots@.take(0)).take(0).map_values(|s: SlotRow| slot_line(s)) =~= Seq::<Seq<char>>::empty());
    }
    while k < slots.len()
        invariant
            k <= slots@.len(),
            n == min_len(pinned_of(slots@.take(k as int)).len(), MAX_PINNED_SLOTS as nat),
            out@ == concat(
                pinned_of(slots@.take(k as int)).take(n as int).map_values(|s: SlotRow| slot_line(s)),
            ),
        decreases slots.len() - k,
    {
        let s = &slots[k];
        let ghost p = pinned_of(slots@.take(k as int));
        proof {
            assert(slots@.take(k + 1).drop_last() =~= slots@.take(k as int));
            assert(slots@.take(k + 1).last() == *s);
        }
        if s.pinned {
            let ghost np = p.push(*s);
            if n < MAX_PINNED_SLOTS {
                proof {
                    assert(n == p.len());
                }
                let ghost before = out@;
                push_str(&mut out, "- **");
                push_str(&mut out, s.label.as_str());
                push_str(&mut out, "**: ");
                let preview = truncate_block(s.content.as_str());
                push_str(&mut out, preview.as_str());
                push_str(&mut out, "\n");
                proof {
                    let old_ls = p.take(n as int).map_values(|x: SlotRow| slot_line(x));
                    let new_ls = np.take(n + 1).map_values(|x: SlotRow| slot_line(x));
                    assert(new_ls.drop_last() =~= old_ls);
                    assert(new_ls.last() == slot_line(*s));
                    assert(out@ =~= before + slot_line(*s));
                }
                n += 1;
            } else {
                proof {
                    assert(np.take(n as int) =~= p.take(n as int));
                }
            }
        }
        k += 1;
    }
    proof {
        assert(slots@.take(slots@.len() as int) =~= slots@);
    }
    out
}

// ---------------------------------------------------------------------------
// Lessons
// ---------------------------------------------------------------------------

pub open spec fn lesson_line(c: Seq<char>) -> Seq<char> {
    "- "@ + truncate_block_spec(c) + "\n"@
}

/// The lesson lines: the first [`MAX_LESSONS`] lessons.
pub open spec fn lessons_text(contents: Seq<Seq<char>>) -> Seq<char> {
    concat(contents.take(min_len(contents.len(), MAX_LESSONS as nat)).map_values(|c: Seq<char>| lesson_line(c)))
}

/// Render the recent lessons (their contents, newest first).
pub fn render_lessons(contents: &[String]) -> (r: String)
    ensures
        r@ == lessons_text(str_views(contents@)),
{
    let ghost cv = str_views(contents@);
    let limit = if contents.len() < MAX_LESSONS {
        contents.len()
    } else {
        MAX_LESSONS
    };
    let mut out = String::new();
    let mut k: usize = 0;
    proof {
        assert(cv.take(0).map_values(|c: Seq<char>| lesson_line(c)) =~= Seq::<Seq<char>>::empty());
    }
    while k < limit
        invariant
            k <= limit,
            limit as int == min_len(cv.len(), MAX_LESSONS as nat),
            limit <= contents@.len(),
            cv == str_views(contents@),
            out@ == concat(cv.take(k as int).map_values(|c: Seq<char>| lesson_line(c))),
        decreases limit - k,
    {
        let ghost before = out@;
        push_str(&mut out, "- ");
        let preview = truncate_block(contents[k].as_str());
        push_str(&mut out, preview.as_str());
        push_str(&mut out, "\n");
        proof {
            let nl = cv.take(k + 1).map_values(|c: Seq<char>| lesson_line(c));
            assert(nl.drop_last() =~= cv.take(k as int).map_values(|c: Seq<char>| lesson_line(c)));
            assert(nl.last() == lesson_line(cv[k as int]));
            assert(out@ =~= before + lesson_line(cv[k as int]));
        }
        k += 1;
    }
    out
}

// ---------------------------------------------------------------------------
// Session summaries
// ---------------------------------------------------------------------------

/// A session: its id, start time (seconds since the epoch) and summary.
pub struct SessionRow {
    pub id: String,
    pub started_at: i64,
    pub summary: Option<String>,
}

/// The start time as `YYYY-MM-DD HH:MM` (UTC); empty for a time chrono
/// cannot represent.
pub open spec fn started_text(secs: i64) -> Seq<char> {
    match utc_formatted(secs, "%Y-%m-%d %H:%M"@) {
        Some(t) => t,
        None => Seq::empty(),
    }
}

pub open spec fn session_line(s: SessionRow) -> Seq<char> {
    match s.summary {
        Some(sum) => "- ["@ + started_text(s.started_at) + "] "@ + s.id@ + " "@ + truncate_block_spec(sum@) + "\n"@,
        None => Seq::empty(),
    }
}

/// The summary lines of the first [`MAX_SESSION_SUMMARIES`] sessions that
/// have one among them.
pub open spec fn sessions_text(sessions: Seq<SessionRow>) -> Seq<char> {
    concat(
        sessions.take(min_len(sessions.len(), MAX_SESSION_SUMMARIES as nat)).map_values(
            |s: SessionRow| session_line(s),
        ),
    )
}

/// Render the recent session summaries (sessions newest first).
pub fn render_session_summaries(sessions: &[SessionRow]) -> (r: String)
    ensures
        r@ == sessions_text(sessions@),
{
    let limit = if sessions.len() < MAX_SESSION_SUMMARIES {
        sessions.len()
    } else {
        MAX_SESSION_SUMMARIES
    };
    let mut out = String::new();
    let mut k: usize = 0;
    proof {
        assert(sessions@.take(0).map_values(|s: SessionRow| session_line(s)) =~= Seq::<Seq<char>>::empty());
    }
    while k < limit
        invariant
            k <= limit,
            limit as int == min_len(sessions@.len(), MAX_SESSION_SUMMARIES as nat),
            limit <= sessions@.len(),
            out@ == concat(sessions@.take(k as int).map_values(|s: SessionRow| session_line(s))),
        decreases limit - k,
    {
        let s = &sessions[k];
        let ghost before = out@;
        match &s.summary {
            Some(sum) => {
                proof {
                    assert(sessions@[k as int] == *s);
                }
                let started = match format_utc(s.started_at, "%Y-%m-%d %H:%M") {
                    Some(t) => t,
                    None => String::new(),
                };
                push_str(&mut out, "- [");
                push_str(&mut out, started.as_str());
                push_str(&mut out, "] ");
                push_str(&mut out, s.id.as_str());
                push_str(&mut out, " ");
                let preview = truncate_block(sum.as_str());
                push_str(&mut out, preview.as_str());
                push_str(&mut out, "\n");
            },
            None => {},
        }
        proof {
            let nl = sessions@.take(k + 1).map_values(|x: SessionRow| session_line(x));
            assert(nl.drop_last() =~= sessions@.take(k as int).map_values(|x: SessionRow| session_line(x)));
            assert(nl.last() == session_line(*s));
            assert(out@ =~= before + session_line(*s));
        }
        k += 1;
    }
    out
}

// ---------------------------------------------------------------------------
// Project profile
// ---------------------------------------------------------------------------

/// A drawer as the profile reads it: how many ids it holds, and the
/// `concepts` (comma separated) and `room` of its metadata when they are
/// strings.
pub struct ProfileRow {
    pub ids: usize,
    pub concepts: Option<String>,
    pub room: Option<String>,
}

pub open spec fn ids_sum(rows: Seq<ProfileRow>) -> nat
    decreases rows.len(),
{
    if rows.len() == 0 {
        0
    } else {
        ids_sum(rows.drop_last()) + rows.last().ids as nat
    }
}

/// The pieces, trimmed, that are not blank.
pub open spec fn nonblank_trimmed(ps: Seq<Seq<char>>) -> Seq<Seq<char>>
    decreases ps.len(),
{
    if ps.len() == 0 {
        Seq::empty()
    } else if trim(ps.last()).len() > 0 {
        nonblank_trimmed(ps.drop_last()).push(trim(ps.last()))
    } else {
        nonblank_trimmed(ps.drop_last())
    }
}

/// Every concept named, once per mention, in order.
pub open spec fn all_concepts(rows: Seq<ProfileRow>) -> Seq<Seq<char>>
    decreases rows.len(),
{
    if rows.len() == 0 {
        Seq::empty()
    } else {
        all_concepts(rows.drop_last()) + match rows.last().concepts {
            Some(c) => nonblank_trimmed(split_on(c@, ',')),
            None => Seq::empty(),
        }
    }
}

/// Every room named, once per drawer, in order.
pub open spec fn all_rooms(rows: Seq<ProfileRow>) -> Seq<Seq<char>>
    decreases rows.len(),
{
    if rows.len() == 0 {
        Seq::empty()
    } else {
        all_rooms(rows.drop_last()) + match rows.last().room {
            Some(r) => seq![r@],
            None => Seq::empty(),
        }
    }
}

/// The first entry for `n`, or -1.
pub open spec fn name_index(t: Seq<(Seq<char>, nat)>, n: Seq<char>) -> int
    decreases t.len(),
{
    if t.len() == 0 {
        -1
    } else if name_index(t.drop_last(), n) >= 0 {
        name_index(t.drop_last(), n)
    } else if t.last().0 == n {
        t.len() - 1
    } else {
        -1
    }
}

/// How often each name occurs, names in the order they first occur.
pub open spec fn tally_names(ns: Seq<Seq<char>>) -> Seq<(Seq<char>, nat)>
    decreases ns.len(),
{
    if ns.len() == 0 {
        Seq::empty()
    } else {
        let t = tally_names(ns.drop_last());
        let i = name_index(t, ns.last());
        if i >= 0 {
            t.update(i, (ns.last(), t[i].1 + 1))
        } else {
            t.push((ns.last(), 1))
        }
    }
}

/// The `k` most frequent names, most frequent first; equal counts in the
/// order the names first occur.
pub open spec fn top_names(t: Seq<(Seq<char>, nat)>, k: nat) -> Seq<Seq<char>> {
    let ranked = by_key_desc(Seq::new(t.len(), |i: int| (t[i].1 as int, i)));
    ranked.take(min_len(ranked.len(), k)).map_values(|p: (int, int)| t[p.1].0)
}

pub open spec fn or_na(s: Seq<char>) -> Seq<char> {
    if s.len() == 0 {
        "n/a"@
    } else {
        s
    }
}

/// The profile: the number of memories, the most named concepts and the
/// fullest rooms; nothing when there are no drawers or no ids.
pub open spec fn profile_text(rows: Seq<ProfileRow>) -> Seq<char> {
    if rows.len() == 0 || ids_sum(rows) == 0 {
        Seq::empty()
    } else {
        "Memories: "@ + decimal(ids_sum(rows)) + " total\nConcepts: "@ + or_na(
            join(top_names(tally_names(all_concepts(rows)), TOP_CONCEPTS as nat), ", "@),
        ) + "\nRooms: "@ + or_na(join(top_names(tally_names(all_rooms(rows)), TOP_ROOMS as nat), ", "@)) + "\n"@
    }
}

proof fn lemma_name_index_at(t: Seq<(Seq<char>, nat)>, n: Seq<char>, j: int)
    requires
        -1 <= j <= t.len(),
        j >= 0 ==> j < t.len() && t[j].0 == n,
        forall|i: int| 0 <= i < (if j >= 0 { j } else { t.len() as int }) ==> (#[trigger] t[i]).0 != n,
    ensures
        name_index(t, n) == j,
    decreases t.len(),
{
    if t.len() > 0 {
        let p = t.drop_last();
        if j >= 0 && j < t.len() - 1 {
            assert forall|i: int| 0 <= i < j implies (#[trigger] p[i]).0 != n by {
                assert(p[i] == t[i]);
            }
            assert(p[j] == t[j]);
            lemma_name_index_at(p, n, j);
        } else {
            assert forall|i: int| 0 <= i < p.len() implies (#[trigger] p[i]).0 != n by {
                assert(p[i] == t[i]);
            }
            lemma_name_index_at(p, n, -1);
        }
    }
}

pub open spec fn tally_view(t: Seq<(String, usize)>) -> Seq<(Seq<char>, nat)> {
    t.map_values(|e: (String, usize)| (e.0@, e.1 as nat))
}

/// How often each name occurs.
fn tally(names: &Vec<String>) -> (r: Vec<(String, usize)>)
    ensures
        tally_view(r@) == tally_names(str_views(names@)),
{
    let ghost nv = str_views(names@);
    let mut t: Vec<(String, usize)> = Vec::new();
    let mut k: usize = 0;
    proof {
        assert(nv.take(0) =~= Seq::<Seq<char>>::empty());
        assert(tally_view(t@) =~= Seq::<(Seq<char>, nat)>::empty());
    }
    while k < names.len()
        invariant
            k <= names@.len(),
            nv == str_views(names@),
            tally_view(t@) == tally_names(nv.take(k as int)),
            forall|i: int| 0 <= i < t@.len() ==> (#[trigger] t@[i]).1 <= k,
        decreases names.len() - k,
    {
        let ghost tv = tally_view(t@);
        let n = &names[k];
        proof {
            assert(nv.take(k + 1).drop_last() =~= nv.take(k as int));
            assert(nv.take(k + 1).last() == n@);
        }
        let mut j: usize = 0;
        let mut found = false;
        while j < t.len() && !found
            invariant
                j <= t@.len(),
                tv == tally_view(t@),
                forall|i: int| 0 <= i < j ==> (#[trigger] tv[i]).0 != n@,
                found ==> j < t@.len() && tv[j as int].0 == n@,
            decreases t@.len() - j + (if found { 0int } else { 1int }),
        {
            if str_eq(t[j].0.as_str(), n.as_str()) {
                found = true;
            } else {
                j += 1;
            }
        }
        if found {
            proof {
                lemma_name_index_at(tv, n@, j as int);
            }
            let (name, count) = t.remove(j);
            t.insert(j, (name, count + 1));
            proof {
                assert(tally_view(t@) =~= tv.update(j as int, (n@, tv[j as int].1 + 1)));
            }
        } else {
            proof {
                lemma_name_index_at(tv, n@, -1);
            }
            t.push((n.clone(), 1));
            proof {
                assert(tally_view(t@) =~= tv.push((n@, 1)));
            }
        }
        k += 1;
    }
    proof {
        assert(nv.take(names@.len() as int) =~= nv);
    }
    t
}

/// The `k` most frequent names joined by `, `.
fn top_joined(t: &Vec<(String, usize)>, k: usize) -> (r: String)
    ensures
        r@ == join(top_names(tally_view(t@), k as nat), ", "@),
{
    let ghost tv = tally_view(t@);
    let mut keyed: Vec<(usize, usize)> = Vec::new();
    let mut i: usize = 0;
    while i < t.len()
        invariant
            i <= t@.len(),
            tv == tally_view(t@),
            pairs_view(keyed@) == Seq::new(i as nat, |j: int| (tv[j].1 as int, j)),
        decreases t.len() - i,
    {
        let ghost before = pairs_view(keyed@);
        keyed.push((t[i].1, i));
        proof {
            assert(tv[i as int].1 == t@[i as int].1 as nat);
            assert(pairs_view(keyed@) =~= before.push((t@[i as int].1 as int, i as int)));
            assert(pairs_view(keyed@) =~= Seq::new((i + 1) as nat, |j: int| (tv[j].1 as int, j)));
        }
        i += 1;
    }
    let ghost keyed_all = pairs_view(keyed@);
    proof {
        assert(keyed_all =~= Seq::new(tv.len(), |j: int| (tv[j].1 as int, j)));
        lemma_by_key_desc_len(keyed_all);
    }
    let order = rank_by_key_desc(keyed);
    let ghost ranked = pairs_view(order@);
    let limit = if order.len() < k {
        order.len()
    } else {
        k
    };
    let mut names: Vec<String> = Vec::new();
    let mut m: usize = 0;
    proof {
        assert(ranked.take(0).map_values(|p: (int, int)| tv[p.1].0) =~= Seq::<Seq<char>>::empty());
        assert(str_views(names@) =~= Seq::<Seq<char>>::empty());
    }
    while m < limit
        invariant
            m <= limit,
            limit <= order@.len(),
            limit as int == min_len(ranked.len(), k as nat),
            order@.len() == t@.len(),
            tv == tally_view(t@),
            ranked == pairs_view(order@),
            ranked == by_key_desc(keyed_all),
            keyed_all == Seq::new(tv.len(), |j: int| (tv[j].1 as int, j)),
            str_views(names@) == ranked.take(m as int).map_values(|p: (int, int)| tv[p.1].0),
        decreases limit - m,
    {
        let idx = order[m].1;
        proof {
            lemma_by_key_desc_contains(keyed_all, m as int);
            let q = choose|q: int| 0 <= q < keyed_all.len() && keyed_all[q] == ranked[m as int];
            assert(keyed_all[q].1 == q);
            assert(ranked[m as int].1 == order@[m as int].1 as int);
        }
        let ghost before = str_views(names@);
        names.push(t[idx].0.clone());
        proof {
            assert(str_views(names@) =~= before.push(tv[idx as int].0));
            assert(ranked.take(m + 1).map_values(|p: (int, int)| tv[p.1].0) =~= ranked.take(m as int).map_values(
                |p: (int, int)| tv[p.1].0,
            ).push(tv[ranked[m as int].1].0));
        }
        m += 1;
    }
    join_strings(&names, ", ")
}

fn or_na_string(s: String) -> (r: String)
    ensures
        r@ == or_na(s@),
{
    if s.as_str().is_empty() {
        owned("n/a")
    } else {
        s
    }
}

/// Render the project profile from the drawers read (at most 500 of them).
pub fn render_project_profile(rows: &[ProfileRow]) -> (r: String)
    requires
        ids_sum(rows@) <= usize::MAX,
    ensures
        r@ == profile_text(rows@),
{
    if rows.len() == 0 {
        return String::new();
    }
    let mut total: usize = 0;
    let mut concepts: Vec<String> = Vec::new();
    let mut rooms: Vec<String> = Vec::new();
    let mut k: usize = 0;
    proof {
        assert(rows@.take(0) =~= Seq::<ProfileRow>::empty());
        assert(str_views(concepts@) =~= Seq::<Seq<char>>::empty());
        assert(str_views(rooms@) =~= Seq::<Seq<char>>::empty());
    }
    while k < rows.len()
        invariant
            k <= rows@.len(),
            ids_sum(rows@) <= usize::MAX,
            total as nat == ids_sum(rows@.take(k as int)),
            str_views(concepts@) == all_concepts(rows@.take(k as int)),
            str_views(rooms@) == all_rooms(rows@.take(k as int)),
        decreases rows.len() - k,
    {
        let row = &rows[k];
        proof {
            assert(rows@.take(k + 1).drop_last() =~= rows@.take(k as int));
            assert(rows@.take(k + 1).last() == *row);
            lemma_ids_sum_prefix(rows@, k + 1);
        }
        total = total + row.ids;
        match &row.concepts {
            Some(c) => {
                let cs = chars_of(c.as_str());
                let pieces = split_chars(cs.as_slice(), ',');
                let ghost ps = split_on(c@, ',');
                let ghost start = str_views(concepts@);
                let mut q: usize = 0;
                proof {
                    assert(ps.take(0) =~= Seq::<Seq<char>>::empty());
                    assert(start =~= start + nonblank_trimmed(ps.take(0)));
                }
                while q < pieces.len()
                    invariant
                        q <= pieces@.len(),
                        ps == split_on(c@, ','),
                        pieces@.len() == ps.len(),
                        forall|i: int| 0 <= i < pieces@.len() ==> #[trigger] pieces@[i]@ == ps[i],
                        str_views(concepts@) == start + nonblank_trimmed(ps.take(q as int)),
                    decreases pieces.len() - q,
                {
                    proof {
                        assert(ps.take(q + 1).drop_last() =~= ps.take(q as int));
                        assert(ps.take(q + 1).last() == pieces@[q as int]@);
                    }
                    let t = trim_chars(pieces[q].as_slice());
                    if t.len() > 0 {
                        let ghost before = str_views(concepts@);
                        concepts.push(string_from_chars(t.as_slice()));
                        proof {
                            assert(str_views(concepts@) =~= before.push(trim(ps[q as int])));
                        }
                    }
                    q += 1;
                }
                proof {
                    assert(ps.take(ps.len() as int) =~= ps);
                }
            },
            None => {
                proof {
                    assert(str_views(concepts@) =~= str_views(concepts@) + Seq::<Seq<char>>::empty());
                }
            },
        }
        match &row.room {
            Some(rm) => {
                let ghost before = str_views(rooms@);
                rooms.push(rm.clone());
                proof {
                    assert(str_views(rooms@) =~= before + seq![rm@]);
                }
            },
            None => {
                proof {
                    assert(str_views(rooms@) =~= str_views(rooms@) + Seq::<Seq<char>>::empty());
                }
            },
        }
        k += 1;
    }
    proof {
        assert(rows@.take(rows@.len() as int) =~= rows@);
    }
    if total == 0 {
        return String::new();
    }
    let concept_tally = tally(&concepts);
    let room_tally = tally(&rooms);
    let top_c = or_na_string(top_joined(&concept_tally, TOP_CONCEPTS));
    let top_r = or_na_string(top_joined(&room_tally, TOP_ROOMS));
    let mut out = owned("Memories: ");
    let count = decimal_string(total as u64);
    push_str(&mut out, count.as_str());
    push_str(&mut out, " total\nConcepts: ");
    push_str(&mut out, top_c.as_str());
    push_str(&mut out, "\nRooms: ");
    push_str(&mut out, top_r.as_str());
    push_str(&mut out, "\n");
    proof {
        assert(out@ =~= profile_text(rows@));
    }
    out
}

proof fn lemma_ids_sum_prefix(rows: Seq<ProfileRow>, k: int)
    requires
        0 <= k <= rows.len(),
    ensures
        ids_sum(rows.take(k)) <= ids_sum(rows),
    decreases rows.len() - k,
{
    if k < rows.len() {
        lemma_ids_sum_prefix(rows, k + 1);
        assert(rows.take(k + 1).drop_last() =~= rows.take(k));
    } else {
        assert(rows.take(k) =~= rows);
    }
}

// ---------------------------------------------------------------------------
// Session-start search
// ---------------------------------------------------------------------------

/// The search run for context at the start of a session: about the
/// project when one is named, else about the session.
pub open spec fn session_query(session_id: Seq<char>, project: Option<Seq<char>>) -> Seq<char> {
    match project {
        Some(p) => "recent session context project "@ + p,
        None => "recent session "@ + session_id + " context"@,
    }
}

/// The search query for session-start context.
pub fn session_context_query(session_id: &str, project: Option<&str>) -> (r: String)
    ensures
        r@ == session_query(
            session_id@,
            match project {
                Some(p) => Some(p@),
                None => None,
            },
        ),
{
    match project {
        Some(p) => {
            let mut q = owned("recent session context project ");
            push_str(&mut q, p);
            q
        },
        None => {
            let mut q = owned("recent session ");
            push_str(&mut q, session_id);
            push_str(&mut q, " context");
            q
        },
    }
}

} // verus!
