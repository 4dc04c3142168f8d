//! Near-duplicate removal among the drawers of each source file.
//!
//! Within a source, drawers are taken longest first (by content bytes;
//! equal lengths in the order they came).  A drawer without content, or
//! with fewer than 20 bytes, is deleted.  Otherwise it is kept when nothing
//! is kept yet, and deleted when it is near one already kept.  Whether two
//! contents are near is decided by the caller (the cosine distance of
//! their word bags below a threshold).
use vstd::prelude::*;
use crate::text::{byte_len, contains_sub, lowercase, owned, str_contains, str_eq, str_len, str_views, to_lowercase};

verus! {

broadcast use vstd::string::group_string_axioms;

/// Contents shorter than this many bytes are deleted without comparison.
pub const MIN_CONTENT_LENGTH: usize = 20;

/// Sources with fewer drawers than this are not checked by default.
pub const MIN_DRAWERS_TO_CHECK: usize = 5;

/// A drawer as the pass reads it: its ids and its first document.
pub struct DedupEntry {
    pub ids: Vec<String>,
    pub content: Option<String>,
}

/// Ids and content, as character sequences.
pub type DedupView = (Seq<Seq<char>>, Option<Seq<char>>);

pub open spec fn opt_chars(o: Option<String>) -> Option<Seq<char>> {
    match o {
        Some(s) => Some(s@),
        None => None,
    }
}

pub open spec fn dedup_view(e: DedupEntry) -> DedupView {
    (str_views(e.ids@), opt_chars(e.content))
}

pub open spec fn dedup_views(s: Seq<DedupEntry>) -> Seq<DedupView> {
    s.map_values(|e: DedupEntry| dedup_view(e))
}

/// The content length the pass ranks by: bytes, 0 without content.
pub open spec fn content_len(e: DedupView) -> int {
    match e.1 {
        Some(c) => byte_len(c) as int,
        None => 0,
    }
}

/// Where a keyed item goes among items ranked by key: before the first
/// one with a smaller key (after any with an equal one).
pub open spec fn key_slot(sorted: Seq<(int, int)>, e: (int, int)) -> int
    decreases sorted.len(),
{
    if sorted.len() == 0 || e.0 > sorted[0].0 {
        0
    } else {
        1 + key_slot(sorted.drop_first(), e)
    }
}

/// Keyed items ranked by key, largest first; equal keys keep their order.
pub open spec fn by_key_desc(v: Seq<(int, int)>) -> Seq<(int, int)>
    decreases v.len(),
{
    if v.len() == 0 {
        Seq::empty()
    } else {
        let s = by_key_desc(v.drop_last());
        s.insert(key_slot(s, v.last()), v.last())
    }
}

/// The drawers longest first.
pub open spec fn longest_first(v: Seq<DedupView>) -> Seq<DedupView> {
    by_key_desc(Seq::new(v.len(), |i: int| (content_len(v[i]), i))).map_values(|p: (int, int)| v[p.1])
}

/// `c` is near some content already kept.
pub open spec fn near_kept(c: Seq<char>, kept: Seq<Seq<char>>, near: spec_fn(Seq<char>, Seq<char>) -> bool) -> bool {
    exists|j: int| 0 <= j < kept.len() && #[trigger] near(c, kept[j])
}

/// The pass over drawers already ranked: ids kept, ids deleted, and the
/// contents kept.
pub open spec fn greedy(items: Seq<DedupView>, near: spec_fn(Seq<char>, Seq<char>) -> bool) -> (
    Seq<Seq<char>>,
    Seq<Seq<char>>,
    Seq<Seq<char>>,
)
    decreases items.len(),
{
    if items.len() == 0 {
        (Seq::empty(), Seq::empty(), Seq::empty())
    } else {
        let s = greedy(items.drop_last(), near);
        let e = items.last();
        match e.1 {
            None => (s.0, s.1 + e.0, s.2),
            Some(c) => if byte_len(c) < MIN_CONTENT_LENGTH {
                (s.0, s.1 + e.0, s.2)
            } else if s.0.len() == 0 || !near_kept(c, s.2, near) {
                (s.0 + e.0, s.1, s.2.push(c))
            } else {
                (s.0, s.1 + e.0, s.2)
            },
        }
    }
}

/// The nearness a caller's test decides, on contents.
pub open spec fn near_fn<F: Fn(&str, &str) -> bool>(f: F) -> spec_fn(Seq<char>, Seq<char>) -> bool {
    |a: Seq<char>, b: Seq<char>| exists|x: &str, y: &str| x@ == a && y@ == b && #[trigger] call_ensures(f, (x, y), true)
}

/// The test answers the same for the same contents.
pub open spec fn decides_on_contents<F: Fn(&str, &str) -> bool>(f: F) -> bool {
    forall|x1: &str, y1: &str, x2: &str, y2: &str, r1: bool, r2: bool|
        #![trigger call_ensures(f, (x1, y1), r1), call_ensures(f, (x2, y2), r2)]
        x1@ == x2@ && y1@ == y2@ && call_ensures(f, (x1, y1), r1) && call_ensures(f, (x2, y2), r2) ==> r1 == r2
}

proof fn lemma_key_slot_bounds(sorted: Seq<(int, int)>, e: (int, int))
    ensures
        0 <= key_slot(sorted, e) <= sorted.len(),
    decreases sorted.len(),
{
    if sorted.len() > 0 && !(e.0 > sorted[0].0) {
        lemma_key_slot_bounds(sorted.drop_first(), e);
    }
}

proof fn lemma_key_slot_prefix(sorted: Seq<(int, int)>, e: (int, int), k: int)
    requires
        0 <= k <= sorted.len(),
        forall|j: int| 0 <= j < k ==> !(e.0 > #[trigger] sorted[j].0),
    ensures
        key_slot(sorted, e) == k + key_slot(sorted.skip(k), e),
    decreases k,
{
    if k == 0 {
        assert(sorted.skip(0) =~= sorted);
    } else {
        let t = sorted.drop_first();
        assert forall|j: int| 0 <= j < k - 1 implies !(e.0 > #[trigger] t[j].0) by {
            assert(t[j] == sorted[j + 1]);
        }
        lemma_key_slot_prefix(t, e, k - 1);
        assert(t.skip(k - 1) =~= sorted.skip(k));
    }
}

pub open spec fn pairs_view(v: Seq<(usize, usize)>) -> Seq<(int, int)> {
    v.map_values(|p: (usize, usize)| (p.0 as int, p.1 as int))
}

/// Rank (key, index) pairs by key, largest first, stably.
pub(crate) fn rank_by_key_desc(v: Vec<(usize, usize)>) -> (r: Vec<(usize, usize)>)
    ensures
        pairs_view(r@) == by_key_desc(pairs_view(v@)),
{
    let ghost all = pairs_view(v@);
    let n = v.len();
    let mut rest = v;
    let mut out: Vec<(usize, usize)> = Vec::new();
    let mut k: usize = 0;
    proof {
        assert(all.take(0) =~= Seq::<(int, int)>::empty());
        assert(pairs_view(out@) =~= Seq::<(int, int)>::empty());
        assert(pairs_view(rest@) =~= all.skip(0));
    }
    while rest.len() > 0
        invariant
            k <= n,
            all.len() == n,
            pairs_view(rest@) == all.skip(k as int),
            rest@.len() == n - k,
            pairs_view(out@) == by_key_desc(all.take(k as int)),
        decreases rest@.len(),
    {
        let ghost old_rest = rest@;
        let e = rest.remove(0);
        let ghost ev = (e.0 as int, e.1 as int);
        proof {
            assert(rest@ =~= old_rest.drop_first());
            assert forall|i: int| 0 <= i < rest@.len() implies #[trigger] pairs_view(rest@)[i] == all.skip(k + 1)[i] by {
                assert(pairs_view(old_rest)[i + 1] == all.skip(k as int)[i + 1]);
            }
            assert(all.skip(k as int)[0] == ev);
            assert(all.take(k + 1).drop_last() =~= all.take(k as int));
            assert(all.take(k + 1).last() == ev);
            assert(pairs_view(rest@) =~= all.skip(k + 1));
        }
        let ghost ov = pairs_view(out@);
        let mut j: usize = 0;
        let mut stop = false;
        while j < out.len() && !stop
            invariant
                j <= out@.len(),
                ov == pairs_view(out@),
                ev == (e.0 as int, e.1 as int),
                forall|i: int| 0 <= i < j ==> !(ev.0 > #[trigger] ov[i].0),
                stop ==> j < out@.len() && ev.0 > ov[j as int].0,
            decreases out@.len() - j + (if stop { 0int } else { 1int }),
        {
            if e.0 > out[j].0 {
                stop = true;
            } else {
                j += 1;
            }
        }
        proof {
            lemma_key_slot_prefix(ov, ev, j as int);
            if j < ov.len() {
                assert(ov.skip(j as int)[0] == ov[j as int]);
            } else {
                assert(ov.skip(j as int) =~= Seq::<(int, int)>::empty());
            }
        }
        out.insert(j, e);
        proof {
            assert(pairs_view(out@) =~= ov.insert(j as int, ev));
        }
        k += 1;
    }
    proof {
        assert(all.take(n as int) =~= all);
    }
    out
}

pub(crate) proof fn lemma_by_key_desc_len(v: Seq<(int, int)>)
    ensures
        by_key_desc(v).len() == v.len(),
    decreases v.len(),
{
    if v.len() > 0 {
        lemma_by_key_desc_len(v.drop_last());
        lemma_key_slot_bounds(by_key_desc(v.drop_last()), v.last());
    }
}

proof fn lemma_by_key_desc_members(v: Seq<(int, int)>)
    ensures
        by_key_desc(v).to_multiset() =~= v.to_multiset(),
    decreases v.len(),
{
    if v.len() > 0 {
        let p = v.drop_last();
        let s = by_key_desc(p);
        lemma_by_key_desc_members(p);
        lemma_key_slot_bounds(s, v.last());
        vstd::seq_lib::to_multiset_insert(s, key_slot(s, v.last()), v.last());
        assert(v =~= p.push(v.last()));
        vstd::seq_lib::to_multiset_build(p, v.last());
    } else {
        assert(v =~= Seq::<(int, int)>::empty());
        assert(by_key_desc(v) =~= Seq::<(int, int)>::empty());
    }
}

/// Every ranked pair is one of the pairs ranked.
pub(crate) proof fn lemma_by_key_desc_contains(v: Seq<(int, int)>, i: int)
    requires
        0 <= i < by_key_desc(v).len(),
    ensures
        v.contains(by_key_desc(v)[i]),
{
    lemma_by_key_desc_members(v);
    let x = by_key_desc(v)[i];
    assert(by_key_desc(v).contains(x));
    vstd::seq_lib::to_multiset_contains(by_key_desc(v), x);
    vstd::seq_lib::to_multiset_contains(v, x);
}

fn append_ids(out: &mut Vec<String>, ids: &Vec<String>)
    ensures
        str_views(final(out)@) == str_views(old(out)@) + str_views(ids@),
{
    let ghost start = str_views(out@);
    let mut k: usize = 0;
    while k < ids.len()
        invariant
            k <= ids@.len(),
            str_views(out@) == start + str_views(ids@.take(k as int)),
        decreases ids.len() - k,
    {
        let ghost before = str_views(out@);
        out.push(ids[k].clone());
        proof {
            assert(str_views(out@) =~= before.push(ids@[k as int]@));
            assert(str_views(ids@.take(k + 1)) =~= str_views(ids@.take(k as int)).push(ids@[k as int]@));
            assert(str_views(out@) =~= start + str_views(ids@.take(k + 1)));
        }
        k += 1;
    }
    proof {
        assert(ids@.take(ids@.len() as int) =~= ids@);
    }
}

/// One source's pass: the ids kept and the ids deleted.  `near` decides
/// whether two contents are near; it must answer the same for the same
/// contents.
pub fn dedup_source_group<F: Fn(&str, &str) -> bool + Copy>(entries: &[DedupEntry], near: F) -> (r: (
    Vec<String>,
    Vec<String>,
))
    requires
        forall|a: &str, b: &str| call_requires(near, (a, b)),
        decides_on_contents(near),
    ensures
        str_views(r.0@) == greedy(longest_first(dedup_views(entries@)), near_fn(near)).0,
        str_views(r.1@) == greedy(longest_first(dedup_views(entries@)), near_fn(near)).1,
{
    let ghost views = dedup_views(entries@);
    let n = entries.len();
    let mut keyed: Vec<(usize, usize)> = Vec::new();
    let mut i: usize = 0;
    while i < n
        invariant
            i <= n,
            n == entries@.len(),
            views == dedup_views(entries@),
            pairs_view(keyed@) == Seq::new(i as nat, |j: int| (content_len(views[j]), j)),
        decreases n - i,
    {
        let len = match &entries[i].content {
            Some(c) => str_len(c.as_str()),
            None => 0,
        };
        proof {
            assert(views[i as int] == dedup_view(entries@[i as int]));
            assert(len as int == content_len(views[i as int]));
        }
        let ghost before = pairs_view(keyed@);
        keyed.push((len, i));
        proof {
            assert(pairs_view(keyed@) =~= before.push((len as int, i as int)));
            assert(pairs_view(keyed@) =~= Seq::new((i + 1) as nat, |j: int| (content_len(views[j]), j)));
        }
        i += 1;
    }
    let ghost keyed_all = pairs_view(keyed@);
    proof {
        assert(keyed_all =~= Seq::new(views.len(), |j: int| (content_len(views[j]), j)));
    }
    let order = rank_by_key_desc(keyed);
    let ghost ranked = pairs_view(order@);
    let ghost items = longest_first(views);
    proof {
        lemma_by_key_desc_len(keyed_all);
    }
    let ghost nf = near_fn(near);
    let mut kept_ids: Vec<String> = Vec::new();
    let mut delete_ids: Vec<String> = Vec::new();
    let mut kept_contents: Vec<String> = Vec::new();
    let mut k: usize = 0;
    proof {
        assert(items.take(0) =~= Seq::<DedupView>::empty());
        assert(str_views(kept_ids@) =~= Seq::<Seq<char>>::empty());
        assert(str_views(delete_ids@) =~= Seq::<Seq<char>>::empty());
        assert(str_views(kept_contents@) =~= Seq::<Seq<char>>::empty());
    }
    while k < order.len()
        invariant
            k <= order@.len(),
            n == entries@.len(),
            views.len() == n,
            order@.len() == views.len(),
            views == dedup_views(entries@),
            ranked == pairs_view(order@),
            ranked == by_key_desc(keyed_all),
            keyed_all == Seq::new(views.len(), |j: int| (content_len(views[j]), j)),
            items == longest_first(views),
            nf == near_fn(near),
            forall|a: &str, b: &str| call_requires(near, (a, b)),
            decides_on_contents(near),
            str_views(kept_ids@) == greedy(items.take(k as int), nf).0,
            str_views(delete_ids@) == greedy(items.take(k as int), nf).1,
            str_views(kept_contents@) == greedy(items.take(k as int), nf).2,
        decreases order.len() - k,
    {
        let idx = order[k].1;
        proof {
            lemma_by_key_desc_contains(keyed_all, k as int);
            let q = choose|q: int| 0 <= q < keyed_all.len() && keyed_all[q] == ranked[k as int];
            assert(keyed_all[q].1 == q);
            assert(ranked[k as int].1 == order@[k as int].1 as int);
            assert(idx < n);
            assert(items[k as int] == views[idx as int]);
            assert(items.take(k + 1).drop_last() =~= items.take(k as int));
            assert(items.take(k + 1).last() == views[idx as int]);
        }
        let entry = &entries[idx];
        proof {
            assert(views[idx as int] == dedup_view(*entry));
        }
        match &entry.content {
            None => {
                append_ids(&mut delete_ids, &entry.ids);
            },
            Some(c) => {
                let clen = str_len(c.as_str());
                if clen < MIN_CONTENT_LENGTH {
                    append_ids(&mut delete_ids, &entry.ids);
                } else if kept_ids.len() == 0 {
                    append_ids(&mut kept_ids, &entry.ids);
                    let ghost kc = str_views(kept_contents@);
                    kept_contents.push(c.clone());
                    proof {
                        assert(str_views(kept_contents@) =~= kc.push(c@));
                    }
                } else {
                    let ghost kc = str_views(kept_contents@);
                    let mut is_dup = false;
                    let mut m: usize = 0;
                    while m < kept_contents.len() && !is_dup
                        invariant
                            m <= kept_contents@.len(),
                            kc == str_views(kept_contents@),
                            nf == near_fn(near),
                            forall|a: &str, b: &str| call_requires(near, (a, b)),
                            decides_on_contents(near),
                            forall|j: int| 0 <= j < m ==> !(#[trigger] nf(c@, kc[j])),
                            is_dup ==> near_kept(c@, kc, nf),
                        decreases kept_contents@.len() - m + (if is_dup { 0int } else { 1int }),
                    {
                        let kcs = kept_contents[m].as_str();
                        let cs = c.as_str();
                        let d = near(cs, kcs);
                        proof {
                            assert(kc[m as int] == kcs@);
                            if d {
                                assert(nf(c@, kc[m as int]));
                            } else {
                                if nf(c@, kc[m as int]) {
                                    let (x, y) = choose|x: &str, y: &str| x@ == c@ && y@ == kc[m as int] && #[trigger] call_ensures(near, (x, y), true);
                                    assert(call_ensures(near, (cs, kcs), d));
                                }
                            }
                        }
                        if d {
                            is_dup = true;
                        } else {
                            m += 1;
                        }
                    }
                    proof {
                        if !is_dup {
                            assert(!near_kept(c@, kc, nf));
                        }
                    }
                    if is_dup {
                        append_ids(&mut delete_ids, &entry.ids);
                    } else {
                        append_ids(&mut kept_ids, &entry.ids);
                        kept_contents.push(c.clone());
                        proof {
                            assert(str_views(kept_contents@) =~= kc.push(c@));
                        }
                    }
                }
            },
        }
        k += 1;
    }
    proof {
        assert(items.take(order@.len() as int) =~= items);
    }
    (kept_ids, delete_ids)
}

// ---------------------------------------------------------------------------
// What a pass keeps
// ---------------------------------------------------------------------------

/// How many ids the drawers hold.
pub open spec fn ids_total(v: Seq<DedupView>) -> nat
    decreases v.len(),
{
    if v.len() == 0 {
        0
    } else {
        ids_total(v.drop_last()) + v.last().0.len()
    }
}

/// How many ids the drawers at the keyed positions hold.
pub open spec fn keyed_ids(s: Seq<(int, int)>, v: Seq<DedupView>) -> nat
    decreases s.len(),
{
    if s.len() == 0 {
        0
    } else {
        keyed_ids(s.drop_last(), v) + v[s.last().1].0.len()
    }
}

proof fn lemma_keyed_ids_insert(s: Seq<(int, int)>, j: int, e: (int, int), v: Seq<DedupView>)
    requires
        0 <= j <= s.len(),
    ensures
        keyed_ids(s.insert(j, e), v) == keyed_ids(s, v) + v[e.1].0.len(),
    decreases s.len(),
{
    let t = s.insert(j, e);
    if j == s.len() {
        assert(t.drop_last() =~= s);
    } else {
        assert(t.drop_last() =~= s.drop_last().insert(j, e));
        assert(t.last() == s.last());
        lemma_keyed_ids_insert(s.drop_last(), j, e, v);
    }
}

proof fn lemma_keyed_ids_ranked(s: Seq<(int, int)>, v: Seq<DedupView>)
    ensures
        keyed_ids(by_key_desc(s), v) == keyed_ids(s, v),
    decreases s.len(),
{
    if s.len() > 0 {
        lemma_keyed_ids_ranked(s.drop_last(), v);
        let r = by_key_desc(s.drop_last());
        lemma_by_key_desc_len(s.drop_last());
        lemma_key_slot_bounds(r, s.last());
        lemma_keyed_ids_insert(r, key_slot(r, s.last()), s.last(), v);
    }
}

proof fn lemma_keyed_ids_positions(v: Seq<DedupView>, m: int)
    requires
        0 <= m <= v.len(),
    ensures
        keyed_ids(Seq::new(m as nat, |i: int| (content_len(v[i]), i)), v) == ids_total(v.take(m)),
    decreases m,
{
    if m > 0 {
        lemma_keyed_ids_positions(v, m - 1);
        assert(Seq::new(m as nat, |i: int| (content_len(v[i]), i)).drop_last() =~= Seq::new(
            (m - 1) as nat,
            |i: int| (content_len(v[i]), i),
        ));
        assert(v.take(m).drop_last() =~= v.take(m - 1));
    } else {
        assert(v.take(0) =~= Seq::<DedupView>::empty());
    }
}

proof fn lemma_ids_total_picked(s: Seq<(int, int)>, v: Seq<DedupView>)
    ensures
        ids_total(s.map_values(|p: (int, int)| v[p.1])) == keyed_ids(s, v),
    decreases s.len(),
{
    if s.len() > 0 {
        lemma_ids_total_picked(s.drop_last(), v);
        assert(s.map_values(|p: (int, int)| v[p.1]).drop_last() =~= s.drop_last().map_values(|p: (int, int)| v[p.1]));
    }
}

proof fn lemma_greedy_counts(items: Seq<DedupView>, near: spec_fn(Seq<char>, Seq<char>) -> bool)
    ensures
        greedy(items, near).0.len() + greedy(items, near).1.len() == ids_total(items),
    decreases items.len(),
{
    if items.len() > 0 {
        lemma_greedy_counts(items.drop_last(), near);
    }
}

/// A source's pass accounts for every id: the ids kept and the ids deleted
/// together number the ids its drawers hold.
pub proof fn lemma_pass_accounts_for_every_id(v: Seq<DedupView>, near: spec_fn(Seq<char>, Seq<char>) -> bool)
    ensures
        greedy(longest_first(v), near).0.len() + greedy(longest_first(v), near).1.len() == ids_total(v),
{
    let keyed = Seq::new(v.len(), |i: int| (content_len(v[i]), i));
    lemma_greedy_counts(longest_first(v), near);
    lemma_ids_total_picked(by_key_desc(keyed), v);
    lemma_keyed_ids_ranked(keyed, v);
    lemma_keyed_ids_positions(v, v.len() as int);
    assert(v.take(v.len() as int) =~= v);
}

/// What a pass keeps is worth keeping: every kept content has at least 20
/// bytes, and when every drawer has an id, no kept content is near one kept
/// before it.
pub proof fn lemma_kept_contents_distinct(items: Seq<DedupView>, near: spec_fn(Seq<char>, Seq<char>) -> bool)
    ensures
        forall|i: int|
            0 <= i < greedy(items, near).2.len() ==> byte_len(#[trigger] greedy(items, near).2[i])
                >= MIN_CONTENT_LENGTH,
        (forall|k: int| 0 <= k < items.len() ==> (#[trigger] items[k]).0.len() > 0) ==> forall|i: int, j: int|
            0 <= i < j < greedy(items, near).2.len() ==> !near(
                #[trigger] greedy(items, near).2[j],
                #[trigger] greedy(items, near).2[i],
            ),
        greedy(items, near).2.len() > 0 && (forall|k: int| 0 <= k < items.len() ==> (#[trigger] items[k]).0.len() > 0)
            ==> greedy(items, near).0.len() > 0,
    decreases items.len(),
{
    if items.len() > 0 {
        let p = items.drop_last();
        lemma_kept_contents_distinct(p, near);
        let s = greedy(p, near);
        let r = greedy(items, near);
        let e = items.last();
        if forall|k: int| 0 <= k < items.len() ==> (#[trigger] items[k]).0.len() > 0 {
            assert forall|k: int| 0 <= k < p.len() implies (#[trigger] p[k]).0.len() > 0 by {
                assert(p[k] == items[k]);
            }
            assert(e.0.len() > 0) by {
                assert(items[items.len() - 1] == e);
            }
            if r.2.len() > s.2.len() {
                let c = r.2.last();
                assert forall|i: int, j: int| 0 <= i < j < r.2.len() implies !near(
                    #[trigger] r.2[j],
                    #[trigger] r.2[i],
                ) by {
                    if j == r.2.len() - 1 {
                        assert(r.2[j] == c);
                        assert(r.2[i] == s.2[i]);
                        assert(s.0.len() > 0);
                        if near(c, s.2[i]) {
                            assert(near_kept(c, s.2, near));
                        }
                    } else {
                        assert(r.2[i] == s.2[i] && r.2[j] == s.2[j]);
                    }
                }
            }
        }
        assert forall|i: int| 0 <= i < r.2.len() implies byte_len(#[trigger] r.2[i]) >= MIN_CONTENT_LENGTH by {
            if i < s.2.len() {
                assert(r.2[i] == s.2[i]);
            }
        }
    }
}

// ---------------------------------------------------------------------------
// A pass over the palace
// ---------------------------------------------------------------------------

/// A drawer with the source file its metadata names (when that is a
/// string).
pub struct SourcedEntry {
    pub source: Option<String>,
    pub entry: DedupEntry,
}

/// How a pass runs (the nearness threshold is the caller's test).
pub struct DedupOptions {
    /// Only report what would be deleted.
    pub dry_run: bool,
    /// Only sources whose name holds this, ignoring case.
    pub source_pattern: Option<String>,
    /// Only sources with at least this many drawers.
    pub min_drawers_to_check: usize,
}

/// Per-source-file deduplication summary.
pub struct SourceSummary {
    pub source: String,
    pub before: usize,
    pub after: usize,
    pub deleted: usize,
}

/// Statistics of a deduplication pass.
pub struct DedupStats {
    /// Source groups checked (sources with enough drawers).
    pub sources_checked: usize,
    /// Ids kept.
    pub total_kept: usize,
    /// Ids deleted, or marked for deletion in a dry run.
    pub total_deleted: usize,
    pub palace_size_before: usize,
    /// The size before; a caller that applies the deletions records the
    /// size it then counts.
    pub palace_size_after: usize,
    /// Ids to delete (none in a dry run).
    pub deleted_ids: Vec<String>,
    pub source_summaries: Vec<SourceSummary>,
}

pub type SourcedView = (Option<Seq<char>>, DedupView);

pub type GroupView = (Seq<char>, Seq<DedupView>);

pub open spec fn sourced_views(s: Seq<SourcedEntry>) -> Seq<SourcedView> {
    s.map_values(|e: SourcedEntry| (opt_chars(e.source), dedup_view(e.entry)))
}

/// The source a drawer is grouped under.
pub open spec fn source_key(s: Option<Seq<char>>) -> Seq<char> {
    match s {
        Some(k) => k,
        None => "unknown"@,
    }
}

/// The source passes the pattern: none given, or the source holds it,
/// ignoring case.
pub open spec fn passes(key: Seq<char>, pattern: Option<Seq<char>>) -> bool {
    match pattern {
        None => true,
        Some(p) => contains_sub(lowercase(key), lowercase(p)),
    }
}

/// The first group under `k`, or -1.
pub open spec fn group_index(gs: Seq<GroupView>, k: Seq<char>) -> int
    decreases gs.len(),
{
    if gs.len() == 0 {
        -1
    } else if group_index(gs.drop_last(), k) >= 0 {
        group_index(gs.drop_last(), k)
    } else if gs.last().0 == k {
        gs.len() - 1
    } else {
        -1
    }
}

/// A drawer added to the group of its source, or to a new group after
/// the others.
pub open spec fn add_to_group(gs: Seq<GroupView>, k: Seq<char>, e: DedupView) -> Seq<GroupView> {
    let i = group_index(gs, k);
    if i >= 0 {
        gs.update(i, (k, gs[i].1.push(e)))
    } else {
        gs.push((k, seq![e]))
    }
}

/// The drawers whose source passes the pattern, grouped by source in the
/// order sources first appear.
pub open spec fn source_groups(v: Seq<SourcedView>, pattern: Option<Seq<char>>) -> Seq<GroupView>
    decreases v.len(),
{
    if v.len() == 0 {
        Seq::empty()
    } else {
        let g = source_groups(v.drop_last(), pattern);
        let k = source_key(v.last().0);
        if passes(k, pattern) {
            add_to_group(g, k, v.last().1)
        } else {
            g
        }
    }
}

/// The groups with at least `min` drawers.
pub open spec fn checked_groups(gs: Seq<GroupView>, min: nat) -> Seq<GroupView>
    decreases gs.len(),
{
    if gs.len() == 0 {
        Seq::empty()
    } else {
        let c = checked_groups(gs.drop_last(), min);
        if gs.last().1.len() >= min {
            c.push(gs.last())
        } else {
            c
        }
    }
}

/// The pass over checked groups: per-source summaries (source, before,
/// after, deleted), ids kept and ids deleted.
pub open spec fn tally(gs: Seq<GroupView>, near: spec_fn(Seq<char>, Seq<char>) -> bool) -> (
    Seq<(Seq<char>, nat, nat, nat)>,
    Seq<Seq<char>>,
    Seq<Seq<char>>,
)
    decreases gs.len(),
{
    if gs.len() == 0 {
        (Seq::empty(), Seq::empty(), Seq::empty())
    } else {
        let t = tally(gs.drop_last(), near);
        let g = gs.last();
        let r = greedy(longest_first(g.1), near);
        (t.0.push((g.0, g.1.len(), r.0.len(), r.1.len())), t.1 + r.0, t.2 + r.1)
    }
}

pub open spec fn summary_views(s: Seq<SourceSummary>) -> Seq<(Seq<char>, nat, nat, nat)> {
    s.map_values(|x: SourceSummary| (x.source@, x.before as nat, x.after as nat, x.deleted as nat))
}

proof fn lemma_group_index_at(gs: Seq<GroupView>, k: Seq<char>, j: int)
    requires
        -1 <= j <= gs.len(),
        j >= 0 ==> j < gs.len() && gs[j].0 == k,
        forall|i: int| 0 <= i < (if j >= 0 { j } else { gs.len() as int }) ==> (#[trigger] gs[i]).0 != k,
    ensures
        group_index(gs, k) == j,
    decreases gs.len(),
{
    if gs.len() > 0 {
        let p = gs.drop_last();
        if j >= 0 && j < gs.len() - 1 {
            assert forall|i: int| 0 <= i < j implies (#[trigger] p[i]).0 != k by {
                assert(p[i] == gs[i]);
            }
            assert(p[j] == gs[j]);
            lemma_group_index_at(p, k, j);
        } else {
            assert forall|i: int| 0 <= i < p.len() implies (#[trigger] p[i]).0 != k by {
                assert(p[i] == gs[i]);
            }
            lemma_group_index_at(p, k, -1);
        }
    }
}

pub open spec fn group_views(gs: Seq<(String, Vec<DedupEntry>)>) -> Seq<GroupView> {
    gs.map_values(|g: (String, Vec<DedupEntry>)| (g.0@, dedup_views(g.1@)))
}

fn add_entry(groups: &mut Vec<(String, Vec<DedupEntry>)>, key: String, e: DedupEntry)
    ensures
        group_views(final(groups)@) == add_to_group(group_views(old(groups)@), key@, dedup_view(e)),
{
    let ghost gv = group_views(groups@);
    let mut j: usize = 0;
    while j < groups.len()
        invariant
            j <= groups@.len(),
            gv == group_views(groups@),
            gv == group_views(old(groups)@),
            forall|i: int| 0 <= i < j ==> (#[trigger] gv[i]).0 != key@,
        decreases groups.len() - j,
    {
        if str_eq(groups[j].0.as_str(), key.as_str()) {
            proof {
                assert(gv[j as int].0 == key@);
                lemma_group_index_at(gv, key@, j as int);
            }
            let mut g = groups.remove(j);
            let ghost gvec = g.1@;
            g.1.push(e);
            proof {
                assert(dedup_views(g.1@) =~= dedup_views(gvec).push(dedup_view(e)));
            }
            groups.insert(j, g);
            proof {
                assert(group_views(groups@) =~= gv.update(j as int, (key@, gv[j as int].1.push(dedup_view(e)))));
            }
            return;
        }
        j += 1;
    }
    proof {
        lemma_group_index_at(gv, key@, -1);
    }
    let mut v: Vec<DedupEntry> = Vec::new();
    v.push(e);
    proof {
        assert(dedup_views(v@) =~= seq![dedup_view(e)]);
    }
    groups.push((key, v));
    proof {
        assert(group_views(groups@) =~= gv.push((key@, seq![dedup_view(e)])));
    }
}

/// Plan a pass over the palace's drawers (`size_before` of them): group by
/// source, check the sources with enough drawers, and count what is kept
/// and deleted.  `near` decides whether two contents are near; it must
/// answer the same for the same contents.
pub fn plan_dedup<F: Fn(&str, &str) -> bool + Copy>(
    entries: Vec<SourcedEntry>,
    options: &DedupOptions,
    size_before: usize,
    near: F,
) -> (r: DedupStats)
    requires
        forall|a: &str, b: &str| call_requires(near, (a, b)),
        decides_on_contents(near),
    ensures
        ({
            let checked = checked_groups(
                source_groups(sourced_views(entries@), opt_chars(options.source_pattern)),
                options.min_drawers_to_check as nat,
            );
            let t = tally(checked, near_fn(near));
            &&& r.sources_checked == checked.len()
            &&& summary_views(r.source_summaries@) == t.0
            &&& r.total_kept == t.1.len()
            &&& r.total_deleted == t.2.len()
            &&& str_views(r.deleted_ids@) == (if options.dry_run {
                Seq::<Seq<char>>::empty()
            } else {
                t.2
            })
            &&& r.palace_size_before == size_before
            &&& r.palace_size_after == size_before
        }),
{
    let ghost all = sourced_views(entries@);
    let ghost pat = opt_chars(options.source_pattern);
    let low_pattern: Option<String> = match &options.source_pattern {
        Some(p) => Some(to_lowercase(p.as_str())),
        None => None,
    };
    let mut groups: Vec<(String, Vec<DedupEntry>)> = Vec::new();
    let mut rest = entries;
    let n = rest.len();
    let mut k: usize = 0;
    proof {
        assert(all.take(0) =~= Seq::<SourcedView>::empty());
        assert(group_views(groups@) =~= Seq::<GroupView>::empty());
        assert(sourced_views(rest@) =~= all.skip(0));
    }
    while rest.len() > 0
        invariant
            k <= n,
            all.len() == n,
            rest@.len() == n - k,
            sourced_views(rest@) == all.skip(k as int),
            pat == opt_chars(options.source_pattern),
            match low_pattern {
                Some(lp) => pat matches Some(p) && lp@ == lowercase(p),
                None => pat is None,
            },
            group_views(groups@) == source_groups(all.take(k as int), pat),
        decreases rest@.len(),
    {
        let ghost old_rest = rest@;
        let se = rest.remove(0);
        proof {
            assert(rest@ =~= old_rest.drop_first());
            assert forall|i: int| 0 <= i < rest@.len() implies #[trigger] sourced_views(rest@)[i] == all.skip(k + 1)[i] by {
                assert(sourced_views(old_rest)[i + 1] == all.skip(k as int)[i + 1]);
            }
            assert(sourced_views(rest@) =~= all.skip(k + 1));
            assert(all.skip(k as int)[0] == (opt_chars(se.source), dedup_view(se.entry)));
            assert(all.take(k + 1).drop_last() =~= all.take(k as int));
            assert(all.take(k + 1).last() == (opt_chars(se.source), dedup_view(se.entry)));
        }
        let key = match se.source {
            Some(s) => s,
            None => owned("unknown"),
        };
        let pass = match &low_pattern {
            None => true,
            Some(lp) => {
                let low_key = to_lowercase(key.as_str());
                str_contains(low_key.as_str(), lp.as_str())
            },
        };
        if pass {
            add_entry(&mut groups, key, se.entry);
        }
        k += 1;
    }
    proof {
        assert(all.take(n as int) =~= all);
    }
    let ghost gv = group_views(groups@);
    let ghost nf = near_fn(near);
    let min = options.min_drawers_to_check;
    let mut summaries: Vec<SourceSummary> = Vec::new();
    let mut kept_all: Vec<String> = Vec::new();
    let mut deleted_all: Vec<String> = Vec::new();
    let mut checked: usize = 0;
    let m = groups.len();
    let mut grest = groups;
    let mut g: usize = 0;
    proof {
        assert(gv.take(0) =~= Seq::<GroupView>::empty());
        assert(summary_views(summaries@) =~= Seq::<(Seq<char>, nat, nat, nat)>::empty());
        assert(str_views(kept_all@) =~= Seq::<Seq<char>>::empty());
        assert(str_views(deleted_all@) =~= Seq::<Seq<char>>::empty());
        assert(group_views(grest@) =~= gv.skip(0));
    }
    while grest.len() > 0
        invariant
            g <= m,
            gv.len() == m,
            grest@.len() == m - g,
            group_views(grest@) == gv.skip(g as int),
            nf == near_fn(near),
            forall|a: &str, b: &str| call_requires(near, (a, b)),
            decides_on_contents(near),
            checked == checked_groups(gv.take(g as int), min as nat).len(),
            checked <= g,
            summary_views(summaries@) == tally(checked_groups(gv.take(g as int), min as nat), nf).0,
            str_views(kept_all@) == tally(checked_groups(gv.take(g as int), min as nat), nf).1,
            str_views(deleted_all@) == tally(checked_groups(gv.take(g as int), min as nat), nf).2,
        decreases grest@.len(),
    {
        let ghost old_rest = grest@;
        let grp = grest.remove(0);
        let ghost gview = (grp.0@, dedup_views(grp.1@));
        proof {
            assert(grest@ =~= old_rest.drop_first());
            assert forall|i: int| 0 <= i < grest@.len() implies #[trigger] group_views(grest@)[i] == gv.skip(g + 1)[i] by {
                assert(group_views(old_rest)[i + 1] == gv.skip(g as int)[i + 1]);
            }
            assert(group_views(grest@) =~= gv.skip(g + 1));
            assert(gv.skip(g as int)[0] == gview);
            assert(gv.take(g + 1).drop_last() =~= gv.take(g as int));
            assert(gv.take(g + 1).last() == gview);
        }
        let (source, members) = grp;
        let before = members.len();
        if before >= min {
            let ghost tv = tally(checked_groups(gv.take(g as int), min as nat), nf);
            let (kept, deleted) = dedup_source_group(members.as_slice(), near);
            let ghost gr = greedy(longest_first(dedup_views(members@)), nf);
            let after = kept.len();
            let del = deleted.len();
            let ghost sv = summary_views(summaries@);
            summaries.push(SourceSummary { source, before, after, deleted: del });
            proof {
                assert(summary_views(summaries@) =~= sv.push((gview.0, gview.1.len(), gr.0.len(), gr.1.len())));
            }
            append_ids(&mut kept_all, &kept);
            append_ids(&mut deleted_all, &deleted);
            checked += 1;
            proof {
                let cg = checked_groups(gv.take(g + 1), min as nat);
                assert(cg == checked_groups(gv.take(g as int), min as nat).push(gview));
                assert(cg.drop_last() =~= checked_groups(gv.take(g as int), min as nat));
            }
        }
        g += 1;
    }
    proof {
        assert(gv.take(m as int) =~= gv);
    }
    let total_kept = kept_all.len();
    let total_deleted = deleted_all.len();
    let deleted_ids = if options.dry_run {
        let none: Vec<String> = Vec::new();
        proof {
            assert(str_views(none@) =~= Seq::<Seq<char>>::empty());
        }
        none
    } else {
        deleted_all
    };
    DedupStats {
        sources_checked: checked,
        total_kept,
        total_deleted,
        palace_size_before: size_before,
        palace_size_after: size_before,
        deleted_ids,
        source_summaries: summaries,
    }
}

/// A member `key` whose value is the number `v`.
pub open spec fn number_member(m: (String, crate::json::Json), key: Seq<char>, v: nat) -> bool {
    &&& m.0@ == key
    &&& m.1 matches crate::json::Json::Number(n) && n@ == crate::text::decimal(v)
}

/// The audit details of a pass: its counts, by name, as JSON numbers.
pub fn build_audit_details(stats: &DedupStats) -> (r: Vec<(String, crate::json::Json)>)
    ensures
        r@.len() == 5,
        number_member(r@[0], "sources_checked"@, stats.sources_checked as nat),
        number_member(r@[1], "total_kept"@, stats.total_kept as nat),
        number_member(r@[2], "total_deleted"@, stats.total_deleted as nat),
        number_member(r@[3], "palace_size_before"@, stats.palace_size_before as nat),
        number_member(r@[4], "palace_size_after"@, stats.palace_size_after as nat),
{
    let mut r: Vec<(String, crate::json::Json)> = Vec::new();
    r.push(
        (owned("sources_checked"), crate::json::Json::Number(crate::text::decimal_string(stats.sources_checked as u64))),
    );
    r.push((owned("total_kept"), crate::json::Json::Number(crate::text::decimal_string(stats.total_kept as u64))));
    r.push(
        (owned("total_deleted"), crate::json::Json::Number(crate::text::decimal_string(stats.total_deleted as u64))),
    );
    r.push(
        (
            owned("palace_size_before"),
            crate::json::Json::Number(crate::text::decimal_string(stats.palace_size_before as u64)),
        ),
    );
    r.push(
        (
            owned("palace_size_after"),
            crate::json::Json::Number(crate::text::decimal_string(stats.palace_size_after as u64)),
        ),
    );
    r
}

} // verus!
