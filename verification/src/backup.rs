//! Which backups a prune removes: the backups found are ordered newest
//! first (by modification time, then by path, both descending) and all but
//! the newest `max_backups` go.
use vstd::prelude::*;
use crate::text::{lex_lt, str_lt, str_views};

verus! {

broadcast use vstd::string::group_string_axioms;

/// A backup found on disk: its modification time (nanoseconds since the
/// epoch; the epoch itself when unknown) and its path.
pub type BackupView = (u64, Seq<char>);

/// `a` comes before `b` newest first: a later time, or the same time and
/// a path that sorts after.
pub open spec fn newer(a: BackupView, b: BackupView) -> bool {
    a.0 > b.0 || (a.0 == b.0 && lex_lt(b.1, a.1))
}

/// Where a backup goes among backups already ordered: before the first
/// one it is newer than (after any equal ones).
pub open spec fn backup_slot(sorted: Seq<BackupView>, e: BackupView) -> int
    decreases sorted.len(),
{
    if sorted.len() == 0 || newer(e, sorted[0]) {
        0
    } else {
        1 + backup_slot(sorted.drop_first(), e)
    }
}

/// The backups ordered newest first (a stable insertion sort).
pub open spec fn newest_backups(v: Seq<BackupView>) -> Seq<BackupView>
    decreases v.len(),
{
    if v.len() == 0 {
        Seq::empty()
    } else {
        let s = newest_backups(v.drop_last());
        s.insert(backup_slot(s, v.last()), v.last())
    }
}

pub open spec fn backup_views(v: Seq<(u64, String)>) -> Seq<BackupView> {
    v.map_values(|b: (u64, String)| (b.0, b.1@))
}

/// The paths a prune removes: none when no cap is set (or it is zero) or
/// there are no more backups than the cap; otherwise all but the newest
/// `cap`, newest first.
pub open spec fn pruned(v: Seq<BackupView>, max_backups: Option<usize>) -> Seq<Seq<char>> {
    match max_backups {
        None => Seq::empty(),
        Some(cap) => if cap == 0 || v.len() <= cap {
            Seq::empty()
        } else {
            newest_backups(v).skip(cap as int).map_values(|b: BackupView| b.1)
        },
    }
}

proof fn lemma_backup_slot_bounds(sorted: Seq<BackupView>, e: BackupView)
    ensures
        0 <= backup_slot(sorted, e) <= sorted.len(),
    decreases sorted.len(),
{
    if sorted.len() > 0 && !newer(e, sorted[0]) {
        lemma_backup_slot_bounds(sorted.drop_first(), e);
    }
}

proof fn lemma_backup_slot_prefix(sorted: Seq<BackupView>, e: BackupView, k: int)
    requires
        0 <= k <= sorted.len(),
        forall|j: int| 0 <= j < k ==> !newer(e, #[trigger] sorted[j]),
    ensures
        backup_slot(sorted, e) == k + backup_slot(sorted.skip(k), e),
    decreases k,
{
    if k == 0 {
        assert(sorted.skip(0) =~= sorted);
    } else {
        let t = sorted.drop_first();
        assert forall|j: int| 0 <= j < k - 1 implies !newer(e, #[trigger] t[j]) by {
            assert(t[j] == sorted[j + 1]);
        }
        lemma_backup_slot_prefix(t, e, k - 1);
        assert(t.skip(k - 1) =~= sorted.skip(k));
    }
}

fn is_newer(a: &(u64, String), b: &(u64, String)) -> (r: bool)
    ensures
        r == newer((a.0, a.1@), (b.0, b.1@)),
{
    a.0 > b.0 || (a.0 == b.0 && str_lt(b.1.as_str(), a.1.as_str()))
}

/// Order backups newest first: by modification time, then by path, both
/// descending; equal entries keep their order.
pub fn sort_backups_newest_first(v: Vec<(u64, String)>) -> (r: Vec<(u64, String)>)
    ensures
        backup_views(r@) == newest_backups(backup_views(v@)),
{
    let ghost all = backup_views(v@);
    let n = v.len();
    let mut rest = v;
    let mut out: Vec<(u64, String)> = Vec::new();
    let mut k: usize = 0;
    proof {
        assert(all.take(0) =~= Seq::<BackupView>::empty());
        assert(backup_views(out@) =~= Seq::<BackupView>::empty());
        assert(backup_views(rest@) =~= all.skip(0));
    }
    while rest.len() > 0
        invariant
            k <= n,
            all.len() == n,
            backup_views(rest@) == all.skip(k as int),
            rest@.len() == n - k,
            backup_views(out@) == newest_backups(all.take(k as int)),
        decreases rest@.len(),
    {
        let ghost old_rest = rest@;
        let e = rest.remove(0);
        let ghost ev = (e.0, e.1@);
        proof {
            assert(rest@ =~= old_rest.drop_first());
            assert forall|i: int| 0 <= i < rest@.len() implies #[trigger] backup_views(rest@)[i] == all.skip(k + 1)[i] by {
                assert(backup_views(old_rest)[i + 1] == all.skip(k as int)[i + 1]);
            }
            assert(all.skip(k as int)[0] == ev);
            assert(all.take(k + 1).drop_last() =~= all.take(k as int));
            assert(all.take(k + 1).last() == ev);
            assert(backup_views(rest@) =~= all.skip(k + 1));
        }
        let ghost ov = backup_views(out@);
        let mut j: usize = 0;
        let mut stop = false;
        while j < out.len() && !stop
            invariant
                j <= out@.len(),
                ov == backup_views(out@),
                ev == (e.0, e.1@),
                forall|i: int| 0 <= i < j ==> !newer(ev, #[trigger] ov[i]),
                stop ==> j < out@.len() && newer(ev, ov[j as int]),
            decreases out@.len() - j + (if stop { 0int } else { 1int }),
        {
            if is_newer(&e, &out[j]) {
                stop = true;
            } else {
                j += 1;
            }
        }
        proof {
            lemma_backup_slot_prefix(ov, ev, j as int);
            if j < ov.len() {
                assert(ov.skip(j as int)[0] == ov[j as int]);
            } else {
                assert(ov.skip(j as int) =~= Seq::<BackupView>::empty());
            }
        }
        out.insert(j, e);
        proof {
            assert(backup_views(out@) =~= ov.insert(j as int, ev));
        }
        k += 1;
    }
    proof {
        assert(all.take(n as int) =~= all);
    }
    out
}

/// The backups a prune removes, given those found and the cap.
pub fn backups_to_prune(found: Vec<(u64, String)>, max_backups: Option<usize>) -> (r: Vec<String>)
    ensures
        str_views(r@) == pruned(backup_views(found@), max_backups),
{
    let cap = match max_backups {
        None => {
            return Vec::new();
        },
        Some(c) => c,
    };
    if cap == 0 || found.len() <= cap {
        proof {
            assert(str_views(Seq::<String>::empty()) =~= Seq::<Seq<char>>::empty());
        }
        return Vec::new();
    }
    let sorted = sort_backups_newest_first(found);
    let ghost sv = backup_views(sorted@);
    let mut sorted = sorted;
    let mut r: Vec<String> = Vec::new();
    let mut k = cap;
    proof {
        lemma_newest_backups_len(backup_views(found@));
    }
    while k < sorted.len()
        invariant
            cap <= k <= sorted@.len(),
            sv == backup_views(sorted@),
            str_views(r@) == sv.subrange(cap as int, k as int).map_values(|b: BackupView| b.1),
        decreases sorted.len() - k,
    {
        let ghost before = r@;
        r.push(crate::text::copy_string(&sorted[k].1));
        proof {
            assert(sv[k as int].1 == sorted@[k as int].1@);
            assert(str_views(r@) =~= str_views(before).push(sv[k as int].1));
            assert(str_views(r@) =~= sv.subrange(cap as int, k + 1).map_values(|b: BackupView| b.1));
        }
        k += 1;
    }
    proof {
        assert(sv.subrange(cap as int, sv.len() as int) =~= sv.skip(cap as int));
    }
    r
}

proof fn lemma_newest_backups_len(v: Seq<BackupView>)
    ensures
        newest_backups(v).len() == v.len(),
    decreases v.len(),
{
    if v.len() > 0 {
        lemma_newest_backups_len(v.drop_last());
        lemma_backup_slot_bounds(newest_backups(v.drop_last()), v.last());
    }
}

/// Ordered newest first: no backup is newer than one before it.
pub open spec fn newest_ordered(s: Seq<BackupView>) -> bool {
    forall|i: int, j: int| 0 <= i < j < s.len() ==> !newer(#[trigger] s[j], #[trigger] s[i])
}

proof fn lemma_newer_trans(a: BackupView, b: BackupView, c: BackupView)
    requires
        newer(a, b),
        newer(b, c),
    ensures
        newer(a, c),
{
    if a.0 == b.0 && b.0 == c.0 {
        crate::text::lemma_lex_lt_trans(c.1, b.1, a.1);
    }
}

proof fn lemma_newer_irrefl(a: BackupView)
    ensures
        !newer(a, a),
{
    crate::text::lemma_lex_lt_irrefl(a.1);
}

proof fn lemma_backup_slot_char(sorted: Seq<BackupView>, e: BackupView)
    ensures
        forall|j: int| 0 <= j < backup_slot(sorted, e) ==> !newer(e, #[trigger] sorted[j]),
        backup_slot(sorted, e) < sorted.len() ==> newer(e, sorted[backup_slot(sorted, e)]),
    decreases sorted.len(),
{
    lemma_backup_slot_bounds(sorted, e);
    if sorted.len() > 0 && !newer(e, sorted[0]) {
        let t = sorted.drop_first();
        lemma_backup_slot_char(t, e);
        lemma_backup_slot_bounds(t, e);
        assert forall|j: int| 0 <= j < backup_slot(sorted, e) implies !newer(e, #[trigger] sorted[j]) by {
            if j > 0 {
                assert(sorted[j] == t[j - 1]);
            }
        }
        if backup_slot(sorted, e) < sorted.len() {
            assert(sorted[backup_slot(sorted, e)] == t[backup_slot(t, e)]);
        }
    }
}

/// A prune ranks backups newest first: after sorting, no backup is newer
/// than one ranked before it, and none is lost or added.
pub proof fn lemma_newest_backups_ordered(v: Seq<BackupView>)
    ensures
        newest_ordered(newest_backups(v)),
        newest_backups(v).len() == v.len(),
        newest_backups(v).to_multiset() =~= v.to_multiset(),
    decreases v.len(),
{
    lemma_newest_backups_len(v);
    if v.len() > 0 {
        let p = v.drop_last();
        let e = v.last();
        lemma_newest_backups_ordered(p);
        let s = newest_backups(p);
        lemma_backup_slot_bounds(s, e);
        lemma_backup_slot_char(s, e);
        let k = backup_slot(s, e);
        let r = s.insert(k, e);
        assert forall|i: int, j: int| 0 <= i < j < r.len() implies !newer(#[trigger] r[j], #[trigger] r[i]) by {
            if j < k {
                assert(r[i] == s[i] && r[j] == s[j]);
            } else if j == k {
                assert(r[i] == s[i]);
            } else if i == k {
                assert(r[j] == s[j - 1]);
                if newer(s[j - 1], e) {
                    if j - 1 == k {
                        lemma_newer_trans(e, s[k], e);
                        lemma_newer_irrefl(e);
                    } else {
                        lemma_newer_trans(s[j - 1], e, s[k]);
                        assert(!newer(s[j - 1], s[k]));
                    }
                }
            } else if i < k {
                assert(r[i] == s[i] && r[j] == s[j - 1]);
                if i < j - 1 {
                    assert(!newer(s[j - 1], s[i]));
                }
                if i == j - 1 {
                    lemma_newer_irrefl(s[i]);
                }
            } else {
                assert(r[i] == s[i - 1] && r[j] == s[j - 1]);
            }
        }
        assert(newest_backups(v) == r);
        vstd::seq_lib::to_multiset_insert(s, k, e);
        assert(v =~= p.push(e));
        vstd::seq_lib::to_multiset_build(p, e);
        assert(r.to_multiset() =~= v.to_multiset());
    } else {
        assert(v =~= Seq::<BackupView>::empty());
        assert(newest_backups(v) =~= Seq::<BackupView>::empty());
    }
}

} // verus!
