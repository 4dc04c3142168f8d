//! Palace snapshots: metadata of saved states and the listing of the most
//! recent ones.
use vstd::prelude::*;
use crate::text::{copy_string, lex_lt, str_lt};

verus! {

broadcast use vstd::string::group_string_axioms;

/// Counts recorded with a snapshot.
pub struct SnapshotStats {
    pub sessions: usize,
    pub observations: usize,
    pub memories: usize,
    pub graph_nodes: usize,
}

/// Metadata of a saved snapshot.
pub struct SnapshotMeta {
    pub id: String,
    pub commit_hash: String,
    /// RFC 3339 creation time.
    pub created_at: String,
    pub message: String,
    pub stats: SnapshotStats,
}

/// A snapshot as listed.
pub struct SnapshotEntry {
    pub commit_hash: String,
    pub created_at: String,
    pub message: String,
}

/// How many snapshots a listing shows.
pub const MAX_LISTED: usize = 20;

/// A store of snapshots under one directory.
pub struct SnapshotStore {
    snapshot_dir: String,
}

impl SnapshotStore {
    /// A store over an existing directory.
    pub fn from_dir(snapshot_dir: String) -> (r: Self)
        ensures
            r.dir() == snapshot_dir@,
    {
        SnapshotStore { snapshot_dir }
    }

    pub closed spec fn dir(&self) -> Seq<char> {
        self.snapshot_dir@
    }

    /// The directory the snapshots live in.
    pub fn snapshot_dir(&self) -> (r: &str)
        ensures
            r@ == self.dir(),
    {
        self.snapshot_dir.as_str()
    }
}

/// The listing entry of a snapshot.
pub fn entry_from_meta(meta: &SnapshotMeta) -> (r: SnapshotEntry)
    ensures
        r.commit_hash@ == meta.commit_hash@,
        r.created_at@ == meta.created_at@,
        r.message@ == meta.message@,
{
    SnapshotEntry {
        commit_hash: copy_string(&meta.commit_hash),
        created_at: copy_string(&meta.created_at),
        message: copy_string(&meta.message),
    }
}

/// The (commit, creation time, message) of an entry.
pub type EntryView = (Seq<char>, Seq<char>, Seq<char>);

pub open spec fn entry_view(e: SnapshotEntry) -> EntryView {
    (e.commit_hash@, e.created_at@, e.message@)
}

pub open spec fn entry_views(v: Seq<SnapshotEntry>) -> Seq<EntryView> {
    v.map_values(|e: SnapshotEntry| entry_view(e))
}

/// Where `e` goes in a list sorted newest first: before the first entry
/// that is strictly older, so that entries with equal times keep their
/// order.
pub open spec fn insert_pos(sorted: Seq<EntryView>, e: EntryView) -> int
    decreases sorted.len(),
{
    if sorted.len() == 0 {
        0
    } else if lex_lt(sorted[0].1, e.1) {
        0
    } else {
        1 + insert_pos(sorted.drop_first(), e)
    }
}

/// Entries sorted newest first by creation time (a stable sort: entries
/// with equal times keep their order).
pub open spec fn newest_first(v: Seq<EntryView>) -> Seq<EntryView>
    decreases v.len(),
{
    if v.len() == 0 {
        Seq::empty()
    } else {
        let s = newest_first(v.drop_last());
        s.insert(insert_pos(s, v.last()), v.last())
    }
}

proof fn lemma_insert_pos_bounds(sorted: Seq<EntryView>, e: EntryView)
    ensures
        0 <= insert_pos(sorted, e) <= sorted.len(),
    decreases sorted.len(),
{
    if sorted.len() > 0 && !lex_lt(sorted[0].1, e.1) {
        lemma_insert_pos_bounds(sorted.drop_first(), e);
    }
}

proof fn lemma_newest_first_len(v: Seq<EntryView>)
    ensures
        newest_first(v).len() == v.len(),
    decreases v.len(),
{
    if v.len() > 0 {
        lemma_newest_first_len(v.drop_last());
        lemma_insert_pos_bounds(newest_first(v.drop_last()), v.last());
    }
}

/// Sort snapshot entries newest first and keep the most recent twenty.
pub fn newest_snapshots(entries: Vec<SnapshotEntry>) -> (r: Vec<SnapshotEntry>)
    ensures
        entry_views(r@) == (if entries@.len() <= MAX_LISTED {
            newest_first(entry_views(entries@))
        } else {
            newest_first(entry_views(entries@)).take(MAX_LISTED as int)
        }),
{
    let ghost ev = entry_views(entries@);
    let mut sorted: Vec<SnapshotEntry> = Vec::new();
    let mut rest = entries;
    let mut taken: Vec<SnapshotEntry> = Vec::new();
    let n = rest.len();
    let mut k: usize = 0;
    while k < n
        invariant
            k <= n,
            n == ev.len(),
            rest@.len() == n,
            entry_views(rest@) == ev,
            entry_views(sorted@) == newest_first(ev.take(k as int)),
        decreases n - k,
    {
        let e = SnapshotEntry {
            commit_hash: copy_string(&rest[k].commit_hash),
            created_at: copy_string(&rest[k].created_at),
            message: copy_string(&rest[k].message),
        };
        let ghost sv = entry_views(sorted@);
        let mut p: usize = 0;
        proof {
            assert(sv.skip(0) =~= sv);
        }
        while p < sorted.len() && !str_lt(sorted[p].created_at.as_str(), e.created_at.as_str())
            invariant
                p <= sorted@.len(),
                sv == entry_views(sorted@),
                insert_pos(sv, entry_view(e)) == p + insert_pos(sv.skip(p as int), entry_view(e)),
            decreases sorted.len() - p,
        {
            proof {
                assert(sv.skip(p as int)[0] == entry_view(sorted@[p as int]));
                assert(sv.skip(p as int).drop_first() =~= sv.skip(p + 1));
            }
            p += 1;
        }
        proof {
            if p < sorted@.len() {
                assert(sv.skip(p as int)[0] == entry_view(sorted@[p as int]));
            } else {
                assert(sv.skip(p as int).len() == 0);
            }
            assert(insert_pos(sv, entry_view(e)) == p);
            assert(ev.take(k + 1).drop_last() =~= ev.take(k as int));
            assert(ev.take(k + 1).last() == entry_view(e));
        }
        sorted.insert(p, e);
        proof {
            assert(entry_views(sorted@) =~= sv.insert(p as int, entry_view(e)));
        }
        k += 1;
    }
    proof {
        assert(ev.take(n as int) =~= ev);
        lemma_newest_first_len(ev);
    }
    let mut out: Vec<SnapshotEntry> = Vec::new();
    let limit = if sorted.len() <= MAX_LISTED {
        sorted.len()
    } else {
        MAX_LISTED
    };
    let mut j: usize = 0;
    while j < limit
        invariant
            j <= limit <= sorted@.len(),
            entry_views(out@) == entry_views(sorted@).take(j as int),
        decreases limit - j,
    {
        let e = SnapshotEntry {
            commit_hash: copy_string(&sorted[j].commit_hash),
            created_at: copy_string(&sorted[j].created_at),
            message: copy_string(&sorted[j].message),
        };
        let ghost before = entry_views(out@);
        out.push(e);
        proof {
            assert(entry_views(out@) =~= before.push(entry_view(sorted@[j as int])));
            assert(entry_views(out@) =~= entry_views(sorted@).take(j + 1));
        }
        j += 1;
    }
    proof {
        if sorted@.len() <= MAX_LISTED {
            assert(entry_views(sorted@).take(limit as int) =~= entry_views(sorted@));
        }
    }
    out
}

} // verus!
