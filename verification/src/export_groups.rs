//! Grouping drawers for the markdown export: by wing, then by room, both
//! in name order, each room keeping its drawers in the order they were
//! read; and the counts the export reports.
use vstd::prelude::*;
use crate::exporter::{ExportDrawer, ExportStats, WingSummary};
use crate::text::{lex_lt, str_eq, str_lt};

verus! {

broadcast use vstd::string::group_string_axioms;

/// A drawer read for export, with the wing and room it is filed in.
pub struct ExportRow {
    pub wing: String,
    pub room: String,
    pub drawer: ExportDrawer,
}

/// The drawers of one room.
pub struct RoomGroup {
    pub room: String,
    pub drawers: Vec<ExportDrawer>,
}

/// The rooms of one wing.
pub struct WingGroup {
    pub wing: String,
    pub rooms: Vec<RoomGroup>,
}

pub type RoomView = (Seq<char>, Seq<ExportDrawer>);

pub type WingView = (Seq<char>, Seq<RoomView>);

pub open spec fn room_views(rs: Seq<RoomGroup>) -> Seq<RoomView> {
    rs.map_values(|r: RoomGroup| (r.room@, r.drawers@))
}

pub open spec fn wing_views(gs: Seq<WingGroup>) -> Seq<WingView> {
    gs.map_values(|g: WingGroup| (g.wing@, room_views(g.rooms@)))
}

/// The position of the first name that is not below `n`.
pub open spec fn first_not_below(names: Seq<Seq<char>>, n: Seq<char>) -> nat
    decreases names.len(),
{
    if names.len() == 0 || !lex_lt(names[0], n) {
        0
    } else {
        1 + first_not_below(names.skip(1), n)
    }
}

pub open spec fn room_names(rs: Seq<RoomView>) -> Seq<Seq<char>> {
    rs.map_values(|r: RoomView| r.0)
}

pub open spec fn wing_names(gs: Seq<WingView>) -> Seq<Seq<char>> {
    gs.map_values(|g: WingView| g.0)
}

/// Filing a drawer in a room of a name-ordered list of rooms: appended to
/// the room of that name, or a new room put in its place in the order.
pub open spec fn insert_room(rs: Seq<RoomView>, room: Seq<char>, d: ExportDrawer) -> Seq<RoomView> {
    let i = first_not_below(room_names(rs), room) as int;
    if i < rs.len() && rs[i].0 == room {
        rs.update(i, (room, rs[i].1.push(d)))
    } else {
        rs.insert(i, (room, seq![d]))
    }
}

/// Filing a drawer under a wing and room of a name-ordered list of wings.
pub open spec fn insert_wing(gs: Seq<WingView>, wing: Seq<char>, room: Seq<char>, d: ExportDrawer) -> Seq<WingView> {
    let i = first_not_below(wing_names(gs), wing) as int;
    if i < gs.len() && gs[i].0 == wing {
        gs.update(i, (wing, insert_room(gs[i].1, room, d)))
    } else {
        gs.insert(i, (wing, seq![(room, seq![d])]))
    }
}

/// The rows filed one after another.
pub open spec fn grouped(rows: Seq<ExportRow>) -> Seq<WingView>
    decreases rows.len(),
{
    if rows.len() == 0 {
        Seq::empty()
    } else {
        let r = rows.last();
        insert_wing(grouped(rows.drop_last()), r.wing@, r.room@, r.drawer)
    }
}

proof fn lemma_first_not_below_prefix(names: Seq<Seq<char>>, n: Seq<char>, k: int)
    requires
        0 <= k <= names.len(),
        forall|j: int| 0 <= j < k ==> lex_lt(#[trigger] names[j], n),
    ensures
        first_not_below(names, n) == k + first_not_below(names.skip(k), n),
    decreases k,
{
    if k == 0 {
        assert(names.skip(0) =~= names);
    } else {
        let t = names.skip(1);
        assert forall|j: int| 0 <= j < k - 1 implies lex_lt(#[trigger] t[j], n) by {
            assert(t[j] == names[j + 1]);
        }
        lemma_first_not_below_prefix(t, n, k - 1);
        assert(t.skip(k - 1) =~= names.skip(k));
    }
}

/// The search for a name's place stops at the first name not below it.
pub proof fn lemma_first_not_below_at(names: Seq<Seq<char>>, n: Seq<char>, k: int)
    requires
        0 <= k <= names.len(),
        forall|j: int| 0 <= j < k ==> lex_lt(#[trigger] names[j], n),
        k == names.len() || !lex_lt(names[k], n),
    ensures
        first_not_below(names, n) == k,
{
    lemma_first_not_below_prefix(names, n, k);
    if k < names.len() {
        assert(names.skip(k)[0] == names[k]);
    }
}

fn add_to_rooms(rooms: &mut Vec<RoomGroup>, room: String, d: ExportDrawer)
    ensures
        room_views(final(rooms)@) == insert_room(room_views(old(rooms)@), room@, d),
{
    let ghost rv = room_views(rooms@);
    let ghost names = room_names(rv);
    let mut k: usize = 0;
    let mut stop = false;
    while k < rooms.len() && !stop
        invariant
            k <= rooms@.len(),
            rv == room_views(rooms@),
            names == room_names(rv),
            forall|j: int| 0 <= j < k ==> lex_lt(#[trigger] names[j], room@),
            stop ==> k < rooms@.len() && !lex_lt(names[k as int], room@),
        decreases rooms@.len() - k + (if stop { 0int } else { 1int }),
    {
        proof {
            assert(names[k as int] == rooms@[k as int].room@);
        }
        if str_lt(rooms[k].room.as_str(), room.as_str()) {
            k += 1;
        } else {
            stop = true;
        }
    }
    proof {
        lemma_first_not_below_at(names, room@, k as int);
    }
    if k < rooms.len() && str_eq(rooms[k].room.as_str(), room.as_str()) {
        let ghost before = rooms@;
        let mut g = rooms.remove(k);
        g.drawers.push(d);
        rooms.insert(k, g);
        proof {
            assert(rooms@ =~= before.update(k as int, rooms@[k as int]));
            assert(room_views(rooms@) =~= rv.update(k as int, (room@, rv[k as int].1.push(d))));
        }
    } else {
        let ghost before = rooms@;
        let mut ds: Vec<ExportDrawer> = Vec::new();
        ds.push(d);
        rooms.insert(k, RoomGroup { room, drawers: ds });
        proof {
            assert(room_views(rooms@) =~= rv.insert(k as int, (room@, seq![d])));
        }
    }
}

fn add_to_wings(gs: &mut Vec<WingGroup>, wing: String, room: String, d: ExportDrawer)
    ensures
        wing_views(final(gs)@) == insert_wing(wing_views(old(gs)@), wing@, room@, d),
{
    let ghost wv = wing_views(gs@);
    let ghost names = wing_names(wv);
    let mut k: usize = 0;
    let mut stop = false;
    while k < gs.len() && !stop
        invariant
            k <= gs@.len(),
            wv == wing_views(gs@),
            names == wing_names(wv),
            forall|j: int| 0 <= j < k ==> lex_lt(#[trigger] names[j], wing@),
            stop ==> k < gs@.len() && !lex_lt(names[k as int], wing@),
        decreases gs@.len() - k + (if stop { 0int } else { 1int }),
    {
        proof {
            assert(names[k as int] == gs@[k as int].wing@);
        }
        if str_lt(gs[k].wing.as_str(), wing.as_str()) {
            k += 1;
        } else {
            stop = true;
        }
    }
    proof {
        lemma_first_not_below_at(names, wing@, k as int);
    }
    if k < gs.len() && str_eq(gs[k].wing.as_str(), wing.as_str()) {
        let ghost before = gs@;
        let mut g = gs.remove(k);
        let ghost old_rooms = room_views(g.rooms@);
        add_to_rooms(&mut g.rooms, room, d);
        gs.insert(k, g);
        proof {
            assert(old_rooms == wv[k as int].1);
            assert(wing_views(gs@) =~= wv.update(k as int, (wing@, insert_room(wv[k as int].1, room@, d))));
        }
    } else {
        let mut ds: Vec<ExportDrawer> = Vec::new();
        let ghost rv = room@;
        ds.push(d);
        let mut rs: Vec<RoomGroup> = Vec::new();
        rs.push(RoomGroup { room, drawers: ds });
        gs.insert(k, WingGroup { wing, rooms: rs });
        proof {
            assert(room_views(rs@) =~= seq![(rv, seq![d])]);
            assert(wing_views(gs@) =~= wv.insert(k as int, (wing@, seq![(rv, seq![d])])));
        }
    }
}

/// Group rows by wing, then room, in name order; each room keeps its
/// drawers in the order of the rows.
pub fn group_for_export(rows: Vec<ExportRow>) -> (r: Vec<WingGroup>)
    ensures
        wing_views(r@) == grouped(rows@),
{
    let ghost all = rows@;
    let n = rows.len();
    let mut rest = rows;
    let mut gs: Vec<WingGroup> = Vec::new();
    let mut k: usize = 0;
    proof {
        assert(all.take(0) =~= Seq::<ExportRow>::empty());
        assert(wing_views(gs@) =~= Seq::<WingView>::empty());
        assert(all.skip(0) =~= all);
    }
    while rest.len() > 0
        invariant
            k <= all.len(),
            all.len() == n,
            rest@ == all.skip(k as int),
            wing_views(gs@) == grouped(all.take(k as int)),
        decreases rest@.len(),
    {
        let row = rest.remove(0);
        proof {
            assert(row == all[k as int]);
            assert(all.take(k + 1).drop_last() =~= all.take(k as int));
            assert(all.take(k + 1).last() == row);
            assert(rest@ =~= all.skip(k + 1));
        }
        let ExportRow { wing, room, drawer } = row;
        add_to_wings(&mut gs, wing, room, drawer);
        k += 1;
    }
    proof {
        assert(all.take(k as int) =~= all);
    }
    gs
}

// ---------------------------------------------------------------------------
// Counts
// ---------------------------------------------------------------------------

/// The drawers of a list of rooms.
pub open spec fn room_drawers(rs: Seq<RoomView>) -> nat
    decreases rs.len(),
{
    if rs.len() == 0 {
        0
    } else {
        room_drawers(rs.drop_last()) + rs.last().1.len()
    }
}

/// The drawers of a list of wings.
pub open spec fn wing_drawers(gs: Seq<WingView>) -> nat
    decreases gs.len(),
{
    if gs.len() == 0 {
        0
    } else {
        wing_drawers(gs.drop_last()) + room_drawers(gs.last().1)
    }
}

/// The rooms of a list of wings.
pub open spec fn wing_rooms(gs: Seq<WingView>) -> nat
    decreases gs.len(),
{
    if gs.len() == 0 {
        0
    } else {
        wing_rooms(gs.drop_last()) + gs.last().1.len()
    }
}

/// Every room holds at least one drawer.
pub open spec fn rooms_filled(gs: Seq<WingView>) -> bool {
    forall|i: int, j: int| 0 <= i < gs.len() && 0 <= j < gs[i].1.len() ==> #[trigger] gs[i].1[j].1.len() > 0
}

proof fn lemma_room_drawers_concat(a: Seq<RoomView>, b: Seq<RoomView>)
    ensures
        room_drawers(a + b) == room_drawers(a) + room_drawers(b),
    decreases b.len(),
{
    if b.len() == 0 {
        assert(a + b =~= a);
    } else {
        assert((a + b).drop_last() =~= a + b.drop_last());
        lemma_room_drawers_concat(a, b.drop_last());
    }
}

proof fn lemma_wing_sums_concat(a: Seq<WingView>, b: Seq<WingView>)
    ensures
        wing_drawers(a + b) == wing_drawers(a) + wing_drawers(b),
        wing_rooms(a + b) == wing_rooms(a) + wing_rooms(b),
    decreases b.len(),
{
    if b.len() == 0 {
        assert(a + b =~= a);
    } else {
        assert((a + b).drop_last() =~= a + b.drop_last());
        lemma_wing_sums_concat(a, b.drop_last());
    }
}

proof fn lemma_room_drawers_split(rs: Seq<RoomView>, i: int)
    requires
        0 <= i < rs.len(),
    ensures
        room_drawers(rs) == room_drawers(rs.take(i)) + rs[i].1.len() + room_drawers(rs.skip(i + 1)),
{
    assert(rs =~= rs.take(i) + seq![rs[i]] + rs.skip(i + 1));
    lemma_room_drawers_concat(rs.take(i) + seq![rs[i]], rs.skip(i + 1));
    lemma_room_drawers_concat(rs.take(i), seq![rs[i]]);
    lemma_room_drawers_one(rs[i]);
}

proof fn lemma_room_drawers_one(x: RoomView)
    ensures
        room_drawers(seq![x]) == x.1.len(),
{
    assert(seq![x].drop_last() =~= Seq::<RoomView>::empty());
    assert(room_drawers(Seq::<RoomView>::empty()) == 0);
}

proof fn lemma_wing_sums_one(x: WingView)
    ensures
        wing_drawers(seq![x]) == room_drawers(x.1),
        wing_rooms(seq![x]) == x.1.len(),
{
    assert(seq![x].drop_last() =~= Seq::<WingView>::empty());
    assert(wing_drawers(Seq::<WingView>::empty()) == 0);
    assert(wing_rooms(Seq::<WingView>::empty()) == 0);
}

proof fn lemma_wing_sums_split(gs: Seq<WingView>, i: int)
    requires
        0 <= i < gs.len(),
    ensures
        wing_drawers(gs) == wing_drawers(gs.take(i)) + room_drawers(gs[i].1) + wing_drawers(gs.skip(i + 1)),
        wing_rooms(gs) == wing_rooms(gs.take(i)) + gs[i].1.len() + wing_rooms(gs.skip(i + 1)),
{
    assert(gs =~= gs.take(i) + seq![gs[i]] + gs.skip(i + 1));
    lemma_wing_sums_concat(gs.take(i) + seq![gs[i]], gs.skip(i + 1));
    lemma_wing_sums_concat(gs.take(i), seq![gs[i]]);
    lemma_wing_sums_one(gs[i]);
}

proof fn lemma_first_not_below_bound(names: Seq<Seq<char>>, n: Seq<char>)
    ensures
        first_not_below(names, n) <= names.len(),
    decreases names.len(),
{
    if names.len() > 0 && lex_lt(names[0], n) {
        lemma_first_not_below_bound(names.skip(1), n);
    }
}

proof fn lemma_insert_room_count(rs: Seq<RoomView>, room: Seq<char>, d: ExportDrawer)
    ensures
        room_drawers(insert_room(rs, room, d)) == room_drawers(rs) + 1,
        insert_room(rs, room, d).len() <= rs.len() + 1,
        (forall|j: int| 0 <= j < rs.len() ==> #[trigger] rs[j].1.len() > 0) ==> (forall|k: int|
            0 <= k < insert_room(rs, room, d).len() ==> #[trigger] insert_room(rs, room, d)[k].1.len() > 0),
{
    let names = room_names(rs);
    lemma_first_not_below_bound(names, room);
    let i = first_not_below(names, room) as int;
    let r = insert_room(rs, room, d);
    if i < rs.len() && rs[i].0 == room {
        lemma_room_drawers_split(rs, i);
        lemma_room_drawers_split(r, i);
        assert(r.take(i) =~= rs.take(i));
        assert(r.skip(i + 1) =~= rs.skip(i + 1));
        if forall|j: int| 0 <= j < rs.len() ==> #[trigger] rs[j].1.len() > 0 {
            assert forall|k: int| 0 <= k < r.len() implies #[trigger] r[k].1.len() > 0 by {
                if k != i {
                    assert(r[k] == rs[k]);
                }
            }
        }
    } else {
        let one: Seq<RoomView> = seq![(room, seq![d])];
        assert(r =~= rs.take(i) + one + rs.skip(i));
        assert(rs =~= rs.take(i) + rs.skip(i));
        lemma_room_drawers_concat(rs.take(i), rs.skip(i));
        lemma_room_drawers_concat(rs.take(i) + one, rs.skip(i));
        lemma_room_drawers_concat(rs.take(i), one);
        lemma_room_drawers_one((room, seq![d]));
        if forall|j: int| 0 <= j < rs.len() ==> #[trigger] rs[j].1.len() > 0 {
            assert forall|k: int| 0 <= k < r.len() implies #[trigger] r[k].1.len() > 0 by {
                if k < i {
                    assert(r[k] == rs[k]);
                } else if k > i {
                    assert(r[k] == rs[k - 1]);
                }
            }
        }
    }
}

proof fn lemma_insert_wing_count(gs: Seq<WingView>, wing: Seq<char>, room: Seq<char>, d: ExportDrawer)
    requires
        rooms_filled(gs),
    ensures
        wing_drawers(insert_wing(gs, wing, room, d)) == wing_drawers(gs) + 1,
        wing_rooms(insert_wing(gs, wing, room, d)) <= wing_rooms(gs) + 1,
        rooms_filled(insert_wing(gs, wing, room, d)),
{
    let names = wing_names(gs);
    lemma_first_not_below_bound(names, wing);
    let i = first_not_below(names, wing) as int;
    let r = insert_wing(gs, wing, room, d);
    if i < gs.len() && gs[i].0 == wing {
        lemma_insert_room_count(gs[i].1, room, d);
        lemma_wing_sums_split(gs, i);
        lemma_wing_sums_split(r, i);
        assert(r.take(i) =~= gs.take(i));
        assert(r.skip(i + 1) =~= gs.skip(i + 1));
        assert forall|a: int, b: int| 0 <= a < r.len() && 0 <= b < r[a].1.len() implies #[trigger] r[a].1[b].1.len() > 0 by {
            if a != i {
                assert(r[a] == gs[a]);
            } else {
                assert forall|j: int| 0 <= j < gs[i].1.len() implies #[trigger] gs[i].1[j].1.len() > 0 by {}
            }
        }
    } else {
        let one: Seq<WingView> = seq![(wing, seq![(room, seq![d])])];
        assert(r =~= gs.take(i) + one + gs.skip(i));
        assert(gs =~= gs.take(i) + gs.skip(i));
        lemma_wing_sums_concat(gs.take(i), gs.skip(i));
        lemma_wing_sums_concat(gs.take(i) + one, gs.skip(i));
        lemma_wing_sums_concat(gs.take(i), one);
        lemma_wing_sums_one((wing, seq![(room, seq![d])]));
        lemma_room_drawers_one((room, seq![d]));
        assert forall|a: int, b: int| 0 <= a < r.len() && 0 <= b < r[a].1.len() implies #[trigger] r[a].1[b].1.len() > 0 by {
            if a < i {
                assert(r[a] == gs[a]);
            } else if a > i {
                assert(r[a] == gs[a - 1]);
            }
        }
    }
}

proof fn lemma_filled_rooms_bound(gs: Seq<WingView>)
    requires
        rooms_filled(gs),
    ensures
        wing_rooms(gs) <= wing_drawers(gs),
    decreases gs.len(),
{
    if gs.len() > 0 {
        let p = gs.drop_last();
        assert forall|i: int, j: int| 0 <= i < p.len() && 0 <= j < p[i].1.len() implies #[trigger] p[i].1[j].1.len() > 0 by {
            assert(p[i] == gs[i]);
        }
        lemma_filled_rooms_bound(p);
        lemma_room_count_bound(gs.last().1, gs.len() - 1, gs);
    }
}

proof fn lemma_room_count_bound(rs: Seq<RoomView>, w: int, gs: Seq<WingView>)
    requires
        0 <= w < gs.len(),
        rooms_filled(gs),
        rs.len() <= gs[w].1.len(),
        rs =~= gs[w].1.take(rs.len() as int),
    ensures
        rs.len() <= room_drawers(rs),
    decreases rs.len(),
{
    if rs.len() > 0 {
        let p = rs.drop_last();
        assert(p =~= gs[w].1.take(p.len() as int));
        lemma_room_count_bound(p, w, gs);
        assert(rs.last() == gs[w].1[rs.len() - 1]);
    }
}

/// Grouping files every row exactly once: the rooms together hold as many
/// drawers as there were rows, every room holds at least one, so there
/// are no more rooms than rows.
pub proof fn lemma_grouped_counts(rows: Seq<ExportRow>)
    ensures
        wing_drawers(grouped(rows)) == rows.len(),
        rooms_filled(grouped(rows)),
        wing_rooms(grouped(rows)) <= rows.len(),
    decreases rows.len(),
{
    if rows.len() > 0 {
        lemma_grouped_counts(rows.drop_last());
        let r = rows.last();
        lemma_insert_wing_count(grouped(rows.drop_last()), r.wing@, r.room@, r.drawer);
    }
    lemma_filled_rooms_bound(grouped(rows));
}

// ---------------------------------------------------------------------------
// The export plan
// ---------------------------------------------------------------------------

/// An index row describes a wing: its name, its rooms, its drawers.
pub open spec fn summary_matches(s: WingSummary, g: WingView) -> bool {
    s.wing@ == g.0 && s.rooms == g.1.len() && s.drawers == room_drawers(g.1)
}

/// What an export writes: the room files by wing, the index rows and the
/// counts.
pub struct ExportPlan {
    pub groups: Vec<WingGroup>,
    pub index: Vec<WingSummary>,
    pub stats: ExportStats,
}

proof fn lemma_room_drawers_prefix(rs: Seq<RoomView>, k: int)
    requires
        0 <= k < rs.len(),
    ensures
        room_drawers(rs.take(k + 1)) == room_drawers(rs.take(k)) + rs[k].1.len(),
        room_drawers(rs.take(k + 1)) <= room_drawers(rs),
{
    assert(rs.take(k + 1).drop_last() =~= rs.take(k));
    assert(rs =~= rs.take(k + 1) + rs.skip(k + 1));
    lemma_room_drawers_concat(rs.take(k + 1), rs.skip(k + 1));
}

proof fn lemma_wing_sums_prefix(gs: Seq<WingView>, k: int)
    requires
        0 <= k < gs.len(),
    ensures
        wing_drawers(gs.take(k + 1)) == wing_drawers(gs.take(k)) + room_drawers(gs[k].1),
        wing_rooms(gs.take(k + 1)) == wing_rooms(gs.take(k)) + gs[k].1.len(),
        wing_drawers(gs.take(k + 1)) <= wing_drawers(gs),
        wing_rooms(gs.take(k + 1)) <= wing_rooms(gs),
{
    assert(gs.take(k + 1).drop_last() =~= gs.take(k));
    assert(gs =~= gs.take(k + 1) + gs.skip(k + 1));
    lemma_wing_sums_concat(gs.take(k + 1), gs.skip(k + 1));
}

fn count_drawers(rooms: &Vec<RoomGroup>, bound: usize) -> (n: usize)
    requires
        room_drawers(room_views(rooms@)) <= bound,
    ensures
        n == room_drawers(room_views(rooms@)),
{
    let ghost rv = room_views(rooms@);
    let mut n: usize = 0;
    let mut k: usize = 0;
    proof {
        assert(rv.take(0) =~= Seq::<RoomView>::empty());
    }
    while k < rooms.len()
        invariant
            k <= rooms@.len(),
            rv == room_views(rooms@),
            room_drawers(rv) <= bound,
            n == room_drawers(rv.take(k as int)),
        decreases rooms.len() - k,
    {
        proof {
            lemma_room_drawers_prefix(rv, k as int);
            assert(rv[k as int].1 == rooms@[k as int].drawers@);
        }
        n = n + rooms[k].drawers.len();
        k += 1;
    }
    proof {
        assert(rv.take(rv.len() as int) =~= rv);
    }
    n
}

/// Plan a markdown export of the rows: the groups, one index row per wing,
/// and the counts of wings, rooms and drawers.
pub fn plan_export(rows: Vec<ExportRow>) -> (r: ExportPlan)
    ensures
        wing_views(r.groups@) == grouped(rows@),
        r.index@.len() == r.groups@.len(),
        forall|i: int| 0 <= i < r.index@.len() ==> summary_matches(#[trigger] r.index@[i], grouped(rows@)[i]),
        r.stats.wings == grouped(rows@).len(),
        r.stats.rooms == wing_rooms(grouped(rows@)),
        r.stats.drawers == rows@.len(),
{
    let ghost all = rows@;
    let n = rows.len();
    proof {
        lemma_grouped_counts(all);
    }
    let groups = group_for_export(rows);
    let ghost gv = wing_views(groups@);
    let mut index: Vec<WingSummary> = Vec::new();
    let mut rooms: usize = 0;
    let mut drawers: usize = 0;
    let mut k: usize = 0;
    proof {
        assert(gv.take(0) =~= Seq::<WingView>::empty());
    }
    while k < groups.len()
        invariant
            k <= groups@.len(),
            gv == wing_views(groups@),
            gv == grouped(all),
            wing_drawers(gv) == n,
            wing_rooms(gv) <= n,
            index@.len() == k,
            forall|i: int| 0 <= i < k ==> summary_matches(#[trigger] index@[i], gv[i]),
            drawers == wing_drawers(gv.take(k as int)),
            rooms == wing_rooms(gv.take(k as int)),
        decreases groups.len() - k,
    {
        proof {
            lemma_wing_sums_prefix(gv, k as int);
            assert(gv[k as int] == (groups@[k as int].wing@, room_views(groups@[k as int].rooms@)));
        }
        let g = &groups[k];
        let d = count_drawers(&g.rooms, n);
        let ghost before = index@;
        index.push(WingSummary { wing: crate::text::copy_string(&g.wing), rooms: g.rooms.len(), drawers: d });
        proof {
            assert forall|i: int| 0 <= i < k + 1 implies summary_matches(#[trigger] index@[i], gv[i]) by {
                if i < k {
                    assert(index@[i] == before[i]);
                }
            }
        }
        rooms = rooms + g.rooms.len();
        drawers = drawers + d;
        k += 1;
    }
    proof {
        assert(gv.take(gv.len() as int) =~= gv);
    }
    let wings = groups.len();
    ExportPlan { groups, index, stats: ExportStats { wings, rooms, drawers } }
}

// ---------------------------------------------------------------------------
// Order
// ---------------------------------------------------------------------------

/// Names in strictly increasing order: sorted, none twice.
pub open spec fn strictly_sorted(names: Seq<Seq<char>>) -> bool {
    forall|i: int, j: int| 0 <= i < j < names.len() ==> lex_lt(#[trigger] names[i], #[trigger] names[j])
}

/// Wings in name order, each once, and in every wing its rooms in name
/// order, each once.
pub open spec fn groups_sorted(gs: Seq<WingView>) -> bool {
    strictly_sorted(wing_names(gs)) && forall|i: int| 0 <= i < gs.len() ==> strictly_sorted(
        #[trigger] room_names(gs[i].1),
    )
}

proof fn lemma_first_not_below_char(names: Seq<Seq<char>>, n: Seq<char>)
    ensures
        first_not_below(names, n) <= names.len(),
        forall|j: int| 0 <= j < first_not_below(names, n) ==> lex_lt(#[trigger] names[j], n),
        first_not_below(names, n) < names.len() ==> !lex_lt(names[first_not_below(names, n) as int], n),
    decreases names.len(),
{
    if names.len() > 0 && lex_lt(names[0], n) {
        let t = names.skip(1);
        lemma_first_not_below_char(t, n);
        assert forall|j: int| 0 <= j < first_not_below(names, n) implies lex_lt(#[trigger] names[j], n) by {
            if j > 0 {
                assert(names[j] == t[j - 1]);
            }
        }
        if first_not_below(names, n) < names.len() {
            assert(names[first_not_below(names, n) as int] == t[first_not_below(t, n) as int]);
        }
    }
}

/// Putting a new name at its place keeps names strictly sorted.
proof fn lemma_insert_sorted(names: Seq<Seq<char>>, n: Seq<char>)
    requires
        strictly_sorted(names),
        first_not_below(names, n) == names.len() || names[first_not_below(names, n) as int] != n,
    ensures
        strictly_sorted(names.insert(first_not_below(names, n) as int, n)),
{
    lemma_first_not_below_char(names, n);
    let i = first_not_below(names, n) as int;
    let r = names.insert(i, n);
    if i < names.len() {
        crate::text::lemma_lex_lt_total(names[i], n);
    }
    assert forall|a: int, b: int| 0 <= a < b < r.len() implies lex_lt(#[trigger] r[a], #[trigger] r[b]) by {
        if b < i {
            assert(r[a] == names[a] && r[b] == names[b]);
        } else if b == i {
            assert(r[a] == names[a]);
        } else if a < i {
            assert(r[a] == names[a] && r[b] == names[b - 1]);
            if a < b - 1 {
                assert(lex_lt(names[a], names[b - 1]));
            }
        } else if a == i {
            assert(r[b] == names[b - 1]);
            if b - 1 > i {
                assert(lex_lt(names[i], names[b - 1]));
                crate::text::lemma_lex_lt_trans(n, names[i], names[b - 1]);
            }
        } else {
            assert(r[a] == names[a - 1] && r[b] == names[b - 1]);
        }
    }
}

proof fn lemma_insert_room_sorted(rs: Seq<RoomView>, room: Seq<char>, d: ExportDrawer)
    requires
        strictly_sorted(room_names(rs)),
    ensures
        strictly_sorted(room_names(insert_room(rs, room, d))),
{
    let names = room_names(rs);
    lemma_first_not_below_char(names, room);
    let i = first_not_below(names, room) as int;
    let r = insert_room(rs, room, d);
    if i < rs.len() && rs[i].0 == room {
        assert(room_names(r) =~= names);
    } else {
        if i < rs.len() {
            assert(names[i] == rs[i].0);
        }
        lemma_insert_sorted(names, room);
        assert(room_names(r) =~= names.insert(i, room));
    }
}

proof fn lemma_insert_wing_sorted(gs: Seq<WingView>, wing: Seq<char>, room: Seq<char>, d: ExportDrawer)
    requires
        groups_sorted(gs),
    ensures
        groups_sorted(insert_wing(gs, wing, room, d)),
{
    let names = wing_names(gs);
    lemma_first_not_below_char(names, wing);
    let i = first_not_below(names, wing) as int;
    let r = insert_wing(gs, wing, room, d);
    if i < gs.len() && gs[i].0 == wing {
        assert(wing_names(r) =~= names);
        assert(strictly_sorted(room_names(gs[i].1)));
        lemma_insert_room_sorted(gs[i].1, room, d);
        assert forall|a: int| 0 <= a < r.len() implies strictly_sorted(#[trigger] room_names(r[a].1)) by {
            if a != i {
                assert(r[a] == gs[a]);
            }
        }
    } else {
        if i < gs.len() {
            assert(names[i] == gs[i].0);
        }
        lemma_insert_sorted(names, wing);
        assert(wing_names(r) =~= names.insert(i, wing));
        assert forall|a: int| 0 <= a < r.len() implies strictly_sorted(#[trigger] room_names(r[a].1)) by {
            if a < i {
                assert(r[a] == gs[a]);
            } else if a > i {
                assert(r[a] == gs[a - 1]);
            } else {
                assert(room_names(r[a].1) =~= seq![room]);
            }
        }
    }
}

/// Grouping lists the wings in name order, each once, and within each
/// wing its rooms in name order, each once.
pub proof fn lemma_grouped_sorted(rows: Seq<ExportRow>)
    ensures
        groups_sorted(grouped(rows)),
    decreases rows.len(),
{
    if rows.len() == 0 {
        assert(wing_names(grouped(rows)) =~= Seq::<Seq<char>>::empty());
    } else {
        lemma_grouped_sorted(rows.drop_last());
        let r = rows.last();
        lemma_insert_wing_sorted(grouped(rows.drop_last()), r.wing@, r.room@, r.drawer);
    }
}

} // verus!
