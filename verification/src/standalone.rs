//! The in-memory key-value store the MCP tools fall back on when the
//! MemPalace server cannot be reached, also used for the context cache.
//!
//! Values are kept as their JSON text.  An entry put with a time-to-live of
//! `t` seconds at time `now` (seconds since the Unix epoch) expires once the
//! clock passes `now + t`; an entry put without one never expires.  An
//! expired entry is never read back: a read removes it, and a cleanup
//! removes them all.
use vstd::prelude::*;
use crate::civil_date::now_unix_secs;
use crate::http_transport::{parse_unsigned, parse_unsigned_exec};
use crate::text::{chars_of, occurs_at, occurs_at_exec, split_chars, split_on, starts_with, seq_starts_with, str_eq, string_from_chars};

verus! {

broadcast use vstd::string::group_string_axioms;

/// What a store holds: for each key, the value's JSON text and the time
/// (seconds since the epoch) after which the entry is expired, or 0 when
/// it never expires.
pub type StoreView = Map<Seq<char>, (Seq<char>, u64)>;

/// An entry is live at `now`: it never expires, or `now` has not passed
/// its expiry time.
pub open spec fn live(e: (Seq<char>, u64), now: u64) -> bool {
    e.1 == 0 || now <= e.1
}

/// The expiry time of an entry put at `now` with time-to-live `ttl`
/// (saturating at the largest time).
pub open spec fn expiry(ttl: Option<u64>, now: u64) -> u64 {
    match ttl {
        None => 0,
        Some(t) => if now + t > u64::MAX {
            u64::MAX
        } else {
            (now + t) as u64
        },
    }
}

/// What a read of `key` at `now` gives back.
pub open spec fn lookup(m: StoreView, key: Seq<char>, now: u64) -> Option<Seq<char>> {
    if m.contains_key(key) && live(m[key], now) {
        Some(m[key].0)
    } else {
        None
    }
}

/// The keys of the entries live at `now`.
pub open spec fn live_keys(m: StoreView, now: u64) -> Set<Seq<char>> {
    Set::new(|k: Seq<char>| m.contains_key(k) && live(m[k], now))
}

/// The entries live at `now`.
pub open spec fn live_part(m: StoreView, now: u64) -> StoreView {
    Map::new(|k: Seq<char>| m.contains_key(k) && live(m[k], now), |k: Seq<char>| m[k])
}

/// What a read at `now` leaves: an expired entry for `key` is removed.
pub open spec fn after_read(m: StoreView, key: Seq<char>, now: u64) -> StoreView {
    if m.contains_key(key) && !live(m[key], now) {
        m.remove(key)
    } else {
        m
    }
}

/// A read gives back what the last write under the same key wrote: always
/// when it was put without a time-to-live, and otherwise until the
/// time-to-live has run out after the write, but not after.
pub proof fn lemma_read_after_write(m: StoreView, key: Seq<char>, value: Seq<char>, ttl: Option<u64>, now: u64, t: u64)
    ensures
        ttl is None ==> lookup(m.insert(key, (value, expiry(ttl, now))), key, t) == Some(value),
        ttl matches Some(d) && now <= t && t - now <= d ==> lookup(m.insert(key, (value, expiry(ttl, now))), key, t)
            == Some(value),
        ttl matches Some(d) && t > now + d && now + d > 0 ==> lookup(m.insert(key, (value, expiry(ttl, now))), key, t)
            is None,
{
}

/// A write under one key leaves what every other key reads.
pub proof fn lemma_write_keeps_other_keys(m: StoreView, key: Seq<char>, e: (Seq<char>, u64), other: Seq<char>, t: u64)
    requires
        other != key,
    ensures
        lookup(m.insert(key, e), other, t) == lookup(m, other, t),
{
}

/// After a delete the key reads nothing, and every other key reads as before.
pub proof fn lemma_delete_then_read(m: StoreView, key: Seq<char>, other: Seq<char>, t: u64)
    ensures
        lookup(m.remove(key), key, t) is None,
        other != key ==> lookup(m.remove(key), other, t) == lookup(m, other, t),
{
}

/// A read removes only what no read at that time could see: every key
/// reads the same before and after it.
pub proof fn lemma_read_changes_no_read(m: StoreView, key: Seq<char>, other: Seq<char>, now: u64)
    ensures
        lookup(after_read(m, key, now), other, now) == lookup(m, other, now),
        live_keys(after_read(m, key, now), now) == live_keys(m, now),
{
    assert(live_keys(after_read(m, key, now), now) =~= live_keys(m, now));
}

/// A cleanup keeps exactly the live entries: every key reads the same
/// before and after it, and the live count is unchanged.
pub proof fn lemma_cleanup_changes_no_read(m: StoreView, key: Seq<char>, now: u64)
    ensures
        lookup(live_part(m, now), key, now) == lookup(m, key, now),
        live_keys(live_part(m, now), now) == live_keys(m, now),
        forall|k: Seq<char>| #[trigger] live_part(m, now).contains_key(k) ==> live(live_part(m, now)[k], now),
{
    assert(live_keys(live_part(m, now), now) =~= live_keys(m, now));
}

// ---------------------------------------------------------------------------
// Where the server is looked for
// ---------------------------------------------------------------------------

/// The port probed when the URL names none that parses.
pub const DEFAULT_SERVER_PORT: u16 = 3030;

/// `s` from position `i` on, with each occurrence of `pat` found scanning
/// left to right removed (`str::replace` with an empty replacement).
pub open spec fn remove_from(s: Seq<char>, pat: Seq<char>, i: int) -> Seq<char>
    decreases s.len() - i,
{
    if i < 0 || i >= s.len() {
        Seq::empty()
    } else if pat.len() > 0 && occurs_at(s, pat, i) {
        remove_from(s, pat, i + pat.len())
    } else {
        seq![s[i]] + remove_from(s, pat, i + 1)
    }
}

/// `s` without its trailing `c`s.
pub open spec fn trim_trailing(s: Seq<char>, c: char) -> Seq<char>
    decreases s.len(),
{
    if s.len() > 0 && s.last() == c {
        trim_trailing(s.drop_last(), c)
    } else {
        s
    }
}

/// The port a server URL names: the URL without trailing slashes and,
/// when it starts with a scheme, without every `http://` and `https://`;
/// then the piece after its first `:`, when that parses as a port; else
/// [`DEFAULT_SERVER_PORT`].
pub open spec fn url_port(url: Seq<char>) -> u16 {
    let u = trim_trailing(url, '/');
    let hp = if starts_with(u, "http://"@) || starts_with(u, "https://"@) {
        remove_from(remove_from(u, "http://"@, 0), "https://"@, 0)
    } else {
        u
    };
    let parts = split_on(hp, ':');
    if parts.len() > 1 && parse_unsigned(parts[1], 65535) is Some {
        parse_unsigned(parts[1], 65535)->0 as u16
    } else {
        DEFAULT_SERVER_PORT
    }
}

fn remove_all(s: &[char], pat: &[char]) -> (r: Vec<char>)
    ensures
        r@ == remove_from(s@, pat@, 0),
{
    let mut out: Vec<char> = Vec::new();
    let mut i: usize = 0;
    while i < s.len()
        invariant
            i <= s@.len(),
            out@ + remove_from(s@, pat@, i as int) == remove_from(s@, pat@, 0),
        decreases s.len() - i,
    {
        if pat.len() > 0 && occurs_at_exec(s, pat, i) {
            i += pat.len();
        } else {
            let ghost before = out@;
            out.push(s[i]);
            proof {
                assert(before + (seq![s@[i as int]] + remove_from(s@, pat@, i + 1)) =~= out@ + remove_from(
                    s@,
                    pat@,
                    i + 1,
                ));
            }
            i += 1;
        }
    }
    proof {
        assert(out@ + remove_from(s@, pat@, i as int) =~= out@);
    }
    out
}

/// The port probed for the MemPalace server at `url` (on the loopback
/// address).
pub fn server_port(url: &str) -> (r: u16)
    ensures
        r == url_port(url@),
{
    let cs = chars_of(url);
    let mut end = cs.len();
    proof {
        assert(cs@.take(end as int) =~= url@);
    }
    while end > 0 && cs[end - 1] == '/'
        invariant
            end <= cs@.len(),
            cs@ == url@,
            trim_trailing(cs@.take(end as int), '/') == trim_trailing(url@, '/'),
        decreases end,
    {
        proof {
            assert(cs@.take(end as int).drop_last() =~= cs@.take(end - 1));
        }
        end -= 1;
    }
    let mut u: Vec<char> = Vec::new();
    let mut k: usize = 0;
    while k < end
        invariant
            k <= end <= cs@.len(),
            u@ == cs@.take(k as int),
        decreases end - k,
    {
        u.push(cs[k]);
        proof {
            assert(u@ =~= cs@.take(k + 1));
        }
        k += 1;
    }
    proof {
        assert(trim_trailing(u@, '/') == u@);
    }
    let http = chars_of("http://");
    let https = chars_of("https://");
    let hp = if seq_starts_with(u.as_slice(), http.as_slice()) || seq_starts_with(u.as_slice(), https.as_slice()) {
        let a = remove_all(u.as_slice(), http.as_slice());
        remove_all(a.as_slice(), https.as_slice())
    } else {
        u
    };
    let parts = split_chars(hp.as_slice(), ':');
    if parts.len() > 1 {
        let p = string_from_chars(parts[1].as_slice());
        match parse_unsigned_exec(p.as_str(), 65535) {
            Some(n) => n as u16,
            None => DEFAULT_SERVER_PORT,
        }
    } else {
        DEFAULT_SERVER_PORT
    }
}

/// An in-memory key-value store with expiring entries.
pub struct InMemoryStore {
    entries: Vec<(String, String, u64)>,
}

pub open spec fn entry_view(e: (String, String, u64)) -> (Seq<char>, u64) {
    (e.1@, e.2)
}

pub closed spec fn entries_map(s: Seq<(String, String, u64)>) -> StoreView
    decreases s.len(),
{
    if s.len() == 0 {
        Map::empty()
    } else {
        entries_map(s.drop_last()).insert(s.last().0@, entry_view(s.last()))
    }
}

pub closed spec fn distinct_keys(s: Seq<(String, String, u64)>) -> bool {
    forall|i: int, j: int| 0 <= i < j < s.len() ==> (#[trigger] s[i]).0@ != (#[trigger] s[j]).0@
}

impl View for InMemoryStore {
    type V = StoreView;

    closed spec fn view(&self) -> StoreView {
        entries_map(self.entries@)
    }
}

proof fn lemma_entries_map_index(s: Seq<(String, String, u64)>)
    requires
        distinct_keys(s),
    ensures
        forall|i: int|
            0 <= i < s.len() ==> entries_map(s).contains_key((#[trigger] s[i]).0@) && entries_map(s)[s[i].0@]
                == entry_view(s[i]),
        forall|k: Seq<char>|
            #[trigger] entries_map(s).contains_key(k) ==> exists|i: int| 0 <= i < s.len() && (#[trigger] s[i]).0@ == k,
    decreases s.len(),
{
    if s.len() > 0 {
        let p = s.drop_last();
        assert(distinct_keys(p)) by {
            assert forall|i: int, j: int| 0 <= i < j < p.len() implies (#[trigger] p[i]).0@ != (#[trigger] p[j]).0@ by {
                assert(p[i] == s[i] && p[j] == s[j]);
            }
        }
        lemma_entries_map_index(p);
        assert forall|i: int| 0 <= i < s.len() implies entries_map(s).contains_key((#[trigger] s[i]).0@)
            && entries_map(s)[s[i].0@] == entry_view(s[i]) by {
            if i < s.len() - 1 {
                assert(p[i] == s[i]);
                assert(s[i].0@ != s[s.len() - 1].0@);
            }
        }
        assert forall|k: Seq<char>| #[trigger] entries_map(s).contains_key(k) implies exists|i: int|
            0 <= i < s.len() && (#[trigger] s[i]).0@ == k by {
            if k != s.last().0@ {
                assert(entries_map(p).contains_key(k));
                let i = choose|i: int| 0 <= i < p.len() && (#[trigger] p[i]).0@ == k;
                assert(s[i] == p[i]);
            } else {
                assert(s[s.len() - 1].0@ == k);
            }
        }
    }
}

proof fn lemma_entries_map_update(s: Seq<(String, String, u64)>, i: int, e: (String, String, u64))
    requires
        distinct_keys(s),
        0 <= i < s.len(),
        e.0@ == s[i].0@,
    ensures
        distinct_keys(s.update(i, e)),
        entries_map(s.update(i, e)) == entries_map(s).insert(e.0@, entry_view(e)),
    decreases s.len(),
{
    let u = s.update(i, e);
    assert forall|a: int, b: int| 0 <= a < b < u.len() implies (#[trigger] u[a]).0@ != (#[trigger] u[b]).0@ by {
        assert(s[a].0@ != s[b].0@);
    }
    let p = s.drop_last();
    assert(distinct_keys(p)) by {
        assert forall|a: int, b: int| 0 <= a < b < p.len() implies (#[trigger] p[a]).0@ != (#[trigger] p[b]).0@ by {
            assert(p[a] == s[a] && p[b] == s[b]);
        }
    }
    if i == s.len() - 1 {
        assert(u.drop_last() =~= p);
        assert(entries_map(u) =~= entries_map(s).insert(e.0@, entry_view(e)));
    } else {
        lemma_entries_map_update(p, i, e);
        assert(u.drop_last() =~= p.update(i, e));
        assert(u.last() == s.last());
        assert(s.last().0@ != e.0@) by {
            assert(s[i].0@ != s[s.len() - 1].0@);
        }
        assert(entries_map(u) =~= entries_map(s).insert(e.0@, entry_view(e)));
    }
}

proof fn lemma_entries_map_remove(s: Seq<(String, String, u64)>, i: int)
    requires
        distinct_keys(s),
        0 <= i < s.len(),
    ensures
        distinct_keys(s.remove(i)),
        entries_map(s.remove(i)) == entries_map(s).remove(s[i].0@),
    decreases s.len(),
{
    let r = s.remove(i);
    assert forall|a: int, b: int| 0 <= a < b < r.len() implies (#[trigger] r[a]).0@ != (#[trigger] r[b]).0@ by {
        let sa = if a < i { a } else { a + 1 };
        let sb = if b < i { b } else { b + 1 };
        assert(r[a] == s[sa] && r[b] == s[sb]);
    }
    let p = s.drop_last();
    assert(distinct_keys(p)) by {
        assert forall|a: int, b: int| 0 <= a < b < p.len() implies (#[trigger] p[a]).0@ != (#[trigger] p[b]).0@ by {
            assert(p[a] == s[a] && p[b] == s[b]);
        }
    }
    lemma_entries_map_index(p);
    if i == s.len() - 1 {
        assert(r =~= p);
        assert(!entries_map(p).contains_key(s[i].0@)) by {
            if entries_map(p).contains_key(s[i].0@) {
                let j = choose|j: int| 0 <= j < p.len() && (#[trigger] p[j]).0@ == s[i].0@;
                assert(p[j] == s[j]);
            }
        }
        assert(entries_map(r) =~= entries_map(s).remove(s[i].0@));
    } else {
        lemma_entries_map_remove(p, i);
        assert(r.drop_last() =~= p.remove(i));
        assert(r.last() == s.last());
        assert(s.last().0@ != s[i].0@);
        assert(entries_map(r) =~= entries_map(s).remove(s[i].0@));
    }
}

proof fn lemma_entries_map_push(s: Seq<(String, String, u64)>, e: (String, String, u64))
    requires
        distinct_keys(s),
        !entries_map(s).contains_key(e.0@),
    ensures
        distinct_keys(s.push(e)),
        entries_map(s.push(e)) == entries_map(s).insert(e.0@, entry_view(e)),
{
    lemma_entries_map_index(s);
    let t = s.push(e);
    assert forall|a: int, b: int| 0 <= a < b < t.len() implies (#[trigger] t[a]).0@ != (#[trigger] t[b]).0@ by {
        if b == s.len() {
            assert(t[a] == s[a]);
        } else {
            assert(t[a] == s[a] && t[b] == s[b]);
        }
    }
    assert(t.drop_last() =~= s);
}

proof fn lemma_live_keys_count(s: Seq<(String, String, u64)>, now: u64)
    requires
        distinct_keys(s),
    ensures
        live_keys(entries_map(s), now).finite(),
        live_keys(entries_map(s), now).len() == live_count(s, now),
    decreases s.len(),
{
    if s.len() == 0 {
        assert(live_keys(entries_map(s), now) =~= Set::<Seq<char>>::empty());
    } else {
        let p = s.drop_last();
        assert(distinct_keys(p)) by {
            assert forall|a: int, b: int| 0 <= a < b < p.len() implies (#[trigger] p[a]).0@ != (#[trigger] p[b]).0@ by {
                assert(p[a] == s[a] && p[b] == s[b]);
            }
        }
        lemma_live_keys_count(p, now);
        lemma_entries_map_index(p);
        let k = s.last().0@;
        assert(!entries_map(p).contains_key(k)) by {
            if entries_map(p).contains_key(k) {
                let j = choose|j: int| 0 <= j < p.len() && (#[trigger] p[j]).0@ == k;
                assert(p[j] == s[j]);
                assert(s[j].0@ != s[s.len() - 1].0@);
            }
        }
        let lp = live_keys(entries_map(p), now);
        if live(entry_view(s.last()), now) {
            assert(live_keys(entries_map(s), now) =~= lp.insert(k));
        } else {
            assert(live_keys(entries_map(s), now) =~= lp);
        }
    }
}

/// How many entries of a sequence are live at `now`.
pub closed spec fn live_count(s: Seq<(String, String, u64)>, now: u64) -> nat
    decreases s.len(),
{
    if s.len() == 0 {
        0
    } else {
        live_count(s.drop_last(), now) + if live(entry_view(s.last()), now) {
            1nat
        } else {
            0nat
        }
    }
}

impl InMemoryStore {
    #[verifier::type_invariant]
    spec fn well_formed(self) -> bool {
        distinct_keys(self.entries@)
    }

    /// An empty store.
    pub fn new() -> (r: Self)
        ensures
            r@ == Map::<Seq<char>, (Seq<char>, u64)>::empty(),
    {
        let r = InMemoryStore { entries: Vec::new() };
        proof {
            assert(entries_map(r.entries@) =~= Map::<Seq<char>, (Seq<char>, u64)>::empty());
        }
        r
    }

    fn find(&self, key: &str) -> (r: Option<usize>)
        ensures
            match r {
                Some(i) => i < self.entries@.len() && self.entries@[i as int].0@ == key@ && self@.contains_key(key@)
                    && self@[key@] == entry_view(self.entries@[i as int]),
                None => !self@.contains_key(key@),
            },
    {
        proof {
            use_type_invariant(self);
            lemma_entries_map_index(self.entries@);
        }
        let mut i: usize = 0;
        while i < self.entries.len()
            invariant
                i <= self.entries@.len(),
                forall|j: int| 0 <= j < i ==> (#[trigger] self.entries@[j]).0@ != key@,
            decreases self.entries.len() - i,
        {
            if str_eq(self.entries[i].0.as_str(), key) {
                proof {
                    use_type_invariant(self);
                    lemma_entries_map_index(self.entries@);
                }
                return Some(i);
            }
            i += 1;
        }
        None
    }

    /// Put `value` (JSON text) under `key` at `now`, expiring `ttl_seconds`
    /// after `now` when given; an entry already under `key` is replaced.
    pub fn put_at(&mut self, key: &str, value: String, ttl_seconds: Option<u64>, now: u64)
        ensures
            final(self)@ == old(self)@.insert(key@, (value@, expiry(ttl_seconds, now))),
    {
        proof {
            use_type_invariant(&*self);
        }
        let expires_at_secs: u64 = match ttl_seconds {
            None => 0,
            Some(t) => now.saturating_add(t),
        };
        let found = self.find(key);
        let mut es: Vec<(String, String, u64)> = Vec::new();
        std::mem::swap(&mut es, &mut self.entries);
        let ghost old_es = es@;
        let e = (crate::text::owned(key), value, expires_at_secs);
        match found {
            Some(i) => {
                proof {
                    lemma_entries_map_update(old_es, i as int, e);
                }
                es.set(i, e);
            },
            None => {
                proof {
                    lemma_entries_map_push(old_es, e);
                }
                es.push(e);
            },
        }
        self.entries = es;
    }

    /// The value under `key` at `now`, if its entry is live; an expired
    /// entry is removed.
    pub fn get_at(&mut self, key: &str, now: u64) -> (r: Option<String>)
        ensures
            match r {
                Some(v) => lookup(old(self)@, key@, now) == Some(v@),
                None => lookup(old(self)@, key@, now) is None,
            },
            final(self)@ == after_read(old(self)@, key@, now),
    {
        proof {
            use_type_invariant(&*self);
        }
        match self.find(key) {
            None => None,
            Some(i) => {
                let exp = self.entries[i].2;
                if exp == 0 || now <= exp {
                    Some(self.entries[i].1.clone())
                } else {
                    let mut es: Vec<(String, String, u64)> = Vec::new();
                    std::mem::swap(&mut es, &mut self.entries);
                    proof {
                        lemma_entries_map_remove(es@, i as int);
                    }
                    es.remove(i);
                    self.entries = es;
                    None
                }
            },
        }
    }

    /// Remove the entry under `key`; whether there was one.
    pub fn delete(&mut self, key: &str) -> (r: bool)
        ensures
            r == old(self)@.contains_key(key@),
            final(self)@ == old(self)@.remove(key@),
    {
        proof {
            use_type_invariant(&*self);
        }
        match self.find(key) {
            None => {
                proof {
                    assert(self@.remove(key@) =~= self@);
                }
                false
            },
            Some(i) => {
                let mut es: Vec<(String, String, u64)> = Vec::new();
                std::mem::swap(&mut es, &mut self.entries);
                proof {
                    lemma_entries_map_remove(es@, i as int);
                }
                es.remove(i);
                self.entries = es;
                true
            },
        }
    }

    /// Whether `key` has an entry live at `now`.
    pub fn contains_at(&self, key: &str, now: u64) -> (r: bool)
        ensures
            r == (lookup(self@, key@, now) is Some),
    {
        match self.find(key) {
            None => false,
            Some(i) => {
                let exp = self.entries[i].2;
                exp == 0 || now <= exp
            },
        }
    }

    /// Remove every entry.
    pub fn clear(&mut self)
        ensures
            final(self)@ == Map::<Seq<char>, (Seq<char>, u64)>::empty(),
    {
        self.entries = Vec::new();
        proof {
            assert(entries_map(self.entries@) =~= Map::<Seq<char>, (Seq<char>, u64)>::empty());
        }
    }

    /// How many entries are live at `now`.
    pub fn len_at(&self, now: u64) -> (r: usize)
        ensures
            r == live_keys(self@, now).len(),
    {
        proof {
            use_type_invariant(self);
            lemma_live_keys_count(self.entries@, now);
        }
        let mut count: usize = 0;
        let mut i: usize = 0;
        while i < self.entries.len()
            invariant
                i <= self.entries@.len(),
                count == live_count(self.entries@.take(i as int), now),
                count <= i,
            decreases self.entries.len() - i,
        {
            proof {
                assert(self.entries@.take(i + 1).drop_last() =~= self.entries@.take(i as int));
            }
            let exp = self.entries[i].2;
            if exp == 0 || now <= exp {
                count += 1;
            }
            i += 1;
        }
        proof {
            assert(self.entries@.take(self.entries@.len() as int) =~= self.entries@);
        }
        count
    }

    /// Remove every entry expired at `now`.
    pub fn cleanup_expired_at(&mut self, now: u64)
        ensures
            final(self)@ == live_part(old(self)@, now),
    {
        proof {
            use_type_invariant(&*self);
        }
        let mut es: Vec<(String, String, u64)> = Vec::new();
        std::mem::swap(&mut es, &mut self.entries);
        let ghost all = es@;
        let mut kept: Vec<(String, String, u64)> = Vec::new();
        let mut rest = es;
        let mut k: usize = 0;
        let n = rest.len();
        proof {
            assert(all.take(0) =~= Seq::<(String, String, u64)>::empty());
            assert(entries_map(kept@) =~= live_part(entries_map(all.take(0)), now));
            assert(rest@ =~= all.skip(0));
        }
        while rest.len() > 0
            invariant
                k <= n,
                all.len() == n,
                rest@ == all.skip(k as int),
                distinct_keys(all),
                distinct_keys(kept@),
                forall|j: int| 0 <= j < kept@.len() ==> exists|a: int| 0 <= a < k && (#[trigger] kept@[j]) == all[a],
                entries_map(kept@) == live_part(entries_map(all.take(k as int)), now),
            decreases rest@.len(),
        {
            let ghost old_rest = rest@;
            let e = rest.remove(0);
            let ghost before = kept@;
            proof {
                assert(rest@ =~= all.skip(k + 1));
                assert(e == all[k as int]);
                assert(all.take(k + 1).drop_last() =~= all.take(k as int));
                assert(all.take(k + 1).last() == e);
                lemma_entries_map_index(all);
            }
            if e.2 == 0 || now <= e.2 {
                proof {
                    assert(!entries_map(kept@).contains_key(e.0@)) by {
                        lemma_entries_map_index(kept@);
                        if entries_map(kept@).contains_key(e.0@) {
                            let j = choose|j: int| 0 <= j < kept@.len() && (#[trigger] kept@[j]).0@ == e.0@;
                            let a = choose|a: int| 0 <= a < k && (#[trigger] kept@[j]) == all[a];
                            assert(all[a].0@ != all[k as int].0@);
                        }
                    }
                    lemma_entries_map_push(kept@, e);
                }
                kept.push(e);
                proof {
                    assert forall|j: int| 0 <= j < kept@.len() implies exists|a: int| 0 <= a < k + 1 && (#[trigger] kept@[j]) == all[a] by {
                        if j < before.len() {
                            assert(kept@[j] == before[j]);
                            let a = choose|a: int| 0 <= a < k && (#[trigger] before[j]) == all[a];
                            assert(0 <= a < k + 1 && kept@[j] == all[a]);
                        } else {
                            assert(kept@[j] == all[k as int]);
                        }
                    }
                    assert(entries_map(kept@) =~= live_part(entries_map(all.take(k + 1)), now));
                }
            } else {
                proof {
                    assert(!entries_map(all.take(k as int)).contains_key(e.0@)) by {
                        lemma_entries_map_index(all.take(k as int));
                        if entries_map(all.take(k as int)).contains_key(e.0@) {
                            let j = choose|j: int| 0 <= j < k && (#[trigger] all.take(k as int)[j]).0@ == e.0@;
                            assert(all.take(k as int)[j] == all[j]);
                        }
                    }
                    assert(entries_map(kept@) =~= live_part(entries_map(all.take(k + 1)), now));
                }
            }
            k += 1;
        }
        proof {
            assert(all.take(n as int) =~= all);
        }
        self.entries = kept;
    }

    /// Put `value` under `key` now; see [`InMemoryStore::put_at`].  Always
    /// `true`: the value is already JSON text.
    pub fn put(&mut self, key: &str, value: String, ttl_seconds: Option<u64>) -> (r: bool)
        ensures
            r,
            exists|now: u64| final(self)@ == #[trigger] old(self)@.insert(key@, (value@, expiry(ttl_seconds, now))),
    {
        let now = now_unix_secs();
        self.put_at(key, value, ttl_seconds, now);
        true
    }

    /// The value under `key` now; see [`InMemoryStore::get_at`].
    pub fn get(&mut self, key: &str) -> (r: Option<String>)
        ensures
            exists|now: u64|
                (match r {
                    Some(v) => lookup(old(self)@, key@, now) == Some(v@),
                    None => lookup(old(self)@, key@, now) is None,
                }) && final(self)@ == #[trigger] after_read(old(self)@, key@, now),
    {
        let now = now_unix_secs();
        self.get_at(key, now)
    }

    /// Whether `key` has a live entry now.
    pub fn contains(&self, key: &str) -> (r: bool)
        ensures
            exists|now: u64| r == (#[trigger] lookup(self@, key@, now) is Some),
    {
        let now = now_unix_secs();
        self.contains_at(key, now)
    }

    /// How many entries are live now.
    pub fn len(&self) -> (r: usize)
        ensures
            exists|now: u64| r == #[trigger] live_keys(self@, now).len(),
    {
        let now = now_unix_secs();
        self.len_at(now)
    }

    /// Remove every entry expired now.
    pub fn cleanup_expired(&mut self)
        ensures
            exists|now: u64| final(self)@ == #[trigger] live_part(old(self)@, now),
    {
        let now = now_unix_secs();
        self.cleanup_expired_at(now);
    }
}

} // verus!
