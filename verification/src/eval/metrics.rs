//! Per-function quality tracking: scores keyed by function name (e.g.
//! "compress", "summarize"), kept in a bounded ring per function, with
//! threshold-based alerting.
use vstd::prelude::*;
use crate::text::{copy_string, str_eq};

verus! {

broadcast use vstd::string::group_string_axioms;

/// The current time as RFC 3339 text in UTC, to the second (empty for a
/// clock reading chrono cannot represent).  It depends on the clock, so
/// nothing is stated of it.
fn now_rfc3339() -> String {
    let secs = crate::civil_date::now_unix_secs();
    let s: i64 = if secs > 0x7fff_ffff_ffff_ffff {
        0x7fff_ffff_ffff_ffff
    } else {
        secs as i64
    };
    match crate::obsidian_export::format_utc(s, "%Y-%m-%dT%H:%M:%S%:z") {
        Some(t) => t,
        None => String::new(),
    }
}

/// A single quality measurement.
pub struct QualityMeasurement {
    /// Score in 0-100 range.
    pub score: u8,
    /// ISO-8601 timestamp of when this measurement was taken.
    pub timestamp: String,
    /// Optional human-readable note about this measurement.
    pub note: Option<String>,
}

/// A measurement as plain values: score, timestamp, note.
pub type MeasurementView = (u8, Seq<char>, Option<Seq<char>>);

pub open spec fn opt_view(o: Option<String>) -> Option<Seq<char>> {
    match o {
        Some(s) => Some(s@),
        None => None,
    }
}

impl View for QualityMeasurement {
    type V = MeasurementView;

    open spec fn view(&self) -> MeasurementView {
        (self.score, self.timestamp@, opt_view(self.note))
    }
}

impl QualityMeasurement {
    /// A copy with the same score, timestamp and note.
    pub fn copy(&self) -> (r: Self)
        ensures
            r@ == self@,
    {
        let note = match &self.note {
            Some(n) => Some(copy_string(n)),
            None => None,
        };
        QualityMeasurement { score: self.score, timestamp: copy_string(&self.timestamp), note }
    }
}

pub open spec fn mviews(v: Seq<QualityMeasurement>) -> Seq<MeasurementView> {
    v.map_values(|m: QualityMeasurement| m@)
}

/// No name occurs twice.
pub open spec fn unique_names(names: Seq<String>) -> bool {
    forall|i: int, j: int| 0 <= i < j < names.len() ==> names[i]@ != names[j]@
}

pub open spec fn name_views(names: Seq<String>) -> Seq<Seq<char>> {
    names.map_values(|s: String| s@)
}

/// The map from name to value held by two parallel sequences.
pub open spec fn assoc<V>(names: Seq<String>, vals: Seq<V>) -> Map<Seq<char>, V> {
    Map::new(
        |k: Seq<char>| exists|i: int| 0 <= i < names.len() && names[i]@ == k,
        |k: Seq<char>| vals[choose|i: int| 0 <= i < names.len() && names[i]@ == k],
    )
}

pub proof fn lemma_assoc_at<V>(names: Seq<String>, vals: Seq<V>, i: int)
    requires
        unique_names(names),
        0 <= i < names.len(),
    ensures
        assoc(names, vals).contains_key(names[i]@),
        assoc(names, vals)[names[i]@] == vals[i],
{
    let k = names[i]@;
    let j = choose|j: int| 0 <= j < names.len() && names[j]@ == k;
    assert(0 <= j < names.len() && names[j]@ == k);
    if j != i {
        if j < i {
            assert(names[j]@ != names[i]@);
        } else {
            assert(names[i]@ != names[j]@);
        }
    }
}

/// Replacing the value at a present name updates that name only.
pub proof fn lemma_assoc_update<V>(names: Seq<String>, vals: Seq<V>, i: int, v: V)
    requires
        unique_names(names),
        names.len() == vals.len(),
        0 <= i < names.len(),
    ensures
        assoc(names, vals.update(i, v)) == assoc(names, vals).insert(names[i]@, v),
{
    let a = assoc(names, vals.update(i, v));
    let b = assoc(names, vals).insert(names[i]@, v);
    assert forall|k: Seq<char>| #[trigger] a.contains_key(k) == b.contains_key(k) by {
        if k == names[i]@ {
            lemma_assoc_at(names, vals, i);
        }
    }
    assert forall|k: Seq<char>| a.contains_key(k) implies #[trigger] a[k] == b[k] by {
        let j = choose|j: int| 0 <= j < names.len() && names[j]@ == k;
        lemma_assoc_at(names, vals.update(i, v), j);
        lemma_assoc_at(names, vals, j);
    }
    assert(a =~= b);
}

/// Appending a new name adds it to the map.
pub proof fn lemma_assoc_push<V>(names: Seq<String>, vals: Seq<V>, n: String, v: V)
    requires
        unique_names(names),
        names.len() == vals.len(),
        !assoc(names, vals).contains_key(n@),
    ensures
        unique_names(names.push(n)),
        assoc(names.push(n), vals.push(v)) == assoc(names, vals).insert(n@, v),
{
    let names2 = names.push(n);
    let vals2 = vals.push(v);
    assert forall|i: int, j: int| 0 <= i < j < names2.len() implies names2[i]@ != names2[j]@ by {
        if j == names.len() {
            if names[i]@ == n@ {
                assert(assoc(names, vals).contains_key(n@));
            }
        }
    }
    let a = assoc(names2, vals2);
    let b = assoc(names, vals).insert(n@, v);
    assert forall|k: Seq<char>| #[trigger] a.contains_key(k) == b.contains_key(k) by {
        if a.contains_key(k) {
            let j = choose|j: int| 0 <= j < names2.len() && names2[j]@ == k;
            if j < names.len() {
                assert(names[j]@ == k);
            }
        }
        if b.contains_key(k) && k != n@ {
            let j = choose|j: int| 0 <= j < names.len() && names[j]@ == k;
            assert(names2[j]@ == k);
        }
        if k == n@ {
            assert(names2[names.len() as int]@ == k);
        }
    }
    assert forall|k: Seq<char>| a.contains_key(k) implies #[trigger] a[k] == b[k] by {
        let j = choose|j: int| 0 <= j < names2.len() && names2[j]@ == k;
        lemma_assoc_at(names2, vals2, j);
        if j < names.len() {
            lemma_assoc_at(names, vals, j);
        }
    }
    assert(a =~= b);
}

/// Removing the entry at `i` removes its name from the map.
pub proof fn lemma_assoc_remove<V>(names: Seq<String>, vals: Seq<V>, i: int)
    requires
        unique_names(names),
        names.len() == vals.len(),
        0 <= i < names.len(),
    ensures
        unique_names(names.remove(i)),
        assoc(names.remove(i), vals.remove(i)) == assoc(names, vals).remove(names[i]@),
{
    let names2 = names.remove(i);
    let vals2 = vals.remove(i);
    assert forall|p: int, q: int| 0 <= p < q < names2.len() implies names2[p]@ != names2[q]@ by {
        let pp = if p < i { p } else { p + 1 };
        let qq = if q < i { q } else { q + 1 };
        assert(names2[p] == names[pp]);
        assert(names2[q] == names[qq]);
    }
    let a = assoc(names2, vals2);
    let b = assoc(names, vals).remove(names[i]@);
    assert forall|k: Seq<char>| #[trigger] a.contains_key(k) == b.contains_key(k) by {
        if a.contains_key(k) {
            let j = choose|j: int| 0 <= j < names2.len() && names2[j]@ == k;
            let jj = if j < i { j } else { j + 1 };
            assert(names[jj]@ == k);
            assert(jj != i);
        }
        if b.contains_key(k) {
            let j = choose|j: int| 0 <= j < names.len() && names[j]@ == k;
            assert(j != i);
            let jj = if j < i { j } else { j - 1 };
            assert(names2[jj]@ == k);
        }
    }
    assert forall|k: Seq<char>| a.contains_key(k) implies #[trigger] a[k] == b[k] by {
        let j = choose|j: int| 0 <= j < names2.len() && names2[j]@ == k;
        let jj = if j < i { j } else { j + 1 };
        lemma_assoc_at(names2, vals2, j);
        lemma_assoc_at(names, vals, jj);
    }
    assert(a =~= b);
}

/// Position of `name` among `names`, if present.
fn find_name(names: &Vec<String>, name: &str) -> (r: Option<usize>)
    requires
        unique_names(names@),
    ensures
        match r {
            Some(i) => i < names@.len() && names@[i as int]@ == name@,
            None => forall|i: int| 0 <= i < names@.len() ==> names@[i]@ != name@,
        },
{
    let mut i: usize = 0;
    while i < names.len()
        invariant
            i <= names@.len(),
            forall|j: int| 0 <= j < i ==> names@[j]@ != name@,
        decreases names.len() - i,
    {
        if str_eq(names[i].as_str(), name) {
            return Some(i);
        }
        i += 1;
    }
    None
}

/// The last `cap` measurements of `list` (all of them when it is shorter).
pub open spec fn keep_last<T>(list: Seq<T>, cap: nat) -> Seq<T> {
    if list.len() > cap {
        list.skip(list.len() - cap)
    } else {
        list
    }
}

/// A score clamped to 100.
pub open spec fn clamp_score(score: u8) -> u8 {
    if score < 100 { score } else { 100 }
}

/// Measurements after `m` is recorded for `name`, keeping at most `cap`.
pub open spec fn with_recorded(
    meas: Map<Seq<char>, Seq<MeasurementView>>,
    name: Seq<char>,
    m: MeasurementView,
    cap: nat,
) -> Map<Seq<char>, Seq<MeasurementView>> {
    let prev = if meas.contains_key(name) { meas[name] } else { Seq::empty() };
    meas.insert(name, keep_last(prev.push(m), cap))
}

/// Per-function quality tracking store.
pub struct MetricsStore {
    names: Vec<String>,
    lists: Vec<Vec<QualityMeasurement>>,
    threshold_names: Vec<String>,
    threshold_values: Vec<u8>,
    max_per_function: usize,
}

/// An alert raised by [`MetricsStore::threshold_alerts`]: over the last
/// `window` measurements (at most 10) the scores of `function_name` sum to
/// `recent_sum`, whose average lies below `threshold`.
pub struct ThresholdAlert {
    pub function_name: String,
    pub recent_sum: u64,
    pub window: usize,
    pub threshold: u8,
}

impl MetricsStore {
    pub closed spec fn wf(&self) -> bool {
        &&& self.names@.len() == self.lists@.len()
        &&& unique_names(self.names@)
        &&& self.threshold_names@.len() == self.threshold_values@.len()
        &&& unique_names(self.threshold_names@)
    }

    /// Recorded measurements, by function name (oldest first).
    pub closed spec fn measurements(&self) -> Map<Seq<char>, Seq<MeasurementView>> {
        assoc(self.names@, self.lists@.map_values(|l: Vec<QualityMeasurement>| mviews(l@)))
    }

    /// Alert thresholds, by function name.
    pub closed spec fn thresholds(&self) -> Map<Seq<char>, u8> {
        assoc(self.threshold_names@, self.threshold_values@)
    }

    /// Most measurements kept per function.
    pub closed spec fn cap(&self) -> nat {
        self.max_per_function as nat
    }

    /// Create a new empty metrics store (100 measurements per function).
    pub fn new() -> (s: Self)
        ensures
            s.wf(),
            s.measurements() == Map::<Seq<char>, Seq<MeasurementView>>::empty(),
            s.thresholds() == Map::<Seq<char>, u8>::empty(),
            s.cap() == 100,
    {
        Self::with_max_per_function(100)
    }

    /// Create a metrics store with a custom ring-buffer cap.
    pub fn with_max_per_function(max: usize) -> (s: Self)
        ensures
            s.wf(),
            s.measurements() == Map::<Seq<char>, Seq<MeasurementView>>::empty(),
            s.thresholds() == Map::<Seq<char>, u8>::empty(),
            s.cap() == max,
    {
        let s = MetricsStore {
            names: Vec::new(),
            lists: Vec::new(),
            threshold_names: Vec::new(),
            threshold_values: Vec::new(),
            max_per_function: max,
        };
        proof {
            assert(s.measurements() =~= Map::<Seq<char>, Seq<MeasurementView>>::empty());
            assert(s.thresholds() =~= Map::<Seq<char>, u8>::empty());
        }
        s
    }

    /// Measurements recorded for `name` (empty when there are none).
    pub open spec fn history(&self, name: Seq<char>) -> Seq<MeasurementView> {
        if self.measurements().contains_key(name) {
            self.measurements()[name]
        } else {
            Seq::empty()
        }
    }

    /// Record a quality score for a named function.  The score is clamped
    /// to 100; once more than the cap are kept, the oldest are dropped.
    pub fn record(&mut self, function_name: &str, score: u8, note: Option<String>)
        requires
            old(self).wf(),
        ensures
            final(self).wf(),
            final(self).cap() == old(self).cap(),
            final(self).thresholds() == old(self).thresholds(),
            exists|timestamp: Seq<char>|
                final(self).measurements() == #[trigger] with_recorded(
                    old(self).measurements(),
                    function_name@,
                    (clamp_score(score), timestamp, opt_view(note)),
                    old(self).cap(),
                ),
    {
        let clamped: u8 = if score < 100 { score } else { 100 };
        let measurement = QualityMeasurement { score: clamped, timestamp: now_rfc3339(), note };
        let ghost m = measurement@;
        let ghost old_lists = self.lists@.map_values(|l: Vec<QualityMeasurement>| mviews(l@));
        let cap = self.max_per_function;
        match find_name(&self.names, function_name) {
            Some(i) => {
                proof {
                    lemma_assoc_at(self.names@, old_lists, i as int);
                }
                let mut entries: Vec<QualityMeasurement> = Vec::new();
                std::mem::swap(&mut entries, &mut self.lists[i]);
                let ghost before = mviews(entries@);
                entries.push(measurement);
                let trimmed = Self::keep_last_exec(entries, cap);
                proof {
                    assert(mviews(entries@) =~= before.push(m));
                }
                self.lists[i] = trimmed;
                proof {
                    lemma_assoc_update(self.names@, old_lists, i as int, mviews(self.lists@[i as int]@));
                    assert(self.lists@.map_values(|l: Vec<QualityMeasurement>| mviews(l@)) =~= old_lists.update(
                        i as int,
                        mviews(self.lists@[i as int]@),
                    ));
                }
            },
            None => {
                let mut entries: Vec<QualityMeasurement> = Vec::new();
                entries.push(measurement);
                let ghost pushed = mviews(entries@);
                let trimmed = Self::keep_last_exec(entries, cap);
                proof {
                    assert(pushed =~= Seq::<MeasurementView>::empty().push(m));
                    assert forall|j: int| 0 <= j < self.names@.len() implies self.names@[j]@ != function_name@ by {}
                }
                let ghost tv = mviews(trimmed@);
                let n = crate::text::owned(function_name);
                proof {
                    lemma_assoc_push(self.names@, old_lists, n, tv);
                }
                self.names.push(n);
                self.lists.push(trimmed);
                proof {
                    assert(self.lists@.map_values(|l: Vec<QualityMeasurement>| mviews(l@)) =~= old_lists.push(tv));
                }
            },
        }
        proof {
            assert(m == (clamp_score(score), m.1, opt_view(note)));
            assert(self.measurements() == with_recorded(old(self).measurements(), function_name@, m, old(self).cap()));
        }
    }

    /// The last `cap` measurements of `list`.
    fn keep_last_exec(list: Vec<QualityMeasurement>, cap: usize) -> (r: Vec<QualityMeasurement>)
        ensures
            mviews(r@) == keep_last(mviews(list@), cap as nat),
    {
        if list.len() <= cap {
            return list;
        }
        let start = list.len() - cap;
        let mut out: Vec<QualityMeasurement> = Vec::new();
        let mut i = start;
        while i < list.len()
            invariant
                start <= i <= list@.len(),
                start == list@.len() - cap,
                mviews(out@) == mviews(list@).subrange(start as int, i as int),
            decreases list.len() - i,
        {
            let c = list[i].copy();
            let ghost prev = out@;
            out.push(c);
            proof {
                assert(out@ == prev.push(c));
                assert(mviews(prev.push(c)) =~= mviews(prev).push(c@));
                assert(mviews(list@)[i as int] == list@[i as int]@);
                assert(mviews(out@) =~= mviews(list@).subrange(start as int, i + 1));
            }
            i += 1;
        }
        proof {
            assert(mviews(list@).skip(start as int) =~= mviews(list@).subrange(start as int, list@.len() as int));
        }
        out
    }

    /// All measurements for a function (oldest first).
    pub fn get_measurements(&self, function_name: &str) -> (r: Vec<QualityMeasurement>)
        requires
            self.wf(),
        ensures
            mviews(r@) == self.history(function_name@),
    {
        match find_name(&self.names, function_name) {
            Some(i) => {
                proof {
                    lemma_assoc_at(self.names@, self.lists@.map_values(|l: Vec<QualityMeasurement>| mviews(l@)), i as int);
                }
                let src = &self.lists[i];
                let mut out: Vec<QualityMeasurement> = Vec::new();
                let mut j: usize = 0;
                while j < src.len()
                    invariant
                        j <= src@.len(),
                        mviews(out@) == mviews(src@).take(j as int),
                    decreases src.len() - j,
                {
                    let c = src[j].copy();
                    let ghost prev = out@;
                    out.push(c);
                    proof {
                        assert(out@ == prev.push(c));
                        assert(mviews(prev.push(c)) =~= mviews(prev).push(c@));
                        assert(mviews(src@)[j as int] == src@[j as int]@);
                        assert(mviews(out@) =~= mviews(src@).take(j + 1));
                    }
                    j += 1;
                }
                proof {
                    assert(mviews(src@).take(src@.len() as int) =~= mviews(src@));
                }
                out
            },
            None => {
                proof {
                    assert(!self.measurements().contains_key(function_name@));
                }
                Vec::new()
            },
        }
    }

    /// The latest score for a function, if any.
    pub fn latest(&self, function_name: &str) -> (r: Option<u8>)
        requires
            self.wf(),
        ensures
            r == (if self.history(function_name@).len() > 0 {
                Some(self.history(function_name@).last().0)
            } else {
                None::<u8>
            }),
    {
        match find_name(&self.names, function_name) {
            Some(i) => {
                proof {
                    lemma_assoc_at(self.names@, self.lists@.map_values(|l: Vec<QualityMeasurement>| mviews(l@)), i as int);
                }
                let l = &self.lists[i];
                if l.len() == 0 {
                    None
                } else {
                    Some(l[l.len() - 1].score)
                }
            },
            None => {
                proof {
                    assert(!self.measurements().contains_key(function_name@));
                }
                None
            },
        }
    }

    /// Set the alert threshold for a function.
    pub fn set_threshold(&mut self, function_name: &str, threshold: u8)
        requires
            old(self).wf(),
        ensures
            final(self).wf(),
            final(self).measurements() == old(self).measurements(),
            final(self).cap() == old(self).cap(),
            final(self).thresholds() == old(self).thresholds().insert(function_name@, threshold),
    {
        match find_name(&self.threshold_names, function_name) {
            Some(i) => {
                proof {
                    lemma_assoc_update(self.threshold_names@, self.threshold_values@, i as int, threshold);
                }
                self.threshold_values.set(i, threshold);
            },
            None => {
                let n = crate::text::owned(function_name);
                proof {
                    lemma_assoc_push(self.threshold_names@, self.threshold_values@, n, threshold);
                }
                self.threshold_names.push(n);
                self.threshold_values.push(threshold);
            },
        }
    }

    /// Clear all measurements for a function.
    pub fn clear(&mut self, function_name: &str)
        requires
            old(self).wf(),
        ensures
            final(self).wf(),
            final(self).measurements() == old(self).measurements().remove(function_name@),
            final(self).thresholds() == old(self).thresholds(),
            final(self).cap() == old(self).cap(),
    {
        let ghost old_lists = self.lists@.map_values(|l: Vec<QualityMeasurement>| mviews(l@));
        match find_name(&self.names, function_name) {
            Some(i) => {
                proof {
                    lemma_assoc_remove(self.names@, old_lists, i as int);
                }
                self.names.remove(i);
                self.lists.remove(i);
                proof {
                    assert(self.lists@.map_values(|l: Vec<QualityMeasurement>| mviews(l@)) =~= old_lists.remove(i as int));
                }
            },
            None => {
                proof {
                    assert(self.measurements().remove(function_name@) =~= self.measurements());
                }
            },
        }
    }

    /// Clear all measurements and thresholds.
    pub fn clear_all(&mut self)
        requires
            old(self).wf(),
        ensures
            final(self).wf(),
            final(self).measurements() == Map::<Seq<char>, Seq<MeasurementView>>::empty(),
            final(self).thresholds() == Map::<Seq<char>, u8>::empty(),
            final(self).cap() == old(self).cap(),
    {
        self.names.clear();
        self.lists.clear();
        self.threshold_names.clear();
        self.threshold_values.clear();
        proof {
            assert(self.measurements() =~= Map::<Seq<char>, Seq<MeasurementView>>::empty());
            assert(self.thresholds() =~= Map::<Seq<char>, u8>::empty());
        }
    }
}


/// Sum of the scores in `h`.
pub open spec fn score_sum(h: Seq<MeasurementView>) -> nat
    decreases h.len(),
{
    if h.len() == 0 {
        0
    } else {
        score_sum(h.drop_last()) + h.last().0 as nat
    }
}

/// Number of recent measurements averaged for alerts: the last ten.
pub open spec fn alert_window(h: Seq<MeasurementView>) -> nat {
    if h.len() < 10 { h.len() } else { 10 }
}

/// Sum of the scores in the alert window.
pub open spec fn recent_sum(h: Seq<MeasurementView>) -> nat {
    score_sum(h.skip(h.len() - alert_window(h)))
}

/// A function with threshold `t` and history `h` is alerted when it has
/// measurements and their recent average lies below `t`.
pub open spec fn below_threshold(h: Seq<MeasurementView>, t: u8) -> bool {
    h.len() > 0 && recent_sum(h) < t as nat * alert_window(h)
}

pub proof fn lemma_score_sum_bound(h: Seq<MeasurementView>)
    ensures
        score_sum(h) <= 255 * h.len(),
    decreases h.len(),
{
    if h.len() > 0 {
        lemma_score_sum_bound(h.drop_last());
    }
}

impl MetricsStore {
    /// Functions whose recent average score (over the last ten measurements)
    /// lies below their alert threshold, each with that window's sum and
    /// size and the threshold.
    pub fn threshold_alerts(&self) -> (r: Vec<ThresholdAlert>)
        requires
            self.wf(),
        ensures
            forall|k: int| 0 <= k < r@.len() ==> {
                let a = #[trigger] r@[k];
                &&& self.thresholds().contains_key(a.function_name@)
                &&& self.thresholds()[a.function_name@] == a.threshold
                &&& below_threshold(self.history(a.function_name@), a.threshold)
                &&& a.recent_sum == recent_sum(self.history(a.function_name@))
                &&& a.window == alert_window(self.history(a.function_name@))
            },
            forall|name: Seq<char>|
                self.thresholds().contains_key(name) && below_threshold(self.history(name), self.thresholds()[name])
                    ==> exists|k: int| 0 <= k < r@.len() && (#[trigger] r@[k]).function_name@ == name,
            forall|p: int, q: int| 0 <= p < q < r@.len() ==> r@[p].function_name@ != r@[q].function_name@,
    {
        let mut alerts: Vec<ThresholdAlert> = Vec::new();
        let mut t: usize = 0;
        while t < self.threshold_names.len()
            invariant
                self.wf(),
                t <= self.threshold_names@.len(),
                forall|k: int| 0 <= k < alerts@.len() ==> {
                    let a = #[trigger] alerts@[k];
                    &&& self.thresholds().contains_key(a.function_name@)
                    &&& self.thresholds()[a.function_name@] == a.threshold
                    &&& below_threshold(self.history(a.function_name@), a.threshold)
                    &&& a.recent_sum == recent_sum(self.history(a.function_name@))
                    &&& a.window == alert_window(self.history(a.function_name@))
                    &&& exists|j: int| 0 <= j < t && self.threshold_names@[j]@ == a.function_name@
                },
                forall|j: int| 0 <= j < t ==> (below_threshold(self.history(self.threshold_names@[j]@), self.threshold_values@[j])
                    ==> exists|k: int| 0 <= k < alerts@.len() && (#[trigger] alerts@[k]).function_name@ == self.threshold_names@[j]@),
                forall|p: int, q: int| 0 <= p < q < alerts@.len() ==> alerts@[p].function_name@ != alerts@[q].function_name@,
            decreases self.threshold_names.len() - t,
        {
            proof {
                lemma_assoc_at(self.threshold_names@, self.threshold_values@, t as int);
            }
            let name = &self.threshold_names[t];
            let threshold = self.threshold_values[t];
            let h = self.get_measurements(name.as_str());
            let ghost hv = mviews(h@);
            if h.len() > 0 {
                let window: usize = if h.len() < 10 { h.len() } else { 10 };
                let start = h.len() - window;
                let mut sum: u64 = 0;
                let mut i = start;
                proof {
                    assert(hv.skip(start as int).subrange(0, 0) =~= Seq::<MeasurementView>::empty());
                }
                while i < h.len()
                    invariant
                        hv == mviews(h@),
                        start <= i <= h@.len(),
                        h@.len() - start <= 10,
                        sum == score_sum(hv.subrange(start as int, i as int)),
                        sum <= 255 * (i - start),
                    decreases h.len() - i,
                {
                    proof {
                        assert(hv.subrange(start as int, i + 1).drop_last() =~= hv.subrange(start as int, i as int));
                        assert(hv[i as int].0 == h@[i as int].score);
                    }
                    sum = sum + h[i].score as u64;
                    i += 1;
                }
                proof {
                    assert(hv.skip(start as int) =~= hv.subrange(start as int, hv.len() as int));
                }
                proof {
                    assert((threshold as u64) * (window as u64) <= 2550) by (nonlinear_arith)
                        requires
                            threshold <= 255,
                            window <= 10,
                    ;
                }
                if sum < (threshold as u64) * (window as u64) {
                    let ghost old_alerts = alerts@;
                    alerts.push(
                        ThresholdAlert {
                            function_name: copy_string(name),
                            recent_sum: sum,
                            window,
                            threshold,
                        },
                    );
                    proof {
                        assert forall|p: int, q: int| 0 <= p < q < alerts@.len() implies alerts@[p].function_name@
                            != alerts@[q].function_name@ by {
                            if q == alerts@.len() - 1 {
                                let a = alerts@[p];
                                let j = choose|j: int| 0 <= j < t && self.threshold_names@[j]@ == a.function_name@;
                                assert(self.threshold_names@[j]@ != self.threshold_names@[t as int]@);
                            }
                        }
                        let last = alerts@.len() - 1;
                        assert(alerts@[last].function_name@ == self.threshold_names@[t as int]@);
                        assert(exists|j: int| 0 <= j < t + 1 && self.threshold_names@[j]@ == alerts@[last].function_name@);
                        assert forall|k: int| 0 <= k < old_alerts.len() implies alerts@[k] == old_alerts[k] by {}
                    }
                }
            }
            t += 1;
        }
        proof {
            assert forall|name: Seq<char>|
                self.thresholds().contains_key(name) && below_threshold(self.history(name), self.thresholds()[name])
                implies exists|k: int| 0 <= k < alerts@.len() && (#[trigger] alerts@[k]).function_name@ == name by {
                let j = choose|j: int| 0 <= j < self.threshold_names@.len() && self.threshold_names@[j]@ == name;
                lemma_assoc_at(self.threshold_names@, self.threshold_values@, j);
            }
        }
        alerts
    }
}

/// Recording a measurement for a function (with room for at least one)
/// makes it that function's latest, keeps at most `cap` measurements for
/// it, and leaves every other function's history unchanged.
pub proof fn lemma_record_then_latest(
    meas: Map<Seq<char>, Seq<MeasurementView>>,
    name: Seq<char>,
    m: MeasurementView,
    cap: nat,
)
    requires
        cap > 0,
    ensures
        with_recorded(meas, name, m, cap).contains_key(name),
        with_recorded(meas, name, m, cap)[name].len() > 0,
        with_recorded(meas, name, m, cap)[name].last() == m,
        with_recorded(meas, name, m, cap)[name].len() <= cap,
        forall|other: Seq<char>|
            other != name ==> (#[trigger] with_recorded(meas, name, m, cap).contains_key(other) == meas.contains_key(other)
                && (meas.contains_key(other) ==> with_recorded(meas, name, m, cap)[other] == meas[other])),
{
    let prev = if meas.contains_key(name) { meas[name] } else { Seq::<MeasurementView>::empty() };
    let l = prev.push(m);
    if l.len() > cap {
        let k = keep_last(l, cap);
        assert(k.last() == l.last());
    }
}

} // verus!
