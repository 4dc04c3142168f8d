//! Levenshtein edit distance between character sequences.
use vstd::prelude::*;
use crate::text::chars_of;

verus! {

broadcast use vstd::string::group_string_axioms;

pub open spec fn min2(x: nat, y: nat) -> nat {
    if x <= y { x } else { y }
}

/// The Levenshtein distance: the fewest single-character insertions,
/// deletions and substitutions that turn `a` into `b`.
pub open spec fn lev(a: Seq<char>, b: Seq<char>) -> nat
    decreases a.len() + b.len(),
{
    if a.len() == 0 {
        b.len()
    } else if b.len() == 0 {
        a.len()
    } else {
        min2(
            min2(lev(a.drop_last(), b) + 1, lev(a, b.drop_last()) + 1),
            lev(a.drop_last(), b.drop_last()) + if a.last() == b.last() { 0nat } else { 1nat },
        )
    }
}

/// The distance does not depend on argument order.
pub proof fn lemma_lev_symmetric(a: Seq<char>, b: Seq<char>)
    ensures
        lev(a, b) == lev(b, a),
    decreases a.len() + b.len(),
{
    if a.len() > 0 && b.len() > 0 {
        lemma_lev_symmetric(a.drop_last(), b);
        lemma_lev_symmetric(a, b.drop_last());
        lemma_lev_symmetric(a.drop_last(), b.drop_last());
    }
}

/// The distance from a sequence to itself is zero.
pub proof fn lemma_lev_self(a: Seq<char>)
    ensures
        lev(a, a) == 0,
    decreases a.len(),
{
    if a.len() > 0 {
        lemma_lev_self(a.drop_last());
    }
}

/// The distance is at most the length of the longer sequence.
pub proof fn lemma_lev_le_max(a: Seq<char>, b: Seq<char>)
    ensures
        lev(a, b) <= if a.len() <= b.len() { b.len() } else { a.len() },
    decreases a.len() + b.len(),
{
    if a.len() > 0 && b.len() > 0 {
        lemma_lev_le_max(a.drop_last(), b.drop_last());
    }
}

/// Levenshtein distance between the characters of two texts.
pub fn edit_distance(s1: &str, s2: &str) -> (r: usize)
    ensures
        r == lev(s1@, s2@),
{
    let av = chars_of(s1);
    let bv = chars_of(s2);
    lev_table(av.as_slice(), bv.as_slice())
}

fn sat_inc(x: usize, by: usize) -> (r: usize)
    requires
        by <= 1,
    ensures
        r == if x + by <= usize::MAX { (x + by) as int } else { usize::MAX as int },
{
    if x > usize::MAX - by {
        usize::MAX
    } else {
        x + by
    }
}

/// Row-by-row dynamic programme for [`lev`].
pub fn lev_table(a: &[char], b: &[char]) -> (r: usize)
    ensures
        r == lev(a@, b@),
{
    let n = b.len();
    let mut prev: Vec<usize> = Vec::new();
    let mut j: usize = 0;
    while j < n
        invariant
            n == b@.len(),
            j <= n,
            prev@.len() == j,
            forall|k: int| 0 <= k < j ==> prev@[k] == k,
        decreases n - j,
    {
        prev.push(j);
        j += 1;
    }
    prev.push(n);
    proof {
        assert forall|k: int| 0 <= k <= n implies #[trigger] prev@[k] == lev(a@.take(0), b@.take(k)) by {
            assert(a@.take(0).len() == 0);
            assert(b@.take(k).len() == k);
        }
    }
    let al = a.len();
    let mut i: usize = 0;
    while i < a.len()
        invariant
            al == a@.len(),
            n == b@.len(),
            i <= a@.len(),
            prev@.len() == n + 1,
            forall|k: int| 0 <= k <= n ==> #[trigger] prev@[k] == lev(a@.take(i as int), b@.take(k)),
        decreases a.len() - i,
    {
        let c1 = a[i];
        let mut curr: Vec<usize> = Vec::new();
        curr.push(i + 1);
        proof {
            assert(a@.take(i + 1).len() == i + 1);
            assert(lev(a@.take(i + 1), b@.take(0)) == i + 1);
        }
        let mut j: usize = 0;
        while j < n
            invariant
                n == b@.len(),
                al == a@.len(),
                i < a@.len(),
                c1 == a@[i as int],
                j <= n,
                prev@.len() == n + 1,
                forall|k: int| 0 <= k <= n ==> #[trigger] prev@[k] == lev(a@.take(i as int), b@.take(k)),
                curr@.len() == j + 1,
                forall|k: int| 0 <= k <= j ==> #[trigger] curr@[k] == lev(a@.take(i + 1), b@.take(k)),
            decreases n - j,
        {
            let c2 = b[j];
            let cost: usize = if c1 == c2 { 0 } else { 1 };
            let del = sat_inc(prev[j + 1], 1);
            let ins = sat_inc(curr[j], 1);
            let sub = sat_inc(prev[j], cost);
            let m1 = if del <= ins { del } else { ins };
            let m = if m1 <= sub { m1 } else { sub };
            proof {
                let ai = a@.take(i + 1);
                let bj = b@.take(j + 1);
                assert(ai.drop_last() =~= a@.take(i as int));
                assert(bj.drop_last() =~= b@.take(j as int));
                assert(ai.last() == c1);
                assert(bj.last() == c2);
                assert(ai.len() > 0 && bj.len() > 0);
                lemma_lev_le_max(ai, bj);
                assert(lev(ai, bj) <= usize::MAX);
            }
            curr.push(m);
            j += 1;
        }
        prev = curr;
        i += 1;
    }
    proof {
        assert(a@.take(a@.len() as int) =~= a@);
        assert(b@.take(n as int) =~= b@);
    }
    prev[n]
}

} // verus!
