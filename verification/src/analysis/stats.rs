//! Summary statistics and histograms of latencies.

use vstd::prelude::*;
use crate::millis::Millis;

verus! {

/// Summary of a set of spans. The mean is `sum_ns / count`, and the population
/// variance is `spread / count` squared, in square nanoseconds.
#[derive(Clone, Copy, Debug, PartialEq, Eq, Structural)]
pub struct StatsSummary {
    pub count: usize,
    pub sum_ns: u128,
    /// `count` squared times the population variance, where `count` times the
    /// sum of the squares fits.
    pub spread: Option<u128>,
    pub min: Millis,
    pub max: Millis,
    pub p50: Millis,
    pub p90: Millis,
    pub p95: Millis,
    pub p99: Millis,
}

/// Sum of the spans.
pub open spec fn sum_of(values: Seq<Millis>) -> int
    decreases values.len(),
{
    if values.len() == 0 {
        0
    } else {
        sum_of(values.drop_last()) + values.last().ns
    }
}

/// Sum of the squares of the spans.
pub open spec fn squares_of(values: Seq<Millis>) -> int
    decreases values.len(),
{
    if values.len() == 0 {
        0
    } else {
        squares_of(values.drop_last()) + values.last().ns * values.last().ns
    }
}

/// The number of values squared times their population variance.
pub open spec fn spread_of(values: Seq<Millis>) -> int {
    values.len() * squares_of(values) - sum_of(values) * sum_of(values)
}

/// How many of the values are at most `ns`.
pub open spec fn at_most(values: Seq<Millis>, ns: int) -> nat
    decreases values.len(),
{
    if values.len() == 0 {
        0
    } else {
        at_most(values.drop_last(), ns) + if values.last().ns <= ns {
            1nat
        } else {
            0nat
        }
    }
}

/// `v` is the nearest-rank percentile: the smallest of the values that at least
/// `pct` percent of them do not exceed.
pub open spec fn nearest_rank(values: Seq<Millis>, pct: int, v: Millis) -> bool {
    &&& values.contains(v)
    &&& at_most(values, v.ns as int) * 100 >= pct * values.len()
    &&& forall|x: Millis| #[trigger]
        values.contains(x) && x.ns < v.ns ==> at_most(values, x.ns as int) * 100 < pct
            * values.len()
}

/// `v` is the least of the values.
pub open spec fn least(values: Seq<Millis>, v: Millis) -> bool {
    values.contains(v) && forall|x: Millis| #[trigger] values.contains(x) ==> v.ns <= x.ns
}

/// `v` is the greatest of the values.
pub open spec fn greatest(values: Seq<Millis>, v: Millis) -> bool {
    values.contains(v) && forall|x: Millis| #[trigger] values.contains(x) ==> x.ns <= v.ns
}

/// `s` summarises the values; the summary of none is all zeros.
pub open spec fn summary_of(s: StatsSummary, values: Seq<Millis>) -> bool {
    &&& s.count == values.len()
    &&& s.sum_ns == sum_of(values)
    &&& s.spread == if values.len() * squares_of(values) <= u128::MAX {
        Some(spread_of(values) as u128)
    } else {
        None
    }
    &&& if values.len() > 0 {
        &&& least(values, s.min)
        &&& greatest(values, s.max)
        &&& nearest_rank(values, 50, s.p50)
        &&& nearest_rank(values, 90, s.p90)
        &&& nearest_rank(values, 95, s.p95)
        &&& nearest_rank(values, 99, s.p99)
    } else {
        &&& s.min.ns == 0
        &&& s.max.ns == 0
        &&& s.p50.ns == 0
        &&& s.p90.ns == 0
        &&& s.p95.ns == 0
        &&& s.p99.ns == 0
    }
}

impl Default for StatsSummary {
    fn default() -> (s: StatsSummary)
        ensures
            s == (StatsSummary {
                count: 0,
                sum_ns: 0,
                spread: Some(0),
                min: Millis { ns: 0 },
                max: Millis { ns: 0 },
                p50: Millis { ns: 0 },
                p90: Millis { ns: 0 },
                p95: Millis { ns: 0 },
                p99: Millis { ns: 0 },
            }),
    {
        let zero = Millis { ns: 0 };
        StatsSummary {
            count: 0,
            sum_ns: 0,
            spread: Some(0),
            min: zero,
            max: zero,
            p50: zero,
            p90: zero,
            p95: zero,
            p99: zero,
        }
    }
}

/// Each value is at least the one before it.
pub open spec fn ascending(s: Seq<Millis>) -> bool {
    forall|i: int, j: int| 0 <= i <= j < s.len() ==> s[i].ns <= s[j].ns
}

/// `a` and `b` hold the same values, each as often.
spec fn same_values(a: Seq<Millis>, b: Seq<Millis>) -> bool {
    &&& a.len() == b.len()
    &&& forall|x: Millis| #[trigger] a.contains(x) <==> b.contains(x)
    &&& forall|ns: int| #[trigger] at_most(a, ns) == at_most(b, ns)
}

proof fn lemma_at_most_insert(s: Seq<Millis>, p: int, v: Millis, ns: int)
    requires
        0 <= p <= s.len(),
    ensures
        at_most(s.insert(p, v), ns) == at_most(s, ns) + if v.ns <= ns {
            1nat
        } else {
            0nat
        },
    decreases s.len(),
{
    let t = s.insert(p, v);
    if p == s.len() {
        assert(t.drop_last() =~= s);
    } else {
        assert(t.drop_last() =~= s.drop_last().insert(p, v));
        assert(t.last() == s.last());
        lemma_at_most_insert(s.drop_last(), p, v, ns);
    }
}

proof fn lemma_insert_contains(s: Seq<Millis>, p: int, v: Millis, x: Millis)
    requires
        0 <= p <= s.len(),
    ensures
        s.insert(p, v).contains(x) <==> s.contains(x) || x == v,
{
    let t = s.insert(p, v);
    if t.contains(x) {
        let i = choose|i: int| 0 <= i < t.len() && t[i] == x;
        if i < p {
            assert(s[i] == x);
        } else if i > p {
            assert(s[i - 1] == x);
        }
    }
    if s.contains(x) {
        let i = choose|i: int| 0 <= i < s.len() && s[i] == x;
        if i < p {
            assert(t[i] == x);
        } else {
            assert(t[i + 1] == x);
        }
    }
    assert(t[p] == v);
}

/// The values in ascending order.
fn sorted_copy(values: &[Millis]) -> (sorted: Vec<Millis>)
    ensures
        ascending(sorted@),
        same_values(sorted@, values@),
{
    let mut sorted: Vec<Millis> = Vec::new();
    let mut i: usize = 0;
    while i < values.len()
        invariant
            i <= values@.len(),
            ascending(sorted@),
            same_values(sorted@, values@.take(i as int)),
        decreases values@.len() - i,
    {
        let v = values[i];
        let mut p: usize = sorted.len();
        while p > 0 && sorted[p - 1].ns > v.ns
            invariant
                p <= sorted@.len(),
                forall|k: int| p <= k < sorted@.len() ==> sorted@[k].ns > v.ns,
            decreases p,
        {
            p = p - 1;
        }
        let ghost before = sorted@;
        sorted.insert(p, v);
        proof {
            let part = values@.take(i as int);
            let next = values@.take(i + 1);
            assert(next.drop_last() =~= part);
            assert(next =~= part.insert(part.len() as int, v));
            assert forall|x: Millis| #[trigger] sorted@.contains(x) <==> next.contains(x) by {
                lemma_insert_contains(before, p as int, v, x);
                lemma_insert_contains(part, part.len() as int, v, x);
                assert(before.contains(x) <==> part.contains(x));
            }
            assert forall|ns: int| #[trigger] at_most(sorted@, ns) == at_most(next, ns) by {
                lemma_at_most_insert(before, p as int, v, ns);
                assert(at_most(before, ns) == at_most(part, ns));
            }
        }
        i = i + 1;
    }
    assert(values@.take(values@.len() as int) =~= values@);
    sorted
}

proof fn lemma_ascending_reaches(s: Seq<Millis>, k: int, ns: int)
    requires
        ascending(s),
        1 <= k <= s.len(),
        s[k - 1].ns <= ns,
    ensures
        at_most(s, ns) >= k,
    decreases s.len(),
{
    if k < s.len() {
        lemma_ascending_reaches(s.drop_last(), k, ns);
    } else if k > 1 {
        assert(s[k - 2].ns <= s[k - 1].ns);
        lemma_ascending_reaches(s.drop_last(), k - 1, ns);
    }
}

proof fn lemma_ascending_stops(s: Seq<Millis>, k: int, ns: int)
    requires
        ascending(s),
        0 <= k < s.len(),
        s[k].ns > ns,
    ensures
        at_most(s, ns) <= k,
    decreases s.len(),
{
    assert(s.last().ns >= s[k].ns);
    if k < s.len() - 1 {
        lemma_ascending_stops(s.drop_last(), k, ns);
    } else {
        lemma_at_most_bound(s.drop_last(), ns);
    }
}

proof fn lemma_at_most_bound(s: Seq<Millis>, ns: int)
    ensures
        at_most(s, ns) <= s.len(),
    decreases s.len(),
{
    if s.len() > 0 {
        lemma_at_most_bound(s.drop_last(), ns);
    }
}

/// Position, from one, of the nearest-rank percentile among `n` values in
/// ascending order: `pct` percent of `n`, rounded up.
pub open spec fn rank_of(pct: int, n: int) -> int {
    (pct * n + 99) / 100
}

proof fn lemma_rank_is_percentile(s: Seq<Millis>, pct: int)
    requires
        s.len() > 0,
        ascending(s),
        1 <= pct <= 100,
    ensures
        1 <= rank_of(pct, s.len() as int) <= s.len(),
        nearest_rank(s, pct, s[rank_of(pct, s.len() as int) - 1]),
{
    let n = s.len() as int;
    assert(n <= pct * n <= 100 * n) by (nonlinear_arith)
        requires
            1 <= pct <= 100,
            n >= 0,
    ;
    let rank = rank_of(pct, n);
    let v = s[rank - 1];
    lemma_ascending_reaches(s, rank, v.ns as int);
    assert forall|x: Millis| #[trigger] s.contains(x) && x.ns < v.ns implies at_most(
        s,
        x.ns as int,
    ) * 100 < pct * s.len() by {
        lemma_ascending_stops(s, rank - 1, x.ns as int);
    }
}

/// Nearest-rank percentile of values in ascending order.
fn percentile(sorted: &Vec<Millis>, pct: u64) -> (v: Millis)
    requires
        sorted@.len() > 0,
        ascending(sorted@),
        1 <= pct <= 100,
    ensures
        nearest_rank(sorted@, pct as int, v),
{
    let n: usize = sorted.len();
    proof {
        assert(n <= pct * n <= 100 * n) by (nonlinear_arith)
            requires
                1 <= pct <= 100,
        ;
    }
    let scaled: u128 = pct as u128 * n as u128;
    let rank: usize = ((scaled + 99) / 100) as usize;
    proof {
        lemma_rank_is_percentile(sorted@, pct as int);
    }
    sorted[rank - 1]
}

proof fn lemma_same_percentile(a: Seq<Millis>, b: Seq<Millis>, pct: int, v: Millis)
    requires
        same_values(a, b),
        nearest_rank(a, pct, v),
    ensures
        nearest_rank(b, pct, v),
{
    assert(a.contains(v));
    assert(at_most(a, v.ns as int) == at_most(b, v.ns as int));
    assert forall|x: Millis| #[trigger] b.contains(x) && x.ns < v.ns implies at_most(b, x.ns as int)
        * 100 < pct * b.len() by {
        assert(a.contains(x));
        assert(at_most(a, x.ns as int) == at_most(b, x.ns as int));
    }
}

proof fn lemma_distances(values: Seq<Millis>, x: int)
    ensures
        squares_of(values) - 2 * (x * sum_of(values)) + values.len() * (x * x) >= 0,
    decreases values.len(),
{
    if values.len() > 0 {
        let rest = values.drop_last();
        lemma_distances(rest, x);
        let d = values.last().ns as int;
        let s = sum_of(rest);
        let n = rest.len() as int;
        assert(x * (s + d) == x * s + x * d) by (nonlinear_arith);
        assert((n + 1) * (x * x) == n * (x * x) + x * x) by (nonlinear_arith);
        assert(d * d - 2 * (x * d) + x * x >= 0) by (nonlinear_arith);
    }
}

/// A variance is never negative.
pub proof fn law_spread_not_negative(values: Seq<Millis>)
    ensures
        spread_of(values) >= 0,
    decreases values.len(),
{
    if values.len() > 0 {
        let rest = values.drop_last();
        law_spread_not_negative(rest);
        let x = values.last().ns as int;
        lemma_distances(rest, x);
        let s = sum_of(rest);
        let q = squares_of(rest);
        let n = rest.len() as int;
        assert((n + 1) * (q + x * x) - (s + x) * (s + x) == (n * q - s * s) + (q - 2 * (x * s) + n
            * (x * x))) by (nonlinear_arith);
    } else {
        assert(values.len() * squares_of(values) == 0) by (nonlinear_arith)
            requires
                values.len() == 0,
        ;
        assert(0int * 0int == 0) by (nonlinear_arith);
    }
}

proof fn lemma_sums_grow(values: Seq<Millis>, i: int)
    requires
        0 <= i <= values.len(),
    ensures
        0 <= sum_of(values.take(i)) <= i * u64::MAX,
        0 <= squares_of(values.take(i)) <= squares_of(values),
    decreases values.len(),
{
    if i < values.len() {
        lemma_sums_grow(values.drop_last(), i);
        assert(values.drop_last().take(i) =~= values.take(i));
        let d = values.last().ns as int;
        assert(d * d >= 0) by (nonlinear_arith);
    } else if i > 0 {
        assert(values.take(i) =~= values);
        lemma_sums_grow(values.drop_last(), i - 1);
        assert(values.drop_last().take(i - 1) =~= values.drop_last());
        let d = values.last().ns as int;
        assert(d * d >= 0) by (nonlinear_arith);
        assert((i - 1) * u64::MAX + u64::MAX == i * u64::MAX) by (nonlinear_arith);
    } else {
        lemma_squares_not_negative(values);
    }
}

proof fn lemma_squares_not_negative(values: Seq<Millis>)
    ensures
        squares_of(values) >= 0,
    decreases values.len(),
{
    if values.len() > 0 {
        lemma_squares_not_negative(values.drop_last());
        let d = values.last().ns as int;
        assert(d * d >= 0) by (nonlinear_arith);
    }
}

fn sum(values: &[Millis]) -> (sum: u128)
    ensures
        sum == sum_of(values@),
{
    let mut sum: u128 = 0;
    let mut i: usize = 0;
    while i < values.len()
        invariant
            i <= values@.len(),
            sum == sum_of(values@.take(i as int)),
        decreases values@.len() - i,
    {
        proof {
            lemma_sums_grow(values@, i + 1);
            assert(values@.take(i + 1).drop_last() =~= values@.take(i as int));
            assert((i + 1) * u64::MAX <= u128::MAX) by (nonlinear_arith)
                requires
                    i + 1 <= u64::MAX,
            ;
        }
        sum = sum + values[i].ns as u128;
        i = i + 1;
    }
    assert(values@.take(values@.len() as int) =~= values@);
    sum
}

/// Sum of the squares, where it fits.
fn squares(values: &[Millis]) -> (sum: Option<u128>)
    ensures
        sum == if squares_of(values@) <= u128::MAX {
            Some(squares_of(values@) as u128)
        } else {
            None
        },
{
    let mut sum: u128 = 0;
    let mut i: usize = 0;
    while i < values.len()
        invariant
            i <= values@.len(),
            sum == squares_of(values@.take(i as int)),
        decreases values@.len() - i,
    {
        let d: u128 = values[i].ns as u128;
        proof {
            lemma_sums_grow(values@, i + 1);
            assert(values@.take(i + 1).drop_last() =~= values@.take(i as int));
            assert(d * d <= u128::MAX) by (nonlinear_arith)
                requires
                    0 <= d <= u64::MAX,
            ;
        }
        match sum.checked_add(d * d) {
            Some(next) => {
                sum = next;
            },
            None => {
                return None;
            },
        }
        i = i + 1;
    }
    assert(values@.take(values@.len() as int) =~= values@);
    Some(sum)
}

/// The spread, where the count times the sum of squares fits.
fn spread(values: &[Millis], sum: u128) -> (spread: Option<u128>)
    requires
        sum == sum_of(values@),
        values@.len() > 0,
    ensures
        spread == if values@.len() * squares_of(values@) <= u128::MAX {
            Some(spread_of(values@) as u128)
        } else {
            None
        },
{
    let n: u128 = values.len() as u128;
    proof {
        law_spread_not_negative(values@);
        lemma_squares_not_negative(values@);
        assert(squares_of(values@) <= n * squares_of(values@)) by (nonlinear_arith)
            requires
                n >= 1,
                squares_of(values@) >= 0,
        ;
        assert(sum * sum >= 0) by (nonlinear_arith);
    }
    match squares(values) {
        Some(q) => match n.checked_mul(q) {
            Some(nq) => Some(nq - sum * sum),
            None => None,
        },
        None => None,
    }
}

/// Summarises a set of spans; all zeros for an empty one.
pub fn summarize(values: &[Millis]) -> (s: StatsSummary)
    ensures
        summary_of(s, values@),
{
    if values.len() == 0 {
        assert(values@.len() * squares_of(values@) == 0) by (nonlinear_arith)
            requires
                values@.len() == 0,
        ;
        assert(0int * 0int == 0) by (nonlinear_arith);
        return StatsSummary::default();
    }
    let sorted = sorted_copy(values);
    let n: usize = sorted.len();
    let sum_ns: u128 = sum(values);
    let min = sorted[0];
    let max = sorted[n - 1];
    proof {
        assert(sorted@.contains(min) && sorted@.contains(max));
        assert forall|x: Millis| #[trigger] values@.contains(x) implies min.ns <= x.ns <= max.ns by {
            assert(sorted@.contains(x));
            let k = choose|k: int| 0 <= k < sorted@.len() && sorted@[k] == x;
            assert(sorted@[0].ns <= sorted@[k].ns <= sorted@[n - 1].ns);
        }
    }
    let p50 = percentile(&sorted, 50);
    let p90 = percentile(&sorted, 90);
    let p95 = percentile(&sorted, 95);
    let p99 = percentile(&sorted, 99);
    proof {
        lemma_same_percentile(sorted@, values@, 50, p50);
        lemma_same_percentile(sorted@, values@, 90, p90);
        lemma_same_percentile(sorted@, values@, 95, p95);
        lemma_same_percentile(sorted@, values@, 99, p99);
    }
    StatsSummary {
        count: n,
        sum_ns,
        spread: spread(values, sum_ns),
        min,
        max,
        p50,
        p90,
        p95,
        p99,
    }
}

/// A higher percentile is never smaller than a lower one.
pub proof fn law_percentiles_ascend(
    values: Seq<Millis>,
    low: int,
    high: int,
    v: Millis,
    w: Millis,
)
    requires
        low <= high,
        nearest_rank(values, low, v),
        nearest_rank(values, high, w),
    ensures
        v.ns <= w.ns,
{
    if w.ns < v.ns {
        assert(values.contains(w));
        assert(low * values.len() <= high * values.len()) by (nonlinear_arith)
            requires
                low <= high,
        ;
    }
}

/// There is only one nearest-rank percentile, and it lies between the least and
/// the greatest of the values.
pub proof fn law_percentile_is_unique(values: Seq<Millis>, pct: int, v: Millis, w: Millis)
    requires
        nearest_rank(values, pct, v),
        nearest_rank(values, pct, w),
    ensures
        v == w,
        forall|m: Millis| #[trigger] least(values, m) ==> m.ns <= v.ns,
        forall|m: Millis| #[trigger] greatest(values, m) ==> v.ns <= m.ns,
{
    law_percentiles_ascend(values, pct, pct, v, w);
    law_percentiles_ascend(values, pct, pct, w, v);
}

proof fn lemma_sums_insert(s: Seq<Millis>, p: int, v: Millis)
    requires
        0 <= p <= s.len(),
    ensures
        sum_of(s.insert(p, v)) == sum_of(s) + v.ns,
        squares_of(s.insert(p, v)) == squares_of(s) + v.ns * v.ns,
    decreases s.len(),
{
    let t = s.insert(p, v);
    if p == s.len() {
        assert(t.drop_last() =~= s);
    } else {
        assert(t.drop_last() =~= s.drop_last().insert(p, v));
        assert(t.last() == s.last());
        lemma_sums_insert(s.drop_last(), p, v);
    }
}

proof fn lemma_permuted_sums(a: Seq<Millis>, b: Seq<Millis>)
    requires
        a.to_multiset() == b.to_multiset(),
    ensures
        a.len() == b.len(),
        sum_of(a) == sum_of(b),
        squares_of(a) == squares_of(b),
        same_values(a, b),
    decreases a.len(),
{
    broadcast use vstd::seq_lib::group_to_multiset_ensures;

    assert(a.len() == a.to_multiset().len() && b.len() == b.to_multiset().len());
    if a.len() > 0 {
        let v = a.last();
        let rest = a.drop_last();
        assert(a[a.len() - 1] == v);
        assert(a.contains(v));
        assert(b.to_multiset().count(v) > 0);
        assert(b.contains(v));
        let k = choose|k: int| 0 <= k < b.len() && b[k] == v;
        let other = b.remove(k);
        assert(rest =~= a.remove(a.len() - 1));
        lemma_permuted_sums(rest, other);
        assert(b =~= other.insert(k, v));
        assert(a =~= rest.insert(rest.len() as int, v));
        lemma_sums_insert(other, k, v);
        assert forall|x: Millis| #[trigger] a.contains(x) <==> b.contains(x) by {
            assert(rest.contains(x) <==> other.contains(x));
            lemma_insert_contains(rest, rest.len() as int, v, x);
            lemma_insert_contains(other, k, v, x);
        }
        assert forall|ns: int| #[trigger] at_most(a, ns) == at_most(b, ns) by {
            assert(at_most(rest, ns) == at_most(other, ns));
            lemma_at_most_insert(other, k, v, ns);
        }
    } else {
        assert(a =~= b);
    }
}

/// The order of the values does not matter: a permutation of them has the same
/// summary.
pub proof fn law_summary_ignores_order(
    a: Seq<Millis>,
    b: Seq<Millis>,
    s: StatsSummary,
    t: StatsSummary,
)
    requires
        a.to_multiset() == b.to_multiset(),
        summary_of(s, a),
        summary_of(t, b),
    ensures
        s == t,
{
    lemma_permuted_sums(a, b);
    if a.len() > 0 {
        assert(a.contains(s.min) && b.contains(t.min) && a.contains(s.max) && b.contains(t.max));
        assert(b.contains(s.min) && a.contains(t.min) && b.contains(s.max) && a.contains(t.max));
        lemma_same_percentile(a, b, 50, s.p50);
        lemma_same_percentile(a, b, 90, s.p90);
        lemma_same_percentile(a, b, 95, s.p95);
        lemma_same_percentile(a, b, 99, s.p99);
        law_percentile_is_unique(b, 50, s.p50, t.p50);
        law_percentile_is_unique(b, 90, s.p90, t.p90);
        law_percentile_is_unique(b, 95, s.p95, t.p95);
        law_percentile_is_unique(b, 99, s.p99, t.p99);
    }
}

/// The percentile is one of the values, at its rank once they are in ascending
/// order; nothing is interpolated.
pub proof fn law_percentile_is_at_its_rank(
    values: Seq<Millis>,
    sorted: Seq<Millis>,
    pct: int,
    v: Millis,
)
    requires
        values.to_multiset() == sorted.to_multiset(),
        ascending(sorted),
        1 <= pct <= 100,
        nearest_rank(values, pct, v),
    ensures
        1 <= rank_of(pct, sorted.len() as int) <= sorted.len(),
        v == sorted[rank_of(pct, sorted.len() as int) - 1],
{
    lemma_permuted_sums(values, sorted);
    assert(values.contains(v));
    lemma_rank_is_percentile(sorted, pct);
    lemma_same_percentile(values, sorted, pct, v);
    law_percentile_is_unique(sorted, pct, v, sorted[rank_of(pct, sorted.len() as int) - 1]);
}

/// Equal values have no spread.
pub proof fn law_equal_values_have_no_spread(values: Seq<Millis>, v: Millis)
    requires
        forall|i: int| 0 <= i < values.len() ==> values[i] == v,
    ensures
        spread_of(values) == 0,
{
    lemma_equal_sums(values, v);
    let n = values.len() as int;
    let x = v.ns as int;
    assert(n * (n * (x * x)) == (n * x) * (n * x)) by (nonlinear_arith);
}

proof fn lemma_equal_sums(values: Seq<Millis>, v: Millis)
    requires
        forall|i: int| 0 <= i < values.len() ==> values[i] == v,
    ensures
        sum_of(values) == values.len() * v.ns,
        squares_of(values) == values.len() * (v.ns * v.ns),
    decreases values.len(),
{
    let n = values.len() as int;
    let x = v.ns as int;
    if n > 0 {
        lemma_equal_sums(values.drop_last(), v);
        assert((n - 1) * x + x == n * x) by (nonlinear_arith);
        assert((n - 1) * (x * x) + x * x == n * (x * x)) by (nonlinear_arith);
    } else {
        assert(n * x == 0 && n * (x * x) == 0) by (nonlinear_arith)
            requires
                n == 0,
        ;
    }
}

/// Picoseconds in one nanosecond.
pub const PS_PER_NS: u128 = 1_000;

/// A histogram between the least and the greatest value. Bucket `k` reaches
/// from edge `k` up to edge `k + 1`; edges are in picoseconds.
#[derive(Clone, Debug)]
pub struct Histogram {
    pub edges_ps: Vec<u128>,
    pub counts: Vec<usize>,
}

/// The bucket of a value between `min` and `max`; the greatest value falls in
/// the last bucket.
pub open spec fn bucket(ns: u64, min: Millis, max: Millis, bins: int) -> int {
    if min.ns == max.ns {
        0
    } else {
        let k = (ns - min.ns) * bins / (max.ns - min.ns);
        if k < bins {
            k
        } else {
            bins - 1
        }
    }
}

/// How many of the values fall in bucket `k`.
pub open spec fn bucket_count(
    values: Seq<Millis>,
    min: Millis,
    max: Millis,
    bins: int,
    k: int,
) -> nat
    decreases values.len(),
{
    if values.len() == 0 {
        0
    } else {
        bucket_count(values.drop_last(), min, max, bins, k) + if bucket(
            values.last().ns,
            min,
            max,
            bins,
        ) == k {
            1nat
        } else {
            0nat
        }
    }
}

/// Distance in picoseconds between the first and the last edge: at least one,
/// so that equal values have a histogram too.
pub open spec fn edge_span(min: Millis, max: Millis) -> int {
    if min.ns == max.ns {
        1
    } else {
        (max.ns - min.ns) * PS_PER_NS
    }
}

/// Edge `k` of the histogram, rounded down.
pub open spec fn edge(min: Millis, max: Millis, bins: int, k: int) -> int {
    min.ns * PS_PER_NS + edge_span(min, max) * k / bins
}

fn bounds(values: &[Millis]) -> (b: (Millis, Millis))
    requires
        values@.len() > 0,
    ensures
        least(values@, b.0),
        greatest(values@, b.1),
{
    let mut min = values[0];
    let mut max = values[0];
    let mut i: usize = 1;
    assert(values@[0] == min);
    while i < values.len()
        invariant
            1 <= i <= values@.len(),
            values@.contains(min),
            values@.contains(max),
            forall|k: int| 0 <= k < i ==> min.ns <= (#[trigger] values@[k]).ns <= max.ns,
        decreases values@.len() - i,
    {
        let v = values[i];
        assert(values@[i as int] == v);
        if v.ns < min.ns {
            min = v;
        }
        if v.ns > max.ns {
            max = v;
        }
        i = i + 1;
    }
    (min, max)
}

fn bucket_of(v: Millis, min: Millis, max: Millis, bins: usize) -> (k: usize)
    requires
        bins > 0,
        min.ns <= v.ns <= max.ns,
    ensures
        k == bucket(v.ns, min, max, bins as int),
        k < bins,
{
    if min.ns == max.ns {
        return 0;
    }
    let above: u128 = (v.ns - min.ns) as u128;
    let span: u128 = (max.ns - min.ns) as u128;
    proof {
        assert(0 <= above * bins <= u128::MAX) by (nonlinear_arith)
            requires
                0 <= above <= u64::MAX,
                0 <= bins <= u64::MAX,
        ;
        assert((above * bins) / span as int >= 0) by (nonlinear_arith)
            requires
                above * bins >= 0,
                span > 0,
        ;
    }
    let k: u128 = above * bins as u128 / span;
    if k < bins as u128 {
        k as usize
    } else {
        bins - 1
    }
}

/// Histogram of the values over `bins` buckets; empty where there are no values
/// or no buckets.
pub fn histogram(values: &[Millis], bins: usize) -> (h: Histogram)
    requires
        bins < usize::MAX,
    ensures
        values@.len() == 0 || bins == 0 ==> h.edges_ps@.len() == 0 && h.counts@.len() == 0,
        values@.len() > 0 && bins > 0 ==> forall|min: Millis, max: Millis| #[trigger]
            least(values@, min) && #[trigger] greatest(values@, max) ==> {
                &&& h.edges_ps@.len() == bins + 1
                &&& h.counts@.len() == bins
                &&& forall|k: int|
                    0 <= k <= bins ==> #[trigger] h.edges_ps@[k] == edge(min, max, bins as int, k)
                &&& forall|k: int|
                    0 <= k < bins ==> #[trigger] h.counts@[k] == bucket_count(
                        values@,
                        min,
                        max,
                        bins as int,
                        k,
                    )
            },
{
    if values.len() == 0 || bins == 0 {
        return Histogram { edges_ps: Vec::new(), counts: Vec::new() };
    }
    let (min, max) = bounds(values);
    let counts = bucket_counts(values, min, max, bins);
    let edges_ps = edges(min, max, bins);
    Histogram { edges_ps, counts }
}

fn bucket_counts(values: &[Millis], min: Millis, max: Millis, bins: usize) -> (counts: Vec<usize>)
    requires
        bins > 0,
        least(values@, min),
        greatest(values@, max),
    ensures
        counts@.len() == bins,
        forall|k: int|
            0 <= k < bins ==> #[trigger] counts@[k] == bucket_count(
                values@,
                min,
                max,
                bins as int,
                k,
            ),
{
    let mut counts: Vec<usize> = Vec::new();
    while counts.len() < bins
        invariant
            counts@.len() <= bins,
            forall|k: int| 0 <= k < counts@.len() ==> counts@[k] == 0,
        decreases bins - counts@.len(),
    {
        counts.push(0);
    }
    let mut i: usize = 0;
    while i < values.len()
        invariant
            bins > 0,
            least(values@, min),
            greatest(values@, max),
            i <= values@.len(),
            counts@.len() == bins,
            forall|k: int| 0 <= k < bins ==> #[trigger] counts@[k] <= i,
            forall|k: int|
                0 <= k < bins ==> #[trigger] counts@[k] == bucket_count(
                    values@.take(i as int),
                    min,
                    max,
                    bins as int,
                    k,
                ),
        decreases values@.len() - i,
    {
        let v = values[i];
        assert(values@.contains(v));
        let b: usize = bucket_of(v, min, max, bins);
        let ghost before = counts@;
        counts[b] = counts[b] + 1;
        assert(values@.take(i + 1).drop_last() =~= values@.take(i as int));
        assert(forall|k: int| 0 <= k < bins && k != b ==> #[trigger] counts@[k] == before[k]);
        i = i + 1;
    }
    assert(values@.take(values@.len() as int) =~= values@);
    counts
}

fn edges(min: Millis, max: Millis, bins: usize) -> (edges: Vec<u128>)
    requires
        0 < bins < usize::MAX,
        min.ns <= max.ns,
    ensures
        edges@.len() == bins + 1,
        forall|k: int|
            0 <= k <= bins ==> #[trigger] edges@[k] == edge(min, max, bins as int, k),
{
    let span: u128 = if min.ns == max.ns {
        1
    } else {
        (max.ns - min.ns) as u128 * 1_000
    };
    let d: u128 = bins as u128;
    let whole: u128 = span / d;
    let part: u128 = span % d;
    let base: u128 = min.ns as u128 * 1_000;
    let mut edges: Vec<u128> = Vec::new();
    let mut k: usize = 0;
    while k <= bins
        invariant
            0 < bins < usize::MAX,
            d == bins,
            span == edge_span(min, max),
            span <= u64::MAX * 1_000,
            whole == span / d,
            part == span % d,
            base == min.ns * 1_000,
            k <= bins + 1,
            edges@.len() == k,
            forall|j: int| 0 <= j < k ==> #[trigger] edges@[j] == edge(min, max, bins as int, j),
        decreases bins + 1 - k,
    {
        proof {
            let (s, q, r, n, i) = (span as int, whole as int, part as int, d as int, k as int);
            vstd::arithmetic::div_mod::lemma_fundamental_div_mod(s, n);
            assert(0 <= r < n && s == n * q + r);
            assert(s * i == r * i + (q * i) * n) by (nonlinear_arith)
                requires
                    s == n * q + r,
            ;
            vstd::arithmetic::div_mod::lemma_hoist_over_denominator(r * i, q * i, n as nat);
            assert(s * i / n == (r * i) / n + q * i);
            assert(0 <= r * i <= u128::MAX) by (nonlinear_arith)
                requires
                    0 <= r < u64::MAX,
                    0 <= i <= u64::MAX,
            ;
            assert(0 <= q * i <= s) by (nonlinear_arith)
                requires
                    s == n * q + r,
                    0 <= i <= n,
                    q >= 0,
                    r >= 0,
            ;
            assert(0 <= (r * i) / n <= i) by (nonlinear_arith)
                requires
                    0 <= r < n,
                    0 <= i,
                    n > 0,
            ;
        }
        edges.push(base + (whole * k as u128 + part * k as u128 / d));
        k = k + 1;
    }
    edges
}

/// Sum of the first `n` bucket counts.
pub open spec fn counted(values: Seq<Millis>, min: Millis, max: Millis, bins: int, n: nat) -> nat
    decreases n,
{
    if n == 0 {
        0
    } else {
        counted(values, min, max, bins, (n - 1) as nat) + bucket_count(
            values,
            min,
            max,
            bins,
            n - 1,
        )
    }
}

/// Every value is counted once: the buckets together hold as many as there are
/// values.
pub proof fn law_histogram_counts_every_value(
    values: Seq<Millis>,
    min: Millis,
    max: Millis,
    bins: nat,
)
    requires
        bins > 0,
        forall|i: int| 0 <= i < values.len() ==> min.ns <= (#[trigger] values[i]).ns <= max.ns,
    ensures
        counted(values, min, max, bins as int, bins) == values.len(),
    decreases values.len(),
{
    if values.len() == 0 {
        lemma_counted_none(values, min, max, bins as int, bins);
    } else {
        let rest = values.drop_last();
        assert forall|i: int| 0 <= i < rest.len() implies min.ns <= (#[trigger] rest[i]).ns
            <= max.ns by {
            assert(rest[i] == values[i]);
        }
        law_histogram_counts_every_value(rest, min, max, bins);
        assert(values.last() == values[values.len() - 1]);
        lemma_bucket_in_range(values.last().ns, min, max, bins as int);
        lemma_counted_one_more(values, min, max, bins as int, bins);
    }
}

proof fn lemma_bucket_in_range(ns: u64, min: Millis, max: Millis, bins: int)
    requires
        bins > 0,
        min.ns <= ns <= max.ns,
    ensures
        0 <= bucket(ns, min, max, bins) < bins,
{
    if min.ns != max.ns {
        assert((ns - min.ns) * bins / (max.ns - min.ns) >= 0) by (nonlinear_arith)
            requires
                bins > 0,
                min.ns <= ns,
                min.ns < max.ns,
        ;
    }
}

proof fn lemma_counted_none(values: Seq<Millis>, min: Millis, max: Millis, bins: int, n: nat)
    requires
        values.len() == 0,
    ensures
        counted(values, min, max, bins, n) == 0,
    decreases n,
{
    if n > 0 {
        lemma_counted_none(values, min, max, bins, (n - 1) as nat);
    }
}

proof fn lemma_counted_one_more(values: Seq<Millis>, min: Millis, max: Millis, bins: int, n: nat)
    requires
        values.len() > 0,
        0 <= bucket(values.last().ns, min, max, bins),
    ensures
        counted(values, min, max, bins, n) == counted(values.drop_last(), min, max, bins, n) + if bucket(
            values.last().ns,
            min,
            max,
            bins,
        ) < n {
            1nat
        } else {
            0nat
        },
    decreases n,
{
    if n > 0 {
        lemma_counted_one_more(values, min, max, bins, (n - 1) as nat);
    }
}

/// A summary counts the values, spans them from the least to the greatest, and
/// names of each percentile the value that stands, in ascending order, where that
/// many percent of them are reached.
pub proof fn law_summary_names_values(s: StatsSummary, values: Seq<Millis>, sorted: Seq<Millis>)
    requires
        summary_of(s, values),
        values.len() > 0,
        values.to_multiset() == sorted.to_multiset(),
        forall|i: int, j: int| 0 <= i <= j < sorted.len() ==> sorted[i].ns <= sorted[j].ns,
    ensures
        ({
            let n = values.len() as int;
            &&& sorted.len() == n
            &&& s.count == n
            &&& s.min == sorted[0]
            &&& s.max == sorted[n - 1]
            &&& s.p50 == sorted[(50 * n + 99) / 100 - 1]
            &&& s.p90 == sorted[(90 * n + 99) / 100 - 1]
            &&& s.p95 == sorted[(95 * n + 99) / 100 - 1]
            &&& s.p99 == sorted[(99 * n + 99) / 100 - 1]
            &&& forall|i: int|
                0 <= i < n ==> s.min.ns <= (#[trigger] values[i]).ns <= s.max.ns
        }),
{
    lemma_permuted_sums(values, sorted);
    let n = values.len() as int;
    law_percentile_is_at_its_rank(values, sorted, 50, s.p50);
    law_percentile_is_at_its_rank(values, sorted, 90, s.p90);
    law_percentile_is_at_its_rank(values, sorted, 95, s.p95);
    law_percentile_is_at_its_rank(values, sorted, 99, s.p99);
    assert(sorted.contains(sorted[0]) && sorted.contains(sorted[n - 1]));
    assert(values.contains(sorted[0]) && values.contains(sorted[n - 1]));
    assert(values.contains(s.min) && values.contains(s.max));
    assert(sorted.contains(s.min) && sorted.contains(s.max));
    assert forall|i: int| 0 <= i < n implies s.min.ns <= (#[trigger] values[i]).ns <= s.max.ns by {
        assert(values.contains(values[i]));
    }
    let a = choose|a: int| 0 <= a < n && sorted[a] == s.min;
    let z = choose|z: int| 0 <= z < n && sorted[z] == s.max;
    assert(sorted[0].ns <= sorted[a].ns && sorted[z].ns <= sorted[n - 1].ns);
}

/// The summary of none is all zeros.
pub proof fn law_summary_of_none(s: StatsSummary, values: Seq<Millis>)
    requires
        summary_of(s, values),
        values.len() == 0,
    ensures
        s.count == 0,
        s.sum_ns == 0,
        s.min.ns == 0,
        s.max.ns == 0,
        s.p50.ns == 0,
        s.p90.ns == 0,
        s.p95.ns == 0,
        s.p99.ns == 0,
{
}

/// Sum of the squared distances of the values from `x`.
pub open spec fn distances(values: Seq<Millis>, x: int) -> int
    decreases values.len(),
{
    if values.len() == 0 {
        0
    } else {
        distances(values.drop_last(), x) + (values.last().ns - x) * (values.last().ns - x)
    }
}

proof fn lemma_distances_expand(values: Seq<Millis>, x: int)
    ensures
        distances(values, x) == squares_of(values) - 2 * (x * sum_of(values)) + values.len() * (x
            * x),
    decreases values.len(),
{
    if values.len() > 0 {
        let rest = values.drop_last();
        lemma_distances_expand(rest, x);
        let d = values.last().ns as int;
        let s = sum_of(rest);
        let n = rest.len() as int;
        assert(x * (s + d) == x * s + x * d) by (nonlinear_arith);
        assert((n + 1) * (x * x) == n * (x * x) + x * x) by (nonlinear_arith);
        assert((d - x) * (d - x) == d * d - 2 * (x * d) + x * x) by (nonlinear_arith);
    } else {
        assert(x * 0 == 0 && 0 * (x * x) == 0) by (nonlinear_arith);
        assert(values.len() * (x * x) == 0) by (nonlinear_arith)
            requires
                values.len() == 0,
        ;
    }
}

/// A further value adds itself to the sum, and to the spread the square of its
/// distance from each value before it.
pub proof fn law_sums_and_spread_grow(values: Seq<Millis>, v: Millis)
    ensures
        sum_of(Seq::empty()) == 0,
        spread_of(Seq::empty()) == 0,
        sum_of(values.push(v)) == sum_of(values) + v.ns,
        spread_of(values.push(v)) == spread_of(values) + distances(values, v.ns as int),
{
    let more = values.push(v);
    assert(more.drop_last() =~= values);
    let x = v.ns as int;
    lemma_distances_expand(values, x);
    let s = sum_of(values);
    let q = squares_of(values);
    let n = values.len() as int;
    assert((n + 1) * (q + x * x) - (s + x) * (s + x) == (n * q - s * s) + (q - 2 * (x * s) + n * (x
        * x))) by (nonlinear_arith);
    assert(0int * 0int == 0) by (nonlinear_arith);
    let none = Seq::<Millis>::empty();
    assert(none.len() * squares_of(none) == 0) by (nonlinear_arith)
        requires
            none.len() == 0,
    ;
}

/// A summary holds the sum, and the spread where it could be computed, which it
/// could unless the squares outgrow the machine.
pub proof fn law_summary_holds_sum_and_spread(s: StatsSummary, values: Seq<Millis>)
    requires
        summary_of(s, values),
    ensures
        s.sum_ns == sum_of(values),
        s.spread is Some ==> s.spread->0 == spread_of(values),
        s.spread is None ==> values.len() * distances(values, 0) > u128::MAX,
{
    law_spread_not_negative(values);
    lemma_distances_expand(values, 0);
    let sum = sum_of(values);
    assert(0int * sum == 0 && values.len() * (0int * 0int) == 0) by (nonlinear_arith);
    assert(spread_of(values) <= values.len() * squares_of(values)) by {
        assert(sum * sum >= 0) by (nonlinear_arith);
    }
}

/// A value falls in the bucket whose share of the range it lies in, the greatest
/// in the last; with only one value to be had, all fall in the first.
pub proof fn law_value_lies_in_its_bucket(ns: u64, min: Millis, max: Millis, bins: int)
    requires
        bins > 0,
        min.ns <= ns <= max.ns,
    ensures
        ({
            let k = bucket(ns, min, max, bins);
            let span = max.ns - min.ns;
            &&& 0 <= k < bins
            &&& min.ns == max.ns ==> k == 0
            &&& min.ns < max.ns ==> k * span <= (ns - min.ns) * bins
            &&& min.ns < max.ns && k < bins - 1 ==> (ns - min.ns) * bins < (k + 1) * span
            &&& min.ns < max.ns && ns == max.ns ==> k == bins - 1
        }),
{
    lemma_bucket_in_range(ns, min, max, bins);
    if min.ns < max.ns {
        let span = max.ns - min.ns;
        let x = (ns - min.ns) * bins;
        let q = x / span;
        vstd::arithmetic::div_mod::lemma_fundamental_div_mod(x, span);
        assert(q * span <= x < (q + 1) * span) by (nonlinear_arith)
            requires
                x == span * q + x % span,
                0 <= x % span < span,
        ;
        let k = bucket(ns, min, max, bins);
        if k < q {
            assert(k * span <= q * span) by (nonlinear_arith)
                requires
                    k <= q,
                    span > 0,
            ;
        }
        if ns == max.ns {
            assert(x == span * bins);
            assert(span * bins / span == bins) by (nonlinear_arith)
                requires
                    span > 0,
            ;
        }
    }
}

/// A further value is counted in its bucket and in no other.
pub proof fn law_value_is_counted_once(
    values: Seq<Millis>,
    v: Millis,
    min: Millis,
    max: Millis,
    bins: int,
    k: int,
)
    ensures
        bucket_count(Seq::empty(), min, max, bins, k) == 0,
        k == bucket(v.ns, min, max, bins) ==> bucket_count(values.push(v), min, max, bins, k)
            == bucket_count(values, min, max, bins, k) + 1,
        k != bucket(v.ns, min, max, bins) ==> bucket_count(values.push(v), min, max, bins, k)
            == bucket_count(values, min, max, bins, k),
{
    assert(values.push(v).drop_last() =~= values);
}

/// The edges run from the least value to the greatest in even steps, to the
/// picosecond; equal values have a picosecond of width.
pub proof fn law_edges_run_from_least_to_greatest(min: Millis, max: Millis, bins: int, k: int)
    requires
        bins > 0,
        min.ns <= max.ns,
        0 <= k <= bins,
    ensures
        edge(min, max, bins, 0) == min.ns * 1_000,
        min.ns < max.ns ==> edge(min, max, bins, bins) == max.ns * 1_000,
        min.ns == max.ns ==> edge(min, max, bins, bins) == min.ns * 1_000 + 1,
        min.ns < max.ns ==> {
            let above = edge(min, max, bins, k) - min.ns * 1_000;
            above * bins <= (max.ns - min.ns) * 1_000 * k < (above + 1) * bins
        },
        k < bins ==> edge(min, max, bins, k) <= edge(min, max, bins, k + 1),
{
    let s = edge_span(min, max);
    assert(s * 0 / bins == 0 && s * bins / bins == s) by (nonlinear_arith)
        requires
            bins > 0,
    ;
    let x = s * k;
    let q = x / bins;
    vstd::arithmetic::div_mod::lemma_fundamental_div_mod(x, bins);
    assert(q * bins <= x < (q + 1) * bins) by (nonlinear_arith)
        requires
            x == bins * q + x % bins,
            0 <= x % bins < bins,
    ;
    assert(s * k <= s * (k + 1)) by (nonlinear_arith)
        requires
            s > 0,
    ;
    vstd::arithmetic::div_mod::lemma_div_is_ordered(s * k, s * (k + 1), bins);
}

/// The least value is one of them and below none, the greatest one of them and
/// above none.
pub proof fn law_least_and_greatest(values: Seq<Millis>, v: Millis)
    ensures
        least(values, v) <==> values.contains(v) && forall|i: int|
            0 <= i < values.len() ==> v.ns <= (#[trigger] values[i]).ns,
        greatest(values, v) <==> values.contains(v) && forall|i: int|
            0 <= i < values.len() ==> (#[trigger] values[i]).ns <= v.ns,
{
    assert forall|i: int| 0 <= i < values.len() implies values.contains(#[trigger] values[i]) by {}
    if forall|i: int| 0 <= i < values.len() ==> v.ns <= (#[trigger] values[i]).ns {
        assert forall|x: Millis| #[trigger] values.contains(x) implies v.ns <= x.ns by {
            let i = choose|i: int| 0 <= i < values.len() && values[i] == x;
        }
    }
    if forall|i: int| 0 <= i < values.len() ==> (#[trigger] values[i]).ns <= v.ns {
        assert forall|x: Millis| #[trigger] values.contains(x) implies x.ns <= v.ns by {
            let i = choose|i: int| 0 <= i < values.len() && values[i] == x;
        }
    }
}

/// A nearest-rank percentile is one of the values; that many percent of them do
/// not exceed it, and of any smaller value this cannot be said.
pub proof fn law_percentile_is_the_smallest_that_reaches(
    values: Seq<Millis>,
    pct: int,
    v: Millis,
    x: Millis,
)
    requires
        nearest_rank(values, pct, v),
        values.contains(x),
        x.ns < v.ns,
    ensures
        values.contains(v),
        at_most(values, v.ns as int) * 100 >= pct * values.len(),
        at_most(values, x.ns as int) * 100 < pct * values.len(),
{
}

/// A further value counts among those at most `ns` exactly if it is.
pub proof fn law_at_most_counts(values: Seq<Millis>, v: Millis, ns: int)
    ensures
        at_most(Seq::empty(), ns) == 0,
        v.ns <= ns ==> at_most(values.push(v), ns) == at_most(values, ns) + 1,
        v.ns > ns ==> at_most(values.push(v), ns) == at_most(values, ns),
{
    assert(values.push(v).drop_last() =~= values);
}

} // verus!
