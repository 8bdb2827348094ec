//! Statistics of a numeric sample: total, mean, extremes and nearest-rank
//! percentiles.

use vstd::prelude::*;
use vstd::relations::*;
use vstd::seq_lib::*;

verus! {

/// The sum of the sample.
pub open spec fn total(s: Seq<i64>) -> int
    decreases s.len(),
{
    if s.len() == 0 {
        0
    } else {
        total(s.drop_last()) + s.last()
    }
}

/// The arithmetic mean of the sample, rounded down to a whole unit; zero for
/// the empty sample.
pub open spec fn mean(s: Seq<i64>) -> int {
    if s.len() == 0 {
        0
    } else {
        total(s) / (s.len() as int)
    }
}

/// `m` occurs in the sample and nothing in the sample is smaller.
pub open spec fn is_least(m: i64, s: Seq<i64>) -> bool {
    &&& s.contains(m)
    &&& forall|i: int| 0 <= i < s.len() ==> m <= s[i]
}

/// `m` occurs in the sample and nothing in the sample is greater.
pub open spec fn is_greatest(m: i64, s: Seq<i64>) -> bool {
    &&& s.contains(m)
    &&& forall|i: int| 0 <= i < s.len() ==> s[i] <= m
}

/// The order in which a sample is ranked.
pub open spec fn at_most() -> spec_fn(i64, i64) -> bool {
    |a: i64, b: i64| a <= b
}

/// The sample in ascending order.
pub open spec fn ascending(s: Seq<i64>) -> Seq<i64> {
    s.sort_by(at_most())
}

/// The rank, counted from zero, at which a sample of `n > 0` values holds its
/// `pct`-th percentile: `n * pct / 100` rounded down, and the last rank where
/// that would lie beyond it.
pub open spec fn percentile_rank(n: nat, pct: nat) -> nat {
    let r = n * pct / 100;
    if r < n {
        r
    } else {
        (n - 1) as nat
    }
}

/// The `pct`-th percentile of the sample by nearest rank; zero for the empty
/// sample.
pub open spec fn percentile(s: Seq<i64>, pct: nat) -> i64 {
    if s.len() == 0 {
        0
    } else {
        ascending(s)[percentile_rank(s.len(), pct) as int]
    }
}

/// Ranking by `<=` is a total order.
pub proof fn lemma_at_most_is_total()
    ensures
        total_ordering(at_most()),
{
}

/// The ascending arrangement holds the values of the sample, each as often
/// as the sample does, in order; it is the only sequence that does.
pub proof fn lemma_ascending(s: Seq<i64>)
    ensures
        sorted_by(ascending(s), at_most()),
        ascending(s).to_multiset() == s.to_multiset(),
        ascending(s).len() == s.len(),
        forall|t: Seq<i64>|
            sorted_by(t, at_most()) && t.to_multiset() == s.to_multiset() ==> t == ascending(s),
{
    broadcast use group_to_multiset_ensures;

    lemma_at_most_is_total();
    s.lemma_sort_by_ensures(at_most());
    assert(ascending(s).to_multiset().len() == s.to_multiset().len());
    assert forall|t: Seq<i64>|
        sorted_by(t, at_most()) && t.to_multiset() == s.to_multiset() implies t == ascending(
        s,
    ) by {
        lemma_sorted_unique(t, ascending(s), at_most());
    }
}

/// A value occurs in the ascending arrangement exactly when it occurs in the
/// sample.
pub proof fn lemma_ascending_same_values(s: Seq<i64>, x: i64)
    ensures
        ascending(s).contains(x) <==> s.contains(x),
{
    lemma_ascending(s);
    to_multiset_contains(s, x);
    to_multiset_contains(ascending(s), x);
}

/// The ascending arrangement starts with the least value of the sample and
/// ends with its greatest.
pub proof fn lemma_ascending_ends(s: Seq<i64>)
    requires
        s.len() > 0,
    ensures
        is_least(ascending(s)[0], s),
        is_greatest(ascending(s)[s.len() - 1], s),
{
    let a = ascending(s);
    lemma_ascending(s);
    assert(a.contains(a[0]));
    assert(a.contains(a[a.len() - 1]));
    lemma_ascending_same_values(s, a[0]);
    lemma_ascending_same_values(s, a[a.len() - 1]);
    assert forall|i: int| 0 <= i < s.len() implies a[0] <= s[i] && s[i] <= a[a.len() - 1] by {
        assert(s.contains(s[i]));
        lemma_ascending_same_values(s, s[i]);
        let k = choose|k: int| 0 <= k < a.len() && a[k] == s[i];
        if 0 < k {
            assert(at_most()(a[0], a[k]));
        }
        if k < a.len() - 1 {
            assert(at_most()(a[k], a[a.len() - 1]));
        }
    }
}

/// The least value of a sample is the only one, and so is the greatest.
pub proof fn lemma_extremes_unique(s: Seq<i64>, a: i64, b: i64)
    ensures
        is_least(a, s) && is_least(b, s) ==> a == b,
        is_greatest(a, s) && is_greatest(b, s) ==> a == b,
{
    if is_least(a, s) && is_least(b, s) {
        let i = choose|i: int| 0 <= i < s.len() && s[i] == a;
        let j = choose|j: int| 0 <= j < s.len() && s[j] == b;
        assert(a <= s[j] && b <= s[i]);
    }
    if is_greatest(a, s) && is_greatest(b, s) {
        let i = choose|i: int| 0 <= i < s.len() && s[i] == a;
        let j = choose|j: int| 0 <= j < s.len() && s[j] == b;
        assert(s[j] <= a && s[i] <= b);
    }
}

/// A higher percentile stands at the same rank or at a later one.
pub proof fn lemma_percentile_rank_monotone(n: nat, p: nat, q: nat)
    requires
        n > 0,
        p <= q,
    ensures
        percentile_rank(n, p) <= percentile_rank(n, q) < n,
{
    assert(n * p <= n * q) by (nonlinear_arith)
        requires
            p <= q,
    ;
    vstd::arithmetic::div_mod::lemma_div_is_ordered((n * p) as int, (n * q) as int, 100);
}

/// Percentiles rise with their number and lie between the least and the
/// greatest value of the sample.
pub proof fn lemma_percentiles_ordered(s: Seq<i64>, p: nat, q: nat, lo: i64, hi: i64)
    requires
        s.len() > 0,
        p <= q,
        is_least(lo, s),
        is_greatest(hi, s),
    ensures
        lo <= percentile(s, p) <= percentile(s, q) <= hi,
{
    let a = ascending(s);
    lemma_ascending(s);
    lemma_ascending_ends(s);
    lemma_extremes_unique(s, lo, a[0]);
    lemma_extremes_unique(s, hi, a[a.len() - 1]);
    lemma_percentile_rank_monotone(s.len(), p, q);
    let i = percentile_rank(s.len(), p) as int;
    let j = percentile_rank(s.len(), q) as int;
    if 0 < i {
        assert(at_most()(a[0], a[i]));
    }
    if i < j {
        assert(at_most()(a[i], a[j]));
    }
    if j < a.len() - 1 {
        assert(at_most()(a[j], a[a.len() - 1]));
    }
}

/// The total of a sample lies between its size times its least value and its
/// size times its greatest.
pub proof fn lemma_total_bounds(s: Seq<i64>, lo: int, hi: int)
    requires
        forall|i: int| 0 <= i < s.len() ==> lo <= (#[trigger] s[i]) && s[i] <= hi,
    ensures
        s.len() * lo <= total(s) <= s.len() * hi,
    decreases s.len(),
{
    if s.len() > 0 {
        let r = s.drop_last();
        lemma_total_bounds(r, lo, hi);
        assert(s.len() * lo == r.len() * lo + lo) by (nonlinear_arith)
            requires
                s.len() == r.len() + 1,
        ;
        assert(s.len() * hi == r.len() * hi + hi) by (nonlinear_arith)
            requires
                s.len() == r.len() + 1,
        ;
    }
}

/// The mean of a sample lies between bounds that hold of all its values.
pub proof fn lemma_mean_bounds(s: Seq<i64>, lo: int, hi: int)
    requires
        s.len() > 0,
        forall|i: int| 0 <= i < s.len() ==> lo <= (#[trigger] s[i]) && s[i] <= hi,
    ensures
        lo <= mean(s) <= hi,
{
    lemma_total_bounds(s, lo, hi);
    let n = s.len() as int;
    let t = total(s);
    assert(lo <= t / n <= hi) by (nonlinear_arith)
        requires
            n > 0,
            n * lo <= t <= n * hi,
    ;
}

/// The total of a sample after one more value.
pub proof fn lemma_total_push(s: Seq<i64>, x: i64)
    ensures
        total(s.push(x)) == total(s) + x,
{
    assert(s.push(x).drop_last() =~= s);
}

/// Adds up the sample.
pub fn sum_of(v: &Vec<i64>) -> (t: i128)
    ensures
        t == total(v@),
{
    let mut t: i128 = 0;
    let mut i: usize = 0;
    while i < v.len()
        invariant
            i <= v.len(),
            t == total(v@.take(i as int)),
            i * (-0x8000_0000_0000_0000) <= t <= i * 0x7fff_ffff_ffff_ffff,
        decreases v.len() - i,
    {
        proof {
            lemma_total_push(v@.take(i as int), v@[i as int]);
            assert(v@.take(i as int).push(v@[i as int]) =~= v@.take(i + 1));
        }
        t = t + (v[i] as i128);
        i = i + 1;
    }
    assert(v@.take(v.len() as int) =~= v@);
    t
}

/// Divides a total by a count, rounding down.
pub fn floor_quotient(t: i128, n: usize) -> (q: i128)
    requires
        n > 0,
        -0x7fff_ffff_ffff_ffff_ffff_ffff_ffff_ffff <= t,
    ensures
        q == (t as int) / (n as int),
{
    let d: i128 = n as i128;
    if t >= 0 {
        t / d
    } else {
        let m: i128 = -t;
        let whole: i128 = m / d;
        let rest: i128 = m % d;
        proof {
            let ti = t as int;
            let di = d as int;
            let mi = m as int;
            let wi = whole as int;
            let ri = rest as int;
            assert(ti / di == if ri == 0 {
                -wi
            } else {
                -wi - 1
            }) by (nonlinear_arith)
                requires
                    di > 0,
                    mi == -ti,
                    mi >= 0,
                    wi == mi / di,
                    ri == mi % di,
            ;
        }
        if rest == 0 {
            -whole
        } else {
            -whole - 1
        }
    }
}

/// The mean of a sample of which the total is known, rounded down.
pub fn mean_from_total(v: &Vec<i64>, sum: i128) -> (m: i64)
    requires
        v@.len() > 0,
        sum == total(v@),
    ensures
        m == mean(v@),
{
    let n = v.len();
    proof {
        lemma_total_bounds(v@, -0x8000_0000_0000_0000, 0x7fff_ffff_ffff_ffff);
        lemma_mean_bounds(v@, -0x8000_0000_0000_0000, 0x7fff_ffff_ffff_ffff);
        assert(n * (-0x8000_0000_0000_0000) >= -0x7fff_ffff_ffff_ffff_ffff_ffff_ffff_ffff)
            by (nonlinear_arith)
            requires
                n <= 0xffff_ffff_ffff_ffff,
        ;
    }
    floor_quotient(sum, n) as i64
}

/// The mean of the sample, rounded down; zero for the empty sample.
pub fn mean_of(v: &Vec<i64>) -> (m: i64)
    ensures
        m == mean(v@),
{
    if v.len() == 0 {
        return 0;
    }
    let sum = sum_of(v);
    mean_from_total(v, sum)
}

/// The least value of the sample; zero for the empty sample.
pub fn least_of(v: &Vec<i64>) -> (m: i64)
    ensures
        v@.len() == 0 ==> m == 0,
        v@.len() > 0 ==> is_least(m, v@),
{
    if v.len() == 0 {
        return 0;
    }
    let mut m: i64 = v[0];
    let mut i: usize = 1;
    while i < v.len()
        invariant
            1 <= i <= v.len(),
            exists|k: int| 0 <= k < i && v@[k] == m,
            forall|k: int| 0 <= k < i ==> m <= v@[k],
        decreases v.len() - i,
    {
        if v[i] < m {
            m = v[i];
        }
        i = i + 1;
    }
    m
}

/// The greatest value of the sample; zero for the empty sample.
pub fn greatest_of(v: &Vec<i64>) -> (m: i64)
    ensures
        v@.len() == 0 ==> m == 0,
        v@.len() > 0 ==> is_greatest(m, v@),
{
    if v.len() == 0 {
        return 0;
    }
    let mut m: i64 = v[0];
    let mut i: usize = 1;
    while i < v.len()
        invariant
            1 <= i <= v.len(),
            exists|k: int| 0 <= k < i && v@[k] == m,
            forall|k: int| 0 <= k < i ==> v@[k] <= m,
        decreases v.len() - i,
    {
        if v[i] > m {
            m = v[i];
        }
        i = i + 1;
    }
    m
}

/// Merges two ascending samples into one.
fn merge(a: &Vec<i64>, b: &Vec<i64>) -> (out: Vec<i64>)
    requires
        sorted_by(a@, at_most()),
        sorted_by(b@, at_most()),
        a.len() + b.len() <= usize::MAX,
    ensures
        sorted_by(out@, at_most()),
        out@.to_multiset() == a@.to_multiset().add(b@.to_multiset()),
{
    broadcast use {group_to_multiset_ensures, vstd::multiset::group_multiset_axioms};

    let mut out: Vec<i64> = Vec::new();
    let mut i: usize = 0;
    let mut j: usize = 0;
    assert(a@.take(0) =~= Seq::<i64>::empty());
    assert(b@.take(0) =~= Seq::<i64>::empty());
    while i < a.len() || j < b.len()
        invariant
            i <= a.len(),
            j <= b.len(),
            out.len() == i + j,
            a.len() + b.len() <= usize::MAX,
            sorted_by(a@, at_most()),
            sorted_by(b@, at_most()),
            sorted_by(out@, at_most()),
            forall|k: int| 0 <= k < out.len() && i < a.len() ==> out@[k] <= a@[i as int],
            forall|k: int| 0 <= k < out.len() && j < b.len() ==> out@[k] <= b@[j as int],
            out@.to_multiset() == a@.take(i as int).to_multiset().add(
                b@.take(j as int).to_multiset(),
            ),
        decreases (a.len() - i) + (b.len() - j),
    {
        let ghost before = out@;
        if j >= b.len() || (i < a.len() && a[i] <= b[j]) {
            let x = a[i];
            out.push(x);
            proof {
                assert(a@.take(i + 1) =~= a@.take(i as int).push(x));
                assert(out@ =~= before.push(x));
                to_multiset_build(before, x);
                to_multiset_build(a@.take(i as int), x);
                assert(out@.to_multiset() =~= a@.take(i + 1).to_multiset().add(
                    b@.take(j as int).to_multiset(),
                ));
                assert forall|k: int| 0 <= k < out.len() && i + 1 < a.len() implies out@[k]
                    <= a@[i + 1] by {
                    assert(at_most()(a@[i as int], a@[i + 1]));
                }
            }
            i = i + 1;
        } else {
            let x = b[j];
            out.push(x);
            proof {
                assert(b@.take(j + 1) =~= b@.take(j as int).push(x));
                assert(out@ =~= before.push(x));
                to_multiset_build(before, x);
                to_multiset_build(b@.take(j as int), x);
                assert(out@.to_multiset() =~= a@.take(i as int).to_multiset().add(
                    b@.take(j + 1).to_multiset(),
                ));
                assert forall|k: int| 0 <= k < out.len() && j + 1 < b.len() implies out@[k]
                    <= b@[j + 1] by {
                    assert(at_most()(b@[j as int], b@[j + 1]));
                }
            }
            j = j + 1;
        }
    }
    assert(a@.take(a.len() as int) =~= a@);
    assert(b@.take(b.len() as int) =~= b@);
    out
}

/// Sorts the values of `v` from position `lo` up to `hi`.
fn sorted_range(v: &Vec<i64>, lo: usize, hi: usize) -> (out: Vec<i64>)
    requires
        lo <= hi <= v.len(),
    ensures
        sorted_by(out@, at_most()),
        out@.to_multiset() == v@.subrange(lo as int, hi as int).to_multiset(),
        out.len() == hi - lo,
    decreases hi - lo,
{
    broadcast use {group_to_multiset_ensures, vstd::multiset::group_multiset_axioms};

    let mut out: Vec<i64> = Vec::new();
    if hi - lo == 0 {
        assert(v@.subrange(lo as int, hi as int) =~= out@);
        out
    } else if hi - lo == 1 {
        out.push(v[lo]);
        assert(v@.subrange(lo as int, hi as int) =~= out@);
        out
    } else {
        let mid: usize = lo + (hi - lo) / 2;
        let left = sorted_range(v, lo, mid);
        let right = sorted_range(v, mid, hi);
        let merged = merge(&left, &right);
        proof {
            let l = v@.subrange(lo as int, mid as int);
            let r = v@.subrange(mid as int, hi as int);
            assert(v@.subrange(lo as int, hi as int) =~= l + r);
            lemma_multiset_commutative(l, r);
            assert(merged@.to_multiset().len() == (l + r).to_multiset().len());
        }
        merged
    }
}

/// The sample in ascending order.
pub fn sorted_copy(v: &Vec<i64>) -> (out: Vec<i64>)
    ensures
        out@ == ascending(v@),
{
    let out = sorted_range(v, 0, v.len());
    proof {
        assert(v@.subrange(0, v.len() as int) =~= v@);
        lemma_ascending(v@);
    }
    out
}

/// The rank of the `pct`-th percentile in a sample of `n` values.
pub fn rank_of(n: usize, pct: u8) -> (r: usize)
    requires
        n > 0,
        pct <= 100,
    ensures
        r == percentile_rank(n as nat, pct as nat),
        r < n,
{
    assert((n as int) * (pct as int) <= (n as int) * 100) by (nonlinear_arith)
        requires
            0 <= pct <= 100,
            n >= 0,
    ;
    let wide: u128 = (n as u128) * (pct as u128) / 100;
    let r: usize = wide as usize;
    if r < n {
        r
    } else {
        n - 1
    }
}

} // verus!
