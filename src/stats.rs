//! Summary and tail-risk statistics over a batch of outcomes.

use vstd::prelude::*;

verus! {

broadcast use vstd::seq_lib::group_to_multiset_ensures;

/// Sum of a sequence of values.
pub open spec fn sum_of(s: Seq<u64>) -> int
    decreases s.len(),
{
    if s.len() == 0 {
        0
    } else {
        sum_of(s.drop_last()) + s.last()
    }
}

pub open spec fn sorted_ascending(s: Seq<u64>) -> bool {
    forall|i: int, j: int| 0 <= i <= j < s.len() ==> s[i] <= s[j]
}

/// Rank of the value-at-risk at confidence `p` (in per mille) among `n`
/// sorted values: `(n - 1) * p` rounded to nearest, at most `n - 1`.
pub open spec fn var_rank(n: int, p: int) -> int {
    let r = ((n - 1) * p + 500) / 1000;
    if r < n - 1 { r } else { n - 1 }
}

/// First rank of the tail at confidence `p` (in per mille): `n * p` rounded up.
pub open spec fn tail_start(n: int, p: int) -> int {
    (n * p + 999) / 1000
}

/// Value-at-risk of sorted values at confidence `p` (per mille); 0 when empty.
pub open spec fn value_at_risk(s: Seq<u64>, p: int) -> int {
    if s.len() == 0 {
        0
    } else {
        s[var_rank(s.len() as int, p)] as int
    }
}

/// Expected shortfall of sorted values at confidence `p` (per mille): the
/// mean, rounded down, of the values from the tail's first rank on; the
/// largest value when that tail is empty; 0 when there are no values.
pub open spec fn expected_shortfall_of(s: Seq<u64>, p: int) -> int {
    let n = s.len() as int;
    let c = tail_start(n, p);
    if n == 0 {
        0
    } else if c >= n {
        s[n - 1] as int
    } else {
        sum_of(s.subrange(c, n)) / (n - c)
    }
}

/// Arithmetic mean rounded down; 0 when empty.
pub open spec fn mean_of(s: Seq<u64>) -> int {
    if s.len() == 0 {
        0
    } else {
        sum_of(s) / (s.len() as int)
    }
}

/// Number of values above `threshold`.
pub open spec fn count_above(s: Seq<u64>, threshold: int) -> int
    decreases s.len(),
{
    if s.len() == 0 {
        0
    } else {
        count_above(s.drop_last(), threshold) + if s.last() > threshold {
            1int
        } else {
            0int
        }
    }
}

/// Largest value; 0 when empty.
pub open spec fn max_of(s: Seq<u64>) -> int
    decreases s.len(),
{
    if s.len() == 0 {
        0
    } else {
        let m = max_of(s.drop_last());
        if s.last() > m {
            s.last() as int
        } else {
            m
        }
    }
}

/// `count` out of `total`, in parts per million, rounded down; 0 when `total` is 0.
pub open spec fn ppm_of(count: int, total: int) -> int {
    if total == 0 {
        0
    } else {
        count * 1_000_000 / total
    }
}

proof fn lemma_sum_bounds(s: Seq<u64>, lo: int)
    requires
        forall|i: int| 0 <= i < s.len() ==> s[i] >= lo,
    ensures
        sum_of(s) <= s.len() * 0xffff_ffff_ffff_ffff,
        sum_of(s) >= s.len() * lo,
        sum_of(s) >= 0,
    decreases s.len(),
{
    if s.len() > 0 {
        lemma_sum_bounds(s.drop_last(), lo);
        assert((s.len() - 1) * 0xffff_ffff_ffff_ffff + 0xffff_ffff_ffff_ffff == s.len()
            * 0xffff_ffff_ffff_ffff) by (nonlinear_arith);
        assert((s.len() - 1) * lo + lo == s.len() * lo) by (nonlinear_arith);
    }
}

/// No more values lie above a threshold than there are values.
pub proof fn lemma_count_above_bounded(s: Seq<u64>, threshold: int)
    ensures
        0 <= count_above(s, threshold) <= s.len(),
    decreases s.len(),
{
    if s.len() > 0 {
        lemma_count_above_bounded(s.drop_last(), threshold);
    }
}

/// Sum of the values, exactly.
pub fn total(values: &Vec<u64>) -> (r: u128)
    ensures
        r == sum_of(values@),
{
    let mut acc: u128 = 0;
    let mut i: usize = 0;
    while i < values.len()
        invariant
            i <= values.len(),
            acc == sum_of(values@.subrange(0, i as int)),
            i <= usize::MAX,
        decreases values.len() - i,
    {
        proof {
            assert(values@.subrange(0, i + 1).drop_last() =~= values@.subrange(0, i as int));
            lemma_sum_bounds(values@.subrange(0, i + 1), 0);
            assert((i + 1) * 0xffff_ffff_ffff_ffff <= 0xffff_ffff_ffff_ffff_ffff_ffff_ffff_ffff) by (nonlinear_arith)
                requires i < 0xffff_ffff_ffff_ffff;
        }
        acc = acc + values[i] as u128;
        i += 1;
    }
    assert(values@.subrange(0, i as int) =~= values@);
    acc
}

/// Arithmetic mean, rounded down; 0 for no values.
pub fn mean(values: &Vec<u64>) -> (r: u64)
    ensures
        r == mean_of(values@),
{
    if values.len() == 0 {
        0
    } else {
        let s = total(values);
        proof {
            lemma_sum_bounds(values@, 0);
            let n = values.len() as int;
            assert(sum_of(values@) / n <= 0xffff_ffff_ffff_ffff) by (nonlinear_arith)
                requires sum_of(values@) <= n * 0xffff_ffff_ffff_ffff, n >= 1, sum_of(values@) >= 0;
        }
        (s / (values.len() as u128)) as u64
    }
}

/// Largest value; 0 for no values.
pub fn maximum(values: &Vec<u64>) -> (r: u64)
    ensures
        r == max_of(values@),
{
    let mut m: u64 = 0;
    let mut i: usize = 0;
    while i < values.len()
        invariant
            i <= values.len(),
            m == max_of(values@.subrange(0, i as int)),
        decreases values.len() - i,
    {
        assert(values@.subrange(0, i + 1).drop_last() =~= values@.subrange(0, i as int));
        if values[i] > m {
            m = values[i];
        }
        i += 1;
    }
    assert(values@.subrange(0, i as int) =~= values@);
    m
}

/// Number of values strictly above `threshold`.
pub fn count_exceeding(values: &Vec<u64>, threshold: u64) -> (r: usize)
    ensures
        r == count_above(values@, threshold as int),
{
    let mut c: usize = 0;
    let mut i: usize = 0;
    while i < values.len()
        invariant
            i <= values.len(),
            c == count_above(values@.subrange(0, i as int), threshold as int),
            c <= i,
        decreases values.len() - i,
    {
        assert(values@.subrange(0, i + 1).drop_last() =~= values@.subrange(0, i as int));
        if values[i] > threshold {
            c = c + 1;
        }
        i += 1;
    }
    assert(values@.subrange(0, i as int) =~= values@);
    c
}

/// `count` out of `total`, in parts per million, rounded down; 0 when `total` is 0.
pub fn fraction_ppm(count: usize, total: usize) -> (r: u64)
    requires
        count <= total,
    ensures
        r == ppm_of(count as int, total as int),
        r <= 1_000_000,
{
    if total == 0 {
        0
    } else {
        proof {
            assert(count * 1_000_000 / (total as int) <= 1_000_000) by (nonlinear_arith)
                requires count <= total, total > 0, count >= 0;
        }
        ((count as u128) * 1_000_000 / (total as u128)) as u64
    }
}

/// The values in ascending order; equal values keep their relative order.
pub fn sorted_copy(values: &Vec<u64>) -> (r: Vec<u64>)
    ensures
        sorted_ascending(r@),
        r@.to_multiset() == values@.to_multiset(),
{
    let mut r: Vec<u64> = Vec::new();
    let mut i: usize = 0;
    while i < values.len()
        invariant
            i <= values.len(),
            sorted_ascending(r@),
            r@.to_multiset() == values@.subrange(0, i as int).to_multiset(),
        decreases values.len() - i,
    {
        let x = values[i];
        let mut pos: usize = 0;
        while pos < r.len() && r[pos] <= x
            invariant
                pos <= r.len(),
                forall|k: int| 0 <= k < pos ==> r@[k] <= x,
            decreases r.len() - pos,
        {
            pos += 1;
        }
        let ghost before = r@;
        r.insert(pos, x);
        proof {
            vstd::seq_lib::to_multiset_insert(before, pos as int, x);
            vstd::seq_lib::to_multiset_build(values@.subrange(0, i as int), x);
            assert(values@.subrange(0, i + 1) =~= values@.subrange(0, i as int).push(x));
            assert forall|a: int, b: int| 0 <= a <= b < r@.len() implies r@[a] <= r@[b] by {
                if pos < before.len() {
                    assert(before[pos as int] > x);
                }
            }
        }
        i += 1;
    }
    assert(values@.subrange(0, i as int) =~= values@);
    r
}

/// Value-at-risk of ascending values at confidence `p` (per mille): the
/// value at rank `(n - 1) * p` rounded to nearest; 0 for no values.
pub fn percentile(sorted: &Vec<u64>, p: u64) -> (r: u64)
    requires
        p <= 1000,
    ensures
        r == value_at_risk(sorted@, p as int),
{
    if sorted.len() == 0 {
        return 0;
    }
    let n = sorted.len() as u128;
    proof {
        assert((n - 1) * p <= (n - 1) * 1000) by (nonlinear_arith)
            requires p <= 1000, n >= 1;
    }
    let raw = ((n - 1) * (p as u128) + 500) / 1000;
    let idx = if raw < n - 1 { raw as usize } else { (n - 1) as usize };
    sorted[idx]
}

/// Expected shortfall of ascending values at confidence `p` (per mille):
/// the mean (rounded down) of the values from rank `n * p` rounded up on,
/// the largest value when that tail is empty, 0 for no values.
pub fn expected_shortfall(sorted: &Vec<u64>, p: u64) -> (r: u64)
    requires
        p <= 1000,
    ensures
        r == expected_shortfall_of(sorted@, p as int),
{
    let n = sorted.len();
    if n == 0 {
        return 0;
    }
    proof {
        assert((n as int) * p <= (n as int) * 1000) by (nonlinear_arith)
            requires p <= 1000, n >= 1;
    }
    let c128 = ((n as u128) * (p as u128) + 999) / 1000;
    if c128 >= n as u128 {
        return sorted[n - 1];
    }
    let c = c128 as usize;
    let mut acc: u128 = 0;
    let mut i: usize = c;
    while i < n
        invariant
            c <= i <= n,
            n == sorted.len(),
            acc == sum_of(sorted@.subrange(c as int, i as int)),
        decreases n - i,
    {
        proof {
            assert(sorted@.subrange(c as int, i + 1).drop_last() =~= sorted@.subrange(
                c as int,
                i as int,
            ));
            lemma_sum_bounds(sorted@.subrange(c as int, i + 1), 0);
            assert((i + 1 - c) * 0xffff_ffff_ffff_ffff <= 0xffff_ffff_ffff_ffff_ffff_ffff_ffff_ffff) by (nonlinear_arith)
                requires i < 0xffff_ffff_ffff_ffff, c >= 0;
        }
        acc = acc + sorted[i] as u128;
        i += 1;
    }
    proof {
        let t = sorted@.subrange(c as int, n as int);
        lemma_sum_bounds(t, 0);
        let m = (n - c) as int;
        assert(sum_of(t) / m <= 0xffff_ffff_ffff_ffff) by (nonlinear_arith)
            requires sum_of(t) <= m * 0xffff_ffff_ffff_ffff, m >= 1, sum_of(t) >= 0;
    }
    (acc / ((n - c) as u128)) as u64
}

/// Over ascending values, the value-at-risk does not decrease as the
/// confidence rises.
pub proof fn lemma_var_monotone(s: Seq<u64>, p: int, q: int)
    requires
        sorted_ascending(s),
        0 <= p <= q <= 1000,
    ensures
        value_at_risk(s, p) <= value_at_risk(s, q),
{
    if s.len() > 0 {
        let n = s.len() as int;
        assert((n - 1) * p <= (n - 1) * q) by (nonlinear_arith)
            requires 0 <= p <= q, n >= 1;
        vstd::arithmetic::div_mod::lemma_div_is_ordered((n - 1) * p + 500, (n - 1) * q + 500, 1000);
    }
}

/// Over ascending values, the expected shortfall at a confidence is at
/// least the value-at-risk at the same confidence.
pub proof fn lemma_shortfall_dominates_var(s: Seq<u64>, p: int)
    requires
        sorted_ascending(s),
        0 <= p <= 1000,
    ensures
        expected_shortfall_of(s, p) >= value_at_risk(s, p),
{
    let n = s.len() as int;
    if n > 0 {
        let v = var_rank(n, p);
        let c = tail_start(n, p);
        assert((n - 1) * p <= n * p) by (nonlinear_arith)
            requires p >= 0, n >= 1;
        vstd::arithmetic::div_mod::lemma_div_is_ordered((n - 1) * p + 500, n * p + 999, 1000);
        assert(v <= c);
        if c < n {
            let t = s.subrange(c, n);
            let lo = s[v] as int;
            assert forall|i: int| 0 <= i < t.len() implies t[i] >= lo by {
                assert(t[i] == s[c + i]);
            }
            lemma_sum_bounds(t, lo);
            let m = n - c;
            assert(sum_of(t) / m >= lo) by (nonlinear_arith)
                requires sum_of(t) >= m * lo, m >= 1;
        }
    }
}

/// A batch of one outcome: its mean, maximum, value-at-risk and expected
/// shortfall at every confidence are that outcome.
pub proof fn lemma_single_outcome_stats(v: u64, p: int)
    requires
        0 <= p <= 1000,
    ensures
        mean_of(seq![v]) == v,
        max_of(seq![v]) == v,
        value_at_risk(seq![v], p) == v,
        expected_shortfall_of(seq![v], p) == v,
{
    let s = seq![v];
    assert(s.drop_last() =~= Seq::<u64>::empty());
    assert(s.last() == v);
    assert(sum_of(s.drop_last()) == 0);
    assert(max_of(s.drop_last()) == 0);
    assert(sum_of(s) == v);
    assert(s.subrange(0, 1) =~= s);
}

} // verus!
