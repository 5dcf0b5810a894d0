//! Ranking of liquidatable positions, most undercollateralized first.

use vstd::prelude::*;
use crate::position::{Position, liquidatable, mul_wide};

verus! {

/// Position `a` is liquidated before position `b`: its collateral ratio is
/// lower (compared exactly, as `collateral / debt` at a common price), or the
/// ratios are equal and `a` has the lower index.
pub open spec fn ranks_before(ps: Seq<Position>, a: int, b: int) -> bool {
    let x = ps[a].collateral * ps[b].debt;
    let y = ps[b].collateral * ps[a].debt;
    x < y || (x == y && a < b)
}

/// `r` holds, in ranking order, the first `cap` liquidatable positions of
/// `ps` at `price` (all of them when there are fewer).
pub open spec fn ranked_candidates(ps: Seq<Position>, price: int, cap: int, r: Seq<usize>) -> bool {
    &&& r.len() <= cap
    &&& forall|j: int| #![auto] 0 <= j < r.len() ==> r[j] < ps.len() && liquidatable(ps[r[j] as int], price)
    &&& forall|j: int, l: int| #![auto] 0 <= j < l < r.len() ==> ranks_before(ps, r[j] as int, r[l] as int)
    &&& forall|i: int| #![auto] 0 <= i < ps.len() && liquidatable(ps[i], price) && !r.contains(i as usize)
        ==> r.len() == cap && forall|j: int| #![auto] 0 <= j < r.len() ==> ranks_before(ps, r[j] as int, i)
}

proof fn lemma_ranks_before_transitive(ps: Seq<Position>, a: int, b: int, c: int)
    requires
        0 <= a < ps.len(),
        0 <= b < ps.len(),
        0 <= c < ps.len(),
        ps[a].debt > 0,
        ps[b].debt > 0,
        ps[c].debt > 0,
        ranks_before(ps, a, b),
        ranks_before(ps, b, c),
    ensures
        ranks_before(ps, a, c),
{
    let ca = ps[a].collateral as int;
    let cb = ps[b].collateral as int;
    let cc = ps[c].collateral as int;
    let da = ps[a].debt as int;
    let db = ps[b].debt as int;
    let dc = ps[c].debt as int;
    assert(ca * db * dc <= cb * da * dc) by (nonlinear_arith)
        requires ca * db <= cb * da, dc > 0;
    assert(cb * dc * da <= cc * db * da) by (nonlinear_arith)
        requires cb * dc <= cc * db, da > 0;
    assert(ca * db * dc == db * (ca * dc)) by (nonlinear_arith);
    assert(cc * db * da == db * (cc * da)) by (nonlinear_arith);
    assert(cb * da * dc == cb * dc * da) by (nonlinear_arith);
    if ca * db < cb * da || cb * dc < cc * db {
        if ca * db < cb * da {
            assert(ca * db * dc < cb * da * dc) by (nonlinear_arith)
                requires ca * db < cb * da, dc > 0;
        } else {
            assert(cb * dc * da < cc * db * da) by (nonlinear_arith)
                requires cb * dc < cc * db, da > 0;
        }
        assert(db * (ca * dc) < db * (cc * da));
        assert(ca * dc < cc * da) by (nonlinear_arith)
            requires db * (ca * dc) < db * (cc * da), db > 0;
    } else {
        assert(db * (ca * dc) == db * (cc * da));
        assert(ca * dc == cc * da) by (nonlinear_arith)
            requires db * (ca * dc) == db * (cc * da), db > 0;
    }
}

proof fn lemma_ranks_before_asymmetric(ps: Seq<Position>, a: int, b: int)
    requires
        ranks_before(ps, a, b),
    ensures
        !ranks_before(ps, b, a),
{
}

/// The ranking is unique: two candidate lists that both rank the same
/// positions at the same price under the same cap are equal.
pub proof fn lemma_ranking_unique(ps: Seq<Position>, price: int, cap: int, r1: Seq<usize>, r2: Seq<usize>)
    requires
        ranked_candidates(ps, price, cap, r1),
        ranked_candidates(ps, price, cap, r2),
    ensures
        r1 == r2,
{
    assert forall|j: int| 0 <= j < r1.len() && j < r2.len() implies r1[j] == r2[j] by {
        lemma_ranking_prefix(ps, price, cap, r1, r2, j);
    }
    if r1.len() < r2.len() {
        lemma_ranking_length(ps, price, cap, r1, r2);
    } else if r2.len() < r1.len() {
        lemma_ranking_length(ps, price, cap, r2, r1);
    }
    assert(r1 =~= r2);
}

proof fn lemma_ranking_prefix(
    ps: Seq<Position>,
    price: int,
    cap: int,
    r1: Seq<usize>,
    r2: Seq<usize>,
    j: int,
)
    requires
        ranked_candidates(ps, price, cap, r1),
        ranked_candidates(ps, price, cap, r2),
        0 <= j < r1.len(),
        j < r2.len(),
    ensures
        r1[j] == r2[j],
    decreases j,
{
    if j > 0 {
        lemma_ranking_prefix(ps, price, cap, r1, r2, j - 1);
    }
    assert forall|l: int| 0 <= l < j implies r1[l] == r2[l] by {
        if l < j {
            lemma_ranking_prefix(ps, price, cap, r1, r2, l);
        }
    }
    let a = r1[j] as int;
    let b = r2[j] as int;
    if a != b {
        lemma_before_other(ps, price, cap, r1, r2, j);
        lemma_before_other(ps, price, cap, r2, r1, j);
        lemma_ranks_before_asymmetric(ps, a, b);
    }
}

/// Where two rankings agree before rank `j`, the first one's entry at `j`
/// ranks before the second one's, unless they are equal.
proof fn lemma_before_other(
    ps: Seq<Position>,
    price: int,
    cap: int,
    r1: Seq<usize>,
    r2: Seq<usize>,
    j: int,
)
    requires
        ranked_candidates(ps, price, cap, r1),
        ranked_candidates(ps, price, cap, r2),
        0 <= j < r1.len(),
        j < r2.len(),
        forall|l: int| 0 <= l < j ==> r1[l] == r2[l],
        r1[j] != r2[j],
    ensures
        ranks_before(ps, r1[j] as int, r2[j] as int),
{
    let b = r2[j];
    if r1.contains(b) {
        let l = choose|l: int| 0 <= l < r1.len() && #[trigger] r1[l] == b;
        if l < j {
            assert(r2[l] == b);
            assert(ranks_before(ps, r2[l] as int, r2[j] as int));
        } else {
            assert(ranks_before(ps, r1[j] as int, r1[l] as int));
        }
    } else {
        assert(r2[j] < ps.len() && liquidatable(ps[b as int], price));
        assert(ranks_before(ps, r1[j] as int, b as int));
    }
}

proof fn lemma_ranking_length(ps: Seq<Position>, price: int, cap: int, r1: Seq<usize>, r2: Seq<usize>)
    requires
        ranked_candidates(ps, price, cap, r1),
        ranked_candidates(ps, price, cap, r2),
        forall|j: int| 0 <= j < r1.len() && j < r2.len() ==> r1[j] == r2[j],
    ensures
        r2.len() <= r1.len(),
{
    if r1.len() < r2.len() {
        let n = r1.len() as int;
        let b = r2[n];
        assert(b < ps.len() && liquidatable(ps[b as int], price));
        if r1.contains(b) {
            let l = choose|l: int| 0 <= l < r1.len() && #[trigger] r1[l] == b;
            assert(r2[l] == b);
            assert(ranks_before(ps, r2[l] as int, r2[n] as int));
        }
        assert(r1.len() == cap);
    }
}

/// Up to `cap` liquidatable positions at `price`, most undercollateralized
/// first, equal ratios in index order.
pub fn rank_liquidatable(ps: &Vec<Position>, price: u64, cap: usize) -> (r: Vec<usize>)
    ensures
        ranked_candidates(ps@, price as int, cap as int, r@),
{
    let n = ps.len();
    let mut chosen: Vec<bool> = Vec::new();
    let mut k: usize = 0;
    while k < n
        invariant
            k <= n,
            n == ps.len(),
            chosen.len() == k,
            forall|i: int| 0 <= i < k ==> !chosen@[i],
        decreases n - k,
    {
        chosen.push(false);
        k += 1;
    }
    let mut r: Vec<usize> = Vec::new();
    let mut exhausted = false;
    while r.len() < cap && !exhausted
        invariant
            n == ps.len(),
            exhausted ==> forall|m: int| #![auto] 0 <= m < n ==> !(liquidatable(ps@[m], price as int)
                && !chosen@[m]),
            chosen.len() == n,
            r.len() <= cap,
            forall|i: int| #![auto] 0 <= i < n ==> (chosen@[i] <==> r@.contains(i as usize)),
            forall|j: int| #![auto] 0 <= j < r.len() ==> r@[j] < n && liquidatable(ps@[r@[j] as int], price as int),
            forall|j: int, l: int| #![auto] 0 <= j < l < r.len() ==> ranks_before(ps@, r@[j] as int, r@[l] as int),
            forall|i: int| #![auto] 0 <= i < n && liquidatable(ps@[i], price as int) && !chosen@[i] ==>
                forall|j: int| #![auto] 0 <= j < r.len() ==> ranks_before(ps@, r@[j] as int, i),
        decreases cap - r.len(), if exhausted { 0int } else { 1int },
    {
        let mut found = false;
        let mut b: usize = 0;
        let mut i: usize = 0;
        while i < n
            invariant
                i <= n,
                n == ps.len(),
                chosen.len() == n,
                found ==> b < i && liquidatable(ps@[b as int], price as int) && !chosen@[b as int],
                found ==> forall|m: int| #![auto] 0 <= m < i && m != b && liquidatable(ps@[m], price as int)
                    && !chosen@[m] ==> ranks_before(ps@, b as int, m),
                !found ==> forall|m: int| #![auto] 0 <= m < i ==> !(liquidatable(ps@[m], price as int)
                    && !chosen@[m]),
            decreases n - i,
        {
            if ps[i].is_liquidatable(price) && !chosen[i] {
                if !found {
                    b = i;
                    found = true;
                } else {
                    let x = mul_wide(ps[i].collateral, ps[b].debt);
                    let y = mul_wide(ps[b].collateral, ps[i].debt);
                    if x < y {
                        proof {
                            assert forall|m: int| #![auto] 0 <= m < i + 1 && m != i && liquidatable(
                                ps@[m],
                                price as int,
                            ) && !chosen@[m] implies ranks_before(ps@, i as int, m) by {
                                if m != b {
                                    lemma_ranks_before_transitive(ps@, i as int, b as int, m);
                                }
                            }
                        }
                        b = i;
                    }
                }
            }
            i += 1;
        }
        if !found {
            exhausted = true;
            continue;
        }
        let ghost old_r = r@;
        r.push(b);
        chosen.set(b, true);
        proof {
            assert forall|m: int| #![auto] 0 <= m < n implies (chosen@[m] <==> r@.contains(m as usize)) by {
                if m != b {
                    if old_r.contains(m as usize) {
                        let j = choose|j: int| 0 <= j < old_r.len() && #[trigger] old_r[j] == m as usize;
                        assert(r@[j] == m as usize);
                    }
                    if r@.contains(m as usize) {
                        let j = choose|j: int| 0 <= j < r@.len() && #[trigger] r@[j] == m as usize;
                        assert(old_r[j] == m as usize);
                    }
                } else {
                    assert(r@[r@.len() - 1] == b);
                }
            }
        }
    }
    proof {
        assert forall|i: int| #![auto] 0 <= i < ps.len() && liquidatable(ps@[i], price as int) && !r@.contains(
            i as usize,
        ) implies r.len() == cap && forall|j: int| #![auto] 0 <= j < r.len() ==> ranks_before(ps@, r@[j] as int, i) by {
            assert(!chosen@[i]);
        }
    }
    r
}

} // verus!
