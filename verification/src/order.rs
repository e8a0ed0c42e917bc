//! Orders: strings by code point, stable sorting, and picking under a budget.
use crate::text::chars_of;
use vstd::prelude::*;

verus! {

// ---------------------------------------------------------------------------
// Strings by code point
// ---------------------------------------------------------------------------

/// `a` comes before `b` when both are compared from position `i` on.
pub open spec fn before_from(a: Seq<char>, b: Seq<char>, i: int) -> bool
    decreases b.len() - i,
{
    if i < 0 || i >= b.len() {
        false
    } else if i >= a.len() {
        true
    } else if a[i] != b[i] {
        (a[i] as int) < (b[i] as int)
    } else {
        before_from(a, b, i + 1)
    }
}

/// `a` comes before `b` in the order of strings.
pub open spec fn before(a: Seq<char>, b: Seq<char>) -> bool {
    before_from(a, b, 0)
}

proof fn lemma_before_from_trans(a: Seq<char>, b: Seq<char>, c: Seq<char>, i: int)
    requires
        0 <= i,
        before_from(a, b, i),
        before_from(b, c, i),
    ensures
        before_from(a, c, i),
    decreases c.len() - i,
{
    if i < a.len() && i < b.len() && i < c.len() && a[i] == b[i] && b[i] == c[i] {
        lemma_before_from_trans(a, b, c, i + 1);
    }
}

proof fn lemma_before_from_asym(a: Seq<char>, b: Seq<char>, i: int)
    requires
        0 <= i,
        before_from(a, b, i),
    ensures
        !before_from(b, a, i),
    decreases b.len() - i,
{
    if i < a.len() && a[i] == b[i] {
        lemma_before_from_asym(a, b, i + 1);
    }
}

proof fn lemma_before_from_total(a: Seq<char>, b: Seq<char>, i: int)
    requires
        0 <= i <= a.len(),
        i <= b.len(),
        a.take(i) == b.take(i),
        !before_from(a, b, i),
        !before_from(b, a, i),
    ensures
        a == b,
    decreases b.len() - i,
{
    if i < a.len() && i < b.len() {
        assert(a.take(i + 1) =~= a.take(i).push(a[i]));
        assert(b.take(i + 1) =~= b.take(i).push(b[i]));
        lemma_before_from_total(a, b, i + 1);
    } else {
        assert(a.take(i) =~= a);
        assert(b.take(i) =~= b);
    }
}

/// The order of strings is transitive.
pub proof fn lemma_before_trans(a: Seq<char>, b: Seq<char>, c: Seq<char>)
    requires
        before(a, b),
        before(b, c),
    ensures
        before(a, c),
{
    lemma_before_from_trans(a, b, c, 0);
}

/// Of two strings at most one comes before the other.
pub proof fn lemma_before_asym(a: Seq<char>, b: Seq<char>)
    requires
        before(a, b),
    ensures
        !before(b, a),
        a != b,
{
    lemma_before_from_asym(a, b, 0);
}

/// Of two different strings one comes before the other.
pub proof fn lemma_before_total(a: Seq<char>, b: Seq<char>)
    requires
        !before(a, b),
        !before(b, a),
    ensures
        a == b,
{
    assert(a.take(0) =~= b.take(0));
    lemma_before_from_total(a, b, 0);
}

pub(crate) fn str_before(a: &str, b: &str) -> (r: bool)
    ensures
        r == before(a@, b@),
{
    let x = chars_of(a);
    let y = chars_of(b);
    let mut i: usize = 0;
    loop
        invariant
            x@ == a@,
            y@ == b@,
            i <= x@.len(),
            i <= y@.len(),
            before(a@, b@) == before_from(a@, b@, i as int),
        decreases y@.len() - i,
    {
        if i >= y.len() {
            return false;
        }
        if i >= x.len() {
            return true;
        }
        let cx: char = x[i];
        let cy: char = y[i];
        if cx != cy {
            return cx < cy;
        }
        i = i + 1;
    }
}

// ---------------------------------------------------------------------------
// Stable sorting
// ---------------------------------------------------------------------------

/// The order `o` with `x` put behind the last member that it is not less than.
pub open spec fn place(o: Seq<int>, x: int, less: spec_fn(int, int) -> bool) -> Seq<int>
    decreases o.len(),
{
    if o.len() == 0 || !less(x, o.last()) {
        o.push(x)
    } else {
        place(o.drop_last(), x, less).push(o.last())
    }
}

/// The positions `0..n` in stable ascending order: each in turn is put behind
/// what came earlier and is not greater.
pub open spec fn stable_order(n: nat, less: spec_fn(int, int) -> bool) -> Seq<int>
    decreases n,
{
    if n == 0 {
        seq![]
    } else {
        place(stable_order((n - 1) as nat, less), n - 1, less)
    }
}

/// `less` orders the positions `0..n` as a comparison of keys does.
pub open spec fn weak_order(n: nat, less: spec_fn(int, int) -> bool) -> bool {
    &&& forall|i: int, j: int|
        0 <= i < n && 0 <= j < n && #[trigger] less(i, j) ==> !less(j, i)
    &&& forall|i: int, j: int, k: int|
        0 <= i < n && 0 <= j < n && 0 <= k < n && #[trigger] less(i, k) ==> #[trigger] less(i, j)
            || less(j, k)
}

/// `o` holds each of `0..n` once, in ascending order, equal ones by position.
pub open spec fn stably_sorted(o: Seq<int>, n: nat, less: spec_fn(int, int) -> bool) -> bool {
    &&& o.len() == n
    &&& forall|a: int| 0 <= a < o.len() ==> 0 <= #[trigger] o[a] < n
    &&& forall|a: int, b: int|
        0 <= a < b < o.len() ==> {
            &&& #[trigger] o[a] != #[trigger] o[b]
            &&& !less(o[b], o[a])
            &&& !less(o[a], o[b]) ==> o[a] < o[b]
        }
}

proof fn lemma_place(o: Seq<int>, x: int, less: spec_fn(int, int) -> bool)
    requires
        0 <= x,
        weak_order((x + 1) as nat, less),
        forall|a: int| 0 <= a < o.len() ==> 0 <= #[trigger] o[a] < x,
        forall|a: int, b: int|
            0 <= a < b < o.len() ==> #[trigger] o[a] != #[trigger] o[b] && !less(o[b], o[a]) && (
            !less(o[a], o[b]) ==> o[a] < o[b]),
    ensures
        place(o, x, less).len() == o.len() + 1,
        forall|a: int| 0 <= a < o.len() + 1 ==> 0 <= #[trigger] place(o, x, less)[a] <= x,
        forall|a: int| 0 <= a < o.len() + 1 ==> #[trigger] place(o, x, less)[a] == x || o.contains(
            place(o, x, less)[a],
        ),
        forall|a: int, b: int|
            0 <= a < b < o.len() + 1 ==> #[trigger] place(o, x, less)[a] != #[trigger] place(
                o,
                x,
                less,
            )[b] && !less(place(o, x, less)[b], place(o, x, less)[a]) && (!less(
                place(o, x, less)[a],
                place(o, x, less)[b],
            ) ==> place(o, x, less)[a] < place(o, x, less)[b]),
    decreases o.len(),
{
    let p = place(o, x, less);
    if o.len() == 0 || !less(x, o.last()) {
        assert(p =~= o.push(x));
        assert forall|a: int, b: int| 0 <= a < b < p.len() implies #[trigger] p[a] != #[trigger] p[b]
            && !less(p[b], p[a]) && (!less(p[a], p[b]) ==> p[a] < p[b]) by {
            if b == o.len() {
                assert(p[b] == x);
                assert(p[a] == o[a]);
                if less(x, o[a]) && a < o.len() - 1 {
                    assert(less(x, o.last()) || less(o.last(), o[a]));
                    assert(!less(o[o.len() - 1], o[a]));
                }
            }
        }
        assert forall|a: int| 0 <= a < p.len() implies #[trigger] p[a] == x || o.contains(p[a]) by {
            if a < o.len() {
                assert(p[a] == o[a]);
            }
        }
    } else {
        let q = o.drop_last();
        lemma_place(q, x, less);
        let pq = place(q, x, less);
        assert(p =~= pq.push(o.last()));
        let last = o.last();
        assert forall|a: int| 0 <= a < p.len() implies #[trigger] p[a] == x || o.contains(p[a]) by {
            if a < pq.len() {
                assert(p[a] == pq[a]);
                if pq[a] != x {
                    let k = choose|k: int| 0 <= k < q.len() && q[k] == pq[a];
                    assert(o[k] == pq[a]);
                }
            } else {
                assert(p[a] == o[o.len() - 1]);
            }
        }
        assert forall|a: int, b: int| 0 <= a < b < p.len() implies #[trigger] p[a] != #[trigger] p[b]
            && !less(p[b], p[a]) && (!less(p[a], p[b]) ==> p[a] < p[b]) by {
            if b < pq.len() {
                assert(p[a] == pq[a] && p[b] == pq[b]);
            } else {
                assert(p[b] == last);
                assert(p[a] == pq[a]);
                if pq[a] != x {
                    let k = choose|k: int| 0 <= k < q.len() && q[k] == pq[a];
                    assert(o[k] == pq[a] && o[o.len() - 1] == last);
                }
            }
        }
    }
}

/// Where `less` compares keys, `stable_order` is the stable ascending order.
pub proof fn law_stable_order(n: nat, less: spec_fn(int, int) -> bool)
    requires
        weak_order(n, less),
    ensures
        stably_sorted(stable_order(n, less), n, less),
    decreases n,
{
    if n > 0 {
        let m = (n - 1) as nat;
        assert(weak_order(m, less));
        law_stable_order(m, less);
        lemma_place(stable_order(m, less), n - 1, less);
    }
}

/// `stable_order` only ever holds positions below `n`, each once, whatever `less` is.
pub proof fn lemma_stable_order_range(n: nat, less: spec_fn(int, int) -> bool)
    ensures
        stable_order(n, less).len() == n,
        forall|a: int| 0 <= a < n ==> 0 <= #[trigger] stable_order(n, less)[a] < n,
    decreases n,
{
    if n > 0 {
        lemma_stable_order_range((n - 1) as nat, less);
        lemma_place_range(stable_order((n - 1) as nat, less), n - 1, less);
    }
}

proof fn lemma_place_has(o: Seq<int>, x: int, less: spec_fn(int, int) -> bool, k: int)
    requires
        k == x || o.contains(k),
    ensures
        place(o, x, less).contains(k),
    decreases o.len(),
{
    let p = place(o, x, less);
    if o.len() == 0 || !less(x, o.last()) {
        if k == x {
            assert(p[o.len() as int] == k);
        } else {
            let a = choose|a: int| 0 <= a < o.len() && o[a] == k;
            assert(p[a] == k);
        }
    } else {
        let q = o.drop_last();
        let pq = place(q, x, less);
        assert(p =~= pq.push(o.last()));
        if k != x && o.last() == k {
            assert(p[pq.len() as int] == k);
        } else {
            if k != x {
                let a = choose|a: int| 0 <= a < o.len() && o[a] == k;
                assert(q[a] == k);
            }
            lemma_place_has(q, x, less, k);
            let a = choose|a: int| 0 <= a < pq.len() && pq[a] == k;
            assert(p[a] == k);
        }
    }
}

/// `stable_order` holds every position below `n`, whatever `less` is.
pub proof fn lemma_stable_order_has(n: nat, less: spec_fn(int, int) -> bool, k: int)
    requires
        0 <= k < n,
    ensures
        stable_order(n, less).contains(k),
    decreases n,
{
    if k < n - 1 {
        lemma_stable_order_has((n - 1) as nat, less, k);
    }
    lemma_place_has(stable_order((n - 1) as nat, less), n - 1, less, k);
}

proof fn lemma_place_range(o: Seq<int>, x: int, less: spec_fn(int, int) -> bool)
    requires
        0 <= x,
        forall|a: int| 0 <= a < o.len() ==> 0 <= #[trigger] o[a] < x,
    ensures
        place(o, x, less).len() == o.len() + 1,
        forall|a: int| 0 <= a < o.len() + 1 ==> 0 <= #[trigger] place(o, x, less)[a] <= x,
    decreases o.len(),
{
    if !(o.len() == 0 || !less(x, o.last())) {
        lemma_place_range(o.drop_last(), x, less);
    }
}

/// Positions as mathematical integers.
pub open spec fn positions(v: Seq<usize>) -> Seq<int> {
    v.map_values(|x: usize| x as int)
}

/// Whether a list of positions holds `p`.
pub(crate) fn has_position(v: &Vec<usize>, p: usize) -> (r: bool)
    ensures
        r == positions(v@).contains(p as int),
{
    let mut i: usize = 0;
    while i < v.len()
        invariant
            i <= v@.len(),
            forall|k: int| 0 <= k < i ==> #[trigger] v@[k] != p,
        decreases v@.len() - i,
    {
        if v[i] == p {
            assert(positions(v@)[i as int] == p as int);
            return true;
        }
        i = i + 1;
    }
    assert forall|k: int| 0 <= k < positions(v@).len() implies #[trigger] positions(v@)[k] != p by {
        assert(v@[k] != p);
    }
    false
}

/// The positions `0..n` in the stable ascending order of `less`.
pub(crate) fn sort_positions<F: Fn(usize, usize) -> bool>(
    n: usize,
    less: F,
    Ghost(spec_less): Ghost<spec_fn(int, int) -> bool>,
) -> (r: Vec<usize>)
    requires
        forall|i: usize, j: usize| i < n && j < n ==> call_requires(less, (i, j)),
        forall|i: usize, j: usize, b: bool|
            i < n && j < n && call_ensures(less, (i, j), b) ==> b == spec_less(i as int, j as int),
    ensures
        positions(r@) == stable_order(n as nat, spec_less),
        r@.len() == n,
        forall|a: int| 0 <= a < n ==> #[trigger] r@[a] < n,
{
    let mut out: Vec<usize> = Vec::new();
    let mut x: usize = 0;
    assert(positions(out@) =~= seq![]);
    while x < n
        invariant
            x <= n,
            out@.len() == x,
            positions(out@) == stable_order(x as nat, spec_less),
            forall|a: int| 0 <= a < x ==> #[trigger] out@[a] < x,
            forall|i: usize, j: usize| i < n && j < n ==> call_requires(less, (i, j)),
            forall|i: usize, j: usize, b: bool|
                i < n && j < n && call_ensures(less, (i, j), b) ==> b == spec_less(
                    i as int,
                    j as int,
                ),
        decreases n - x,
    {
        let ghost o = positions(out@);
        let mut p: usize = out.len();
        assert(o.take(p as int) =~= o);
        assert(place(o, x as int, spec_less) =~= place(o.take(p as int), x as int, spec_less)
            + o.skip(p as int));
        while p > 0 && less(x, out[p - 1])
            invariant
                p <= out@.len(),
                x < n,
                out@.len() == x,
                o == positions(out@),
                forall|a: int| 0 <= a < x ==> #[trigger] out@[a] < x,
                place(o, x as int, spec_less) == place(o.take(p as int), x as int, spec_less)
                    + o.skip(p as int),
                forall|i: usize, j: usize| i < n && j < n ==> call_requires(less, (i, j)),
                forall|i: usize, j: usize, b: bool|
                    i < n && j < n && call_ensures(less, (i, j), b) ==> b == spec_less(
                        i as int,
                        j as int,
                    ),
            decreases p,
        {
            proof {
                let t = o.take(p as int);
                assert(t.last() == out@[p - 1] as int);
                assert(t.drop_last() =~= o.take(p - 1));
                assert(o.skip(p - 1) =~= seq![t.last()] + o.skip(p as int));
                assert(place(t.drop_last(), x as int, spec_less).push(t.last()) + o.skip(p as int)
                    =~= place(o.take(p - 1), x as int, spec_less) + o.skip(p - 1));
            }
            p = p - 1;
        }
        proof {
            let t = o.take(p as int);
            if p > 0 {
                assert(t.last() == out@[p - 1] as int);
                assert(!spec_less(x as int, t.last()));
            }
            assert(place(t, x as int, spec_less) == t.push(x as int));
        }
        let ghost prev = out@;
        out.insert(p, x);
        proof {
            assert(out@ =~= prev.insert(p as int, x));
            assert(positions(out@) =~= o.take(p as int).push(x as int) + o.skip(p as int));
            assert forall|a: int| 0 <= a < x + 1 implies #[trigger] out@[a] < x + 1 by {
                if a < p {
                    assert(out@[a] == prev[a]);
                } else if a > p {
                    assert(out@[a] == prev[a - 1]);
                }
            }
        }
        x = x + 1;
    }
    out
}

// ---------------------------------------------------------------------------
// Picking under a budget
// ---------------------------------------------------------------------------

/// The positions from `i` on that are picked when each is taken in turn if its
/// cost still fits: what does not fit is passed over, and smaller ones that
/// follow are still tried.
pub open spec fn fit(costs: Seq<nat>, budget: nat, used: nat, i: int) -> Seq<int>
    decreases costs.len() - i,
{
    if i < 0 || i >= costs.len() {
        seq![]
    } else if used + costs[i] > budget {
        fit(costs, budget, used, i + 1)
    } else {
        seq![i] + fit(costs, budget, used + costs[i], i + 1)
    }
}

/// The sum of the costs at the positions `picked`.
pub open spec fn cost_of(costs: Seq<nat>, picked: Seq<int>) -> nat
    decreases picked.len(),
{
    if picked.len() == 0 {
        0
    } else {
        costs[picked[0]] + cost_of(costs, picked.skip(1))
    }
}

/// What is picked never costs more than the budget leaves.
pub proof fn law_fit_keeps_budget(costs: Seq<nat>, budget: nat, used: nat, i: int)
    requires
        used <= budget,
        0 <= i,
    ensures
        used + cost_of(costs, fit(costs, budget, used, i)) <= budget,
        forall|k: int|
            0 <= k < fit(costs, budget, used, i).len() ==> i <= #[trigger] fit(
                costs,
                budget,
                used,
                i,
            )[k] < costs.len(),
        forall|k: int, m: int|
            0 <= k < m < fit(costs, budget, used, i).len() ==> #[trigger] fit(
                costs,
                budget,
                used,
                i,
            )[k] < #[trigger] fit(costs, budget, used, i)[m],
    decreases costs.len() - i,
{
    if i < costs.len() {
        if used + costs[i] > budget {
            law_fit_keeps_budget(costs, budget, used, i + 1);
        } else {
            law_fit_keeps_budget(costs, budget, used + costs[i], i + 1);
            let rest = fit(costs, budget, used + costs[i], i + 1);
            assert((seq![i] + rest).skip(1) =~= rest);
        }
    }
}

/// The sum of some costs.
pub open spec fn total(costs: Seq<nat>) -> nat
    decreases costs.len(),
{
    if costs.len() == 0 {
        0
    } else {
        costs[0] + total(costs.skip(1))
    }
}

/// The sum of the costs that were picked is the cost of the pick.
pub proof fn lemma_total_is_cost(costs: Seq<nat>, picked: Seq<int>)
    ensures
        total(picked.map_values(|k: int| costs[k])) == cost_of(costs, picked),
    decreases picked.len(),
{
    if picked.len() > 0 {
        lemma_total_is_cost(costs, picked.skip(1));
        assert(picked.map_values(|k: int| costs[k]).skip(1) =~= picked.skip(1).map_values(
            |k: int| costs[k],
        ));
    }
}

/// Whether `cost` more fits under `budget` once `used` is spent.
pub(crate) fn fits(used: usize, cost: usize, budget: usize) -> (r: bool)
    ensures
        r == (used + cost <= budget),
{
    used <= budget && cost <= budget - used
}

/// Where all costs together fit, all are picked.
pub proof fn lemma_all_fit(costs: Seq<nat>, budget: nat, used: nat, i: int)
    requires
        0 <= i <= costs.len(),
        used + total(costs.skip(i)) <= budget,
    ensures
        forall|k: int| i <= k < costs.len() ==> #[trigger] fit(costs, budget, used, i).contains(k),
    decreases costs.len() - i,
{
    if i < costs.len() {
        assert(costs.skip(i)[0] == costs[i]);
        assert(costs.skip(i).skip(1) =~= costs.skip(i + 1));
        lemma_all_fit(costs, budget, used + costs[i], i + 1);
        let rest = fit(costs, budget, used + costs[i], i + 1);
        let all = fit(costs, budget, used, i);
        assert(all == seq![i] + rest);
        assert forall|k: int| i <= k < costs.len() implies #[trigger] all.contains(k) by {
            if k == i {
                assert(all[0] == k);
            } else {
                assert(rest.contains(k));
                let a = choose|a: int| 0 <= a < rest.len() && rest[a] == k;
                assert(all[a + 1] == k);
            }
        }
    }
}

proof fn lemma_fit_is_greedy(costs: Seq<nat>, budget: nat, used: nat, i: int, k: int, a: int)
    requires
        0 <= i <= k < costs.len(),
        0 <= a <= fit(costs, budget, used, i).len(),
        forall|b: int|
            0 <= b < fit(costs, budget, used, i).len() ==> (b < a <==> #[trigger] fit(
                costs,
                budget,
                used,
                i,
            )[b] < k),
    ensures
        fit(costs, budget, used, i).contains(k) <==> used + cost_of(
            costs,
            fit(costs, budget, used, i).take(a),
        ) + costs[k] <= budget,
    decreases costs.len() - i,
{
    let all = fit(costs, budget, used, i);
    if used + costs[i] > budget {
        assert(all == fit(costs, budget, used, i + 1));
        if i < k {
            lemma_fit_is_greedy(costs, budget, used, i + 1, k, a);
        } else {
            lemma_fit_from(costs, budget, used, i + 1);
            if a > 0 {
                assert(all[0] < k);
            }
            assert(all.take(0) =~= seq![]);
        }
    } else {
        let rest = fit(costs, budget, used + costs[i], i + 1);
        assert(all == seq![i] + rest);
        assert(all[0] == i);
        if i < k {
            assert(a > 0);
            assert forall|b: int| 0 <= b < rest.len() implies (b < a - 1 <==> #[trigger] rest[b]
                < k) by {
                assert(all[b + 1] == rest[b]);
            }
            lemma_fit_is_greedy(costs, budget, used + costs[i], i + 1, k, a - 1);
            assert(all.take(a).skip(1) =~= rest.take(a - 1));
            if rest.contains(k) {
                let c = choose|c: int| 0 <= c < rest.len() && rest[c] == k;
                assert(all[c + 1] == k);
            }
        } else {
            assert(a == 0);
            assert(all.take(0) =~= seq![]);
        }
    }
}

proof fn lemma_fit_from(costs: Seq<nat>, budget: nat, used: nat, i: int)
    requires
        0 <= i,
    ensures
        forall|k: int|
            0 <= k < fit(costs, budget, used, i).len() ==> i <= #[trigger] fit(
                costs,
                budget,
                used,
                i,
            )[k] < costs.len(),
    decreases costs.len() - i,
{
    if i < costs.len() {
        lemma_fit_from(costs, budget, used, i + 1);
        lemma_fit_from(costs, budget, used + costs[i], i + 1);
        let all = fit(costs, budget, used, i);
        let rest = fit(costs, budget, used + costs[i], i + 1);
        if used + costs[i] <= budget {
            assert(all == seq![i] + rest);
            assert forall|k: int| 0 <= k < all.len() implies i <= #[trigger] all[k] < costs.len() by {
                if k > 0 {
                    assert(all[k] == rest[k - 1]);
                }
            }
        } else {
            assert(all == fit(costs, budget, used, i + 1));
        }
    }
}

/// What is picked is picked greedily: a position is picked exactly where its cost
/// still fits beside that of the positions picked before it, the first `a` picks.
pub proof fn law_fit_is_greedy(costs: Seq<nat>, budget: nat, k: int, a: int)
    requires
        0 <= k < costs.len(),
        0 <= a <= fit(costs, budget, 0, 0).len(),
        forall|b: int|
            0 <= b < fit(costs, budget, 0, 0).len() ==> (b < a <==> #[trigger] fit(
                costs,
                budget,
                0,
                0,
            )[b] < k),
    ensures
        fit(costs, budget, 0, 0).contains(k) <==> cost_of(
            costs,
            fit(costs, budget, 0, 0).take(a),
        ) + costs[k] <= budget,
{
    lemma_fit_is_greedy(costs, budget, 0, 0, k, a);
}

/// Whether two strings are the same up to `k`, where `a` ends or has the smaller
/// character.
pub open spec fn differs_at(a: Seq<char>, b: Seq<char>, k: int) -> bool {
    &&& 0 <= k < b.len()
    &&& k <= a.len()
    &&& a.take(k) == b.take(k)
    &&& k == a.len() || (a[k] as int) < (b[k] as int)
}

proof fn lemma_before_from_differs(a: Seq<char>, b: Seq<char>, i: int)
    requires
        0 <= i <= b.len(),
        i <= a.len(),
        a.take(i) == b.take(i),
    ensures
        before_from(a, b, i) <==> exists|k: int| #[trigger] differs_at(a, b, k) && i <= k,
    decreases b.len() - i,
{
    if i < b.len() && i < a.len() && a[i] == b[i] {
        assert(a.take(i + 1) =~= a.take(i).push(a[i]));
        assert(b.take(i + 1) =~= b.take(i).push(b[i]));
        lemma_before_from_differs(a, b, i + 1);
    } else {
        if i < b.len() && before_from(a, b, i) {
            assert(differs_at(a, b, i));
        }
        assert forall|k: int| #[trigger] differs_at(a, b, k) && i <= k implies k == i by {
            if k > i {
                assert(a.take(k)[i] == a[i]);
                assert(b.take(k)[i] == b[i]);
            }
        }
    }
}

/// One string comes before another where, behind what they share at their start,
/// it ends or has the smaller character.
pub proof fn law_the_first_difference_orders(a: Seq<char>, b: Seq<char>)
    ensures
        before(a, b) <==> exists|k: int| #[trigger] differs_at(a, b, k),
{
    assert(a.take(0) =~= b.take(0));
    lemma_before_from_differs(a, b, 0);
}

/// Costs of at most `most` each sum to at most that many times `most`.
pub proof fn lemma_total_bound(costs: Seq<nat>, most: nat)
    requires
        forall|k: int| 0 <= k < costs.len() ==> #[trigger] costs[k] <= most,
    ensures
        total(costs) <= costs.len() * most,
    decreases costs.len(),
{
    if costs.len() > 0 {
        let rest = costs.skip(1);
        assert forall|k: int| 0 <= k < rest.len() implies #[trigger] rest[k] <= most by {
            assert(rest[k] == costs[k + 1]);
        }
        lemma_total_bound(rest, most);
        assert(costs.len() * most == rest.len() * most + most) by (nonlinear_arith)
            requires
                costs.len() == rest.len() + 1,
        ;
    }
}

/// Positions in ascending order.
pub open spec fn ascends(at: Seq<int>) -> bool {
    forall|a: int, b: int| 0 <= a < b < at.len() ==> #[trigger] at[a] < #[trigger] at[b]
}

/// What is put before ascending positions behind it still ascends.
pub proof fn lemma_ascends_front(i: int, rest: Seq<int>)
    requires
        ascends(rest),
        forall|a: int| 0 <= a < rest.len() ==> i < #[trigger] rest[a],
    ensures
        ascends(seq![i] + rest),
{
    let at = seq![i] + rest;
    assert forall|a: int, b: int| 0 <= a < b < at.len() implies #[trigger] at[a] < #[trigger] at[b] by {
        assert(at[b] == rest[b - 1]);
        if a > 0 {
            assert(at[a] == rest[a - 1]);
        }
    }
}

/// The first of some costs sum to no more than all of them.
pub proof fn lemma_total_prefix(costs: Seq<nat>, n: int)
    requires
        0 <= n <= costs.len(),
    ensures
        total(costs.take(n)) <= total(costs),
    decreases n,
{
    if n > 0 {
        assert(costs.take(n).skip(1) =~= costs.skip(1).take(n - 1));
        lemma_total_prefix(costs.skip(1), n - 1);
    }
}

/// Where all costs together fit, the pick is every position in turn.
pub proof fn lemma_fit_all(costs: Seq<nat>, budget: nat, used: nat, i: int)
    requires
        0 <= i <= costs.len(),
        used + total(costs.skip(i)) <= budget,
    ensures
        fit(costs, budget, used, i) == Seq::new((costs.len() - i) as nat, |k: int| i + k),
    decreases costs.len() - i,
{
    if i < costs.len() {
        assert(costs.skip(i)[0] == costs[i]);
        assert(costs.skip(i).skip(1) =~= costs.skip(i + 1));
        lemma_fit_all(costs, budget, used + costs[i], i + 1);
    }
    assert(fit(costs, budget, used, i) =~= Seq::new((costs.len() - i) as nat, |k: int| i + k));
}

} // verus!
