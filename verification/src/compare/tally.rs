use vstd::prelude::*;
use vstd::relations::injective_on;
use vstd::set_lib::lemma_map_size;

verus! {

/// `f(0) + f(1) + ... + f(n - 1)`, sequences joined in order.
pub open spec fn concat_upto<T>(f: spec_fn(int) -> Seq<T>, n: int) -> Seq<T>
    decreases n,
{
    if n <= 0 {
        Seq::empty()
    } else {
        concat_upto(f, n - 1) + f(n - 1)
    }
}

/// How many of `0 .. n` satisfy `p`.
pub open spec fn count_upto(p: spec_fn(int) -> bool, n: int) -> nat
    decreases n,
{
    if n <= 0 {
        0
    } else {
        count_upto(p, n - 1) + if p(n - 1) {
            1nat
        } else {
            0nat
        }
    }
}

/// The positions below `n` that satisfy `p`.
pub open spec fn positions_upto(p: spec_fn(int) -> bool, n: int) -> Set<int> {
    Set::new(|k: int| 0 <= k < n && p(k))
}

/// A count is the size of the set of positions counted.
pub proof fn lemma_count_is_size(p: spec_fn(int) -> bool, n: int)
    requires
        n >= 0,
    ensures
        positions_upto(p, n).finite(),
        count_upto(p, n) == positions_upto(p, n).len(),
    decreases n,
{
    if n == 0 {
        assert(positions_upto(p, 0) =~= Set::<int>::empty());
    } else {
        lemma_count_is_size(p, n - 1);
        if p(n - 1) {
            assert(positions_upto(p, n) =~= positions_upto(p, n - 1).insert(n - 1));
        } else {
            assert(positions_upto(p, n) =~= positions_upto(p, n - 1));
        }
    }
}

/// Counts agree for predicates that agree below `n`.
pub proof fn lemma_count_ext(p: spec_fn(int) -> bool, q: spec_fn(int) -> bool, n: int)
    requires
        forall|k: int| 0 <= k < n ==> #[trigger] p(k) == q(k),
    ensures
        count_upto(p, n) == count_upto(q, n),
    decreases n,
{
    if n > 0 {
        lemma_count_ext(p, q, n - 1);
        assert(p(n - 1) == q(n - 1));
    }
}

/// Counting positions in another order gives the same count: when `order`
/// and `back` are inverse arrangements of `0 .. n`, as many `j` satisfy
/// `p(order[j])` as `k` satisfy `p(k)`.
pub proof fn lemma_count_reordered(p: spec_fn(int) -> bool, n: int, order: Seq<int>, back: Seq<int>)
    requires
        n >= 0,
        order.len() == n,
        back.len() == n,
        forall|j: int| 0 <= j < n ==> 0 <= #[trigger] order[j] < n && back[order[j]] == j,
        forall|k: int| 0 <= k < n ==> 0 <= #[trigger] back[k] < n && order[back[k]] == k,
    ensures
        count_upto(|j: int| p(order[j]), n) == count_upto(p, n),
{
    let q = |j: int| p(order[j]);
    lemma_count_is_size(p, n);
    lemma_count_is_size(q, n);
    let sq = positions_upto(q, n);
    let sp = positions_upto(p, n);
    let f = |j: int| order[j];
    assert forall|x1: int, x2: int| sq.contains(x1) && sq.contains(x2) && f(x1) == f(x2) implies x1 == x2 by {
        assert(back[order[x1]] == x1);
        assert(back[order[x2]] == x2);
    }
    assert(injective_on(f, sq));
    assert forall|k: int| sq.map(f).contains(k) <==> sp.contains(k) by {
        if sp.contains(k) {
            let j = back[k];
            assert(sq.contains(j));
            assert(f(j) == k);
        }
    }
    assert(sq.map(f) =~= sp);
    lemma_map_size(sq, sp, f);
}

/// Pieces of length one or zero make a concatenation as long as the number of
/// pieces of length one.
pub proof fn lemma_concat_len_count<T>(f: spec_fn(int) -> Seq<T>, p: spec_fn(int) -> bool, n: int)
    requires
        forall|k: int| 0 <= k < n ==> #[trigger] f(k).len() == (if p(k) { 1int } else { 0int }),
    ensures
        concat_upto(f, n).len() == count_upto(p, n),
    decreases n,
{
    if n > 0 {
        lemma_concat_len_count(f, p, n - 1);
        assert(f(n - 1).len() == (if p(n - 1) { 1int } else { 0int }));
    }
}

/// The sum of `f(k)` for `k` in `0 .. n`.
pub open spec fn sum_upto(f: spec_fn(int) -> nat, n: int) -> nat
    decreases n,
{
    if n <= 0 {
        0
    } else {
        sum_upto(f, n - 1) + f(n - 1)
    }
}

/// Sums of terms that agree are equal.
pub proof fn lemma_sum_ext(f: spec_fn(int) -> nat, g: spec_fn(int) -> nat, n: int)
    requires
        forall|k: int| 0 <= k < n ==> #[trigger] f(k) == g(k),
    ensures
        sum_upto(f, n) == sum_upto(g, n),
    decreases n,
{
    if n > 0 {
        lemma_sum_ext(f, g, n - 1);
        assert(f(n - 1) == g(n - 1));
    }
}

/// The terms of `f` but the one at `k`, closed up.
pub open spec fn spec_skip(f: spec_fn(int) -> nat, k: int) -> spec_fn(int) -> nat {
    |x: int| f(if x < k { x } else { x + 1 })
}

/// A sum is the term at `k` plus the sum of the others.
proof fn lemma_sum_remove(f: spec_fn(int) -> nat, k: int, n: int)
    requires
        0 <= k < n,
    ensures
        sum_upto(f, n) == sum_upto(spec_skip(f, k), n - 1) + f(k),
    decreases n,
{
    let g = spec_skip(f, k);
    if k == n - 1 {
        assert forall|x: int| 0 <= x < n - 1 implies #[trigger] g(x) == f(x) by {}
        lemma_sum_ext(g, f, n - 1);
    } else {
        lemma_sum_remove(f, k, n - 1);
        assert(g(n - 2) == f(n - 1));
    }
}

/// A sum does not depend on the order of its terms: taking them in the order
/// `order` (undone by `back`) gives the same sum.
pub proof fn lemma_sum_reordered(f: spec_fn(int) -> nat, n: int, order: Seq<int>, back: Seq<int>)
    requires
        n >= 0,
        order.len() == n,
        back.len() == n,
        forall|j: int| 0 <= j < n ==> 0 <= #[trigger] order[j] < n && back[order[j]] == j,
        forall|k: int| 0 <= k < n ==> 0 <= #[trigger] back[k] < n && order[back[k]] == k,
    ensures
        sum_upto(|j: int| f(order[j]), n) == sum_upto(f, n),
    decreases n,
{
    if n > 0 {
        let k = order[n - 1];
        let g = spec_skip(f, k);
        let order2 = Seq::new((n - 1) as nat, |j: int| if order[j] < k { order[j] } else { order[j] - 1 });
        let back2 = Seq::new((n - 1) as nat, |x: int| back[if x < k { x } else { x + 1 }]);
        assert forall|j: int| 0 <= j < n - 1 implies 0 <= #[trigger] order2[j] < n - 1 && back2[order2[j]] == j by {
            assert(back[order[j]] == j);
            if order[j] == k {
                assert(back[k] == n - 1);
            }
            if order[j] < k {
                assert(back2[order[j]] == back[order[j]]);
            } else {
                assert(back2[order[j] - 1] == back[order[j]]);
            }
        }
        assert forall|x: int| 0 <= x < n - 1 implies 0 <= #[trigger] back2[x] < n - 1 && order2[back2[x]] == x by {
            let y = if x < k { x } else { x + 1 };
            assert(order[back[y]] == y);
            if back[y] == n - 1 {
                assert(order[n - 1] == y);
            }
        }
        lemma_sum_reordered(g, n - 1, order2, back2);
        let lhs = |j: int| f(order[j]);
        let rhs = |j: int| g(order2[j]);
        assert forall|j: int| 0 <= j < n - 1 implies #[trigger] lhs(j) == rhs(j) by {
            if order[j] == k {
                assert(back[order[j]] == j);
                assert(back[k] == n - 1);
            }
        }
        lemma_sum_ext(lhs, rhs, n - 1);
        lemma_sum_remove(f, k, n);
    }
}

/// Everything a piece holds is in a concatenation that includes the piece.
pub proof fn lemma_concat_contains<T>(f: spec_fn(int) -> Seq<T>, n: int, k: int, u: int)
    requires
        0 <= k < n,
        0 <= u < f(k).len(),
    ensures
        concat_upto(f, n).contains(f(k)[u]),
    decreases n,
{
    if k < n - 1 {
        lemma_concat_contains(f, n - 1, k, u);
        let prev = concat_upto(f, n - 1);
        let i = choose|i: int| 0 <= i < prev.len() && prev[i] == f(k)[u];
        assert(concat_upto(f, n)[i] == f(k)[u]);
    } else {
        let prev = concat_upto(f, n - 1);
        assert(concat_upto(f, n)[prev.len() + u] == f(k)[u]);
    }
}

} // verus!
