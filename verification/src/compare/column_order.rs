use vstd::prelude::*;

use crate::models::compare_result::CompareResultSpec;
use crate::models::difference::KeyValueSpec;

use super::difference::{
    last_index_of, lemma_last_index_of, spec_cell_changes, spec_key_status, spec_not_in, spec_present_in, spec_value_or_empty,
    spec_values_equal, CompareSettings, RecordSpec,
};
use super::duplicate_detector::{key_count, spec_duplicate_infos};
use super::key_comparator::{count_different, count_same, key_result_matches, pair_changes, spec_key_compare, KeyCompareSpec};
use super::key_index::{first_keys, occ};
use super::laws::{law_key_counts_ignore_order_of_a, law_key_counts_ignore_order_of_b, law_pairs_share_exact_key};
use super::tally::{concat_upto, count_upto, lemma_count_ext, lemma_count_reordered};

verus! {

/// `x` with its entries taken in the order `order`: entry `q` is `x[order[q]]`.
pub open spec fn spec_rearranged<T>(x: Seq<T>, order: Seq<int>) -> Seq<T> {
    Seq::new(order.len(), |q: int| x[order[q]])
}

/// `order` arranges `n` things in another order, and `back` undoes it.
pub open spec fn spec_is_arrangement(order: Seq<int>, back: Seq<int>, n: int) -> bool {
    &&& order.len() == n
    &&& back.len() == n
    &&& forall|j: int| 0 <= j < n ==> 0 <= #[trigger] order[j] < n && back[order[j]] == j
    &&& forall|k: int| 0 <= k < n ==> 0 <= #[trigger] back[k] < n && order[back[k]] == k
}

/// `t` is the comparison `s` with the columns of both files in another order:
/// the same records, each holding the same value under each column name; the
/// key columns and the compared columns the same, arranged by `key_order` and
/// `compared_order`; the same settings.
pub open spec fn spec_columns_rearranged(
    s: KeyCompareSpec,
    t: KeyCompareSpec,
    key_order: Seq<int>,
    key_back: Seq<int>,
    compared_order: Seq<int>,
    compared_back: Seq<int>,
) -> bool {
    &&& t.records_a.len() == s.records_a.len()
    &&& t.records_b.len() == s.records_b.len()
    &&& t.settings == s.settings
    &&& forall|i: int, c: Seq<char>|
        0 <= i < s.records_a.len() ==> #[trigger] spec_value_or_empty(t.headers_a, c, t.records_a[i].1)
            == spec_value_or_empty(s.headers_a, c, s.records_a[i].1)
    &&& forall|j: int, c: Seq<char>|
        0 <= j < s.records_b.len() ==> #[trigger] spec_value_or_empty(t.headers_b, c, t.records_b[j].1)
            == spec_value_or_empty(s.headers_b, c, s.records_b[j].1)
    &&& spec_is_arrangement(key_order, key_back, s.key_columns.len() as int)
    &&& t.key_columns == spec_rearranged(s.key_columns, key_order)
    &&& spec_is_arrangement(compared_order, compared_back, s.compared.len() as int)
    &&& t.compared == spec_rearranged(s.compared, compared_order)
}

/// Arranging in another order loses nothing: equal arrangements come from equal sequences.
proof fn lemma_rearranged_injective<T>(x: Seq<T>, y: Seq<T>, order: Seq<int>, back: Seq<int>, n: int)
    requires
        x.len() == n,
        y.len() == n,
        spec_is_arrangement(order, back, n),
        spec_rearranged(x, order) == spec_rearranged(y, order),
    ensures
        x == y,
{
    assert forall|k: int| 0 <= k < n implies x[k] == y[k] by {
        let q = back[k];
        assert(order[q] == k);
        assert(spec_rearranged(x, order)[q] == x[k]);
        assert(spec_rearranged(y, order)[q] == y[k]);
    }
    assert(x =~= y);
}

/// Whether a key is usable, empty or incomplete does not depend on the order of its values.
proof fn lemma_status_rearranged(x: Seq<Seq<char>>, order: Seq<int>, back: Seq<int>)
    requires
        spec_is_arrangement(order, back, x.len() as int),
    ensures
        spec_key_status(spec_rearranged(x, order)) == spec_key_status(x),
{
    let y = spec_rearranged(x, order);
    let n = x.len() as int;
    assert(y.len() == n);
    if forall|k: int| 0 <= k < x.len() ==> #[trigger] x[k].len() == 0 {
        assert forall|q: int| 0 <= q < y.len() implies #[trigger] y[q].len() == 0 by {
            assert(y[q] == x[order[q]]);
        }
    } else {
        let k = choose|k: int| 0 <= k < x.len() && #[trigger] x[k].len() != 0;
        assert(y[back[k]] == x[k]);
        assert(!(forall|q: int| 0 <= q < y.len() ==> #[trigger] y[q].len() == 0));
    }
    if exists|k: int| 0 <= k < x.len() && #[trigger] x[k].len() == 0 {
        let k = choose|k: int| 0 <= k < x.len() && #[trigger] x[k].len() == 0;
        assert(y[back[k]] == x[k]);
        assert(exists|q: int| 0 <= q < y.len() && #[trigger] y[q].len() == 0);
    }
    if exists|q: int| 0 <= q < y.len() && #[trigger] y[q].len() == 0 {
        let q = choose|q: int| 0 <= q < y.len() && #[trigger] y[q].len() == 0;
        assert(y[q] == x[order[q]]);
        assert(exists|k: int| 0 <= k < x.len() && #[trigger] x[k].len() == 0);
    }
}

/// Position `i` carries usable key `kt` in one list exactly when it carries
/// usable key `ks` in the other.
pub open spec fn spec_same_match(
    keys_t: Seq<Seq<Seq<char>>>,
    valid_t: Seq<bool>,
    kt: Seq<Seq<char>>,
    keys_s: Seq<Seq<Seq<char>>>,
    valid_s: Seq<bool>,
    ks: Seq<Seq<char>>,
    i: int,
) -> bool {
    (valid_t[i] && keys_t[i] == kt) <==> (valid_s[i] && keys_s[i] == ks)
}

/// Positions found by the same test are the same positions.
proof fn lemma_occ_same_pattern(
    keys_t: Seq<Seq<Seq<char>>>,
    valid_t: Seq<bool>,
    kt: Seq<Seq<char>>,
    keys_s: Seq<Seq<Seq<char>>>,
    valid_s: Seq<bool>,
    ks: Seq<Seq<char>>,
    n: int,
)
    requires
        forall|i: int| 0 <= i < n ==> #[trigger] spec_same_match(keys_t, valid_t, kt, keys_s, valid_s, ks, i),
    ensures
        occ(keys_t, valid_t, kt, n) == occ(keys_s, valid_s, ks, n),
    decreases n,
{
    if n > 0 {
        lemma_occ_same_pattern(keys_t, valid_t, kt, keys_s, valid_s, ks, n - 1);
        assert(spec_same_match(keys_t, valid_t, kt, keys_s, valid_s, ks, n - 1));
    }
}

/// The positions of a key among keys whose values were all arranged alike are
/// those of the key as it was.
proof fn lemma_occ_rearranged(
    keys_t: Seq<Seq<Seq<char>>>,
    keys_s: Seq<Seq<Seq<char>>>,
    valid: Seq<bool>,
    ks: Seq<Seq<char>>,
    order: Seq<int>,
    back: Seq<int>,
    m: int,
)
    requires
        keys_t.len() == keys_s.len(),
        spec_is_arrangement(order, back, ks.len() as int),
        forall|x: int| 0 <= x < keys_s.len() ==> #[trigger] keys_t[x] == spec_rearranged(keys_s[x], order)
            && keys_s[x].len() == ks.len(),
        0 <= m <= keys_s.len(),
    ensures
        occ(keys_t, valid, spec_rearranged(ks, order), m) == occ(keys_s, valid, ks, m),
{
    let kt = spec_rearranged(ks, order);
    assert forall|i: int| 0 <= i < m implies #[trigger] spec_same_match(keys_t, valid, kt, keys_s, valid, ks, i) by {
        if keys_t[i] == kt {
            lemma_rearranged_injective(keys_s[i], ks, order, back, ks.len() as int);
        }
    }
    lemma_occ_same_pattern(keys_t, valid, kt, keys_s, valid, ks, m);
}

/// The keys of the rearranged comparison are the old keys, arranged like the
/// key columns, and are just as usable.
proof fn lemma_keys_rearranged(
    s: KeyCompareSpec,
    t: KeyCompareSpec,
    key_order: Seq<int>,
    key_back: Seq<int>,
    compared_order: Seq<int>,
    compared_back: Seq<int>,
)
    requires
        spec_columns_rearranged(s, t, key_order, key_back, compared_order, compared_back),
    ensures
        forall|i: int| 0 <= i < s.records_a.len() ==> #[trigger] t.key_a(i) == spec_rearranged(s.key_a(i), key_order)
            && s.key_a(i).len() == s.key_columns.len() && t.status_a(i) == s.status_a(i),
        forall|j: int| 0 <= j < s.records_b.len() ==> #[trigger] t.key_b(j) == spec_rearranged(s.key_b(j), key_order)
            && s.key_b(j).len() == s.key_columns.len() && t.status_b(j) == s.status_b(j),
        t.keys_a().len() == s.keys_a().len(),
        t.keys_b().len() == s.keys_b().len(),
        forall|i: int| 0 <= i < s.records_a.len() ==> #[trigger] t.keys_a()[i] == spec_rearranged(s.keys_a()[i], key_order)
            && s.keys_a()[i].len() == s.key_columns.len(),
        forall|j: int| 0 <= j < s.records_b.len() ==> #[trigger] t.keys_b()[j] == spec_rearranged(s.keys_b()[j], key_order)
            && s.keys_b()[j].len() == s.key_columns.len(),
        t.valid_a() == s.valid_a(),
        t.valid_b() == s.valid_b(),
{
    let m = s.key_columns.len() as int;
    assert forall|i: int| 0 <= i < s.records_a.len() implies #[trigger] t.key_a(i) == spec_rearranged(s.key_a(i), key_order)
        && s.key_a(i).len() == m && t.status_a(i) == s.status_a(i) by {
        assert forall|q: int| 0 <= q < m implies t.key_a(i)[q] == s.key_a(i)[key_order[q]] by {
            let c = s.key_columns[key_order[q]];
            assert(t.key_columns[q] == c);
            assert(spec_value_or_empty(t.headers_a, c, t.records_a[i].1) == spec_value_or_empty(s.headers_a, c, s.records_a[i].1));
        }
        assert(t.key_a(i) =~= spec_rearranged(s.key_a(i), key_order));
        lemma_status_rearranged(s.key_a(i), key_order, key_back);
    }
    assert forall|j: int| 0 <= j < s.records_b.len() implies #[trigger] t.key_b(j) == spec_rearranged(s.key_b(j), key_order)
        && s.key_b(j).len() == m && t.status_b(j) == s.status_b(j) by {
        assert forall|q: int| 0 <= q < m implies t.key_b(j)[q] == s.key_b(j)[key_order[q]] by {
            let c = s.key_columns[key_order[q]];
            assert(t.key_columns[q] == c);
            assert(spec_value_or_empty(t.headers_b, c, t.records_b[j].1) == spec_value_or_empty(s.headers_b, c, s.records_b[j].1));
        }
        assert(t.key_b(j) =~= spec_rearranged(s.key_b(j), key_order));
        lemma_status_rearranged(s.key_b(j), key_order, key_back);
    }
    assert forall|i: int| 0 <= i < s.records_a.len() implies #[trigger] t.keys_a()[i] == spec_rearranged(s.keys_a()[i], key_order)
        && s.keys_a()[i].len() == m by {
        assert(t.keys_a()[i] == t.key_a(i));
        assert(s.keys_a()[i] == s.key_a(i));
    }
    assert forall|j: int| 0 <= j < s.records_b.len() implies #[trigger] t.keys_b()[j] == spec_rearranged(s.keys_b()[j], key_order)
        && s.keys_b()[j].len() == m by {
        assert(t.keys_b()[j] == t.key_b(j));
        assert(s.keys_b()[j] == s.key_b(j));
    }
    assert forall|i: int| 0 <= i < s.records_a.len() implies #[trigger] t.valid_a()[i] == s.valid_a()[i] by {
        assert(t.status_a(i) == s.status_a(i));
    }
    assert(t.valid_a() =~= s.valid_a());
    assert forall|j: int| 0 <= j < s.records_b.len() implies #[trigger] t.valid_b()[j] == s.valid_b()[j] by {
        assert(t.status_b(j) == s.status_b(j));
    }
    assert(t.valid_b() =~= s.valid_b());
}

/// Every key is found at the same positions, in either file, before and after
/// the columns are rearranged.
proof fn lemma_occurrences_rearranged(
    s: KeyCompareSpec,
    t: KeyCompareSpec,
    key_order: Seq<int>,
    key_back: Seq<int>,
    compared_order: Seq<int>,
    compared_back: Seq<int>,
)
    requires
        spec_columns_rearranged(s, t, key_order, key_back, compared_order, compared_back),
    ensures
        forall|i: int, m: int| 0 <= i < s.records_a.len() && 0 <= m <= s.records_a.len()
            ==> #[trigger] occ(t.keys_a(), t.valid_a(), t.key_a(i), m) == occ(s.keys_a(), s.valid_a(), s.key_a(i), m),
        forall|j: int, m: int| 0 <= j < s.records_b.len() && 0 <= m <= s.records_b.len()
            ==> #[trigger] occ(t.keys_b(), t.valid_b(), t.key_b(j), m) == occ(s.keys_b(), s.valid_b(), s.key_b(j), m),
        forall|j: int| 0 <= j < s.records_b.len() ==> #[trigger] t.occ_a(t.key_b(j)) == s.occ_a(s.key_b(j)),
        forall|i: int| 0 <= i < s.records_a.len() ==> #[trigger] t.occ_b(t.key_a(i)) == s.occ_b(s.key_a(i)),
{
    lemma_keys_rearranged(s, t, key_order, key_back, compared_order, compared_back);
    let na = s.records_a.len() as int;
    let nb = s.records_b.len() as int;
    assert forall|i: int, m: int| 0 <= i < na && 0 <= m <= na
        implies #[trigger] occ(t.keys_a(), t.valid_a(), t.key_a(i), m) == occ(s.keys_a(), s.valid_a(), s.key_a(i), m) by {
        lemma_occ_rearranged(t.keys_a(), s.keys_a(), s.valid_a(), s.key_a(i), key_order, key_back, m);
    }
    assert forall|j: int, m: int| 0 <= j < nb && 0 <= m <= nb
        implies #[trigger] occ(t.keys_b(), t.valid_b(), t.key_b(j), m) == occ(s.keys_b(), s.valid_b(), s.key_b(j), m) by {
        lemma_occ_rearranged(t.keys_b(), s.keys_b(), s.valid_b(), s.key_b(j), key_order, key_back, m);
    }
    assert forall|j: int| 0 <= j < nb implies #[trigger] t.occ_a(t.key_b(j)) == s.occ_a(s.key_b(j)) by {
        lemma_occ_rearranged(t.keys_a(), s.keys_a(), s.valid_a(), s.key_b(j), key_order, key_back, na);
    }
    assert forall|i: int| 0 <= i < na implies #[trigger] t.occ_b(t.key_a(i)) == s.occ_b(s.key_a(i)) by {
        lemma_occ_rearranged(t.keys_b(), s.keys_b(), s.valid_b(), s.key_a(i), key_order, key_back, nb);
    }
}

/// Two concatenations of pieces that agree are equal.
proof fn lemma_concat_ext<T>(f: spec_fn(int) -> Seq<T>, g: spec_fn(int) -> Seq<T>, n: int)
    requires
        forall|k: int| 0 <= k < n ==> #[trigger] f(k) == g(k),
    ensures
        concat_upto(f, n) == concat_upto(g, n),
    decreases n,
{
    if n > 0 {
        lemma_concat_ext(f, g, n - 1);
        assert(f(n - 1) == g(n - 1));
    }
}

/// Record by record, the rearranged comparison decides alike: the same records
/// are paired, the same are left alone, the same keys are empty or incomplete.
proof fn lemma_decisions_rearranged(
    s: KeyCompareSpec,
    t: KeyCompareSpec,
    key_order: Seq<int>,
    key_back: Seq<int>,
    compared_order: Seq<int>,
    compared_back: Seq<int>,
)
    requires
        spec_columns_rearranged(s, t, key_order, key_back, compared_order, compared_back),
    ensures
        t.pairs() == s.pairs(),
        forall|i: int| 0 <= i < s.records_a.len() ==> {
            &&& #[trigger] t.a_only_pred()(i) == s.a_only_pred()(i)
            &&& t.empty_a_fn()(i) == s.empty_a_fn()(i)
            &&& t.incomplete_a_fn()(i) == s.incomplete_a_fn()(i)
            &&& t.first_in_a(i) == s.first_in_a(i)
            &&& t.count_a(t.key_a(i)) == s.count_a(s.key_a(i))
        },
        forall|j: int| 0 <= j < s.records_b.len() ==> {
            &&& #[trigger] t.b_only_pred()(j) == s.b_only_pred()(j)
            &&& t.empty_b_fn()(j) == s.empty_b_fn()(j)
            &&& t.incomplete_b_fn()(j) == s.incomplete_b_fn()(j)
            &&& t.count_b(t.key_b(j)) == s.count_b(s.key_b(j))
        },
{
    lemma_keys_rearranged(s, t, key_order, key_back, compared_order, compared_back);
    lemma_occurrences_rearranged(s, t, key_order, key_back, compared_order, compared_back);
    let na = s.records_a.len() as int;
    let nb = s.records_b.len() as int;
    assert forall|i: int| 0 <= i < na implies {
        &&& #[trigger] t.a_only_pred()(i) == s.a_only_pred()(i)
        &&& t.empty_a_fn()(i) == s.empty_a_fn()(i)
        &&& t.incomplete_a_fn()(i) == s.incomplete_a_fn()(i)
        &&& t.first_in_a(i) == s.first_in_a(i)
        &&& t.count_a(t.key_a(i)) == s.count_a(s.key_a(i))
        &&& t.dup_pairs(i) == s.dup_pairs(i)
    } by {
        assert(t.status_a(i) == s.status_a(i));
        assert(t.valid_a()[i] == s.valid_a()[i]);
        assert(occ(t.keys_a(), t.valid_a(), t.key_a(i), na) == occ(s.keys_a(), s.valid_a(), s.key_a(i), na));
        assert(occ(t.keys_a(), t.valid_a(), t.key_a(i), i) == occ(s.keys_a(), s.valid_a(), s.key_a(i), i));
        assert(t.occ_b(t.key_a(i)) == s.occ_b(s.key_a(i)));
        assert(t.occ_a(t.key_a(i)) == s.occ_a(s.key_a(i)));
        assert(t.dup_pairs(i) =~= s.dup_pairs(i));
    }
    assert forall|j: int| 0 <= j < nb implies {
        &&& #[trigger] t.b_only_pred()(j) == s.b_only_pred()(j)
        &&& t.empty_b_fn()(j) == s.empty_b_fn()(j)
        &&& t.incomplete_b_fn()(j) == s.incomplete_b_fn()(j)
        &&& t.count_b(t.key_b(j)) == s.count_b(s.key_b(j))
        &&& t.b_pair(j) == s.b_pair(j)
    } by {
        assert(t.status_b(j) == s.status_b(j));
        assert(t.valid_b()[j] == s.valid_b()[j]);
        assert(occ(t.keys_b(), t.valid_b(), t.key_b(j), nb) == occ(s.keys_b(), s.valid_b(), s.key_b(j), nb));
        assert(t.occ_a(t.key_b(j)) == s.occ_a(s.key_b(j)));
        assert(t.occ_b(t.key_b(j)) == s.occ_b(s.key_b(j)));
        assert(t.b_pair(j) =~= s.b_pair(j));
    }
    assert forall|j: int| 0 <= j < nb implies #[trigger] t.b_pair_fn()(j) == s.b_pair_fn()(j) by {
        assert(t.b_only_pred()(j) == s.b_only_pred()(j));
        assert(t.b_pair(j) == s.b_pair(j));
    }
    assert forall|i: int| 0 <= i < na implies #[trigger] t.dup_pairs_fn()(i) == s.dup_pairs_fn()(i) by {
        assert(t.a_only_pred()(i) == s.a_only_pred()(i));
        assert(t.dup_pairs(i) == s.dup_pairs(i));
    }
    lemma_concat_ext(t.b_pair_fn(), s.b_pair_fn(), nb);
    lemma_concat_ext(t.dup_pairs_fn(), s.dup_pairs_fn(), na);
}

/// How many cells two records differ in: the number of compared columns whose
/// values differ.
proof fn lemma_cell_changes_count(
    headers_a: Seq<Seq<char>>,
    a: RecordSpec,
    headers_b: Seq<Seq<char>>,
    b: RecordSpec,
    compared: Seq<Seq<char>>,
    settings: CompareSettings,
    key_values: Seq<KeyValueSpec>,
    n: int,
)
    ensures
        spec_cell_changes(headers_a, a, headers_b, b, compared, settings, key_values, n).len() == count_upto(
            |q: int|
                !spec_values_equal(
                    spec_value_or_empty(headers_a, compared[q], a.1),
                    spec_value_or_empty(headers_b, compared[q], b.1),
                    settings,
                ),
            n,
        ),
    decreases n,
{
    if n > 0 {
        lemma_cell_changes_count(headers_a, a, headers_b, b, compared, settings, key_values, n - 1);
    }
}

/// Two records differ in as many cells whatever the order of the columns.
proof fn lemma_changes_rearranged(
    s: KeyCompareSpec,
    t: KeyCompareSpec,
    key_order: Seq<int>,
    key_back: Seq<int>,
    compared_order: Seq<int>,
    compared_back: Seq<int>,
    i: int,
    j: int,
)
    requires
        spec_columns_rearranged(s, t, key_order, key_back, compared_order, compared_back),
        0 <= i < s.records_a.len(),
        0 <= j < s.records_b.len(),
    ensures
        t.changes(i, j).len() == s.changes(i, j).len(),
{
    let n = s.compared.len() as int;
    let ps = |x: int|
        !spec_values_equal(
            spec_value_or_empty(s.headers_a, s.compared[x], s.records_a[i].1),
            spec_value_or_empty(s.headers_b, s.compared[x], s.records_b[j].1),
            s.settings,
        );
    let pt = |q: int|
        !spec_values_equal(
            spec_value_or_empty(t.headers_a, t.compared[q], t.records_a[i].1),
            spec_value_or_empty(t.headers_b, t.compared[q], t.records_b[j].1),
            t.settings,
        );
    lemma_cell_changes_count(s.headers_a, s.records_a[i], s.headers_b, s.records_b[j], s.compared, s.settings, s.key_values_a(i), n);
    lemma_cell_changes_count(t.headers_a, t.records_a[i], t.headers_b, t.records_b[j], t.compared, t.settings, t.key_values_a(i), n);
    assert forall|q: int| 0 <= q < n implies #[trigger] pt(q) == ps(compared_order[q]) by {
        let c = s.compared[compared_order[q]];
        assert(t.compared[q] == c);
        assert(spec_value_or_empty(t.headers_a, c, t.records_a[i].1) == spec_value_or_empty(s.headers_a, c, s.records_a[i].1));
        assert(spec_value_or_empty(t.headers_b, c, t.records_b[j].1) == spec_value_or_empty(s.headers_b, c, s.records_b[j].1));
    }
    lemma_count_ext(pt, |q: int| ps(compared_order[q]), n);
    lemma_count_reordered(ps, n, compared_order, compared_back);
}

/// Over the same pairs of records, the rearranged comparison finds as many same
/// pairs, different pairs and differing cells.
proof fn lemma_pair_tallies_rearranged(
    s: KeyCompareSpec,
    t: KeyCompareSpec,
    key_order: Seq<int>,
    key_back: Seq<int>,
    compared_order: Seq<int>,
    compared_back: Seq<int>,
    pairs: Seq<(int, int)>,
)
    requires
        spec_columns_rearranged(s, t, key_order, key_back, compared_order, compared_back),
        forall|x: int| 0 <= x < pairs.len() ==> 0 <= (#[trigger] pairs[x]).0 < s.records_a.len() && 0 <= pairs[x].1
            < s.records_b.len(),
    ensures
        count_same(t, pairs) == count_same(s, pairs),
        count_different(t, pairs) == count_different(s, pairs),
        pair_changes(t, pairs).len() == pair_changes(s, pairs).len(),
    decreases pairs.len(),
{
    if pairs.len() > 0 {
        let rest = pairs.drop_last();
        assert forall|x: int| 0 <= x < rest.len() implies 0 <= (#[trigger] rest[x]).0 < s.records_a.len() && 0 <= rest[x].1
            < s.records_b.len() by {
            assert(rest[x] == pairs[x]);
        }
        lemma_pair_tallies_rearranged(s, t, key_order, key_back, compared_order, compared_back, rest);
        let last = pairs[pairs.len() - 1];
        assert(pairs.last() == last);
        lemma_changes_rearranged(s, t, key_order, key_back, compared_order, compared_back, last.0, last.1);
    }
}

/// Reports for the first distinct keys agree below `m` when the keys do.
proof fn lemma_infos_prefix(
    source: Seq<char>,
    columns: Seq<Seq<char>>,
    keys: Seq<Seq<Seq<char>>>,
    valid: Seq<bool>,
    rows: Seq<u64>,
    fk1: Seq<Seq<Seq<char>>>,
    fk2: Seq<Seq<Seq<char>>>,
    m: int,
)
    requires
        m <= fk1.len(),
        m <= fk2.len(),
        forall|x: int| 0 <= x < m ==> #[trigger] fk1[x] == fk2[x],
    ensures
        spec_duplicate_infos(source, columns, keys, valid, rows, fk1, m) == spec_duplicate_infos(source, columns, keys, valid, rows, fk2, m),
    decreases m,
{
    if m > 0 {
        lemma_infos_prefix(source, columns, keys, valid, rows, fk1, fk2, m - 1);
        assert(fk1[m - 1] == fk2[m - 1]);
    }
}

/// Whether event `i` is the first of a usable key that occurs at least twice.
pub open spec fn spec_opens_duplicate(keys: Seq<Seq<Seq<char>>>, valid: Seq<bool>, i: int) -> bool {
    valid[i] && occ(keys, valid, keys[i], i).len() == 0 && key_count(keys, valid, keys[i]) >= 2
}

/// There is one duplicate-key report per event that opens a duplicated key.
proof fn lemma_duplicate_infos_count(
    source: Seq<char>,
    columns: Seq<Seq<char>>,
    keys: Seq<Seq<Seq<char>>>,
    valid: Seq<bool>,
    rows: Seq<u64>,
    n: int,
)
    requires
        0 <= n <= keys.len(),
    ensures
        spec_duplicate_infos(
            source,
            columns,
            keys,
            valid,
            rows,
            first_keys(keys, valid, n),
            first_keys(keys, valid, n).len() as int,
        ).len() == count_upto(|i: int| spec_opens_duplicate(keys, valid, i), n),
    decreases n,
{
    if n > 0 {
        lemma_duplicate_infos_count(source, columns, keys, valid, rows, n - 1);
        let before = first_keys(keys, valid, n - 1);
        let after = first_keys(keys, valid, n);
        let len = before.len() as int;
        if valid[n - 1] && occ(keys, valid, keys[n - 1], n - 1).len() == 0 {
            assert(after == before.push(keys[n - 1]));
            lemma_infos_prefix(source, columns, keys, valid, rows, after, before, len);
            assert(after[len] == keys[n - 1]);
        } else {
            assert(after == before);
        }
    }
}

/// Law: the order of the columns does not matter in a key-based comparison.
/// Arranging the columns of both files in another order (so that the key
/// columns and the compared columns come in another order, and every record
/// holds the same value under each column name) pairs the same records and
/// changes none of the counts of the result.
pub proof fn law_key_counts_ignore_column_order(
    s: KeyCompareSpec,
    t: KeyCompareSpec,
    key_order: Seq<int>,
    key_back: Seq<int>,
    compared_order: Seq<int>,
    compared_back: Seq<int>,
)
    requires
        s.records_a.len() <= usize::MAX,
        s.records_b.len() <= usize::MAX,
        spec_columns_rearranged(s, t, key_order, key_back, compared_order, compared_back),
    ensures
        t.pairs() == s.pairs(),
        count_same(t, t.pairs()) == count_same(s, s.pairs()),
        count_different(t, t.pairs()) == count_different(s, s.pairs()),
        pair_changes(t, t.pairs()).len() == pair_changes(s, s.pairs()).len(),
        t.a_only_records() == s.a_only_records(),
        t.b_only_records() == s.b_only_records(),
        t.empty_keys_a() == s.empty_keys_a(),
        t.incomplete_keys_a() == s.incomplete_keys_a(),
        t.empty_keys_b() == s.empty_keys_b(),
        t.incomplete_keys_b() == s.incomplete_keys_b(),
        t.duplicates_a().len() == s.duplicates_a().len(),
        t.duplicates_b().len() == s.duplicates_b().len(),
        forall|i: int| 0 <= i < s.records_a.len() ==> #[trigger] t.count_a(t.key_a(i)) == s.count_a(s.key_a(i))
            && t.count_b(t.key_a(i)) == s.count_b(s.key_a(i)),
{
    let na = s.records_a.len() as int;
    let nb = s.records_b.len() as int;
    lemma_keys_rearranged(s, t, key_order, key_back, compared_order, compared_back);
    lemma_occurrences_rearranged(s, t, key_order, key_back, compared_order, compared_back);
    lemma_decisions_rearranged(s, t, key_order, key_back, compared_order, compared_back);
    // The pairs are the same, and lie within both files.
    assert forall|x: int| 0 <= x < s.pairs().len() implies 0 <= (#[trigger] s.pairs()[x]).0 < na && 0 <= s.pairs()[x].1 < nb by {
        law_pairs_share_exact_key(s, x);
    }
    lemma_pair_tallies_rearranged(s, t, key_order, key_back, compared_order, compared_back, s.pairs());
    // Counts of records, record by record.
    lemma_count_ext(t.a_only_pred(), s.a_only_pred(), na);
    lemma_count_ext(t.b_only_pred(), s.b_only_pred(), nb);
    assert forall|i: int| 0 <= i < na implies #[trigger] t.empty_a_fn()(i) == s.empty_a_fn()(i) by {
        assert(t.a_only_pred()(i) == s.a_only_pred()(i));
    }
    assert forall|i: int| 0 <= i < na implies #[trigger] t.incomplete_a_fn()(i) == s.incomplete_a_fn()(i) by {
        assert(t.a_only_pred()(i) == s.a_only_pred()(i));
    }
    assert forall|j: int| 0 <= j < nb implies #[trigger] t.empty_b_fn()(j) == s.empty_b_fn()(j) by {
        assert(t.b_only_pred()(j) == s.b_only_pred()(j));
    }
    assert forall|j: int| 0 <= j < nb implies #[trigger] t.incomplete_b_fn()(j) == s.incomplete_b_fn()(j) by {
        assert(t.b_only_pred()(j) == s.b_only_pred()(j));
    }
    lemma_count_ext(t.empty_a_fn(), s.empty_a_fn(), na);
    lemma_count_ext(t.incomplete_a_fn(), s.incomplete_a_fn(), na);
    lemma_count_ext(t.empty_b_fn(), s.empty_b_fn(), nb);
    lemma_count_ext(t.incomplete_b_fn(), s.incomplete_b_fn(), nb);
    // Duplicate keys: one report per record that opens a duplicated key.
    lemma_duplicate_infos_count("File A"@, t.key_columns, t.keys_a(), t.valid_a(), t.rows_a(), na);
    lemma_duplicate_infos_count("File A"@, s.key_columns, s.keys_a(), s.valid_a(), s.rows_a(), na);
    lemma_duplicate_infos_count("File B"@, t.key_columns, t.keys_b(), t.valid_b(), t.rows_b(), nb);
    lemma_duplicate_infos_count("File B"@, s.key_columns, s.keys_b(), s.valid_b(), s.rows_b(), nb);
    assert forall|i: int| 0 <= i < na implies #[trigger] spec_opens_duplicate(t.keys_a(), t.valid_a(), i)
        == spec_opens_duplicate(s.keys_a(), s.valid_a(), i) by {
        assert(t.keys_a()[i] == t.key_a(i));
        assert(s.keys_a()[i] == s.key_a(i));
        assert(occ(t.keys_a(), t.valid_a(), t.key_a(i), i) == occ(s.keys_a(), s.valid_a(), s.key_a(i), i));
        assert(occ(t.keys_a(), t.valid_a(), t.key_a(i), na) == occ(s.keys_a(), s.valid_a(), s.key_a(i), na));
    }
    assert forall|j: int| 0 <= j < nb implies #[trigger] spec_opens_duplicate(t.keys_b(), t.valid_b(), j)
        == spec_opens_duplicate(s.keys_b(), s.valid_b(), j) by {
        assert(t.keys_b()[j] == t.key_b(j));
        assert(s.keys_b()[j] == s.key_b(j));
        assert(occ(t.keys_b(), t.valid_b(), t.key_b(j), j) == occ(s.keys_b(), s.valid_b(), s.key_b(j), j));
        assert(occ(t.keys_b(), t.valid_b(), t.key_b(j), nb) == occ(s.keys_b(), s.valid_b(), s.key_b(j), nb));
    }
    lemma_count_ext(|i: int| spec_opens_duplicate(t.keys_a(), t.valid_a(), i), |i: int| spec_opens_duplicate(s.keys_a(), s.valid_a(), i), na);
    lemma_count_ext(|j: int| spec_opens_duplicate(t.keys_b(), t.valid_b(), j), |j: int| spec_opens_duplicate(s.keys_b(), s.valid_b(), j), nb);
    assert forall|i: int| 0 <= i < na implies #[trigger] t.count_a(t.key_a(i)) == s.count_a(s.key_a(i))
        && t.count_b(t.key_a(i)) == s.count_b(s.key_a(i)) by {
        assert(t.a_only_pred()(i) == s.a_only_pred()(i));
        assert(t.occ_b(t.key_a(i)) == s.occ_b(s.key_a(i)));
    }
}

/// Law: two key-based results of the same files, the second with the columns
/// of both files in another order, agree on every count: rows, matched, same
/// and different records, records of one file only, differing cells, duplicate,
/// empty and incomplete keys.
pub proof fn law_key_result_counts_ignore_column_order(
    r1: CompareResultSpec,
    r2: CompareResultSpec,
    s: KeyCompareSpec,
    t: KeyCompareSpec,
    excluded1: Seq<Seq<char>>,
    excluded2: Seq<Seq<char>>,
    key_order: Seq<int>,
    key_back: Seq<int>,
    compared_order: Seq<int>,
    compared_back: Seq<int>,
)
    requires
        s.records_a.len() <= usize::MAX,
        s.records_b.len() <= usize::MAX,
        spec_columns_rearranged(s, t, key_order, key_back, compared_order, compared_back),
        key_result_matches(r1, s, excluded1),
        key_result_matches(r2, t, excluded2),
    ensures
        r2.rows_a == r1.rows_a,
        r2.rows_b == r1.rows_b,
        r2.matched_records == r1.matched_records,
        r2.same_records == r1.same_records,
        r2.different_records == r1.different_records,
        r2.a_only_records == r1.a_only_records,
        r2.b_only_records == r1.b_only_records,
        r2.different_cells == r1.different_cells,
        r2.duplicate_keys_a == r1.duplicate_keys_a,
        r2.duplicate_keys_b == r1.duplicate_keys_b,
        r2.empty_keys_a == r1.empty_keys_a,
        r2.empty_keys_b == r1.empty_keys_b,
        r2.incomplete_keys_a == r1.incomplete_keys_a,
        r2.incomplete_keys_b == r1.incomplete_keys_b,
{
    law_key_counts_ignore_column_order(s, t, key_order, key_back, compared_order, compared_back);
}

/// `t` is `s` with the records of file A in another order: `order[i]` is the
/// record of `s` that comes `i`-th, `back` the way back.
pub open spec fn spec_rows_of_a_rearranged(s: KeyCompareSpec, t: KeyCompareSpec, order: Seq<int>, back: Seq<int>) -> bool {
    &&& t.headers_a == s.headers_a
    &&& t.headers_b == s.headers_b
    &&& t.records_b == s.records_b
    &&& t.key_columns == s.key_columns
    &&& t.compared == s.compared
    &&& t.settings == s.settings
    &&& t.records_a.len() == s.records_a.len()
    &&& spec_is_arrangement(order, back, s.records_a.len() as int)
    &&& forall|i: int| 0 <= i < s.records_a.len() ==> (#[trigger] t.records_a[i]).1 == s.records_a[order[i]].1
}

/// `t` is `s` with the records of file B in another order: `order[j]` is the
/// record of `s` that comes `j`-th, `back` the way back.
pub open spec fn spec_rows_of_b_rearranged(s: KeyCompareSpec, t: KeyCompareSpec, order: Seq<int>, back: Seq<int>) -> bool {
    &&& t.headers_a == s.headers_a
    &&& t.records_a == s.records_a
    &&& t.headers_b == s.headers_b
    &&& t.key_columns == s.key_columns
    &&& t.compared == s.compared
    &&& t.settings == s.settings
    &&& t.records_b.len() == s.records_b.len()
    &&& spec_is_arrangement(order, back, s.records_b.len() as int)
    &&& forall|j: int| 0 <= j < s.records_b.len() ==> (#[trigger] t.records_b[j]).1 == s.records_b[order[j]].1
}

/// Law: neither the order of the records nor the order of the columns matters
/// in a key-based comparison. When no usable key occurs twice in both files,
/// the result of the files with their columns rearranged (`u`), then the
/// records of file A (`v`), then those of file B (`t`), agrees with the first
/// on every count: rows, matched, same and different records, records of one
/// file only, differing cells, duplicate, empty and incomplete keys.
pub proof fn law_key_result_counts_ignore_row_and_column_order(
    r1: CompareResultSpec,
    r2: CompareResultSpec,
    s: KeyCompareSpec,
    u: KeyCompareSpec,
    v: KeyCompareSpec,
    t: KeyCompareSpec,
    excluded1: Seq<Seq<char>>,
    excluded2: Seq<Seq<char>>,
    key_order: Seq<int>,
    key_back: Seq<int>,
    compared_order: Seq<int>,
    compared_back: Seq<int>,
    order_a: Seq<int>,
    back_a: Seq<int>,
    order_b: Seq<int>,
    back_b: Seq<int>,
)
    requires
        s.records_a.len() <= usize::MAX,
        s.records_b.len() <= usize::MAX,
        spec_columns_rearranged(s, u, key_order, key_back, compared_order, compared_back),
        spec_rows_of_a_rearranged(u, v, order_a, back_a),
        spec_rows_of_b_rearranged(v, t, order_b, back_b),
        forall|i: int| 0 <= i < s.records_a.len() ==> !(s.count_a(#[trigger] s.key_a(i)) >= 2 && s.count_b(s.key_a(i)) >= 2),
        key_result_matches(r1, s, excluded1),
        key_result_matches(r2, t, excluded2),
    ensures
        r2.rows_a == r1.rows_a,
        r2.rows_b == r1.rows_b,
        r2.matched_records == r1.matched_records,
        r2.same_records == r1.same_records,
        r2.different_records == r1.different_records,
        r2.a_only_records == r1.a_only_records,
        r2.b_only_records == r1.b_only_records,
        r2.different_cells == r1.different_cells,
        r2.duplicate_keys_a == r1.duplicate_keys_a,
        r2.duplicate_keys_b == r1.duplicate_keys_b,
        r2.empty_keys_a == r1.empty_keys_a,
        r2.empty_keys_b == r1.empty_keys_b,
        r2.incomplete_keys_a == r1.incomplete_keys_a,
        r2.incomplete_keys_b == r1.incomplete_keys_b,
{
    let na = s.records_a.len() as int;
    law_key_counts_ignore_column_order(s, u, key_order, key_back, compared_order, compared_back);
    assert forall|i: int| 0 <= i < na implies !(u.count_a(#[trigger] u.key_a(i)) >= 2 && u.count_b(u.key_a(i)) >= 2) by {
        assert(u.count_a(u.key_a(i)) == s.count_a(s.key_a(i)));
        assert(!(s.count_a(s.key_a(i)) >= 2 && s.count_b(s.key_a(i)) >= 2));
    }
    law_key_counts_ignore_order_of_a(u, v, order_a, back_a);
    assert forall|i: int| 0 <= i < na implies !(v.count_a(#[trigger] v.key_a(i)) >= 2 && v.count_b(v.key_a(i)) >= 2) by {
        let x = order_a[i];
        assert(v.records_a[i].1 == u.records_a[x].1);
        assert(v.key_a(i) == u.key_a(x));
        assert(v.count_a(u.key_a(x)) == u.count_a(u.key_a(x)));
        assert(!(u.count_a(u.key_a(x)) >= 2 && u.count_b(u.key_a(x)) >= 2));
    }
    law_key_counts_ignore_order_of_b(v, t, order_b, back_b);
}

/// The names of `names` also in `others` are those of both, each once if
/// `names` holds each once.
proof fn lemma_present_in(names: Seq<Seq<char>>, others: Seq<Seq<char>>)
    ensures
        forall|e: Seq<char>| #[trigger] spec_present_in(names, others).contains(e) <==> (names.contains(e) && others.contains(e)),
        names.no_duplicates() ==> spec_present_in(names, others).no_duplicates(),
    decreases names.len(),
{
    if names.len() > 0 {
        let init = names.drop_last();
        let x = names.last();
        lemma_present_in(init, others);
        let rest = spec_present_in(init, others);
        assert forall|e: Seq<char>| names.contains(e) <==> (init.contains(e) || e == x) by {
            if names.contains(e) && e != x {
                let k = choose|k: int| 0 <= k < names.len() && names[k] == e;
                assert(init[k] == e);
            }
            if init.contains(e) {
                let k = choose|k: int| 0 <= k < init.len() && init[k] == e;
                assert(names[k] == e);
            }
            if e == x {
                assert(names[names.len() - 1] == x);
            }
        }
        if others.contains(x) {
            let longer = rest.push(x);
            assert forall|e: Seq<char>| longer.contains(e) <==> (rest.contains(e) || e == x) by {
                if rest.contains(e) {
                    let k = choose|k: int| 0 <= k < rest.len() && rest[k] == e;
                    assert(longer[k] == e);
                }
                if longer.contains(e) && e != x {
                    let k = choose|k: int| 0 <= k < longer.len() && longer[k] == e;
                    assert(rest[k] == e);
                }
                assert(longer[rest.len() as int] == x);
            }
            if names.no_duplicates() {
                assert(init.no_duplicates());
                assert(!init.contains(x)) by {
                    if init.contains(x) {
                        let k = choose|k: int| 0 <= k < init.len() && init[k] == x;
                        assert(names[k] == names[names.len() - 1]);
                    }
                }
                assert forall|i: int, j: int| 0 <= i < longer.len() && 0 <= j < longer.len() && i != j implies longer[i] != longer[j] by {
                    if i == rest.len() {
                        assert(rest.contains(rest[j]));
                    } else if j == rest.len() {
                        assert(rest.contains(rest[i]));
                    }
                }
            }
        } else if names.no_duplicates() {
            assert(init.no_duplicates());
        }
    }
}

/// The names of `names` not in `excluded`, each once if `names` holds each once.
proof fn lemma_not_in(names: Seq<Seq<char>>, excluded: Seq<Seq<char>>)
    ensures
        forall|e: Seq<char>| #[trigger] spec_not_in(names, excluded).contains(e) <==> (names.contains(e) && !excluded.contains(e)),
        names.no_duplicates() ==> spec_not_in(names, excluded).no_duplicates(),
    decreases names.len(),
{
    if names.len() > 0 {
        let init = names.drop_last();
        let x = names.last();
        lemma_not_in(init, excluded);
        let rest = spec_not_in(init, excluded);
        assert forall|e: Seq<char>| names.contains(e) <==> (init.contains(e) || e == x) by {
            if names.contains(e) && e != x {
                let k = choose|k: int| 0 <= k < names.len() && names[k] == e;
                assert(init[k] == e);
            }
            if init.contains(e) {
                let k = choose|k: int| 0 <= k < init.len() && init[k] == e;
                assert(names[k] == e);
            }
            if e == x {
                assert(names[names.len() - 1] == x);
            }
        }
        if !excluded.contains(x) {
            let longer = rest.push(x);
            assert forall|e: Seq<char>| longer.contains(e) <==> (rest.contains(e) || e == x) by {
                if rest.contains(e) {
                    let k = choose|k: int| 0 <= k < rest.len() && rest[k] == e;
                    assert(longer[k] == e);
                }
                if longer.contains(e) && e != x {
                    let k = choose|k: int| 0 <= k < longer.len() && longer[k] == e;
                    assert(rest[k] == e);
                }
                assert(longer[rest.len() as int] == x);
            }
            if names.no_duplicates() {
                assert(init.no_duplicates());
                assert(!init.contains(x)) by {
                    if init.contains(x) {
                        let k = choose|k: int| 0 <= k < init.len() && init[k] == x;
                        assert(names[k] == names[names.len() - 1]);
                    }
                }
                assert forall|i: int, j: int| 0 <= i < longer.len() && 0 <= j < longer.len() && i != j implies longer[i] != longer[j] by {
                    if i == rest.len() {
                        assert(rest.contains(rest[j]));
                    } else if j == rest.len() {
                        assert(rest.contains(rest[i]));
                    }
                }
            }
        } else if names.no_duplicates() {
            assert(init.no_duplicates());
        }
    }
}

/// Arranging in another order keeps the same names, each as often.
proof fn lemma_rearranged_names(h: Seq<Seq<char>>, order: Seq<int>, back: Seq<int>)
    requires
        spec_is_arrangement(order, back, h.len() as int),
    ensures
        forall|e: Seq<char>| #[trigger] spec_rearranged(h, order).contains(e) <==> h.contains(e),
        h.no_duplicates() ==> spec_rearranged(h, order).no_duplicates(),
{
    let h2 = spec_rearranged(h, order);
    assert forall|e: Seq<char>| #[trigger] h2.contains(e) <==> h.contains(e) by {
        if h.contains(e) {
            let k = choose|k: int| 0 <= k < h.len() && h[k] == e;
            assert(h2[back[k]] == h[k]);
        }
        if h2.contains(e) {
            let q = choose|q: int| 0 <= q < h2.len() && h2[q] == e;
            assert(h[order[q]] == e);
        }
    }
    if h.no_duplicates() {
        assert forall|i: int, j: int| 0 <= i < h2.len() && 0 <= j < h2.len() && i != j implies h2[i] != h2[j] by {
            assert(back[order[i]] == i);
            assert(back[order[j]] == j);
        }
    }
}

/// Two lists that hold the same names, each once, are arrangements of one another.
proof fn lemma_same_names_arrangement(x: Seq<Seq<char>>, y: Seq<Seq<char>>) -> (ob: (Seq<int>, Seq<int>))
    requires
        x.no_duplicates(),
        y.no_duplicates(),
        forall|e: Seq<char>| #[trigger] x.contains(e) <==> y.contains(e),
    ensures
        y.len() == x.len(),
        spec_is_arrangement(ob.0, ob.1, x.len() as int),
        y == spec_rearranged(x, ob.0),
{
    assert forall|e: Seq<char>| #[trigger] x.to_set().contains(e) <==> y.to_set().contains(e) by {
        assert(x.contains(e) <==> y.contains(e));
    }
    assert(x.to_set() =~= y.to_set());
    x.unique_seq_to_set();
    y.unique_seq_to_set();
    let order = Seq::new(y.len(), |q: int| choose|k: int| 0 <= k < x.len() && x[k] == y[q]);
    let back = Seq::new(x.len(), |k: int| choose|q: int| 0 <= q < y.len() && y[q] == x[k]);
    assert forall|q: int| 0 <= q < y.len() implies 0 <= #[trigger] order[q] < x.len() && x[order[q]] == y[q] by {
        assert(y[q] == y[q]);
        assert(y.contains(y[q]));
        assert(x.contains(y[q]));
    }
    assert forall|k: int| 0 <= k < x.len() implies 0 <= #[trigger] back[k] < y.len() && y[back[k]] == x[k] by {
        assert(x.contains(x[k]));
        assert(y.contains(x[k]));
    }
    assert forall|q: int| 0 <= q < y.len() implies #[trigger] back[order[q]] == q by {
        let k = order[q];
        assert(y[back[k]] == x[k]);
        assert(x[k] == y[q]);
    }
    assert forall|k: int| 0 <= k < x.len() implies #[trigger] order[back[k]] == k by {
        let q = back[k];
        assert(x[order[q]] == y[q]);
        assert(y[q] == x[k]);
    }
    assert(y =~= spec_rearranged(x, order));
    (order, back)
}

/// A record whose fields are arranged like its header holds the same value
/// under each name.
proof fn lemma_value_rearranged(h: Seq<Seq<char>>, rec: Seq<Seq<char>>, order: Seq<int>, back: Seq<int>, c: Seq<char>)
    requires
        h.no_duplicates(),
        rec.len() == h.len(),
        spec_is_arrangement(order, back, h.len() as int),
    ensures
        spec_value_or_empty(spec_rearranged(h, order), c, spec_rearranged(rec, order)) == spec_value_or_empty(h, c, rec),
{
    let h2 = spec_rearranged(h, order);
    lemma_last_index_of(h, c);
    lemma_last_index_of(h2, c);
    lemma_rearranged_names(h, order, back);
    if h2.contains(c) {
        let i2 = last_index_of(h2, c);
        let i1 = last_index_of(h, c);
        assert(h[order[i2]] == c);
        assert(h[i1] == c);
        assert(order[i2] == i1);
    }
}

/// Law: the order of the columns in the files does not matter in a key-based
/// comparison. Two pairs of files with the same header names (each once) and the
/// same records, the second with the columns of each file in another order
/// (`order_a`, `order_b`: header and every record alike), compared on the same
/// key columns and excluded columns with the same settings, give results that
/// agree on every count: rows, matched, same and different records, records of
/// one file only, differing cells, duplicate, empty and incomplete keys.
pub proof fn law_key_counts_ignore_column_order_of_files(
    r1: CompareResultSpec,
    r2: CompareResultSpec,
    headers_a: Seq<Seq<char>>,
    records_a: Seq<RecordSpec>,
    headers_b: Seq<Seq<char>>,
    records_b: Seq<RecordSpec>,
    records_a2: Seq<RecordSpec>,
    records_b2: Seq<RecordSpec>,
    asked: Seq<Seq<char>>,
    excluded: Seq<Seq<char>>,
    settings: CompareSettings,
    order_a: Seq<int>,
    back_a: Seq<int>,
    order_b: Seq<int>,
    back_b: Seq<int>,
)
    requires
        records_a.len() <= usize::MAX,
        records_b.len() <= usize::MAX,
        headers_a.no_duplicates(),
        headers_b.no_duplicates(),
        spec_is_arrangement(order_a, back_a, headers_a.len() as int),
        spec_is_arrangement(order_b, back_b, headers_b.len() as int),
        forall|i: int| 0 <= i < records_a.len() ==> (#[trigger] records_a[i]).1.len() == headers_a.len(),
        forall|j: int| 0 <= j < records_b.len() ==> (#[trigger] records_b[j]).1.len() == headers_b.len(),
        records_a2.len() == records_a.len(),
        records_b2.len() == records_b.len(),
        forall|i: int| 0 <= i < records_a.len() ==> (#[trigger] records_a2[i]).1 == spec_rearranged(records_a[i].1, order_a),
        forall|j: int| 0 <= j < records_b.len() ==> (#[trigger] records_b2[j]).1 == spec_rearranged(records_b[j].1, order_b),
        key_result_matches(
            r1,
            spec_key_compare(headers_a, records_a, headers_b, records_b, spec_present_in(headers_a, asked), excluded, settings),
            excluded,
        ),
        key_result_matches(
            r2,
            spec_key_compare(
                spec_rearranged(headers_a, order_a),
                records_a2,
                spec_rearranged(headers_b, order_b),
                records_b2,
                spec_present_in(spec_rearranged(headers_a, order_a), asked),
                excluded,
                settings,
            ),
            excluded,
        ),
    ensures
        r2.rows_a == r1.rows_a,
        r2.rows_b == r1.rows_b,
        r2.matched_records == r1.matched_records,
        r2.same_records == r1.same_records,
        r2.different_records == r1.different_records,
        r2.a_only_records == r1.a_only_records,
        r2.b_only_records == r1.b_only_records,
        r2.different_cells == r1.different_cells,
        r2.duplicate_keys_a == r1.duplicate_keys_a,
        r2.duplicate_keys_b == r1.duplicate_keys_b,
        r2.empty_keys_a == r1.empty_keys_a,
        r2.empty_keys_b == r1.empty_keys_b,
        r2.incomplete_keys_a == r1.incomplete_keys_a,
        r2.incomplete_keys_b == r1.incomplete_keys_b,
{
    let ha2 = spec_rearranged(headers_a, order_a);
    let hb2 = spec_rearranged(headers_b, order_b);
    let s = spec_key_compare(headers_a, records_a, headers_b, records_b, spec_present_in(headers_a, asked), excluded, settings);
    let t = spec_key_compare(ha2, records_a2, hb2, records_b2, spec_present_in(ha2, asked), excluded, settings);
    lemma_rearranged_names(headers_a, order_a, back_a);
    lemma_rearranged_names(headers_b, order_b, back_b);
    // The key columns: the same names, in another order.
    lemma_present_in(headers_a, asked);
    lemma_present_in(ha2, asked);
    assert forall|e: Seq<char>| #[trigger] s.key_columns.contains(e) <==> t.key_columns.contains(e) by {
        assert(ha2.contains(e) <==> headers_a.contains(e));
    }
    let (key_order, key_back) = lemma_same_names_arrangement(s.key_columns, t.key_columns);
    // The compared columns: the same names, in another order.
    lemma_present_in(headers_a, headers_b);
    lemma_present_in(ha2, hb2);
    lemma_not_in(spec_present_in(headers_a, headers_b), excluded);
    lemma_not_in(spec_present_in(ha2, hb2), excluded);
    assert forall|e: Seq<char>| #[trigger] s.compared.contains(e) <==> t.compared.contains(e) by {
        assert(ha2.contains(e) <==> headers_a.contains(e));
        assert(hb2.contains(e) <==> headers_b.contains(e));
        assert(spec_present_in(headers_a, headers_b).contains(e) <==> spec_present_in(ha2, hb2).contains(e));
    }
    let (compared_order, compared_back) = lemma_same_names_arrangement(s.compared, t.compared);
    // Each record holds the same value under each name.
    assert forall|i: int, c: Seq<char>| 0 <= i < s.records_a.len() implies #[trigger] spec_value_or_empty(t.headers_a, c, t.records_a[i].1)
        == spec_value_or_empty(s.headers_a, c, s.records_a[i].1) by {
        assert(records_a2[i].1 == spec_rearranged(records_a[i].1, order_a));
        lemma_value_rearranged(headers_a, records_a[i].1, order_a, back_a, c);
    }
    assert forall|j: int, c: Seq<char>| 0 <= j < s.records_b.len() implies #[trigger] spec_value_or_empty(t.headers_b, c, t.records_b[j].1)
        == spec_value_or_empty(s.headers_b, c, s.records_b[j].1) by {
        assert(records_b2[j].1 == spec_rearranged(records_b[j].1, order_b));
        lemma_value_rearranged(headers_b, records_b[j].1, order_b, back_b, c);
    }
    law_key_result_counts_ignore_column_order(r1, r2, s, t, excluded, excluded, key_order, key_back, compared_order, compared_back);
}

} // verus!
