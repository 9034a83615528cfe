use vstd::prelude::*;

use crate::models::composite_key::CompositeKey;
use crate::models::difference::{
    Difference, DifferenceSpec, DifferenceType, DuplicateKeyInfo, DuplicateKeyInfoSpec, KeyValue,
    KeyValueSpec,
};
use crate::text::owned;

use super::difference::KeyStatus;
use super::key_index::{first_keys, lemma_occ, lemma_occ_extend, occ, KeyGroups};

verus! {

/// How many counted events carry key `k`.
pub open spec fn key_count(keys: Seq<Seq<Seq<char>>>, counted: Seq<bool>, k: Seq<Seq<char>>) -> nat {
    occ(keys, counted, k, keys.len() as int).len()
}

/// The rows of the counted events that carry key `k`, in order.
pub open spec fn key_rows(keys: Seq<Seq<Seq<char>>>, counted: Seq<bool>, rows: Seq<u64>, k: Seq<Seq<char>>) -> Seq<u64> {
    occ(keys, counted, k, keys.len() as int).map_values(|p: usize| rows[p as int])
}

/// Key columns paired with the values of a key, as far as both reach.
pub open spec fn spec_zip_key(columns: Seq<Seq<char>>, key: Seq<Seq<char>>) -> Seq<KeyValueSpec> {
    let n = if columns.len() <= key.len() {
        columns.len()
    } else {
        key.len()
    };
    Seq::new(n, |t: int| KeyValueSpec { column: columns[t], value: key[t] })
}

/// The duplicate-key report for key `k`.
pub open spec fn spec_duplicate_info(
    source: Seq<char>,
    columns: Seq<Seq<char>>,
    keys: Seq<Seq<Seq<char>>>,
    counted: Seq<bool>,
    rows: Seq<u64>,
    k: Seq<Seq<char>>,
) -> DuplicateKeyInfoSpec {
    DuplicateKeyInfoSpec {
        source,
        key_values: spec_zip_key(columns, k),
        count: key_count(keys, counted, k) as u64,
        rows: key_rows(keys, counted, rows, k),
    }
}

/// Reports for those of the first `n` distinct keys `fk` that occur at least twice.
pub open spec fn spec_duplicate_infos(
    source: Seq<char>,
    columns: Seq<Seq<char>>,
    keys: Seq<Seq<Seq<char>>>,
    counted: Seq<bool>,
    rows: Seq<u64>,
    fk: Seq<Seq<Seq<char>>>,
    n: int,
) -> Seq<DuplicateKeyInfoSpec>
    decreases n,
{
    if n <= 0 {
        Seq::empty()
    } else {
        let rest = spec_duplicate_infos(source, columns, keys, counted, rows, fk, n - 1);
        if key_count(keys, counted, fk[n - 1]) >= 2 {
            rest.push(spec_duplicate_info(source, columns, keys, counted, rows, fk[n - 1]))
        } else {
            rest
        }
    }
}

/// Those of the first `n` distinct keys `fk` that occur at least twice.
pub open spec fn spec_duplicate_keys(keys: Seq<Seq<Seq<char>>>, counted: Seq<bool>, fk: Seq<Seq<Seq<char>>>, n: int) -> Seq<Seq<Seq<char>>>
    decreases n,
{
    if n <= 0 {
        Seq::empty()
    } else {
        let rest = spec_duplicate_keys(keys, counted, fk, n - 1);
        if key_count(keys, counted, fk[n - 1]) >= 2 {
            rest.push(fk[n - 1])
        } else {
            rest
        }
    }
}

/// Tracks, key by key, the rows at which each key occurred during a scan.
pub struct DuplicateTracker {
    groups: KeyGroups,
    rows: Vec<u64>,
}

impl DuplicateTracker {
    /// The keys of all recorded events, in order.
    pub closed spec fn keys(&self) -> Seq<Seq<Seq<char>>> {
        self.groups.events()
    }

    /// Whether each recorded event took part in the tally.
    pub closed spec fn counted(&self) -> Seq<bool> {
        self.groups.counted()
    }

    /// The rows of all recorded events, in order.
    pub closed spec fn rows(&self) -> Seq<u64> {
        self.rows@
    }

    pub closed spec fn wf(&self) -> bool {
        &&& self.groups.inv()
        &&& self.rows@.len() == self.groups.events().len()
    }

    /// A well-formed tracker holds one key, one flag and one row per event.
    pub proof fn lemma_wf_lengths(&self)
        requires
            self.wf(),
        ensures
            self.counted().len() == self.keys().len(),
            self.rows().len() == self.keys().len(),
    {
        self.groups.lemma_inv();
    }

    /// The distinct counted keys, in order of first occurrence.
    pub open spec fn distinct_keys(&self) -> Seq<Seq<Seq<char>>> {
        first_keys(self.keys(), self.counted(), self.keys().len() as int)
    }

    /// The duplicate listing: the keys counted at least twice, in order of first
    /// occurrence (what `duplicate_keys` lists).
    pub open spec fn listing(&self) -> Seq<Seq<Seq<char>>> {
        spec_duplicate_keys(self.keys(), self.counted(), self.distinct_keys(), self.distinct_keys().len() as int)
    }

    /// The duplicate-key reports (what `to_infos` returns).
    pub open spec fn reports(&self, source: Seq<char>, columns: Seq<Seq<char>>) -> Seq<DuplicateKeyInfoSpec> {
        spec_duplicate_infos(source, columns, self.keys(), self.counted(), self.rows(), self.distinct_keys(), self.distinct_keys().len() as int)
    }

    /// The report for key `k`: its values against the key columns, how often it
    /// was counted and at which rows, in order.
    pub open spec fn report_of(&self, source: Seq<char>, columns: Seq<Seq<char>>, k: Seq<Seq<char>>) -> DuplicateKeyInfoSpec {
        spec_duplicate_info(source, columns, self.keys(), self.counted(), self.rows(), k)
    }

    pub fn new() -> (t: Self)
        ensures
            t.wf(),
            t.keys().len() == 0,
            t.counted().len() == 0,
            t.rows().len() == 0,
    {
        DuplicateTracker { groups: KeyGroups::new(), rows: Vec::new() }
    }

    /// Records one event; it counts towards the tally only if `counted` is set.
    /// Tells whether a counted event with the same key was recorded before.
    pub fn record_event(&mut self, key: Vec<String>, row: u64, counted: bool) -> (seen: bool)
        requires
            old(self).wf(),
            old(self).keys().len() < usize::MAX,
        ensures
            final(self).wf(),
            final(self).keys() == old(self).keys().push(key.deep_view()),
            final(self).counted() == old(self).counted().push(counted),
            final(self).rows() == old(self).rows().push(row),
            seen == (key_count(old(self).keys(), old(self).counted(), key.deep_view()) > 0),
    {
        let seen = self.groups.add(key, counted);
        self.rows.push(row);
        seen
    }

    /// Records a key occurrence. Returns true if this occurrence is a duplicate.
    pub fn record(&mut self, key: &CompositeKey, row: u64) -> (dup: bool)
        requires
            old(self).wf(),
            old(self).keys().len() < usize::MAX,
        ensures
            final(self).wf(),
            final(self).keys() == old(self).keys().push(key@),
            final(self).counted() == old(self).counted().push(true),
            final(self).rows() == old(self).rows().push(row),
            dup == (key_count(old(self).keys(), old(self).counted(), key@) > 0),
    {
        self.record_event(key.0.clone(), row, true)
    }

    /// The number of recorded events.
    pub fn len(&self) -> (n: usize)
        requires
            self.wf(),
        ensures
            n == self.keys().len(),
    {
        proof {
            self.groups.lemma_inv();
        }
        self.rows.len()
    }

    /// The positions of the counted events that carry `key`, or `None` if there are none.
    pub fn positions(&self, key: &Vec<String>) -> (r: Option<&Vec<usize>>)
        requires
            self.wf(),
        ensures
            match r {
                Some(p) => p@ == occ(self.keys(), self.counted(), key.deep_view(), self.keys().len() as int)
                    && p@.len() > 0,
                None => key_count(self.keys(), self.counted(), key.deep_view()) == 0,
            },
    {
        proof {
            self.groups.lemma_inv();
        }
        match self.groups.find(key) {
            Some(g) => Some(self.groups.members(g)),
            None => {
                proof {
                    let k = key.deep_view();
                    if occ(self.keys(), self.counted(), k, self.keys().len() as int).len() > 0 {
                        let g = choose|g: int| 0 <= g < self.groups.keys_view().len() && self.groups.keys_view()[g] == k;
                    }
                }
                None
            },
        }
    }

    /// How many counted events carry `key`.
    pub fn count_of(&self, key: &Vec<String>) -> (n: usize)
        requires
            self.wf(),
        ensures
            n == key_count(self.keys(), self.counted(), key.deep_view()),
    {
        match self.positions(key) {
            Some(p) => p.len(),
            None => 0,
        }
    }

    /// Whether `key` was counted at least twice, which is whether the duplicate
    /// listing holds it.
    pub fn is_duplicate(&self, key: &CompositeKey) -> (dup: bool)
        requires
            self.wf(),
        ensures
            dup == (key_count(self.keys(), self.counted(), key@) >= 2),
            dup == self.listing().contains(key@),
    {
        proof {
            law_duplicate_listing_holds_repeated_keys(*self, key@);
        }
        self.count_of(&key.0) >= 2
    }

    /// The rows at the given event positions.
    fn rows_at(&self, positions: &Vec<usize>) -> (r: Vec<u64>)
        requires
            self.wf(),
            forall|t: int| 0 <= t < positions@.len() ==> positions@[t] < self.rows@.len(),
        ensures
            r@ == positions@.map_values(|p: usize| self.rows@[p as int]),
    {
        let mut r: Vec<u64> = Vec::new();
        let mut t: usize = 0;
        while t < positions.len()
            invariant
                t <= positions.len(),
                forall|s: int| 0 <= s < positions@.len() ==> positions@[s] < self.rows@.len(),
                r@ =~= positions@.take(t as int).map_values(|p: usize| self.rows@[p as int]),
            decreases positions.len() - t,
        {
            r.push(self.rows[positions[t]]);
            t = t + 1;
            proof {
                assert(r@ =~= positions@.take(t as int).map_values(|p: usize| self.rows@[p as int]));
            }
        }
        proof {
            assert(positions@.take(positions.len() as int) =~= positions@);
        }
        r
    }

    /// The keys that occur at least twice, each with its count and rows, in order
    /// of first occurrence.
    pub fn duplicate_keys(&self) -> (r: Vec<(CompositeKey, (u64, Vec<u64>))>)
        requires
            self.wf(),
        ensures
            r@.len() == self.listing().len(),
            forall|t: int| 0 <= t < r@.len() ==> {
                let k = self.listing()[t];
                &&& (#[trigger] r@[t]).0@ == k
                &&& r@[t].1.0 == key_count(self.keys(), self.counted(), k)
                &&& r@[t].1.1@ == key_rows(self.keys(), self.counted(), self.rows(), k)
            },
    {
        proof {
            self.groups.lemma_inv();
        }
        let ghost keys = self.keys();
        let ghost counted = self.counted();
        let ghost fk = self.distinct_keys();
        let mut r: Vec<(CompositeKey, (u64, Vec<u64>))> = Vec::new();
        let mut g: usize = 0;
        while g < self.groups.len()
            invariant
                self.wf(),
                keys == self.keys(),
                counted == self.counted(),
                fk == self.distinct_keys(),
                fk == self.groups.keys_view(),
                g <= fk.len(),
                r@.len() == spec_duplicate_keys(keys, counted, fk, g as int).len(),
                forall|t: int| 0 <= t < r@.len() ==> {
                    let k = spec_duplicate_keys(keys, counted, fk, g as int)[t];
                    &&& (#[trigger] r@[t]).0@ == k
                    &&& r@[t].1.0 == key_count(keys, counted, k)
                    &&& r@[t].1.1@ == key_rows(keys, counted, self.rows(), k)
                },
            decreases fk.len() - g,
        {
            let members = self.groups.members(g);
            proof {
                self.groups.lemma_inv();
                lemma_occ(keys, counted, fk[g as int], keys.len() as int);
            }
            if members.len() >= 2 {
                let rows = self.rows_at(members);
                let key = CompositeKey(self.groups.group_key(g).clone());
                proof {
                    assert(key@ == fk[g as int]);
                }
                r.push((key, (members.len() as u64, rows)));
            }
            g = g + 1;
        }
        r
    }

    /// The duplicate-key reports, one per key that occurs at least twice, in
    /// order of first occurrence.
    pub fn to_infos(&self, source: &str, key_columns: &Vec<String>) -> (r: Vec<DuplicateKeyInfo>)
        requires
            self.wf(),
        ensures
            r.deep_view() == self.reports(source@, key_columns.deep_view()),
    {
        proof {
            self.groups.lemma_inv();
        }
        let ghost keys = self.keys();
        let ghost counted = self.counted();
        let ghost fk = self.distinct_keys();
        let ghost cols = key_columns.deep_view();
        let mut r: Vec<DuplicateKeyInfo> = Vec::new();
        let mut g: usize = 0;
        while g < self.groups.len()
            invariant
                self.wf(),
                keys == self.keys(),
                counted == self.counted(),
                fk == self.distinct_keys(),
                fk == self.groups.keys_view(),
                cols == key_columns.deep_view(),
                g <= fk.len(),
                r.deep_view() == spec_duplicate_infos(source@, cols, keys, counted, self.rows(), fk, g as int),
            decreases fk.len() - g,
        {
            let members = self.groups.members(g);
            proof {
                self.groups.lemma_inv();
                lemma_occ(keys, counted, fk[g as int], keys.len() as int);
            }
            if members.len() >= 2 {
                let rows = self.rows_at(members);
                let key = self.groups.group_key(g);
                let key_values = zip_key(key_columns, key);
                let info = DuplicateKeyInfo {
                    source: owned(source),
                    key_values,
                    count: members.len() as u64,
                    rows,
                };
                let ghost prev = r.deep_view();
                r.push(info);
                proof {
                    assert(info.deep_view() == spec_duplicate_info(source@, cols, keys, counted, self.rows(), fk[g as int]));
                    assert(r.deep_view() =~= prev.push(info.deep_view()));
                }
            }
            g = g + 1;
        }
        r
    }
}

/// Each report of the first `n` is the report of the duplicate key at the same
/// place among the first `n`.
proof fn lemma_infos_follow_keys(
    source: Seq<char>,
    columns: Seq<Seq<char>>,
    keys: Seq<Seq<Seq<char>>>,
    counted: Seq<bool>,
    rows: Seq<u64>,
    fk: Seq<Seq<Seq<char>>>,
    n: int,
)
    ensures
        spec_duplicate_infos(source, columns, keys, counted, rows, fk, n).len() == spec_duplicate_keys(keys, counted, fk, n).len(),
        forall|t: int| 0 <= t < spec_duplicate_keys(keys, counted, fk, n).len() ==>
            spec_duplicate_infos(source, columns, keys, counted, rows, fk, n)[t]
                == spec_duplicate_info(source, columns, keys, counted, rows, #[trigger] spec_duplicate_keys(keys, counted, fk, n)[t]),
    decreases n,
{
    if n > 0 {
        lemma_infos_follow_keys(source, columns, keys, counted, rows, fk, n - 1);
    }
}

/// A key is among the duplicates of the first `n` distinct keys exactly when it
/// is one of them and occurs at least twice.
proof fn lemma_duplicate_keys_contain(keys: Seq<Seq<Seq<char>>>, counted: Seq<bool>, fk: Seq<Seq<Seq<char>>>, n: int, k: Seq<Seq<char>>)
    requires
        0 <= n <= fk.len(),
    ensures
        spec_duplicate_keys(keys, counted, fk, n).contains(k) <==> (fk.take(n).contains(k) && key_count(keys, counted, k) >= 2),
    decreases n,
{
    if n > 0 {
        lemma_duplicate_keys_contain(keys, counted, fk, n - 1, k);
        let rest = spec_duplicate_keys(keys, counted, fk, n - 1);
        assert(fk.take(n) =~= fk.take(n - 1).push(fk[n - 1]));
        if key_count(keys, counted, fk[n - 1]) >= 2 {
            assert(rest.push(fk[n - 1])[rest.len() as int] == fk[n - 1]);
            if rest.contains(k) {
                let i = choose|i: int| 0 <= i < rest.len() && rest[i] == k;
                assert(rest.push(fk[n - 1])[i] == k);
            }
            let longer = rest.push(fk[n - 1]);
            if longer.contains(k) && k != fk[n - 1] {
                let i = choose|i: int| 0 <= i < longer.len() && longer[i] == k;
                assert(rest[i] == k);
            }
        }
        let shorter = fk.take(n - 1);
        let prefix = fk.take(n);
        if shorter.contains(k) {
            let i = choose|i: int| 0 <= i < shorter.len() && shorter[i] == k;
            assert(prefix[i] == k);
        }
        if prefix.contains(k) && k != fk[n - 1] {
            let i = choose|i: int| 0 <= i < prefix.len() && prefix[i] == k;
            assert(shorter[i] == k);
        }
        assert(fk.take(n)[n - 1] == fk[n - 1]);
    }
}

/// The distinct counted keys among the first `n` events are exactly the keys of
/// the counted events among them.
proof fn lemma_first_keys_contain(keys: Seq<Seq<Seq<char>>>, counted: Seq<bool>, n: int, k: Seq<Seq<char>>)
    requires
        0 <= n <= keys.len(),
        keys.len() == counted.len(),
    ensures
        first_keys(keys, counted, n).contains(k) <==> occ(keys, counted, k, n).len() > 0,
    decreases n,
{
    if n > 0 {
        lemma_first_keys_contain(keys, counted, n - 1, k);
        let rest = first_keys(keys, counted, n - 1);
        let x = keys[n - 1];
        if counted[n - 1] && occ(keys, counted, x, n - 1).len() == 0 {
            assert(rest.push(x)[rest.len() as int] == x);
            if rest.contains(k) {
                let i = choose|i: int| 0 <= i < rest.len() && rest[i] == k;
                assert(rest.push(x)[i] == k);
            }
            let longer = rest.push(x);
            if longer.contains(k) && k != x {
                let i = choose|i: int| 0 <= i < longer.len() && longer[i] == k;
                assert(rest[i] == k);
            }
        }
        if occ(keys, counted, k, n - 1).len() > 0 {
            assert(occ(keys, counted, k, n).len() > 0);
        }
    }
}

/// The rows of `occ` positions below the old length are unchanged by appending a row.
proof fn lemma_rows_of_positions(keys: Seq<Seq<Seq<char>>>, counted: Seq<bool>, rows: Seq<u64>, row: u64, k: Seq<Seq<char>>)
    requires
        keys.len() == counted.len(),
        rows.len() == keys.len(),
        keys.len() < usize::MAX,
    ensures
        occ(keys, counted, k, keys.len() as int).map_values(|p: usize| rows.push(row)[p as int])
            == occ(keys, counted, k, keys.len() as int).map_values(|p: usize| rows[p as int]),
{
    lemma_occ(keys, counted, k, keys.len() as int);
    assert(occ(keys, counted, k, keys.len() as int).map_values(|p: usize| rows.push(row)[p as int])
        =~= occ(keys, counted, k, keys.len() as int).map_values(|p: usize| rows[p as int]));
}

/// The keys recorded as counted at least twice.
pub open spec fn spec_repeated_keys(keys: Seq<Seq<Seq<char>>>, counted: Seq<bool>) -> Set<Seq<Seq<char>>> {
    Set::new(|k: Seq<Seq<char>>| key_count(keys, counted, k) >= 2)
}

/// The distinct counted keys are distinct.
proof fn lemma_first_keys_distinct(keys: Seq<Seq<Seq<char>>>, counted: Seq<bool>, n: int)
    requires
        0 <= n <= keys.len(),
        keys.len() == counted.len(),
    ensures
        first_keys(keys, counted, n).no_duplicates(),
    decreases n,
{
    if n > 0 {
        lemma_first_keys_distinct(keys, counted, n - 1);
        let rest = first_keys(keys, counted, n - 1);
        let x = keys[n - 1];
        if counted[n - 1] && occ(keys, counted, x, n - 1).len() == 0 {
            lemma_first_keys_contain(keys, counted, n - 1, x);
            assert forall|i: int, j: int| 0 <= i < rest.len() + 1 && 0 <= j < rest.len() + 1 && i != j
                implies rest.push(x)[i] != rest.push(x)[j] by {
                if i == rest.len() {
                    assert(rest[j] != x);
                } else if j == rest.len() {
                    assert(rest[i] != x);
                }
            }
        }
    }
}

/// The duplicates among distinct keys are distinct.
proof fn lemma_duplicate_keys_distinct(keys: Seq<Seq<Seq<char>>>, counted: Seq<bool>, fk: Seq<Seq<Seq<char>>>, n: int)
    requires
        0 <= n <= fk.len(),
        fk.no_duplicates(),
    ensures
        spec_duplicate_keys(keys, counted, fk, n).no_duplicates(),
    decreases n,
{
    if n > 0 {
        lemma_duplicate_keys_distinct(keys, counted, fk, n - 1);
        let rest = spec_duplicate_keys(keys, counted, fk, n - 1);
        let x = fk[n - 1];
        if key_count(keys, counted, x) >= 2 {
            lemma_duplicate_keys_contain(keys, counted, fk, n - 1, x);
            let prefix = fk.take(n - 1);
            if prefix.contains(x) {
                let i = choose|i: int| 0 <= i < prefix.len() && prefix[i] == x;
                assert(fk[i] == x);
            }
            assert forall|i: int, j: int| 0 <= i < rest.len() + 1 && 0 <= j < rest.len() + 1 && i != j
                implies rest.push(x)[i] != rest.push(x)[j] by {
                if i == rest.len() {
                    assert(rest[j] != x);
                } else if j == rest.len() {
                    assert(rest[i] != x);
                }
            }
        }
    }
}

/// There are as many duplicate-key reports as keys recorded as counted at least twice.
pub proof fn lemma_report_count_is_repeated_keys(
    source: Seq<char>,
    columns: Seq<Seq<char>>,
    keys: Seq<Seq<Seq<char>>>,
    counted: Seq<bool>,
    rows: Seq<u64>,
)
    requires
        keys.len() == counted.len(),
    ensures
        spec_repeated_keys(keys, counted).finite(),
        spec_duplicate_infos(
            source,
            columns,
            keys,
            counted,
            rows,
            first_keys(keys, counted, keys.len() as int),
            first_keys(keys, counted, keys.len() as int).len() as int,
        ).len() == spec_repeated_keys(keys, counted).len(),
{
    let fk = first_keys(keys, counted, keys.len() as int);
    let dk = spec_duplicate_keys(keys, counted, fk, fk.len() as int);
    lemma_infos_follow_keys(source, columns, keys, counted, rows, fk, fk.len() as int);
    lemma_first_keys_distinct(keys, counted, keys.len() as int);
    lemma_duplicate_keys_distinct(keys, counted, fk, fk.len() as int);
    assert forall|k: Seq<Seq<char>>| #[trigger] dk.to_set().contains(k) == spec_repeated_keys(keys, counted).contains(k) by {
        lemma_duplicate_keys_contain(keys, counted, fk, fk.len() as int, k);
        lemma_first_keys_contain(keys, counted, keys.len() as int, k);
        assert(fk.take(fk.len() as int) =~= fk);
    }
    assert(dk.to_set() =~= spec_repeated_keys(keys, counted));
    dk.unique_seq_to_set();
}

/// Law: the duplicate-key reports name the keys of the duplicate listing, in the
/// same order, one report per key, each with that key's values against the key
/// columns, its count and its rows.
pub proof fn law_reports_follow_duplicate_listing(t: DuplicateTracker, source: Seq<char>, columns: Seq<Seq<char>>)
    ensures
        ({
            let dk = spec_duplicate_keys(t.keys(), t.counted(), t.distinct_keys(), t.distinct_keys().len() as int);
            let infos = spec_duplicate_infos(
                source,
                columns,
                t.keys(),
                t.counted(),
                t.rows(),
                t.distinct_keys(),
                t.distinct_keys().len() as int,
            );
            &&& infos.len() == dk.len()
            &&& forall|i: int| 0 <= i < dk.len() ==> #[trigger] infos[i] == DuplicateKeyInfoSpec {
                source,
                key_values: spec_zip_key(columns, dk[i]),
                count: key_count(t.keys(), t.counted(), dk[i]) as u64,
                rows: key_rows(t.keys(), t.counted(), t.rows(), dk[i]),
            }
        }),
{
    lemma_infos_follow_keys(
        source,
        columns,
        t.keys(),
        t.counted(),
        t.rows(),
        t.distinct_keys(),
        t.distinct_keys().len() as int,
    );
}

/// Law: a key is in the duplicate listing exactly when it was recorded as
/// counted at least twice, which is what `is_duplicate` answers.
pub proof fn law_duplicate_listing_holds_repeated_keys(t: DuplicateTracker, k: Seq<Seq<char>>)
    requires
        t.wf(),
    ensures
        spec_duplicate_keys(t.keys(), t.counted(), t.distinct_keys(), t.distinct_keys().len() as int).contains(k)
            <==> key_count(t.keys(), t.counted(), k) >= 2,
{
    t.lemma_wf_lengths();
    let fk = t.distinct_keys();
    lemma_duplicate_keys_contain(t.keys(), t.counted(), fk, fk.len() as int, k);
    lemma_first_keys_contain(t.keys(), t.counted(), t.keys().len() as int, k);
    assert(fk.take(fk.len() as int) =~= fk);
}

/// Law: recording key `k` at `row` (as `record` does) adds one to the count of
/// `k` and appends `row` to its rows; every other key keeps its count and rows.
pub proof fn law_record_extends_key(before: DuplicateTracker, after: DuplicateTracker, k: Seq<Seq<char>>, row: u64, other: Seq<Seq<char>>)
    requires
        before.wf(),
        before.keys().len() < usize::MAX,
        after.keys() == before.keys().push(k),
        after.counted() == before.counted().push(true),
        after.rows() == before.rows().push(row),
    ensures
        key_count(after.keys(), after.counted(), k) == key_count(before.keys(), before.counted(), k) + 1,
        key_rows(after.keys(), after.counted(), after.rows(), k) == key_rows(before.keys(), before.counted(), before.rows(), k).push(row),
        other != k ==> key_count(after.keys(), after.counted(), other) == key_count(before.keys(), before.counted(), other),
        other != k ==> key_rows(after.keys(), after.counted(), after.rows(), other)
            == key_rows(before.keys(), before.counted(), before.rows(), other),
{
    before.lemma_wf_lengths();
    let keys = before.keys();
    let counted = before.counted();
    let rows = before.rows();
    let n = keys.len() as int;
    lemma_occ_extend(keys, counted, k, true, k, n);
    lemma_occ_extend(keys, counted, k, true, other, n);
    assert(keys.push(k)[n] == k);
    assert(counted.push(true)[n]);
    lemma_rows_of_positions(keys, counted, rows, row, k);
    lemma_rows_of_positions(keys, counted, rows, row, other);
    let old_k = occ(keys, counted, k, n);
    assert(occ(keys.push(k), counted.push(true), k, n + 1) == old_k.push(n as usize));
    assert(old_k.push(n as usize).map_values(|p: usize| rows.push(row)[p as int])
        =~= old_k.map_values(|p: usize| rows.push(row)[p as int]).push(row));
}

/// Law: `to_infos` gives exactly one report for each key counted at least
/// twice, and none for any other key: the reports follow the listing one for
/// one, the listing names no key twice, and it names exactly the keys counted
/// at least twice.
pub proof fn law_one_report_per_repeated_key(t: DuplicateTracker, source: Seq<char>, columns: Seq<Seq<char>>, k: Seq<Seq<char>>)
    requires
        t.wf(),
    ensures
        t.reports(source, columns).len() == t.listing().len(),
        forall|i: int| 0 <= i < t.listing().len() ==> #[trigger] t.reports(source, columns)[i] == t.report_of(source, columns, t.listing()[i]),
        key_count(t.keys(), t.counted(), k) >= 2 ==> exists|i: int|
            0 <= i < t.listing().len() && #[trigger] t.listing()[i] == k && t.reports(source, columns)[i] == t.report_of(source, columns, k)
                && forall|j: int| 0 <= j < t.listing().len() && #[trigger] t.listing()[j] == k ==> j == i,
        key_count(t.keys(), t.counted(), k) < 2 ==> forall|i: int| 0 <= i < t.listing().len() ==> #[trigger] t.listing()[i] != k,
{
    t.lemma_wf_lengths();
    let fk = t.distinct_keys();
    let dk = t.listing();
    lemma_infos_follow_keys(source, columns, t.keys(), t.counted(), t.rows(), fk, fk.len() as int);
    lemma_first_keys_distinct(t.keys(), t.counted(), t.keys().len() as int);
    lemma_duplicate_keys_distinct(t.keys(), t.counted(), fk, fk.len() as int);
    law_duplicate_listing_holds_repeated_keys(t, k);
    if key_count(t.keys(), t.counted(), k) >= 2 {
        let i = choose|i: int| 0 <= i < dk.len() && dk[i] == k;
        assert(t.reports(source, columns)[i] == t.report_of(source, columns, dk[i]));
        assert forall|j: int| 0 <= j < dk.len() && #[trigger] dk[j] == k implies j == i by {
            if j != i {
                assert(dk[i] != dk[j]);
            }
        }
    } else {
        assert forall|i: int| 0 <= i < dk.len() implies #[trigger] dk[i] != k by {
            if dk[i] == k {
                assert(dk.contains(k));
            }
        }
    }
}

/// Law: recording key `k` at `row` (as `record` does) after `j` earlier counted
/// occurrences of `k`: the answer is whether `j >= 1`; `k` is listed afterwards
/// exactly when `j >= 1`, and its report then counts `j + 1` with the rows of
/// the earlier occurrences, in order, followed by `row`; every other key is
/// listed as before, with the same report.
pub proof fn law_record_updates_reports(
    before: DuplicateTracker,
    after: DuplicateTracker,
    k: Seq<Seq<char>>,
    row: u64,
    other: Seq<Seq<char>>,
    source: Seq<char>,
    columns: Seq<Seq<char>>,
)
    requires
        before.wf(),
        after.wf(),
        before.keys().len() < usize::MAX,
        after.keys() == before.keys().push(k),
        after.counted() == before.counted().push(true),
        after.rows() == before.rows().push(row),
    ensures
        ({
            let j = key_count(before.keys(), before.counted(), k);
            &&& key_rows(before.keys(), before.counted(), before.rows(), k).len() == j
            &&& after.listing().contains(k) <==> j >= 1
            &&& after.report_of(source, columns, k) == DuplicateKeyInfoSpec {
                source,
                key_values: spec_zip_key(columns, k),
                count: (j + 1) as u64,
                rows: key_rows(before.keys(), before.counted(), before.rows(), k).push(row),
            }
        }),
        other != k ==> (after.listing().contains(other) <==> before.listing().contains(other)),
        other != k ==> after.report_of(source, columns, other) == before.report_of(source, columns, other),
{
    law_record_extends_key(before, after, k, row, other);
    law_duplicate_listing_holds_repeated_keys(after, k);
    law_duplicate_listing_holds_repeated_keys(after, other);
    law_duplicate_listing_holds_repeated_keys(before, other);
}

/// Law: `is_duplicate(k)` (a key counted at least twice; with `record`, one
/// recorded at least twice) holds exactly when `k` is in the duplicate listing,
/// that is, exactly when a report of `to_infos` is for `k`.
pub proof fn law_is_duplicate_iff_listed(t: DuplicateTracker, source: Seq<char>, columns: Seq<Seq<char>>, k: Seq<Seq<char>>)
    requires
        t.wf(),
    ensures
        key_count(t.keys(), t.counted(), k) >= 2 <==> t.listing().contains(k),
        key_count(t.keys(), t.counted(), k) >= 2 <==> exists|i: int|
            0 <= i < t.reports(source, columns).len() && #[trigger] t.listing()[i] == k
                && t.reports(source, columns)[i] == t.report_of(source, columns, k),
{
    law_one_report_per_repeated_key(t, source, columns, k);
    law_duplicate_listing_holds_repeated_keys(t, k);
    if t.listing().contains(k) {
        let i = choose|i: int| 0 <= i < t.listing().len() && t.listing()[i] == k;
        assert(t.reports(source, columns)[i] == t.report_of(source, columns, t.listing()[i]));
    }
}

impl Default for DuplicateTracker {
    fn default() -> (t: Self)
        ensures
            t.wf(),
            t.keys().len() == 0,
            t.counted().len() == 0,
            t.rows().len() == 0,
    {
        Self::new()
    }
}

/// Key columns paired with the values of a key, as far as both reach.
pub fn zip_key(columns: &Vec<String>, key: &Vec<String>) -> (r: Vec<KeyValue>)
    ensures
        r.deep_view() == spec_zip_key(columns.deep_view(), key.deep_view()),
{
    let n = if columns.len() <= key.len() {
        columns.len()
    } else {
        key.len()
    };
    let ghost target = spec_zip_key(columns.deep_view(), key.deep_view());
    let mut r: Vec<KeyValue> = Vec::new();
    let mut t: usize = 0;
    while t < n
        invariant
            t <= n,
            n <= columns.len(),
            n <= key.len(),
            target == spec_zip_key(columns.deep_view(), key.deep_view()),
            target.len() == n,
            r.deep_view() =~= target.take(t as int),
        decreases n - t,
    {
        let kv = KeyValue { column: columns[t].clone(), value: key[t].clone() };
        let ghost prev = r.deep_view();
        r.push(kv);
        proof {
            assert(r.deep_view() =~= prev.push(kv.deep_view()));
        }
        t = t + 1;
        proof {
            assert(r.deep_view() =~= target.take(t as int));
        }
    }
    proof {
        assert(target.take(n as int) =~= target);
    }
    r
}

/// A copy of a list of key values.
pub fn copy_key_values(v: &Vec<KeyValue>) -> (r: Vec<KeyValue>)
    ensures
        r.deep_view() == v.deep_view(),
{
    let mut r: Vec<KeyValue> = Vec::new();
    let mut t: usize = 0;
    while t < v.len()
        invariant
            t <= v.len(),
            r.deep_view() =~= v.deep_view().take(t as int),
        decreases v.len() - t,
    {
        let kv = KeyValue { column: v[t].column.clone(), value: v[t].value.clone() };
        let ghost prev = r.deep_view();
        r.push(kv);
        proof {
            assert(r.deep_view() =~= prev.push(kv.deep_view()));
        }
        t = t + 1;
        proof {
            assert(r.deep_view() =~= v.deep_view().take(t as int));
        }
    }
    proof {
        assert(v.deep_view().take(v.len() as int) =~= v.deep_view());
    }
    r
}

/// The key-problem difference that a key status calls for, if any.
pub open spec fn spec_key_status_diff(status: KeyStatus, is_a: bool, key_values: Seq<KeyValueSpec>, row: u64) -> Option<DifferenceSpec> {
    match status {
        KeyStatus::Valid => None,
        _ => Some(
            DifferenceSpec {
                key_values,
                row_a: if is_a {
                    Some(row)
                } else {
                    None
                },
                row_b: if is_a {
                    None
                } else {
                    Some(row)
                },
                column_name: None,
                value_a: None,
                value_b: None,
                difference_type: match (is_a, status) {
                    (true, KeyStatus::Empty) => DifferenceType::EmptyKeyA,
                    (true, _) => DifferenceType::IncompleteKeyA,
                    (false, KeyStatus::Empty) => DifferenceType::EmptyKeyB,
                    (false, _) => DifferenceType::IncompleteKeyB,
                },
            },
        ),
    }
}

/// Classify a key and report the matching difference type.
pub fn key_status_diff(status: KeyStatus, is_a: bool, key_values: &Vec<KeyValue>, row: u64) -> (r: Option<Difference>)
    ensures
        r.deep_view() == spec_key_status_diff(status, is_a, key_values.deep_view(), row),
{
    let difference_type = match (is_a, status) {
        (true, KeyStatus::Empty) => DifferenceType::EmptyKeyA,
        (true, KeyStatus::Incomplete) => DifferenceType::IncompleteKeyA,
        (false, KeyStatus::Empty) => DifferenceType::EmptyKeyB,
        (false, KeyStatus::Incomplete) => DifferenceType::IncompleteKeyB,
        (_, KeyStatus::Valid) => return None,
    };
    Some(
        Difference {
            key_values: copy_key_values(key_values),
            row_a: if is_a {
                Some(row)
            } else {
                None
            },
            row_b: if is_a {
                None
            } else {
                Some(row)
            },
            column_name: None,
            value_a: None,
            value_b: None,
            difference_type,
        },
    )
}

} // verus!
