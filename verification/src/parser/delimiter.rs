use std::collections::HashMap;
use vstd::prelude::*;

use crate::parser::delimited_parser::{csv_records, read_delimited};
use crate::text::contains_char;

verus! {

broadcast use vstd::std_specs::hash::group_hash_axioms;

/// The delimiters that detection tries, in the order in which it tries them.
pub open spec fn spec_candidates() -> Seq<u8> {
    seq![0x2Cu8, 0x3Bu8, 0x09u8, 0x7Cu8, 0x3Au8]
}

/// The field counts of the non-empty records that precede the first read error.
pub open spec fn spec_field_counts(entries: Seq<(bool, Seq<Seq<char>>)>) -> Seq<usize>
    decreases entries.len(),
{
    if entries.len() == 0 || !entries[0].0 {
        Seq::empty()
    } else {
        let rest = spec_field_counts(entries.drop_first());
        if entries[0].1.len() > 0 {
            seq![entries[0].1.len() as usize] + rest
        } else {
            rest
        }
    }
}

/// How often `c` occurs in `counts`.
pub open spec fn spec_frequency(counts: Seq<usize>, c: usize) -> nat
    decreases counts.len(),
{
    if counts.len() == 0 {
        0
    } else {
        spec_frequency(counts.drop_last(), c) + if counts.last() == c {
            1nat
        } else {
            0nat
        }
    }
}

/// `m` is the most common count, the larger one winning a tie.
pub open spec fn is_mode(counts: Seq<usize>, m: usize) -> bool {
    &&& counts.contains(m)
    &&& forall|i: int|
        0 <= i < counts.len() ==> spec_frequency(counts, #[trigger] counts[i]) < spec_frequency(counts, m)
            || (spec_frequency(counts, counts[i]) == spec_frequency(counts, m) && counts[i] <= m)
}

/// The mode of a non-empty sequence of counts.
pub open spec fn spec_mode(counts: Seq<usize>) -> usize {
    choose|m: usize| is_mode(counts, m)
}

/// `matching * 1000 + mode`, each step saturating at `u64::MAX`.
pub open spec fn spec_score(matching: nat, mode: usize) -> u64 {
    let scaled: int = if matching * 1000 > u64::MAX {
        u64::MAX as int
    } else {
        (matching * 1000) as int
    };
    if scaled + mode > u64::MAX {
        u64::MAX
    } else {
        (scaled + mode) as u64
    }
}

/// The score of one candidate on a sample, or `None` when the candidate does
/// not occur in it or does not split its records into at least two fields.
pub open spec fn spec_candidate_score(sample: Seq<char>, d: u8) -> Option<u64> {
    let counts = spec_field_counts(csv_records(sample, d));
    if !sample.contains(d as char) || counts.len() == 0 || spec_mode(counts) < 2 {
        None
    } else {
        Some(spec_score(spec_frequency(counts, spec_mode(counts)), spec_mode(counts)))
    }
}

/// The best of the first `k` candidates with its score: the first one whose
/// score is strictly greater than that of every earlier scored candidate.
pub open spec fn spec_best_upto(sample: Seq<char>, k: int) -> Option<(u8, u64)>
    decreases k,
{
    if k <= 0 {
        None
    } else {
        let prev = spec_best_upto(sample, k - 1);
        let d = spec_candidates()[k - 1];
        match spec_candidate_score(sample, d) {
            None => prev,
            Some(score) => match prev {
                Some(b) => if score > b.1 {
                    Some((d, score))
                } else {
                    prev
                },
                None => Some((d, score)),
            },
        }
    }
}

/// The delimiter detected in a sample, if any.
pub open spec fn spec_detect_delimiter(sample: Seq<char>) -> Option<u8> {
    match spec_best_upto(sample, 5) {
        Some(b) => Some(b.0),
        None => None,
    }
}

proof fn lemma_mode_unique(counts: Seq<usize>, a: usize, b: usize)
    requires
        is_mode(counts, a),
        is_mode(counts, b),
    ensures
        a == b,
{
    let ia = choose|i: int| 0 <= i < counts.len() && counts[i] == a;
    let ib = choose|i: int| 0 <= i < counts.len() && counts[i] == b;
    assert(counts[ia] == a);
    assert(counts[ib] == b);
}

proof fn lemma_frequency_bound(counts: Seq<usize>, c: usize)
    ensures
        spec_frequency(counts, c) <= counts.len(),
    decreases counts.len(),
{
    if counts.len() > 0 {
        lemma_frequency_bound(counts.drop_last(), c);
    }
}

proof fn lemma_frequency_positive(counts: Seq<usize>, i: int)
    requires
        0 <= i < counts.len(),
    ensures
        spec_frequency(counts, counts[i]) > 0,
    decreases counts.len(),
{
    if i < counts.len() - 1 {
        lemma_frequency_positive(counts.drop_last(), i);
    }
}

/// The field counts of the non-empty records read before the first error.
fn field_counts(entries: &Vec<(bool, Vec<String>)>) -> (counts: Vec<usize>)
    ensures
        counts@ == spec_field_counts(entries.deep_view()),
{
    let ghost all = entries.deep_view();
    let mut counts: Vec<usize> = Vec::new();
    let mut i: usize = 0;
    proof {
        assert(all.skip(0) =~= all);
    }
    while i < entries.len()
        invariant
            all == entries.deep_view(),
            i <= entries.len(),
            counts@ + spec_field_counts(all.skip(i as int)) == spec_field_counts(all),
        decreases entries.len() - i,
    {
        let ghost rest = all.skip(i as int);
        proof {
            assert(rest[0] == entries@[i as int].deep_view());
            assert(rest.drop_first() =~= all.skip(i + 1));
        }
        if !entries[i].0 {
            proof {
                assert(counts@ + Seq::<usize>::empty() =~= counts@);
            }
            return counts;
        }
        let n = entries[i].1.len();
        if n > 0 {
            counts.push(n);
            proof {
                let tail = spec_field_counts(all.skip(i + 1));
                assert(counts@ + tail =~= counts@.drop_last() + (seq![n] + tail));
            }
        }
        i = i + 1;
    }
    proof {
        assert(all.skip(i as int).len() == 0);
        assert(counts@ + Seq::<usize>::empty() =~= counts@);
    }
    counts
}

/// The mode of non-empty counts together with how often it occurs.
fn mode_of(counts: &Vec<usize>) -> (r: (usize, u64))
    requires
        counts.len() > 0,
    ensures
        is_mode(counts@, r.0),
        r.0 == spec_mode(counts@),
        r.1 == spec_frequency(counts@, r.0),
{
    let ghost cs = counts@;
    let mut frequency: HashMap<usize, u64> = HashMap::new();
    let mut i: usize = 0;
    while i < counts.len()
        invariant
            cs == counts@,
            i <= counts.len(),
            forall|c: usize| #[trigger] frequency@.contains_key(c) <==> spec_frequency(cs.take(i as int), c) > 0,
            forall|c: usize| #[trigger] frequency@.contains_key(c) ==> frequency@[c] == spec_frequency(cs.take(i as int), c),
        decreases counts.len() - i,
    {
        let ghost prev = cs.take(i as int);
        proof {
            assert(cs.take(i + 1).drop_last() =~= prev);
            lemma_frequency_bound(prev, cs[i as int]);
        }
        let c = counts[i];
        let f: u64 = match frequency.get(&c) {
            Some(f) => *f,
            None => 0,
        };
        frequency.insert(c, f + 1);
        i = i + 1;
    }
    proof {
        assert(cs.take(counts.len() as int) =~= cs);
        lemma_frequency_positive(cs, 0);
    }
    let mut best: usize = counts[0];
    let mut best_f: u64 = match frequency.get(&best) {
        Some(f) => *f,
        None => 0,
    };
    let mut t: usize = 1;
    while t < counts.len()
        invariant
            cs == counts@,
            1 <= t <= counts.len(),
            forall|c: usize| #[trigger] frequency@.contains_key(c) <==> spec_frequency(cs, c) > 0,
            forall|c: usize| #[trigger] frequency@.contains_key(c) ==> frequency@[c] == spec_frequency(cs, c),
            exists|j: int| 0 <= j < t && cs[j] == best,
            best_f == spec_frequency(cs, best),
            forall|j: int|
                0 <= j < t ==> spec_frequency(cs, #[trigger] cs[j]) < best_f
                    || (spec_frequency(cs, cs[j]) == best_f && cs[j] <= best),
        decreases counts.len() - t,
    {
        proof {
            lemma_frequency_positive(cs, t as int);
        }
        let c = counts[t];
        let f: u64 = match frequency.get(&c) {
            Some(f) => *f,
            None => 0,
        };
        if f > best_f || (f == best_f && c > best) {
            best = c;
            best_f = f;
        }
        t = t + 1;
    }
    proof {
        assert(is_mode(cs, best));
        lemma_mode_unique(cs, best, spec_mode(cs));
    }
    (best, best_f)
}

fn score_of(matching: u64, mode: usize) -> (s: u64)
    ensures
        s == spec_score(matching as nat, mode),
{
    let scaled: u64 = if matching > u64::MAX / 1000 {
        u64::MAX
    } else {
        matching * 1000
    };
    let m = mode as u64;
    if scaled > u64::MAX - m {
        u64::MAX
    } else {
        scaled + m
    }
}

fn candidate_score(sample: &str, d: u8) -> (r: Option<u64>)
    requires
        d < 0x80,
    ensures
        r == spec_candidate_score(sample@, d),
{
    if !contains_char(sample, d as char) {
        return None;
    }
    let entries = read_delimited(sample, d);
    let counts = field_counts(&entries);
    if counts.len() == 0 {
        return None;
    }
    let (mode, matching) = mode_of(&counts);
    if mode < 2 {
        return None;
    }
    Some(score_of(matching, mode))
}

/// Detect the most likely delimiter from a decoded UTF-8 sample: the candidate
/// whose records most often share one field count of at least two.
pub fn detect_delimiter(sample: &str) -> (r: Option<u8>)
    ensures
        r == spec_detect_delimiter(sample@),
{
    let candidates: [u8; 5] = [0x2C, 0x3B, 0x09, 0x7C, 0x3A];
    proof {
        assert(candidates@ =~= spec_candidates());
    }
    let mut best: Option<(u8, u64)> = None;
    let mut k: usize = 0;
    while k < 5
        invariant
            k <= 5,
            candidates@ == spec_candidates(),
            best == spec_best_upto(sample@, k as int),
        decreases 5 - k,
    {
        let d = candidates[k];
        match candidate_score(sample, d) {
            None => {},
            Some(score) => {
                let replace = match best {
                    Some(b) => score > b.1,
                    None => true,
                };
                if replace {
                    best = Some((d, score));
                }
            },
        }
        k = k + 1;
    }
    match best {
        Some(b) => Some(b.0),
        None => None,
    }
}

/// The name under which a delimiter is shown.
pub open spec fn spec_delimiter_label(d: u8) -> Seq<char> {
    if d == 0x2C {
        "Comma (,)"@
    } else if d == 0x3B {
        "Semicolon (;)"@
    } else if d == 0x09 {
        "Tab"@
    } else if d == 0x7C {
        "Pipe (|)"@
    } else if d == 0x3A {
        "Colon (:)"@
    } else {
        "Custom ("@ + seq![d as char] + ")"@
    }
}

pub fn delimiter_label(d: u8) -> (s: String)
    ensures
        s@ == spec_delimiter_label(d),
{
    if d == 0x2C {
        crate::text::owned("Comma (,)")
    } else if d == 0x3B {
        crate::text::owned("Semicolon (;)")
    } else if d == 0x09 {
        crate::text::owned("Tab")
    } else if d == 0x7C {
        crate::text::owned("Pipe (|)")
    } else if d == 0x3A {
        crate::text::owned("Colon (:)")
    } else {
        let mut s = crate::text::owned("Custom (");
        s.append(crate::text::char_text(d as char).as_str());
        s.append(")");
        s
    }
}

proof fn lemma_best_is_candidate(sample: Seq<char>, k: int)
    requires
        0 <= k <= 5,
    ensures
        spec_best_upto(sample, k) matches Some(b) ==> exists|t: int|
            0 <= t < k && spec_candidates()[t] == b.0 && #[trigger] spec_candidate_score(sample, spec_candidates()[t]) is Some,
    decreases k,
{
    if k > 0 {
        lemma_best_is_candidate(sample, k - 1);
    }
}

/// A detected delimiter is one of the candidates, occurs in the sample, and
/// splits the sample's records into at least two fields most often.
pub proof fn law_detected_delimiter_is_candidate(sample: Seq<char>)
    ensures
        spec_detect_delimiter(sample) matches Some(d) ==> {
            &&& spec_candidates().contains(d)
            &&& sample.contains(d as char)
            &&& spec_mode(spec_field_counts(csv_records(sample, d))) >= 2
        },
{
    lemma_best_is_candidate(sample, 5);
    if let Some(b) = spec_best_upto(sample, 5) {
        let t = choose|t: int|
            0 <= t < 5 && spec_candidates()[t] == b.0 && #[trigger] spec_candidate_score(sample, spec_candidates()[t]) is Some;
        assert(spec_candidates()[t] == b.0);
    }
}

/// Whether candidate `d` can be chosen for a sample: it occurs in it, and the
/// most common field count of the records it splits the sample into is at
/// least two.
pub open spec fn spec_eligible(sample: Seq<char>, d: u8) -> bool {
    let counts = spec_field_counts(csv_records(sample, d));
    sample.contains(d as char) && counts.len() > 0 && spec_mode(counts) >= 2
}

/// For candidate `d`: how many records have the most common field count.
pub open spec fn spec_matching(sample: Seq<char>, d: u8) -> nat {
    let counts = spec_field_counts(csv_records(sample, d));
    spec_frequency(counts, spec_mode(counts))
}

/// For candidate `d`: the most common field count.
pub open spec fn spec_modal_count(sample: Seq<char>, d: u8) -> nat {
    spec_mode(spec_field_counts(csv_records(sample, d))) as nat
}

/// How candidate `d` ranks: a thousand per record with the most common field
/// count, plus that count, capped at `u64::MAX`.
pub open spec fn spec_rank(sample: Seq<char>, d: u8) -> int {
    let v: int = (1000 * spec_matching(sample, d) + spec_modal_count(sample, d)) as int;
    if v > u64::MAX { u64::MAX as int } else { v }
}

/// What the first `k` candidates come to: the best is the earliest of those
/// ranked highest among the eligible ones.
proof fn lemma_best_upto(sample: Seq<char>, k: int)
    requires
        0 <= k <= 5,
    ensures
        match spec_best_upto(sample, k) {
            None => forall|j: int| 0 <= j < k ==> !spec_eligible(sample, #[trigger] spec_candidates()[j]),
            Some((d, sc)) => exists|i: int|
                0 <= i < k && #[trigger] spec_candidates()[i] == d && spec_eligible(sample, d) && sc == spec_rank(sample, d)
                    && (forall|j: int| 0 <= j < k && spec_eligible(sample, #[trigger] spec_candidates()[j])
                        ==> spec_rank(sample, spec_candidates()[j]) <= sc)
                    && (forall|j: int| 0 <= j < i && spec_eligible(sample, #[trigger] spec_candidates()[j])
                        ==> spec_rank(sample, spec_candidates()[j]) < sc),
        },
    decreases k,
{
    if k > 0 {
        lemma_best_upto(sample, k - 1);
        let d = spec_candidates()[k - 1];
        let counts = spec_field_counts(csv_records(sample, d));
        if spec_eligible(sample, d) {
            let m = spec_frequency(counts, spec_mode(counts));
            let mode = spec_mode(counts);
            assert(spec_candidate_score(sample, d) == Some(spec_score(m, mode)));
            assert(spec_score(m, mode) == spec_rank(sample, d));
        } else {
            assert(spec_candidate_score(sample, d) is None);
        }
    }
}

/// Law: the detected delimiter is one of the candidates (comma, semicolon, tab,
/// pipe, colon) that occurs in the sample and splits its records into a most
/// common field count of at least two; among those it has the most records with
/// their most common field count, then the largest such count (ranked as
/// `1000 * records + count`, capped), the earliest candidate winning a tie. No
/// delimiter is detected exactly when no candidate qualifies.
pub proof fn law_detected_delimiter_ranks_highest(sample: Seq<char>)
    ensures
        match spec_detect_delimiter(sample) {
            None => forall|j: int| 0 <= j < 5 ==> !spec_eligible(sample, #[trigger] spec_candidates()[j]),
            Some(d) => exists|i: int|
                0 <= i < 5 && #[trigger] spec_candidates()[i] == d && spec_eligible(sample, d)
                    && (forall|j: int| 0 <= j < 5 && spec_eligible(sample, #[trigger] spec_candidates()[j])
                        ==> spec_rank(sample, spec_candidates()[j]) <= spec_rank(sample, d))
                    && (forall|j: int| 0 <= j < i && spec_eligible(sample, #[trigger] spec_candidates()[j])
                        ==> spec_rank(sample, spec_candidates()[j]) < spec_rank(sample, d)),
        },
{
    lemma_best_upto(sample, 5);
}

/// Law: between two candidates whose most common field count is below 1000
/// and whose ranks are not capped, more records with the most common field
/// count wins over a larger count: the detected delimiter has at least as many
/// such records as any other qualifying candidate, and as large a count when
/// the numbers of records are equal.
pub proof fn law_stable_records_outweigh_field_count(sample: Seq<char>, d: u8, c: u8)
    requires
        spec_detect_delimiter(sample) == Some(d),
        spec_candidates().contains(c),
        spec_eligible(sample, c),
        spec_modal_count(sample, c) < 1000,
        spec_modal_count(sample, d) < 1000,
        1000 * spec_matching(sample, d) + spec_modal_count(sample, d) <= u64::MAX,
        1000 * spec_matching(sample, c) + spec_modal_count(sample, c) <= u64::MAX,
    ensures
        spec_matching(sample, c) <= spec_matching(sample, d),
        spec_matching(sample, c) == spec_matching(sample, d) ==> spec_modal_count(sample, c) <= spec_modal_count(sample, d),
{
    law_detected_delimiter_ranks_highest(sample);
    let j = choose|j: int| 0 <= j < spec_candidates().len() && spec_candidates()[j] == c;
    assert(spec_rank(sample, spec_candidates()[j]) <= spec_rank(sample, d));
    let mc = spec_matching(sample, c) as int;
    let md = spec_matching(sample, d) as int;
    let xc = spec_modal_count(sample, c) as int;
    let xd = spec_modal_count(sample, d) as int;
    assert(1000 * mc + xc <= 1000 * md + xd);
    assert(mc <= md) by (nonlinear_arith)
        requires
            1000 * mc + xc <= 1000 * md + xd,
            xc >= 0,
            xd < 1000,
    ;
}

} // verus!
