//! Summary statistics over a collected set of outcomes.

use vstd::prelude::*;
use vstd::seq_lib::{to_multiset_build, to_multiset_insert};
use crate::order::{descending, descending_is_sorted_permutation, sort_descending};
use crate::outcome::{codes_of, latencies_of, Outcome};

verus! {

/// One code and the number of outcomes that carry it.
pub struct CodeCount {
    pub code: String,
    pub count: usize,
}

/// How often `code` occurs among `codes`.
pub open spec fn occurrences(codes: Seq<Seq<char>>, code: Seq<char>) -> nat {
    codes.to_multiset().count(code)
}

/// The distinct values of `codes`, each at the place of its first occurrence.
pub open spec fn first_seen(codes: Seq<Seq<char>>) -> Seq<Seq<char>>
    decreases codes.len(),
{
    if codes.len() == 0 {
        Seq::empty()
    } else if codes.drop_last().contains(codes.last()) {
        first_seen(codes.drop_last())
    } else {
        first_seen(codes.drop_last()).push(codes.last())
    }
}

/// The codes of `entries`, in their order.
pub open spec fn entry_codes(entries: Seq<CodeCount>) -> Seq<Seq<char>> {
    entries.map_values(|e: CodeCount| e.code@)
}

/// `entries` is the tally of `codes`: one entry for each distinct code, in
/// the order in which the codes first occur, with the number of occurrences.
pub open spec fn is_tally_of(entries: Seq<CodeCount>, codes: Seq<Seq<char>>) -> bool {
    &&& entry_codes(entries) == first_seen(codes)
    &&& forall|i: int|
        0 <= i < entries.len() ==> (#[trigger] entries[i]).count == occurrences(
            codes,
            entries[i].code@,
        )
}

/// Appending a code raises its own number of occurrences by one and leaves
/// the others as they were.
pub proof fn occurrences_push(codes: Seq<Seq<char>>, last: Seq<char>, code: Seq<char>)
    ensures
        occurrences(codes.push(last), code) == occurrences(codes, code) + if last == code {
            1nat
        } else {
            0nat
        },
        occurrences(codes, code) <= codes.len(),
{
    broadcast use vstd::multiset::group_multiset_axioms;

    to_multiset_build(codes, last);
    codes.to_multiset_ensures();
}

/// `first_seen(codes)` holds each code of `codes` once and nothing else.
pub proof fn first_seen_is_distinct_cover(codes: Seq<Seq<char>>)
    ensures
        first_seen(codes).no_duplicates(),
        forall|c: Seq<char>| first_seen(codes).contains(c) <==> codes.contains(c),
        first_seen(codes).len() <= codes.len(),
    decreases codes.len(),
{
    if codes.len() > 0 {
        let front = codes.drop_last();
        let last = codes.last();
        first_seen_is_distinct_cover(front);
        let f = first_seen(front);
        let g = first_seen(codes);
        assert forall|c: Seq<char>| g.contains(c) implies codes.contains(c) by {
            let m = g.index_of(c);
            if m < f.len() {
                assert(f[m] == c);
                assert(f.contains(c));
                assert(front.contains(c));
                let k = front.index_of(c);
                assert(codes[k] == c);
            } else {
                assert(codes[codes.len() - 1] == c);
            }
        }
        assert forall|c: Seq<char>| codes.contains(c) implies g.contains(c) by {
            let k = codes.index_of(c);
            if k < front.len() {
                assert(front[k] == c);
            }
            if front.contains(c) {
                assert(f.contains(c));
                let m = f.index_of(c);
                assert(g[m] == c);
            } else {
                assert(c == last);
                assert(g[f.len() as int] == c);
            }
        }
    }
}

/// Counts the outcomes by code.
pub fn tally(outcomes: &Vec<Outcome>) -> (entries: Vec<CodeCount>)
    ensures
        is_tally_of(entries@, codes_of(outcomes@)),
{
    let mut entries: Vec<CodeCount> = Vec::new();
    let mut i: usize = 0;
    let ghost codes = codes_of(outcomes@);
    assert(codes.subrange(0, 0) =~= Seq::<Seq<char>>::empty());
    assert(entry_codes(entries@) =~= first_seen(codes.subrange(0, 0)));
    while i < outcomes.len()
        invariant
            i <= outcomes.len(),
            codes == codes_of(outcomes@),
            is_tally_of(entries@, codes.subrange(0, i as int)),
        decreases outcomes.len() - i,
    {
        let ghost seen = codes.subrange(0, i as int);
        let ghost code = outcomes@[i as int].code@;
        let ghost before = entries@;
        proof {
            assert(codes.subrange(0, i + 1) =~= seen.push(code));
            assert(seen.push(code).drop_last() =~= seen);
            first_seen_is_distinct_cover(seen);
            assert forall|c: Seq<char>|
                occurrences(seen.push(code), c) == #[trigger] occurrences(seen, c) + if code == c {
                    1nat
                } else {
                    0nat
                } by {
                occurrences_push(seen, code, c);
            }
            assert(occurrences(seen, code) <= seen.len()) by {
                occurrences_push(seen, code, code);
            }
            assert forall|m: int| 0 <= m < before.len() implies (#[trigger] before[m]).code@
                == first_seen(seen)[m] by {
                assert(entry_codes(before)[m] == before[m].code@);
            }
        }
        let mut k: usize = 0;
        while k < entries.len() && entries[k].code != outcomes[i].code
            invariant
                k <= entries.len(),
                i < outcomes.len(),
                forall|m: int| 0 <= m < k ==> (#[trigger] entries@[m]).code@ != outcomes@[i as int].code@,
            decreases entries.len() - k,
        {
            k = k + 1;
        }
        if k < entries.len() {
            let found = entries.remove(k);
            proof {
                assert(found == before[k as int]);
                assert(first_seen(seen)[k as int] == code);
                assert(seen.contains(code));
                assert(seen.push(code).drop_last().contains(seen.push(code).last()));
            }
            entries.insert(k, CodeCount { code: found.code, count: found.count + 1 });
            proof {
                assert(entries@ =~= before.update(k as int, entries@[k as int]));
                assert(entry_codes(entries@) =~= first_seen(seen));
                assert forall|m: int| 0 <= m < entries@.len() implies (#[trigger] entries@[m]).count
                    == occurrences(seen.push(code), entries@[m].code@) by {
                    if m != k {
                        assert(entries@[m] == before[m]);
                        assert(first_seen(seen)[m] != first_seen(seen)[k as int]);
                    }
                }
            }
        } else {
            proof {
                if seen.contains(code) {
                    let m = first_seen(seen).index_of(code);
                    assert(before[m].code@ == code);
                }
                assert(occurrences(seen, code) == 0) by {
                    seen.to_multiset_ensures();
                }
            }
            entries.push(CodeCount { code: outcomes[i].code.clone(), count: 1 });
            proof {
                assert(entry_codes(entries@) =~= first_seen(seen).push(code));
                assert forall|m: int| 0 <= m < entries@.len() implies (#[trigger] entries@[m]).count
                    == occurrences(seen.push(code), entries@[m].code@) by {
                    if m < before.len() {
                        assert(entries@[m] == before[m]);
                    }
                }
            }
        }
        i = i + 1;
    }
    assert(codes.subrange(0, i as int) =~= codes);
    entries
}

/// The entries of `entries` whose count is `count`, in their order.
pub open spec fn with_count(entries: Seq<CodeCount>, count: usize) -> Seq<CodeCount> {
    entries.filter(|e: CodeCount| e.count == count)
}

/// `ranked` holds the entries of `entries` by falling count, and entries of
/// equal count in the order that they have in `entries`.
pub open spec fn is_ranking_of(ranked: Seq<CodeCount>, entries: Seq<CodeCount>) -> bool {
    &&& ranked.to_multiset() == entries.to_multiset()
    &&& forall|i: int, j: int|
        0 <= i < j < ranked.len() ==> (#[trigger] ranked[i]).count >= (#[trigger] ranked[j]).count
    &&& forall|c: usize| #[trigger] with_count(ranked, c) == with_count(entries, c)
}

proof fn with_count_push(s: Seq<CodeCount>, e: CodeCount, c: usize)
    ensures
        with_count(s.push(e), c) == if e.count == c {
            with_count(s, c).push(e)
        } else {
            with_count(s, c)
        },
{
    reveal(Seq::filter);
    assert(s.push(e).drop_last() =~= s);
}

proof fn with_count_none(s: Seq<CodeCount>, c: usize)
    requires
        forall|k: int| 0 <= k < s.len() ==> (#[trigger] s[k]).count != c,
    ensures
        with_count(s, c) == Seq::<CodeCount>::empty(),
    decreases s.len(),
{
    reveal(Seq::filter);
    if s.len() > 0 {
        assert(s.last() == s[s.len() - 1]);
        assert forall|k: int| 0 <= k < s.drop_last().len() implies (#[trigger] s.drop_last()[k]).count
            != c by {
            assert(s.drop_last()[k] == s[k]);
        }
        with_count_none(s.drop_last(), c);
    }
}

proof fn with_count_insert(s: Seq<CodeCount>, p: int, e: CodeCount, c: usize)
    requires
        0 <= p <= s.len(),
        forall|k: int| p <= k < s.len() ==> (#[trigger] s[k]).count < e.count,
    ensures
        with_count(s.insert(p, e), c) == if e.count == c {
            with_count(s, c).push(e)
        } else {
            with_count(s, c)
        },
{
    let a = s.subrange(0, p);
    let b = s.subrange(p, s.len() as int);
    let pred = |x: CodeCount| x.count == c;
    assert(s =~= a + b);
    assert(s.insert(p, e) =~= a.push(e) + b);
    Seq::filter_distributes_over_add(a, b, pred);
    Seq::filter_distributes_over_add(a.push(e), b, pred);
    with_count_push(a, e, c);
    if e.count == c {
        assert forall|k: int| 0 <= k < b.len() implies (#[trigger] b[k]).count != c by {
            assert(b[k] == s[p + k]);
        }
        with_count_none(b, c);
        assert(with_count(a, c) + Seq::<CodeCount>::empty() =~= with_count(a, c));
        assert(with_count(a, c).push(e) + Seq::<CodeCount>::empty() =~= with_count(a, c).push(e));
    }
}

/// Ranks the entries by falling count. Entries of equal count keep the order
/// in which they stand in `entries`.
pub fn rank(entries: &Vec<CodeCount>) -> (ranked: Vec<CodeCount>)
    ensures
        is_ranking_of(ranked@, entries@),
{
    let mut ranked: Vec<CodeCount> = Vec::new();
    let mut i: usize = 0;
    proof {
        assert(entries@.subrange(0, 0) =~= ranked@);
    }
    while i < entries.len()
        invariant
            i <= entries.len(),
            is_ranking_of(ranked@, entries@.subrange(0, i as int)),
        decreases entries.len() - i,
    {
        let entry = CodeCount { code: entries[i].code.clone(), count: entries[i].count };
        let ghost taken = entries@.subrange(0, i as int);
        let ghost before = ranked@;
        let mut p: usize = 0;
        while p < ranked.len() && ranked[p].count >= entry.count
            invariant
                p <= ranked.len(),
                forall|k: int| 0 <= k < p ==> (#[trigger] ranked@[k]).count >= entry.count,
            decreases ranked.len() - p,
        {
            p = p + 1;
        }
        proof {
            assert(entry == entries@[i as int]);
            assert(entries@.subrange(0, i + 1) =~= taken.push(entry));
            to_multiset_insert(before, p as int, entry);
            to_multiset_build(taken, entry);
            assert forall|c: usize| #[trigger]
                with_count(before.insert(p as int, entry), c) == with_count(taken.push(entry), c) by {
                with_count_insert(before, p as int, entry, c);
                with_count_push(taken, entry, c);
                assert(with_count(before, c) == with_count(taken, c));
            }
        }
        ranked.insert(p, entry);
        i = i + 1;
    }
    assert(entries@.subrange(0, i as int) =~= entries@);
    ranked
}

/// The sum of the values of `s`.
pub open spec fn sum_of(s: Seq<u64>) -> nat
    decreases s.len(),
{
    if s.len() == 0 {
        0
    } else {
        sum_of(s.drop_last()) + s.last() as nat
    }
}

/// The sum of the values of `s` divided by their number, rounded down.
pub open spec fn average_of(s: Seq<u64>) -> nat
    recommends
        s.len() > 0,
{
    sum_of(s) / s.len()
}

/// The value in the middle of `s` once it is put in descending order: the
/// one at index `s.len() / 2`, so of an even number of values the lower of
/// the two in the middle.
pub open spec fn median_of(s: Seq<u64>) -> u64
    recommends
        s.len() > 0,
{
    descending(s)[s.len() as int / 2]
}

/// The latency of each outcome, in the order of the outcomes.
pub fn latencies(outcomes: &Vec<Outcome>) -> (values: Vec<u64>)
    ensures
        values@ == latencies_of(outcomes@),
{
    let mut values: Vec<u64> = Vec::new();
    let mut i: usize = 0;
    while i < outcomes.len()
        invariant
            i <= outcomes.len(),
            values@ == latencies_of(outcomes@).subrange(0, i as int),
        decreases outcomes.len() - i,
    {
        values.push(outcomes[i].elapsed_millis);
        assert(values@ =~= latencies_of(outcomes@).subrange(0, i + 1));
        i = i + 1;
    }
    assert(values@ =~= latencies_of(outcomes@));
    values
}

/// The average of `values`, rounded down; `None` when there are none.
pub fn average(values: &Vec<u64>) -> (mean: Option<u64>)
    ensures
        values.len() == 0 <==> mean is None,
        mean matches Some(m) ==> m == average_of(values@),
{
    if values.len() == 0 {
        return None;
    }
    let mut sum: u128 = 0;
    let mut i: usize = 0;
    assert(values@.subrange(0, 0) =~= Seq::<u64>::empty());
    while i < values.len()
        invariant
            i <= values.len(),
            sum == sum_of(values@.subrange(0, i as int)),
            sum <= i * u64::MAX,
        decreases values.len() - i,
    {
        proof {
            assert(values@.subrange(0, i + 1).drop_last() =~= values@.subrange(0, i as int));
            assert((i + 1) * u64::MAX == i * u64::MAX + u64::MAX) by (nonlinear_arith);
            assert(i * u64::MAX + u64::MAX <= u128::MAX) by (nonlinear_arith)
                requires
                    i <= u64::MAX,
            ;
        }
        sum = sum + values[i] as u128;
        i = i + 1;
    }
    assert(values@.subrange(0, i as int) =~= values@);
    let count = values.len() as u128;
    let mean = sum / count;
    assert(mean <= u64::MAX) by (nonlinear_arith)
        requires
            mean == sum / count,
            count > 0,
            sum <= count * u64::MAX,
    ;
    Some(mean as u64)
}

/// The median of `values` as `median_of` defines it; `None` when there are
/// none.
pub fn median(values: &Vec<u64>) -> (middle: Option<u64>)
    ensures
        values.len() == 0 <==> middle is None,
        middle matches Some(m) ==> m == median_of(values@),
{
    if values.len() == 0 {
        return None;
    }
    let sorted = sort_descending(values);
    proof {
        descending_is_sorted_permutation(values@);
    }
    Some(sorted[values.len() / 2])
}

/// Why no summary could be made.
#[derive(Debug, PartialEq, Eq)]
pub enum AggregateError {
    /// There was no outcome to summarise.
    NoOutcomes,
}

/// The summary of a finished run.
pub struct AggregateStats {
    /// One entry per distinct code, in the order of first occurrence.
    pub counts_by_code: Vec<CodeCount>,
    /// The same entries by falling count; equal counts in the order of
    /// `counts_by_code`.
    pub ranked_codes: Vec<CodeCount>,
    /// The number of outcomes summarised.
    pub outcome_count: usize,
    /// Wall-clock time of the whole run, as the caller measured it.
    pub total_elapsed_millis: u64,
    pub average_latency_millis: u64,
    pub median_latency_millis: u64,
}

/// `stats` is the summary of `outcomes` for a run that took `total_elapsed_millis`.
pub open spec fn is_summary_of(
    stats: AggregateStats,
    outcomes: Seq<Outcome>,
    total_elapsed_millis: u64,
) -> bool {
    &&& is_tally_of(stats.counts_by_code@, codes_of(outcomes))
    &&& is_ranking_of(stats.ranked_codes@, stats.counts_by_code@)
    &&& stats.outcome_count == outcomes.len()
    &&& stats.total_elapsed_millis == total_elapsed_millis
    &&& stats.average_latency_millis == average_of(latencies_of(outcomes))
    &&& stats.median_latency_millis == median_of(latencies_of(outcomes))
}

/// Summarises the outcomes of a finished run. An empty set of outcomes has
/// no average and no median, and is refused.
pub fn aggregate(outcomes: &Vec<Outcome>, total_elapsed_millis: u64) -> (result: Result<
    AggregateStats,
    AggregateError,
>)
    ensures
        outcomes.len() == 0 <==> result is Err,
        result matches Err(e) ==> e == AggregateError::NoOutcomes,
        result matches Ok(stats) ==> is_summary_of(stats, outcomes@, total_elapsed_millis),
{
    let values = latencies(outcomes);
    let mean = average(&values);
    let middle = median(&values);
    match (mean, middle) {
        (Some(average_latency_millis), Some(median_latency_millis)) => {
            let counts_by_code = tally(outcomes);
            let ranked_codes = rank(&counts_by_code);
            Ok(
                AggregateStats {
                    counts_by_code,
                    ranked_codes,
                    outcome_count: outcomes.len(),
                    total_elapsed_millis,
                    average_latency_millis,
                    median_latency_millis,
                },
            )
        },
        _ => Err(AggregateError::NoOutcomes),
    }
}

/// The sum of the counts of `entries`.
pub open spec fn total_count(entries: Seq<CodeCount>) -> nat
    decreases entries.len(),
{
    if entries.len() == 0 {
        0
    } else {
        total_count(entries.drop_last()) + entries.last().count as nat
    }
}

/// How often the codes of `keys` occur among `codes`, taken together.
pub open spec fn occurrences_of_all(keys: Seq<Seq<char>>, codes: Seq<Seq<char>>) -> nat
    decreases keys.len(),
{
    if keys.len() == 0 {
        0
    } else {
        occurrences_of_all(keys.drop_last(), codes) + occurrences(codes, keys.last())
    }
}

proof fn occurrences_of_all_push(keys: Seq<Seq<char>>, codes: Seq<Seq<char>>, last: Seq<char>)
    requires
        keys.no_duplicates(),
    ensures
        occurrences_of_all(keys, codes.push(last)) == occurrences_of_all(keys, codes) + if keys.contains(
            last,
        ) {
            1nat
        } else {
            0nat
        },
    decreases keys.len(),
{
    if keys.len() > 0 {
        let front = keys.drop_last();
        let key = keys.last();
        assert(front.no_duplicates()) by {
            assert forall|i: int, j: int| 0 <= i < front.len() && 0 <= j < front.len() && i
                != j implies front[i] != front[j] by {
                assert(front[i] == keys[i] && front[j] == keys[j]);
            }
        }
        occurrences_of_all_push(front, codes, last);
        occurrences_push(codes, last, key);
        if front.contains(last) {
            let m = front.index_of(last);
            assert(keys[m] == last);
            assert(keys[keys.len() - 1] == key);
            assert(key != last);
            assert(keys.contains(last));
        } else if key == last {
            assert(keys[keys.len() - 1] == last);
            assert(keys.contains(last));
        } else {
            if keys.contains(last) {
                let m = keys.index_of(last);
                assert(front[m] == last);
            }
        }
    }
}

proof fn first_seen_counts_all(codes: Seq<Seq<char>>)
    ensures
        occurrences_of_all(first_seen(codes), codes) == codes.len(),
    decreases codes.len(),
{
    if codes.len() > 0 {
        let front = codes.drop_last();
        let last = codes.last();
        assert(codes =~= front.push(last));
        first_seen_counts_all(front);
        first_seen_is_distinct_cover(front);
        occurrences_of_all_push(first_seen(front), front, last);
        if !front.contains(last) {
            assert(first_seen(codes).drop_last() =~= first_seen(front));
            occurrences_push(front, last, last);
            assert(occurrences(front, last) == 0) by {
                front.to_multiset_ensures();
            }
        }
    }
}

proof fn total_count_is_occurrences(entries: Seq<CodeCount>, codes: Seq<Seq<char>>)
    requires
        forall|i: int|
            0 <= i < entries.len() ==> (#[trigger] entries[i]).count == occurrences(
                codes,
                entries[i].code@,
            ),
    ensures
        total_count(entries) == occurrences_of_all(entry_codes(entries), codes),
    decreases entries.len(),
{
    if entries.len() > 0 {
        let front = entries.drop_last();
        assert forall|i: int| 0 <= i < front.len() implies (#[trigger] front[i]).count
            == occurrences(codes, front[i].code@) by {
            assert(front[i] == entries[i]);
        }
        total_count_is_occurrences(front, codes);
        assert(entry_codes(entries).drop_last() =~= entry_codes(front));
        assert(entries.last() == entries[entries.len() - 1]);
    }
}

/// The counts of a tally add up to the number of codes that were counted.
pub proof fn counts_add_up(entries: Seq<CodeCount>, codes: Seq<Seq<char>>)
    requires
        is_tally_of(entries, codes),
    ensures
        total_count(entries) == codes.len(),
{
    total_count_is_occurrences(entries, codes);
    first_seen_counts_all(codes);
}

/// A tally has one entry for each code that occurs, no two entries for one
/// code, and no entry for a code that does not occur.
pub proof fn tally_has_each_code_once(entries: Seq<CodeCount>, codes: Seq<Seq<char>>)
    requires
        is_tally_of(entries, codes),
    ensures
        forall|i: int, j: int|
            0 <= i < j < entries.len() ==> (#[trigger] entries[i]).code@ != (#[trigger] entries[j]).code@,
        forall|c: Seq<char>| codes.contains(c) <==> entry_codes(entries).contains(c),
        forall|i: int| 0 <= i < entries.len() ==> (#[trigger] entries[i]).count > 0,
{
    first_seen_is_distinct_cover(codes);
    let keys = entry_codes(entries);
    assert forall|i: int, j: int| 0 <= i < j < entries.len() implies (#[trigger] entries[i]).code@
        != (#[trigger] entries[j]).code@ by {
        assert(keys[i] == entries[i].code@ && keys[j] == entries[j].code@);
    }
    assert forall|i: int| 0 <= i < entries.len() implies (#[trigger] entries[i]).count > 0 by {
        assert(keys[i] == entries[i].code@);
        assert(keys.contains(entries[i].code@));
        codes.to_multiset_ensures();
    }
}

/// The count that `entries` gives for each of its codes.
pub open spec fn counts_by_code(entries: Seq<CodeCount>) -> Map<Seq<char>, nat> {
    Map::new(
        |code: Seq<char>| entry_codes(entries).contains(code),
        |code: Seq<char>| entries[entry_codes(entries).index_of(code)].count as nat,
    )
}

/// Read as a mapping, a tally gives each code that occurs the number of
/// its occurrences, and gives nothing for any other code.
pub proof fn tally_maps_code_to_occurrences(entries: Seq<CodeCount>, codes: Seq<Seq<char>>)
    requires
        is_tally_of(entries, codes),
    ensures
        counts_by_code(entries) == Map::new(
            |code: Seq<char>| codes.contains(code),
            |code: Seq<char>| occurrences(codes, code),
        ),
{
    tally_has_each_code_once(entries, codes);
    let keys = entry_codes(entries);
    let counted = Map::new(
        |code: Seq<char>| codes.contains(code),
        |code: Seq<char>| occurrences(codes, code),
    );
    assert forall|code: Seq<char>| counts_by_code(entries).dom().contains(code) implies #[trigger]
        counts_by_code(entries)[code] == counted[code] by {
        let k = keys.index_of(code);
        assert(keys[k] == entries[k].code@);
    }
    assert(counts_by_code(entries) =~= counted);
}

/// A ranking begins with an entry of the largest count.
pub proof fn ranking_leads_with_largest_count(ranked: Seq<CodeCount>, entries: Seq<CodeCount>)
    requires
        is_ranking_of(ranked, entries),
    ensures
        ranked.len() == entries.len(),
        forall|i: int| 0 <= i < entries.len() ==> ranked[0].count >= (#[trigger] entries[i]).count,
{
    ranked.to_multiset_ensures();
    entries.to_multiset_ensures();
    assert forall|i: int| 0 <= i < entries.len() implies ranked[0].count >= (
    #[trigger] entries[i]).count by {
        assert(entries.contains(entries[i]));
        assert(entries.to_multiset().count(entries[i]) > 0);
        assert(ranked.to_multiset().count(entries[i]) > 0);
        assert(ranked.contains(entries[i]));
        let j = ranked.index_of(entries[i]);
        assert(ranked[j] == entries[i]);
    }
}

/// `a` and `b` hold the same entries, both by falling count, with the
/// entries of each count in the same order.
spec fn ranked_alike(a: Seq<CodeCount>, b: Seq<CodeCount>) -> bool {
    &&& a.to_multiset() == b.to_multiset()
    &&& forall|i: int, j: int|
        0 <= i < j < a.len() ==> (#[trigger] a[i]).count >= (#[trigger] a[j]).count
    &&& forall|i: int, j: int|
        0 <= i < j < b.len() ==> (#[trigger] b[i]).count >= (#[trigger] b[j]).count
    &&& forall|c: usize| #[trigger] with_count(a, c) == with_count(b, c)
}

proof fn last_has_smallest_count(a: Seq<CodeCount>, b: Seq<CodeCount>)
    requires
        a.len() > 0,
        a.to_multiset() == b.to_multiset(),
        forall|i: int, j: int|
            0 <= i < j < b.len() ==> (#[trigger] b[i]).count >= (#[trigger] b[j]).count,
    ensures
        b.len() == a.len(),
        a.last().count >= b.last().count,
{
    a.to_multiset_ensures();
    b.to_multiset_ensures();
    let x = a.last();
    assert(a[a.len() - 1] == x);
    assert(a.contains(x));
    assert(a.to_multiset().count(x) > 0);
    assert(b.to_multiset().count(x) > 0);
    assert(b.contains(x));
    let k = b.index_of(x);
    assert(b[k] == x);
}

proof fn ranked_alike_is_equal(a: Seq<CodeCount>, b: Seq<CodeCount>)
    requires
        ranked_alike(a, b),
    ensures
        a == b,
    decreases a.len(),
{
    a.to_multiset_ensures();
    b.to_multiset_ensures();
    if a.len() == 0 {
        assert(a =~= b);
    } else {
        last_has_smallest_count(a, b);
        last_has_smallest_count(b, a);
        let x = a.last();
        let y = b.last();
        let c = x.count;
        let front_a = a.drop_last();
        let front_b = b.drop_last();
        assert(a =~= front_a.push(x));
        assert(b =~= front_b.push(y));
        with_count_push(front_a, x, c);
        with_count_push(front_b, y, c);
        assert(with_count(a, c) == with_count(b, c));
        assert(with_count(a, c).last() == x);
        assert(with_count(b, c).last() == y);
        assert(x == y);
        assert(front_a.to_multiset() =~= front_b.to_multiset()) by {
            assert(front_a =~= a.remove(a.len() - 1));
            assert(front_b =~= b.remove(b.len() - 1));
        }
        assert forall|k: usize| #[trigger] with_count(front_a, k) == with_count(front_b, k) by {
            with_count_push(front_a, x, k);
            with_count_push(front_b, y, k);
            assert(with_count(a, k) == with_count(b, k));
            if x.count == k {
                assert(with_count(front_a, k) =~= with_count(a, k).drop_last());
                assert(with_count(front_b, k) =~= with_count(b, k).drop_last());
            }
        }
        assert forall|i: int, j: int| 0 <= i < j < front_a.len() implies (
        #[trigger] front_a[i]).count >= (#[trigger] front_a[j]).count by {
            assert(front_a[i] == a[i] && front_a[j] == a[j]);
        }
        assert forall|i: int, j: int| 0 <= i < j < front_b.len() implies (
        #[trigger] front_b[i]).count >= (#[trigger] front_b[j]).count by {
            assert(front_b[i] == b[i] && front_b[j] == b[j]);
        }
        ranked_alike_is_equal(front_a, front_b);
    }
}

/// There is one ranking of a sequence of entries and no other.
pub proof fn ranking_is_unique(a: Seq<CodeCount>, b: Seq<CodeCount>, entries: Seq<CodeCount>)
    requires
        is_ranking_of(a, entries),
        is_ranking_of(b, entries),
    ensures
        a == b,
{
    assert forall|c: usize| #[trigger] with_count(a, c) == with_count(b, c) by {
        assert(with_count(a, c) == with_count(entries, c));
        assert(with_count(b, c) == with_count(entries, c));
    }
    ranked_alike_is_equal(a, b);
}

/// The median of a set of latencies is one of them.
pub proof fn median_is_one_of_the_values(s: Seq<u64>)
    requires
        s.len() > 0,
    ensures
        s.contains(median_of(s)),
{
    descending_is_sorted_permutation(s);
    let d = descending(s);
    d.to_multiset_ensures();
    s.to_multiset_ensures();
    let middle = d[s.len() as int / 2];
    assert(d.contains(middle));
    assert(d.to_multiset().count(middle) > 0);
    assert(s.to_multiset().count(middle) > 0);
}

/// The median has at most half of the values before it in descending
/// order, none of them smaller than it, and none after it is larger.
pub proof fn median_splits_the_values(s: Seq<u64>)
    requires
        s.len() > 0,
    ensures
        forall|i: int| 0 <= i <= s.len() / 2 ==> (#[trigger] descending(s)[i]) >= median_of(s),
        forall|i: int| s.len() / 2 <= i < s.len() ==> (#[trigger] descending(s)[i]) <= median_of(s),
{
    descending_is_sorted_permutation(s);
}

} // verus!
