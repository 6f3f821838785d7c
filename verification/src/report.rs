use vstd::prelude::*;

use crate::log_event::LogStats;
use crate::order::{sort_names, strictly_sorted};
use crate::service_laws::lemma_map_total_remove;
use crate::service_stats::{map_total, names, stats_at, ServiceStats};
use crate::tally::Tally;

verus! {

broadcast use vstd::set::group_set_axioms, vstd::set_lib::group_set_properties, vstd::seq_lib::group_seq_properties;

/// The sum of the statistics of the services `ks`, in that order.
pub open spec fn sum_over(m: Map<Seq<char>, Tally>, ks: Seq<Seq<char>>) -> Tally
    decreases ks.len(),
{
    if ks.len() == 0 {
        Tally::zero()
    } else {
        sum_over(m, ks.drop_last()).plus(stats_at(m, ks.last()))
    }
}

/// Services outside `ks` do not change the sum over `ks`.
proof fn lemma_sum_over_agree(m: Map<Seq<char>, Tally>, k: Seq<char>, ks: Seq<Seq<char>>)
    requires
        !ks.contains(k),
    ensures
        sum_over(m, ks) == sum_over(m.remove(k), ks),
    decreases ks.len(),
{
    if ks.len() > 0 {
        lemma_sum_over_agree(m, k, ks.drop_last());
    }
}

/// Summing the services of a finite map in any order, each once, gives its
/// total.
pub proof fn lemma_sum_over_enumeration(m: Map<Seq<char>, Tally>, ks: Seq<Seq<char>>)
    requires
        ks.no_duplicates(),
        ks.to_set() == m.dom(),
    ensures
        sum_over(m, ks) == map_total(m),
    decreases ks.len(),
{
    if ks.len() == 0 {
        assert(m.dom() =~= Set::<Seq<char>>::empty());
    } else {
        let k = ks.last();
        let rest = ks.drop_last();
        assert(ks.contains(k));
        assert(!rest.contains(k)) by {
            if rest.contains(k) {
                let j = choose|j: int| 0 <= j < rest.len() && rest[j] == k;
                assert(ks[j] == ks[ks.len() - 1]);
            }
        }
        lemma_sum_over_agree(m, k, rest);
        assert(rest.to_set() =~= m.remove(k).dom()) by {
            assert forall|x: Seq<char>| rest.contains(x) <==> m.remove(k).dom().contains(x) by {
                if rest.contains(x) {
                    let j = choose|j: int| 0 <= j < rest.len() && rest[j] == x;
                    assert(ks[j] == x);
                }
                if m.remove(k).dom().contains(x) {
                    assert(ks.to_set().contains(x));
                    let j = choose|j: int| 0 <= j < ks.len() && ks[j] == x;
                    assert(rest[j] == x);
                }
            }
        }
        lemma_sum_over_enumeration(m.remove(k), rest);
        vstd::seq_lib::seq_to_set_is_finite(ks);
        lemma_map_total_remove(m, k);
    }
}

/// A prefix of the services sums to no more than all of them.
proof fn lemma_sum_over_prefix(m: Map<Seq<char>, Tally>, ks: Seq<Seq<char>>, i: int)
    requires
        0 <= i <= ks.len(),
    ensures
        sum_over(m, ks.take(i)).le(sum_over(m, ks)),
    decreases ks.len() - i,
{
    if i < ks.len() {
        lemma_sum_over_prefix(m, ks, i + 1);
        assert(ks.take(i + 1).drop_last() =~= ks.take(i));
    } else {
        assert(ks.take(i) =~= ks);
    }
}

/// The rows of the report: one per service in increasing name order, and
/// the statistics of all services together.
pub struct Report {
    pub rows: Vec<(String, LogStats)>,
    pub total: LogStats,
}

/// The names of the rows of a report, in order.
pub open spec fn row_names(rows: Seq<(String, LogStats)>) -> Seq<Seq<char>> {
    rows.map_values(|r: (String, LogStats)| r.0@)
}

/// Orders the services by name and sums their statistics, as the report
/// table lists them with a summary row below.
pub fn make_report(data: &ServiceStats) -> (r: Report)
    requires
        data.wf(),
        map_total(data@).fits(),
    ensures
        strictly_sorted(row_names(r.rows@)),
        row_names(r.rows@).to_set() == data@.dom(),
        r.rows.len() == data@.dom().len(),
        forall|i: int|
            0 <= i < r.rows.len() ==> data@.contains_key((#[trigger] r.rows@[i]).0@)
                && r.rows@[i].1@ == data@[r.rows@[i].0@],
        r.total@ == map_total(data@),
{
    let unsorted = data.service_names();
    let keys = sort_names(&unsorted);
    let ghost kn = names(keys@);
    proof {
        assert(kn =~= keys@.map_values(|s: String| s@));
        assert(names(unsorted@) =~= unsorted@.map_values(|s: String| s@));
        names(unsorted@).unique_seq_to_set();
        data.lemma_finite();
        assert(kn.no_duplicates()) by {
            assert forall|a: int, b: int| 0 <= a < kn.len() && 0 <= b < kn.len() && a != b implies kn[a] != kn[b] by {
                if a < b {
                    crate::order::lemma_name_lt_irreflexive(kn[a]);
                } else {
                    crate::order::lemma_name_lt_irreflexive(kn[b]);
                }
            }
        }
        lemma_sum_over_enumeration(data@, kn);
    }
    let mut rows: Vec<(String, LogStats)> = Vec::new();
    let mut total = LogStats::new();
    let n = keys.len();
    for i in 0..n
        invariant
            n == keys.len(),
            kn == names(keys@),
            data.wf(),
            kn.to_set() == data@.dom(),
            sum_over(data@, kn) == map_total(data@),
            map_total(data@).fits(),
            rows.len() == i,
            row_names(rows@) == kn.take(i as int),
            forall|j: int|
                0 <= j < rows.len() ==> data@.contains_key((#[trigger] rows@[j]).0@)
                    && rows@[j].1@ == data@[rows@[j].0@],
            total@ == sum_over(data@, kn.take(i as int)),
    {
        let key = &keys[i];
        assert(kn[i as int] == key@);
        assert(kn.to_set().contains(key@));
        let stats = data.get(key.as_str()).unwrap();
        proof {
            lemma_sum_over_prefix(data@, kn, i + 1);
            assert(kn.take(i + 1).drop_last() =~= kn.take(i as int));
        }
        total.add_assign(stats);
        rows.push((key.clone(), *stats));
        proof {
            assert(row_names(rows@) =~= kn.take(i + 1));
        }
    }
    proof {
        assert(kn.take(n as int) =~= kn);
    }
    Report { rows, total }
}


/// The statistics of all services together, or `None` where a counter of
/// the sum would not fit in a `usize`.
pub fn checked_total(data: &ServiceStats) -> (r: Option<LogStats>)
    requires
        data.wf(),
    ensures
        r is Some <==> map_total(data@).fits(),
        r matches Some(t) ==> t@ == map_total(data@),
{
    let keys = data.service_names();
    let ghost kn = names(keys@);
    proof {
        data.lemma_finite();
        lemma_sum_over_enumeration(data@, kn);
    }
    let mut acc = LogStats::new();
    let n = keys.len();
    for i in 0..n
        invariant
            n == keys.len(),
            kn == names(keys@),
            data.wf(),
            kn.to_set() == data@.dom(),
            sum_over(data@, kn) == map_total(data@),
            acc@ == sum_over(data@, kn.take(i as int)),
    {
        let key = &keys[i];
        assert(kn[i as int] == key@);
        assert(kn.to_set().contains(key@));
        let stats = data.get(key.as_str()).unwrap();
        proof {
            lemma_sum_over_prefix(data@, kn, i + 1);
            assert(kn.take(i + 1).drop_last() =~= kn.take(i as int));
        }
        match acc.checked_add(stats) {
            Some(s) => {
                acc = s;
            },
            None => {
                return None;
            },
        }
    }
    proof {
        assert(kn.take(n as int) =~= kn);
    }
    Some(acc)
}

} // verus!
