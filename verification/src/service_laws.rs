use vstd::prelude::*;

use crate::log_event::{event_tally, tally_of, LogEvent};
use crate::service_stats::{map_total, merge_maps, record_event, record_events, service_tallies, stats_at};
use crate::tally::Tally;

verus! {

broadcast use vstd::set::group_set_axioms, vstd::set_lib::group_set_properties;

/// Documenting `a` and then `b` leaves the map that documenting `a + b` does.
pub proof fn lemma_record_events_concat(m: Map<Seq<char>, Tally>, a: Seq<LogEvent>, b: Seq<LogEvent>)
    ensures
        record_events(m, a + b) == record_events(record_events(m, a), b),
    decreases b.len(),
{
    if b.len() == 0 {
        assert(a + b =~= a);
    } else {
        lemma_record_events_concat(m, a, b.drop_last());
        assert((a + b).drop_last() =~= a + b.drop_last());
        assert((a + b).last() == b.last());
    }
}

/// Documenting lines into a map that already holds statistics gives the
/// merge of that map with the statistics of the lines alone.
pub proof fn lemma_record_events_merge(m: Map<Seq<char>, Tally>, events: Seq<LogEvent>)
    ensures
        record_events(m, events) == merge_maps(m, service_tallies(events)),
    decreases events.len(),
{
    if events.len() == 0 {
        assert(merge_maps(m, Map::empty()) =~= m);
    } else {
        lemma_record_events_merge(m, events.drop_last());
        let x = service_tallies(events.drop_last());
        let e = events.last();
        assert(record_event(merge_maps(m, x), e) =~= merge_maps(m, record_event(x, e)));
    }
}

/// The per-service statistics of a concatenation are the merge of the
/// per-service statistics of its parts: batches can be counted apart, in
/// any thread, and merged.
pub proof fn lemma_service_tallies_concat(a: Seq<LogEvent>, b: Seq<LogEvent>)
    ensures
        service_tallies(a + b) == merge_maps(service_tallies(a), service_tallies(b)),
{
    lemma_record_events_concat(Map::empty(), a, b);
    lemma_record_events_merge(service_tallies(a), b);
}

/// Merging does not depend on the order of the operands.
pub proof fn lemma_merge_commutative(a: Map<Seq<char>, Tally>, b: Map<Seq<char>, Tally>)
    ensures
        merge_maps(a, b) == merge_maps(b, a),
{
    assert(merge_maps(a, b) =~= merge_maps(b, a));
}

/// Merging does not depend on how the merges are grouped.
pub proof fn lemma_merge_associative(
    a: Map<Seq<char>, Tally>,
    b: Map<Seq<char>, Tally>,
    c: Map<Seq<char>, Tally>,
)
    ensures
        merge_maps(merge_maps(a, b), c) == merge_maps(a, merge_maps(b, c)),
{
    assert(merge_maps(merge_maps(a, b), c) =~= merge_maps(a, merge_maps(b, c)));
}

/// Merging with the empty map changes nothing.
pub proof fn lemma_merge_empty(a: Map<Seq<char>, Tally>)
    ensures
        merge_maps(a, Map::empty()) == a,
        merge_maps(Map::empty(), a) == a,
{
    assert(merge_maps(a, Map::empty()) =~= a);
    assert(merge_maps(Map::empty(), a) =~= a);
}

/// A service has statistics exactly when one of the lines names it.
pub proof fn lemma_service_tallies_domain(events: Seq<LogEvent>, s: Seq<char>)
    ensures
        service_tallies(events).contains_key(s) <==> exists|i: int|
            0 <= i < events.len() && (#[trigger] events[i]).service@ == s,
        service_tallies(events).dom().finite(),
    decreases events.len(),
{
    if events.len() > 0 {
        let p = events.drop_last();
        lemma_service_tallies_domain(p, s);
        if service_tallies(p).contains_key(s) {
            let i = choose|i: int| 0 <= i < p.len() && (#[trigger] p[i]).service@ == s;
            assert(events[i] == p[i]);
        }
        if exists|i: int| 0 <= i < events.len() && (#[trigger] events[i]).service@ == s {
            let i = choose|i: int| 0 <= i < events.len() && (#[trigger] events[i]).service@ == s;
            if i < events.len() - 1 {
                assert(p[i] == events[i]);
            }
        }
    }
}

/// The row of a service counts exactly the lines of that service.
pub proof fn lemma_service_row(events: Seq<LogEvent>, s: Seq<char>)
    ensures
        stats_at(service_tallies(events), s) == tally_of(
            events.filter(|e: LogEvent| e.service@ == s),
        ),
    decreases events.len(),
{
    reveal_with_fuel(Seq::<_>::filter, 1);
    if events.len() > 0 {
        lemma_service_row(events.drop_last(), s);
        let f = events.drop_last().filter(|e: LogEvent| e.service@ == s);
        if events.last().service@ == s {
            assert(f.push(events.last()).drop_last() =~= f);
        }
    }
}

/// The total of a finite map is the value at any one key plus the total of
/// the rest.
pub proof fn lemma_map_total_remove(m: Map<Seq<char>, Tally>, k: Seq<char>)
    requires
        m.dom().finite(),
        m.contains_key(k),
    ensures
        map_total(m) == m[k].plus(map_total(m.remove(k))),
    decreases m.dom().len(),
{
    let c = m.dom().choose();
    assert(m.dom().len() != 0);
    if c != k {
        lemma_map_total_remove(m.remove(c), k);
        lemma_map_total_remove(m.remove(k), c);
        assert(m.remove(c).remove(k) =~= m.remove(k).remove(c));
    } else {
        assert(m.dom().contains(c));
    }
}

/// Adding `d` to one service's statistics adds `d` to the total.
pub proof fn lemma_map_total_add_at(m: Map<Seq<char>, Tally>, k: Seq<char>, d: Tally)
    requires
        m.dom().finite(),
    ensures
        map_total(m.insert(k, stats_at(m, k).plus(d))) == map_total(m).plus(d),
{
    let m2 = m.insert(k, stats_at(m, k).plus(d));
    lemma_map_total_remove(m2, k);
    if m.contains_key(k) {
        lemma_map_total_remove(m, k);
        assert(m2.remove(k) =~= m.remove(k));
    } else {
        assert(m2.remove(k) =~= m);
    }
}

/// The sum over all services of the per-service statistics is the
/// statistics of all lines: the summary row of the report counts every line
/// once.
pub proof fn lemma_map_total_of_service_tallies(events: Seq<LogEvent>)
    ensures
        map_total(service_tallies(events)) == tally_of(events),
    decreases events.len(),
{
    if events.len() == 0 {
        assert(service_tallies(events).dom() =~= Set::<Seq<char>>::empty());
    } else {
        let p = events.drop_last();
        lemma_map_total_of_service_tallies(p);
        lemma_service_tallies_domain(p, events.last().service@);
        lemma_map_total_add_at(service_tallies(p), events.last().service@, event_tally(events.last()));
    }
}


/// Documenting lines into a finite map leaves a finite map.
pub proof fn lemma_record_events_finite(m: Map<Seq<char>, Tally>, events: Seq<LogEvent>)
    requires
        m.dom().finite(),
    ensures
        record_events(m, events).dom().finite(),
    decreases events.len(),
{
    if events.len() > 0 {
        lemma_record_events_finite(m, events.drop_last());
    }
}

/// One service's statistics never exceed the total of a finite map.
pub proof fn lemma_stats_at_le_total(m: Map<Seq<char>, Tally>, k: Seq<char>)
    requires
        m.dom().finite(),
    ensures
        stats_at(m, k).le(map_total(m)),
{
    if m.contains_key(k) {
        lemma_map_total_remove(m, k);
    }
}

/// Documenting more lines never lowers a service's statistics.
pub proof fn lemma_record_events_grow(
    m: Map<Seq<char>, Tally>,
    a: Seq<LogEvent>,
    b: Seq<LogEvent>,
    k: Seq<char>,
)
    ensures
        stats_at(record_events(m, a), k).le(stats_at(record_events(m, a + b), k)),
{
    lemma_record_events_concat(m, a, b);
    lemma_record_events_merge(record_events(m, a), b);
}


/// The merge of a sequence of per-service maps, first to last.
pub open spec fn merge_all(parts: Seq<Map<Seq<char>, Tally>>) -> Map<Seq<char>, Tally>
    decreases parts.len(),
{
    if parts.len() == 0 {
        Map::empty()
    } else {
        merge_maps(merge_all(parts.drop_last()), parts.last())
    }
}

/// Merging the per-service statistics of the parts of the input, as the
/// aggregating thread does with what each parsing thread sends, gives the
/// per-service statistics of the whole input.
pub proof fn lemma_merge_all_parts(parts: Seq<Seq<LogEvent>>)
    ensures
        merge_all(parts.map_values(|p: Seq<LogEvent>| service_tallies(p))) == service_tallies(
            parts.flatten(),
        ),
    decreases parts.len(),
{
    broadcast use Seq::lemma_flatten_push;

    let f = |p: Seq<LogEvent>| service_tallies(p);
    if parts.len() == 0 {
        assert(parts.flatten() =~= Seq::<LogEvent>::empty());
        assert(service_tallies(parts.flatten()) =~= Map::<Seq<char>, Tally>::empty());
    } else {
        let rest = parts.drop_last();
        lemma_merge_all_parts(rest);
        assert(parts.map_values(f).drop_last() =~= rest.map_values(f));
        assert(parts =~= rest.push(parts.last()));
        assert(parts.flatten() =~= rest.flatten() + parts.last());
        lemma_service_tallies_concat(rest.flatten(), parts.last());
    }
}


/// Documenting lines into a finite map adds their statistics to its total.
pub proof fn lemma_map_total_record_events(m: Map<Seq<char>, Tally>, events: Seq<LogEvent>)
    requires
        m.dom().finite(),
    ensures
        map_total(record_events(m, events)) == map_total(m).plus(tally_of(events)),
    decreases events.len(),
{
    if events.len() > 0 {
        let p = events.drop_last();
        lemma_map_total_record_events(m, p);
        lemma_record_events_finite(m, p);
        lemma_map_total_add_at(record_events(m, p), events.last().service@, event_tally(events.last()));
    }
}


/// The total of a merge is the sum of the totals: absorbing a map adds its
/// total to the total of the aggregate.
pub proof fn lemma_map_total_merge(a: Map<Seq<char>, Tally>, b: Map<Seq<char>, Tally>)
    requires
        a.dom().finite(),
        b.dom().finite(),
    ensures
        map_total(merge_maps(a, b)) == map_total(a).plus(map_total(b)),
    decreases b.dom().len(),
{
    if b.dom().len() == 0 {
        assert(b.dom() =~= Set::<Seq<char>>::empty());
        assert(merge_maps(a, b) =~= a);
        assert(map_total(b) == Tally::zero());
    } else {
        let k = b.dom().choose();
        let rest = b.remove(k);
        lemma_map_total_merge(a, rest);
        let m = merge_maps(a, rest);
        assert(m.dom() =~= a.dom().union(rest.dom()));
        assert(merge_maps(a, b) =~= m.insert(k, stats_at(m, k).plus(b[k])));
        lemma_map_total_add_at(m, k, b[k]);
        lemma_map_total_remove(b, k);
    }
}

/// The last two of three merged maps may change places.
proof fn lemma_merge_swap(x: Map<Seq<char>, Tally>, y: Map<Seq<char>, Tally>, z: Map<Seq<char>, Tally>)
    ensures
        merge_maps(merge_maps(x, y), z) == merge_maps(merge_maps(x, z), y),
{
    assert(merge_maps(merge_maps(x, y), z) =~= merge_maps(merge_maps(x, z), y));
}

/// Merging a concatenation of maps is merging the merges of its parts.
pub proof fn lemma_merge_all_concat(p: Seq<Map<Seq<char>, Tally>>, q: Seq<Map<Seq<char>, Tally>>)
    ensures
        merge_all(p + q) == merge_maps(merge_all(p), merge_all(q)),
    decreases q.len(),
{
    if q.len() == 0 {
        assert(p + q =~= p);
        lemma_merge_empty(merge_all(p));
    } else {
        lemma_merge_all_concat(p, q.drop_last());
        assert((p + q).drop_last() =~= p + q.drop_last());
        assert((p + q).last() == q.last());
        lemma_merge_associative(merge_all(p), merge_all(q.drop_last()), q.last());
    }
}

/// Splits `s` around index `j`: what comes before it, and what comes after.
proof fn lemma_split_at<A>(s: Seq<A>, j: int)
    requires
        0 <= j < s.len(),
    ensures
        s == s.subrange(0, j) + seq![s[j]] + s.subrange(j + 1, s.len() as int),
        s.remove(j) == s.subrange(0, j) + s.subrange(j + 1, s.len() as int),
{
    assert(s =~= s.subrange(0, j) + seq![s[j]] + s.subrange(j + 1, s.len() as int));
    assert(s.remove(j) =~= s.subrange(0, j) + s.subrange(j + 1, s.len() as int));
}

/// Where `a` and `b` hold the same elements the same number of times, the
/// last element of `a` stands somewhere in `b`, and the rest of `a` holds
/// the same elements as `b` without it.
proof fn lemma_permutation_last<A>(a: Seq<A>, b: Seq<A>) -> (j: int)
    requires
        a.len() > 0,
        a.to_multiset() == b.to_multiset(),
    ensures
        0 <= j < b.len(),
        b[j] == a.last(),
        a.drop_last().to_multiset() == b.remove(j).to_multiset(),
{
    broadcast use vstd::multiset::group_multiset_axioms, vstd::seq_lib::to_multiset_build,
        vstd::seq_lib::to_multiset_remove, vstd::seq_lib::to_multiset_contains;

    let x = a.last();
    assert(a =~= a.drop_last().push(x));
    assert(a.to_multiset().count(x) > 0);
    assert(b.contains(x));
    let j = choose|j: int| 0 <= j < b.len() && b[j] == x;
    assert(b.remove(j).to_multiset() =~= a.drop_last().to_multiset());
    j
}

/// Lines documented in any order give the same per-service statistics:
/// only the multiset of lines counts.
pub proof fn lemma_service_tallies_permutation(a: Seq<LogEvent>, b: Seq<LogEvent>)
    requires
        a.to_multiset() == b.to_multiset(),
    ensures
        service_tallies(a) == service_tallies(b),
    decreases a.len(),
{
    broadcast use vstd::seq_lib::to_multiset_len;

    if a.len() == 0 {
        vstd::seq_lib::to_multiset_len(a);
        vstd::seq_lib::to_multiset_len(b);
        assert(b.len() == 0);
        assert(a =~= b);
    } else {
        let j = lemma_permutation_last(a, b);
        let x = a.last();
        let rest = b.remove(j);
        lemma_service_tallies_permutation(a.drop_last(), rest);
        let p = b.subrange(0, j);
        let q = b.subrange(j + 1, b.len() as int);
        lemma_split_at(b, j);
        assert(a =~= a.drop_last() + seq![x]);
        lemma_service_tallies_concat(a.drop_last(), seq![x]);
        lemma_service_tallies_concat(p, q);
        lemma_service_tallies_concat(p + seq![x], q);
        lemma_service_tallies_concat(p, seq![x]);
        lemma_merge_swap(service_tallies(p), service_tallies(seq![x]), service_tallies(q));
    }
}

/// Maps merged in any order give the same aggregate: only the multiset of
/// maps received counts, not the order in which they arrive.
pub proof fn lemma_merge_all_permutation(a: Seq<Map<Seq<char>, Tally>>, b: Seq<Map<Seq<char>, Tally>>)
    requires
        a.to_multiset() == b.to_multiset(),
    ensures
        merge_all(a) == merge_all(b),
    decreases a.len(),
{
    broadcast use vstd::seq_lib::to_multiset_len;

    if a.len() == 0 {
        vstd::seq_lib::to_multiset_len(a);
        vstd::seq_lib::to_multiset_len(b);
        assert(b.len() == 0);
        assert(a =~= b);
    } else {
        let j = lemma_permutation_last(a, b);
        let x = a.last();
        let rest = b.remove(j);
        lemma_merge_all_permutation(a.drop_last(), rest);
        let p = b.subrange(0, j);
        let q = b.subrange(j + 1, b.len() as int);
        lemma_split_at(b, j);
        lemma_merge_all_concat(p, q);
        lemma_merge_all_concat(p + seq![x], q);
        lemma_merge_all_concat(p, seq![x]);
        assert(merge_all(seq![x]) == merge_maps(Map::empty(), x)) by {
            let e = Seq::<Map<Seq<char>, Tally>>::empty();
            assert(seq![x].drop_last() =~= e);
            assert(merge_all(e) == Map::<Seq<char>, Tally>::empty());
            assert(seq![x].last() == x);
        }
        lemma_merge_empty(x);
        lemma_merge_swap(merge_all(p), x, merge_all(q));
    }
}

/// The result of a whole run does not depend on how the lines were split
/// into batches, on how many threads parsed them, on which thread took which
/// batch, nor on the order in which the threads' statistics arrive: whenever
/// the parts sent hold between them exactly the lines of the input, merging
/// their statistics gives the statistics of the input documented in order.
pub proof fn lemma_whole_run(lines: Seq<LogEvent>, parts: Seq<Seq<LogEvent>>)
    requires
        parts.flatten().to_multiset() == lines.to_multiset(),
    ensures
        merge_all(parts.map_values(|p: Seq<LogEvent>| service_tallies(p))) == service_tallies(lines),
{
    lemma_merge_all_parts(parts);
    lemma_service_tallies_permutation(parts.flatten(), lines);
}

} // verus!
