use vstd::prelude::*;
use vstd::hash_map::StringHashMap;

use crate::log_event::{event_tally, tally_of, LogEvent, LogStats};
use crate::tally::Tally;

verus! {

broadcast use vstd::set::group_set_axioms, vstd::seq_lib::group_seq_properties;

/// The statistics of service `k` in `m`, or no statistics at all where `m`
/// has no entry for `k`.
pub open spec fn stats_at(m: Map<Seq<char>, Tally>, k: Seq<char>) -> Tally {
    if m.contains_key(k) {
        m[k]
    } else {
        Tally::zero()
    }
}

/// `m` after one more line has been documented under its service.
pub open spec fn record_event(m: Map<Seq<char>, Tally>, le: LogEvent) -> Map<Seq<char>, Tally> {
    m.insert(le.service@, stats_at(m, le.service@).plus(event_tally(le)))
}

/// `m` after the lines of `events` have been documented in order.
pub open spec fn record_events(m: Map<Seq<char>, Tally>, events: Seq<LogEvent>) -> Map<
    Seq<char>,
    Tally,
>
    decreases events.len(),
{
    if events.len() == 0 {
        m
    } else {
        record_event(record_events(m, events.drop_last()), events.last())
    }
}

/// The per-service statistics of a sequence of log lines.
pub open spec fn service_tallies(events: Seq<LogEvent>) -> Map<Seq<char>, Tally> {
    record_events(Map::empty(), events)
}

/// The services of either map, each with the sum of its statistics in both.
pub open spec fn merge_maps(a: Map<Seq<char>, Tally>, b: Map<Seq<char>, Tally>) -> Map<
    Seq<char>,
    Tally,
> {
    Map::new(|k: Seq<char>| a.contains_key(k) || b.contains_key(k), |k: Seq<char>| stats_at(a, k).plus(stats_at(b, k)))
}

/// The sum of the statistics of all services of a finite map.
pub open spec fn map_total(m: Map<Seq<char>, Tally>) -> Tally
    decreases m.dom().len(),
    when m.dom().finite()
{
    if m.dom().len() == 0 {
        Tally::zero()
    } else {
        let k = m.dom().choose();
        m[k].plus(map_total(m.remove(k)))
    }
}

/// Per-service statistics, as a map from service name to `LogStats`.
pub struct ServiceStats {
    map: StringHashMap<LogStats>,
    keys: Vec<String>,
}

/// The names of `keys`, as character sequences.
pub open spec fn names(keys: Seq<String>) -> Seq<Seq<char>> {
    keys.map_values(|s: String| s@)
}

impl View for ServiceStats {
    type V = Map<Seq<char>, Tally>;

    closed spec fn view(&self) -> Map<Seq<char>, Tally> {
        Map::new(|k: Seq<char>| self.map@.contains_key(k), |k: Seq<char>| self.map@[k]@)
    }
}

impl ServiceStats {
    /// The key list names each service of the map once.
    pub closed spec fn wf(&self) -> bool {
        &&& names(self.keys@).no_duplicates()
        &&& self.map@.dom() == names(self.keys@).to_set()
    }

    /// A well-formed map has finitely many services.
    pub proof fn lemma_finite(&self)
        requires
            self.wf(),
        ensures
            self@.dom().finite(),
    {
        assert(self@.dom() =~= names(self.keys@).to_set());
    }

    /// Every service's statistics fit in `usize` counters.
    pub proof fn lemma_values_fit(&self)
        ensures
            forall|k: Seq<char>| #[trigger] stats_at(self@, k).fits(),
    {
    }

    /// No service at all.
    pub fn new() -> (s: ServiceStats)
        ensures
            s.wf(),
            s@ == Map::<Seq<char>, Tally>::empty(),
    {
        let s = ServiceStats { map: StringHashMap::new(), keys: Vec::new() };
        assert(names(s.keys@) =~= Seq::<Seq<char>>::empty());
        assert(s.map@.dom() =~= names(s.keys@).to_set());
        assert(s@ =~= Map::<Seq<char>, Tally>::empty());
        s
    }

    /// Whether no service has been documented.
    pub fn is_empty(&self) -> (r: bool)
        requires
            self.wf(),
        ensures
            r == (self@.dom().len() == 0),
    {
        proof {
            self.lemma_finite();
            assert(self@.dom() =~= self.map@.dom());
        }
        self.map.is_empty()
    }

    /// The number of services.
    pub fn len(&self) -> (r: usize)
        requires
            self.wf(),
        ensures
            r == self@.dom().len(),
    {
        proof {
            assert(self@.dom() =~= self.map@.dom());
        }
        self.map.len()
    }

    /// The statistics of one service, if it has any.
    pub fn get(&self, service: &str) -> (r: Option<&LogStats>)
        requires
            self.wf(),
        ensures
            match r {
                Some(s) => self@.contains_key(service@) && s@ == self@[service@],
                None => !self@.contains_key(service@),
            },
    {
        self.map.get(service)
    }

    /// The names of all services, each once, in no particular order.
    pub fn service_names(&self) -> (r: Vec<String>)
        requires
            self.wf(),
        ensures
            names(r@).no_duplicates(),
            names(r@).to_set() == self@.dom(),
    {
        let mut r: Vec<String> = Vec::new();
        let n = self.keys.len();
        for i in 0..n
            invariant
                n == self.keys.len(),
                r.len() == i,
                names(r@) == names(self.keys@).take(i as int),
        {
            let name = self.keys[i].clone();
            r.push(name);
            assert(names(r@) =~= names(self.keys@).take(i + 1));
        }
        assert(names(self.keys@).take(n as int) =~= names(self.keys@));
        assert(self@.dom() =~= self.map@.dom());
        r
    }

    /// Adds `stats` to the statistics of service `service`, creating the
    /// service where it is new.
    pub(crate) fn add_to_service(&mut self, service: &String, stats: &LogStats)
        requires
            old(self).wf(),
            stats_at(old(self)@, service@).plus(stats@).fits(),
        ensures
            final(self).wf(),
            final(self)@ == old(self)@.insert(service@, stats_at(old(self)@, service@).plus(stats@)),
    {
        let ghost old_names = names(self.keys@);
        let current = self.map.get(service.as_str());
        let sum = match current {
            Some(s) => s.add(stats),
            None => LogStats::new().add(stats),
        };
        if current.is_none() {
            self.keys.push(service.clone());
            proof {
                assert(names(self.keys@) =~= old_names.push(service@));
                old_names.lemma_push_to_set_commute(service@);
                assert(!old_names.contains(service@));
            }
        }
        self.map.insert(service.clone(), sum);
        assert(self.map@.dom() =~= names(self.keys@).to_set());
        assert(self@ =~= old(self)@.insert(service@, stats_at(old(self)@, service@).plus(stats@)));
    }

    /// Whether `absorb` can add `other` to `self` without a counter
    /// overflowing a `usize`.
    pub fn can_absorb(&self, other: &ServiceStats) -> (r: bool)
        requires
            self.wf(),
            other.wf(),
        ensures
            r == forall|k: Seq<char>|
                #[trigger] other@.contains_key(k) ==> stats_at(self@, k).plus(other@[k]).fits(),
    {
        let ghost other_names = names(other.keys@);
        let n = other.keys.len();
        for i in 0..n
            invariant
                n == other.keys.len(),
                self.wf(),
                other.wf(),
                other_names == names(other.keys@),
                forall|j: int|
                    0 <= j < i ==> stats_at(self@, #[trigger] other_names[j]).plus(
                        other@[other_names[j]],
                    ).fits(),
        {
            let key = &other.keys[i];
            assert(other_names[i as int] == key@);
            assert(other.map@.dom().contains(key@));
            let theirs = other.map.get(key.as_str()).unwrap();
            let ours = match self.map.get(key.as_str()) {
                Some(s) => *s,
                None => LogStats::new(),
            };
            assert(ours@ == stats_at(self@, key@));
            assert(theirs@ == other@[key@]);
            if ours.checked_add(theirs).is_none() {
                assert(other@.contains_key(key@));
                return false;
            }
        }
        proof {
            assert forall|k: Seq<char>| #[trigger] other@.contains_key(k) implies stats_at(self@, k).plus(
                other@[k],
            ).fits() by {
                assert(other_names.to_set().contains(k));
                let j = choose|j: int| 0 <= j < other_names.len() && other_names[j] == k;
            }
        }
        true
    }

    /// Adds the statistics of every service of `other` to `self`.
    pub fn absorb(&mut self, other: &ServiceStats)
        requires
            old(self).wf(),
            other.wf(),
            forall|k: Seq<char>|
                #[trigger] other@.contains_key(k) ==> stats_at(old(self)@, k).plus(other@[k]).fits(),
        ensures
            final(self).wf(),
            final(self)@ == merge_maps(old(self)@, other@),
    {
        let ghost start = self@;
        let ghost other_names = names(other.keys@);
        let n = other.keys.len();
        for i in 0..n
            invariant
                n == other.keys.len(),
                other.wf(),
                other_names == names(other.keys@),
                self.wf(),
                forall|k: Seq<char>|
                    #[trigger] other@.contains_key(k) ==> stats_at(start, k).plus(other@[k]).fits(),
                self@ == merge_maps(
                    start,
                    Map::new(
                        |k: Seq<char>| other_names.take(i as int).contains(k),
                        |k: Seq<char>| other@[k],
                    ),
                ),
        {
            let key = &other.keys[i];
            assert(other_names[i as int] == key@);
            assert(other.map@.dom().contains(key@));
            assert(other@.contains_key(key@));
            let stats = other.map.get(key.as_str()).unwrap();
            proof {
                assert(!other_names.take(i as int).contains(key@)) by {
                    if other_names.take(i as int).contains(key@) {
                        let j = choose|j: int| 0 <= j < i && other_names.take(i as int)[j] == key@;
                        assert(other_names[j] == other_names[i as int]);
                    }
                }
                assert(stats_at(self@, key@) == stats_at(start, key@));
            }
            self.add_to_service(key, stats);
            proof {
                assert(other_names.take(i + 1) =~= other_names.take(i as int).push(key@));
                assert forall|k: Seq<char>| other_names.take(i as int).contains(k) implies other@.contains_key(k) by {
                    let j = choose|j: int| 0 <= j < i && other_names.take(i as int)[j] == k;
                    assert(other_names[j] == k);
                }
                assert(self@ =~= merge_maps(
                    start,
                    Map::new(
                        |k: Seq<char>| other_names.take(i + 1).contains(k),
                        |k: Seq<char>| other@[k],
                    ),
                ));
            }
        }
        proof {
            assert(other_names.take(n as int) =~= other_names);
            assert(Map::new(
                |k: Seq<char>| other_names.take(n as int).contains(k),
                |k: Seq<char>| other@[k],
            ) =~= other@);
        }
    }
}

/// Documents one log line under its service; a service seen for the first
/// time starts from empty statistics.
pub fn document_log_event(h: &mut ServiceStats, le: LogEvent)
    requires
        old(h).wf(),
        stats_at(old(h)@, le.service@).plus(event_tally(le)).fits(),
    ensures
        final(h).wf(),
        final(h)@ == record_event(old(h)@, le),
{
    let mut one = LogStats::new();
    one.document(&le);
    proof {
        assert(one@ == event_tally(le));
    }
    h.add_to_service(&le.service, &one);
}

} // verus!
