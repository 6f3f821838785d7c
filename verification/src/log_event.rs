use vstd::prelude::*;

use crate::tally::Tally;

verus! {

/// The instant of a log line: seconds and nanoseconds since the Unix epoch
/// in UTC, with the UTC offset (in seconds) it was written in. Two
/// timestamps are equal when they name the same instant, whatever their
/// offsets.
#[derive(Debug, Clone, Copy)]
pub struct Timestamp {
    pub secs: i64,
    pub nanos: u32,
    pub offset_secs: i32,
}

impl PartialEq for Timestamp {
    fn eq(&self, other: &Timestamp) -> (r: bool) {
        self.secs == other.secs && self.nanos == other.nanos
    }
}

impl vstd::std_specs::cmp::PartialEqSpecImpl for Timestamp {
    open spec fn obeys_eq_spec() -> bool {
        true
    }

    open spec fn eq_spec(&self, other: &Timestamp) -> bool {
        &&& self.secs == other.secs
        &&& self.nanos == other.nanos
    }
}

/// One parsed log line. Nothing in the statistics reads its timestamp or
/// endpoint.
#[derive(Debug)]
pub struct LogEvent {
    pub ts: Timestamp,
    pub level: String,
    pub service: String,
    pub latency: usize,
    pub endpoint: String,
}

impl PartialEq for LogEvent {
    fn eq(&self, other: &LogEvent) -> (r: bool) {
        self.ts == other.ts && self.level == other.level && self.service == other.service
            && self.latency == other.latency && self.endpoint == other.endpoint
    }
}

impl vstd::std_specs::cmp::PartialEqSpecImpl for LogEvent {
    open spec fn obeys_eq_spec() -> bool {
        true
    }

    open spec fn eq_spec(&self, other: &LogEvent) -> bool {
        &&& self.ts.secs == other.ts.secs
        &&& self.ts.nanos == other.ts.nanos
        &&& self.level@ == other.level@
        &&& self.service@ == other.service@
        &&& self.latency == other.latency
        &&& self.endpoint@ == other.endpoint@
    }
}

/// The line is at level `error`.
pub open spec fn is_error(le: LogEvent) -> bool {
    le.level@ == "error"@
}

/// The line is at level `fatal`.
pub open spec fn is_fatal(le: LogEvent) -> bool {
    le.level@ == "fatal"@
}

/// What one log line adds to the statistics of its service.
pub open spec fn event_tally(le: LogEvent) -> Tally {
    Tally {
        entries: 1,
        errors: if is_error(le) { 1 } else { 0 },
        fatals: if is_fatal(le) { 1 } else { 0 },
        latency: le.latency as nat,
    }
}

/// The statistics of a sequence of log lines, documented one after another.
pub open spec fn tally_of(events: Seq<LogEvent>) -> Tally
    decreases events.len(),
{
    if events.len() == 0 {
        Tally::zero()
    } else {
        tally_of(events.drop_last()).plus(event_tally(events.last()))
    }
}

/// Counters over the log lines of one service.
#[derive(Debug, Clone, Copy, PartialEq, Eq, Structural)]
pub struct LogStats {
    pub entries: usize,
    pub total_errors: usize,
    pub total_fatals: usize,
    pub total_latency: usize,
}

impl View for LogStats {
    type V = Tally;

    open spec fn view(&self) -> Tally {
        Tally {
            entries: self.entries as nat,
            errors: self.total_errors as nat,
            fatals: self.total_fatals as nat,
            latency: self.total_latency as nat,
        }
    }
}

impl LogStats {
    /// Statistics of no log line at all.
    pub fn new() -> (s: LogStats)
        ensures
            s@ == Tally::zero(),
    {
        LogStats { entries: 0, total_errors: 0, total_fatals: 0, total_latency: 0 }
    }

    /// Counts one more log line: one more entry, one more error or fatal
    /// where its level says so, and its latency added to the total.
    pub fn document(&mut self, le: &LogEvent) -> (r: &Self)
        requires
            old(self)@.plus(event_tally(*le)).fits(),
        ensures
            final(self)@ == old(self)@.plus(event_tally(*le)),
            final(self).entries == old(self).entries + 1,
            final(self).total_errors == old(self).total_errors + (if le.level@ == "error"@ {
                1int
            } else {
                0int
            }),
            final(self).total_fatals == old(self).total_fatals + (if le.level@ == "fatal"@ {
                1int
            } else {
                0int
            }),
            final(self).total_latency == old(self).total_latency + le.latency,
            *r == *final(self),
    {
        proof {
            reveal_strlit("error");
            reveal_strlit("fatal");
            assert("error"@[0] != "fatal"@[0]);
        }
        self.entries += 1;
        if le.level == "error".to_owned() {
            self.total_errors += 1;
        } else if le.level == "fatal".to_owned() {
            self.total_fatals += 1;
        }
        self.total_latency = self.total_latency + le.latency;
        self
    }

    /// The statistics of the lines counted in `self` and in `other` together.
    pub fn add(self, other: &LogStats) -> (r: LogStats)
        requires
            self@.plus(other@).fits(),
        ensures
            r@ == self@.plus(other@),
            r.entries == self.entries + other.entries,
            r.total_errors == self.total_errors + other.total_errors,
            r.total_fatals == self.total_fatals + other.total_fatals,
            r.total_latency == self.total_latency + other.total_latency,
    {
        LogStats {
            entries: self.entries + other.entries,
            total_errors: self.total_errors + other.total_errors,
            total_fatals: self.total_fatals + other.total_fatals,
            total_latency: self.total_latency + other.total_latency,
        }
    }

    /// The sum of `self` and `other`, or `None` where a counter of the sum
    /// would not fit in a `usize`.
    pub fn checked_add(&self, other: &LogStats) -> (r: Option<LogStats>)
        ensures
            r is Some <==> self@.plus(other@).fits(),
            r matches Some(s) ==> s@ == self@.plus(other@),
            r matches Some(s) ==> {
                &&& s.entries == self.entries + other.entries
                &&& s.total_errors == self.total_errors + other.total_errors
                &&& s.total_fatals == self.total_fatals + other.total_fatals
                &&& s.total_latency == self.total_latency + other.total_latency
            },
            r is Some <==> {
                &&& self.entries + other.entries <= usize::MAX
                &&& self.total_errors + other.total_errors <= usize::MAX
                &&& self.total_fatals + other.total_fatals <= usize::MAX
                &&& self.total_latency + other.total_latency <= usize::MAX
            },
    {
        let entries = self.entries.checked_add(other.entries);
        let total_errors = self.total_errors.checked_add(other.total_errors);
        let total_fatals = self.total_fatals.checked_add(other.total_fatals);
        let total_latency = self.total_latency.checked_add(other.total_latency);
        match (entries, total_errors, total_fatals, total_latency) {
            (Some(entries), Some(total_errors), Some(total_fatals), Some(total_latency)) => {
                Some(LogStats { entries, total_errors, total_fatals, total_latency })
            },
            _ => None,
        }
    }

    /// Adds the lines counted in `other` to `self`.
    pub fn add_assign(&mut self, other: &LogStats)
        requires
            old(self)@.plus(other@).fits(),
        ensures
            final(self)@ == old(self)@.plus(other@),
            final(self).entries == old(self).entries + other.entries,
            final(self).total_errors == old(self).total_errors + other.total_errors,
            final(self).total_fatals == old(self).total_fatals + other.total_fatals,
            final(self).total_latency == old(self).total_latency + other.total_latency,
    {
        self.entries = self.entries + other.entries;
        self.total_errors = self.total_errors + other.total_errors;
        self.total_fatals = self.total_fatals + other.total_fatals;
        self.total_latency = self.total_latency + other.total_latency;
    }
}

/// Documenting two runs of lines one after the other gives the sum of their
/// statistics: statistics of parts can be computed apart and added.
pub proof fn lemma_tally_of_concat(a: Seq<LogEvent>, b: Seq<LogEvent>)
    ensures
        tally_of(a + b) == tally_of(a).plus(tally_of(b)),
    decreases b.len(),
{
    if b.len() == 0 {
        assert(a + b =~= a);
    } else {
        lemma_tally_of_concat(a, b.drop_last());
        assert((a + b).drop_last() =~= a + b.drop_last());
        assert((a + b).last() == b.last());
    }
}

/// No line is both an error and fatal, so errors and fatals together never
/// outnumber the entries.
pub proof fn lemma_tally_of_levels_bounded(events: Seq<LogEvent>)
    ensures
        tally_of(events).errors + tally_of(events).fatals <= tally_of(events).entries,
    decreases events.len(),
{
    if events.len() > 0 {
        lemma_tally_of_levels_bounded(events.drop_last());
        reveal_strlit("error");
        reveal_strlit("fatal");
        assert("error"@[0] != "fatal"@[0]);
    }
}

/// Each line counts as exactly one entry.
pub proof fn lemma_tally_of_entries(events: Seq<LogEvent>)
    ensures
        tally_of(events).entries == events.len(),
    decreases events.len(),
{
    if events.len() > 0 {
        lemma_tally_of_entries(events.drop_last());
    }
}

/// What a line adds: one entry, one error exactly when its level is
/// `error`, one fatal exactly when its level is `fatal`, and its own
/// latency.
pub proof fn lemma_event_tally_counts(le: LogEvent)
    ensures
        event_tally(le).entries == 1,
        le.level@ == "error"@ ==> event_tally(le).errors == 1,
        le.level@ != "error"@ ==> event_tally(le).errors == 0,
        le.level@ == "fatal"@ ==> event_tally(le).fatals == 1,
        le.level@ != "fatal"@ ==> event_tally(le).fatals == 0,
        event_tally(le).latency == le.latency,
{
}

/// What a line adds depends on its level and latency alone: its service,
/// endpoint and timestamp play no part.
pub proof fn lemma_event_tally_level_and_latency_only(a: LogEvent, b: LogEvent)
    requires
        a.level@ == b.level@,
        a.latency == b.latency,
    ensures
        event_tally(a) == event_tally(b),
{
}

/// The number of lines of `events` at level `level`.
pub open spec fn count_level(events: Seq<LogEvent>, level: Seq<char>) -> nat {
    events.filter(|e: LogEvent| e.level@ == level).len()
}

/// The sum of the latencies of `events`.
pub open spec fn latency_sum(events: Seq<LogEvent>) -> nat
    decreases events.len(),
{
    if events.len() == 0 {
        0
    } else {
        latency_sum(events.drop_last()) + events.last().latency as nat
    }
}

/// The statistics of a sequence of lines count its lines, its `error` lines
/// and its `fatal` lines, and sum its latencies.
pub proof fn lemma_tally_of_counts(events: Seq<LogEvent>)
    ensures
        tally_of(events).entries == events.len(),
        tally_of(events).errors == count_level(events, "error"@),
        tally_of(events).fatals == count_level(events, "fatal"@),
        tally_of(events).latency == latency_sum(events),
    decreases events.len(),
{
    reveal_with_fuel(Seq::<_>::filter, 1);
    if events.len() > 0 {
        lemma_tally_of_counts(events.drop_last());
        lemma_event_tally_counts(events.last());
    }
}

} // verus!
