use vstd::prelude::*;

use crate::log_event::{LogEvent, LogStats};
use crate::service_laws::{lemma_record_events_grow, lemma_record_events_merge};
use crate::service_stats::{
    document_log_event, merge_maps, record_events, service_tallies, stats_at, ServiceStats,
};
use crate::tally::Tally;

verus! {

broadcast use vstd::seq_lib::group_seq_properties;

/// What one read of the input gave: a line (with its line ending), the end
/// of the input, or a failure.
pub enum ReadOutcome {
    Line(String),
    EndOfInput,
    Failed,
}

/// What the reading thread is to do after a read.
pub enum ReadAction {
    /// Read the next line.
    Continue,
    /// Send this full batch on, then read the next line.
    Send(Vec<String>),
    /// Send this last batch on and stop reading.
    Finish(Vec<String>),
    /// Stop reading; the pending lines are dropped.
    Abandon,
}

/// Groups the lines of the input into batches of `capacity` lines.
pub struct LineBatcher {
    pub capacity: usize,
    pub pending: Vec<String>,
}

/// One line fed to a batcher whose pending lines are `pending`: the batch
/// sent on, if any, and the pending lines afterwards. A full batch is sent
/// before the new line is taken in.
pub open spec fn batch_step(capacity: nat, pending: Seq<String>, line: String) -> (
    Option<Seq<String>>,
    Seq<String>,
) {
    if pending.len() == capacity {
        (Some(pending), seq![line])
    } else {
        (None, pending.push(line))
    }
}

/// The batches sent and the lines left pending after feeding `lines` to a
/// new batcher.
pub open spec fn batch_run(capacity: nat, lines: Seq<String>) -> (Seq<Seq<String>>, Seq<String>)
    decreases lines.len(),
{
    if lines.len() == 0 {
        (Seq::empty(), Seq::empty())
    } else {
        let before = batch_run(capacity, lines.drop_last());
        let step = batch_step(capacity, before.1, lines.last());
        match step.0 {
            Some(b) => (before.0.push(b), step.1),
            None => (before.0, step.1),
        }
    }
}

/// Batching loses no line, repeats none and keeps their order: the batches
/// sent, followed by the pending lines, are the lines read. Every batch sent
/// holds exactly `capacity` lines, and with a positive capacity the pending
/// lines never exceed it.
pub proof fn lemma_batch_run(capacity: nat, lines: Seq<String>)
    ensures
        batch_run(capacity, lines).0.flatten() + batch_run(capacity, lines).1 == lines,
        forall|i: int|
            0 <= i < batch_run(capacity, lines).0.len() ==> (#[trigger] batch_run(
                capacity,
                lines,
            ).0[i]).len() == capacity,
        capacity > 0 ==> batch_run(capacity, lines).1.len() <= capacity,
        lines.len() > 0 ==> batch_run(capacity, lines).1.len() > 0,
    decreases lines.len(),
{
    broadcast use Seq::lemma_flatten_push;

    if lines.len() == 0 {
        assert(Seq::<Seq<String>>::empty().flatten() =~= Seq::<String>::empty());
        assert(Seq::<String>::empty() + Seq::<String>::empty() =~= lines);
    } else {
        let p = lines.drop_last();
        lemma_batch_run(capacity, p);
        let before = batch_run(capacity, p);
        assert(lines =~= p.push(lines.last()));
        if before.1.len() == capacity {
            assert(before.0.push(before.1).flatten() =~= before.0.flatten() + before.1);
            assert(before.0.flatten() + before.1 + seq![lines.last()] =~= lines);
        } else {
            assert(before.0.flatten() + before.1.push(lines.last()) =~= lines);
        }
    }
}

impl LineBatcher {
    /// A batcher with no pending line.
    pub fn new(capacity: usize) -> (b: LineBatcher)
        ensures
            b.capacity == capacity,
            b.pending@ == Seq::<String>::empty(),
    {
        LineBatcher { capacity, pending: Vec::with_capacity(capacity) }
    }

    /// Takes in one line; returns the full batch to send first, if the
    /// pending lines already fill one.
    pub fn push_line(&mut self, line: String) -> (sent: Option<Vec<String>>)
        ensures
            final(self).capacity == old(self).capacity,
            batch_step(old(self).capacity as nat, old(self).pending@, line) == (
                match sent {
                    Some(v) => Some(v@),
                    None => None,
                },
                final(self).pending@,
            ),
    {
        if self.pending.len() == self.capacity {
            let mut full = Vec::with_capacity(self.capacity);
            std::mem::swap(&mut full, &mut self.pending);
            self.pending.push(line);
            assert(self.pending@ =~= seq![line]);
            Some(full)
        } else {
            self.pending.push(line);
            None
        }
    }

    /// Decides what follows a read: a line is taken in (sending a full batch
    /// first); at the end of the input the pending lines go out as the last
    /// batch, even when there are none; after a failed read they are dropped.
    pub fn step(&mut self, outcome: ReadOutcome) -> (action: ReadAction)
        ensures
            final(self).capacity == old(self).capacity,
            match outcome {
                ReadOutcome::Line(line) => {
                    let s = batch_step(old(self).capacity as nat, old(self).pending@, line);
                    &&& final(self).pending@ == s.1
                    &&& match action {
                        ReadAction::Send(v) => s.0 == Some(v@),
                        ReadAction::Continue => s.0 is None,
                        _ => false,
                    }
                },
                ReadOutcome::EndOfInput => {
                    &&& final(self).pending@ == Seq::<String>::empty()
                    &&& action matches ReadAction::Finish(v) && v@ == old(self).pending@
                },
                ReadOutcome::Failed => {
                    &&& final(self).pending@ == old(self).pending@
                    &&& action is Abandon
                },
            },
    {
        match outcome {
            ReadOutcome::Line(line) => match self.push_line(line) {
                Some(full) => ReadAction::Send(full),
                None => ReadAction::Continue,
            },
            ReadOutcome::EndOfInput => {
                let mut last = Vec::new();
                std::mem::swap(&mut last, &mut self.pending);
                ReadAction::Finish(last)
            },
            ReadOutcome::Failed => ReadAction::Abandon,
        }
    }
}

/// Every service's statistics still fit in `usize` counters after the lines
/// of `events` are documented into `m`.
pub open spec fn batch_fits(m: Map<Seq<char>, Tally>, events: Seq<LogEvent>) -> bool {
    forall|k: Seq<char>| #[trigger] stats_at(record_events(m, events), k).fits()
}

/// A batch is refused for overflow alone: of any length, it fits whenever
/// every service's counters after it fit in a `usize`.
pub proof fn lemma_batch_fits_only_overflow(m: Map<Seq<char>, Tally>, events: Seq<LogEvent>)
    requires
        forall|k: Seq<char>| #[trigger] stats_at(record_events(m, events), k).fits(),
    ensures
        batch_fits(m, events),
{
}

/// After this many batches a parsing thread sends its statistics on.
pub const FLUSH_EVERY: usize = 20;

/// A parsing thread sends its statistics on after every twentieth batch,
/// and a progress message is due every half million lines.
pub proof fn lemma_batch_and_progress_periods()
    ensures
        FLUSH_EVERY == 20,
        PROGRESS_EVERY == 500_000,
{
}

/// The statistics a parsing thread has gathered since it last sent, and the
/// number of batches it has taken in.
pub struct StatsBatcher {
    pub stats: ServiceStats,
    pub batches: usize,
}

impl StatsBatcher {
    /// No batch taken in yet.
    pub fn new() -> (b: StatsBatcher)
        ensures
            b.stats.wf(),
            b.stats@ == Map::<Seq<char>, Tally>::empty(),
            b.batches == 0,
    {
        StatsBatcher { stats: ServiceStats::new(), batches: 0 }
    }

    /// Whether `take_batch` can take in `events` without a counter
    /// overflowing a `usize`.
    pub fn can_take(&self, events: &Vec<LogEvent>) -> (r: bool)
        requires
            self.stats.wf(),
        ensures
            r == (self.batches < usize::MAX && batch_fits(self.stats@, events@)),
            r == (self.batches < usize::MAX && forall|k: Seq<char>|
                #[trigger] stats_at(record_events(self.stats@, events@), k).fits()),
    {
        if self.batches == usize::MAX {
            return false;
        }
        let ghost start = self.stats@;
        let ghost all = events@;
        proof {
            self.stats.lemma_values_fit();
            lemma_record_events_merge(start, all);
        }
        let mut acc = ServiceStats::new();
        let n = events.len();
        for i in 0..n
            invariant
                n == events.len(),
                all == events@,
                start == self.stats@,
                self.stats.wf(),
                acc.wf(),
                acc@ == service_tallies(all.take(i as int)),
                record_events(start, all) == merge_maps(start, service_tallies(all)),
                forall|k: Seq<char>| #[trigger] stats_at(start, k).plus(stats_at(acc@, k)).fits(),
        {
            let le = &events[i];
            let ours = match self.stats.get(le.service.as_str()) {
                Some(s) => *s,
                None => LogStats::new(),
            };
            let part = match acc.get(le.service.as_str()) {
                Some(s) => *s,
                None => LogStats::new(),
            };
            proof {
                assert(ours@ == stats_at(start, le.service@));
                assert(part@ == stats_at(acc@, le.service@));
                assert(stats_at(start, le.service@).plus(stats_at(acc@, le.service@)).fits());
            }
            let mut one = LogStats::new();
            one.document(le);
            let before = ours.checked_add(&part).unwrap();
            proof {
                assert(all[i as int] == *le);
                assert(all.take(i + 1).drop_last() =~= all.take(i as int));
                assert(all.take(i + 1) + all.skip(i + 1) =~= all);
            }
            if before.checked_add(&one).is_none() {
                proof {
                    let k = le.service@;
                    lemma_record_events_merge(start, all.take(i + 1));
                    lemma_record_events_grow(start, all.take(i + 1), all.skip(i + 1), k);
                    assert(!stats_at(record_events(start, all), k).fits());
                }
                return false;
            }
            let ghost acc_before = acc@;
            acc.add_to_service(&le.service, &one);
            proof {
                assert(acc@ =~= service_tallies(all.take(i + 1)));
                assert forall|k: Seq<char>| #[trigger] stats_at(start, k).plus(stats_at(acc@, k)).fits() by {
                    if k != le.service@ {
                        assert(stats_at(acc@, k) == stats_at(acc_before, k));
                        assert(stats_at(start, k).plus(stats_at(acc_before, k)).fits());
                    }
                }
            }
        }
        proof {
            assert(all.take(n as int) =~= all);
            assert forall|k: Seq<char>| #[trigger] stats_at(record_events(start, all), k).fits() by {
                assert(stats_at(start, k).plus(stats_at(acc@, k)).fits());
            }
        }
        true
    }

    /// Documents every line of a batch; after every `FLUSH_EVERY`-th batch
    /// the gathered statistics are returned to be sent and gathering starts
    /// anew.
    pub fn take_batch(&mut self, events: Vec<LogEvent>) -> (sent: Option<ServiceStats>)
        requires
            old(self).stats.wf(),
            old(self).batches < usize::MAX,
            batch_fits(old(self).stats@, events@),
        ensures
            final(self).stats.wf(),
            final(self).batches == old(self).batches + 1,
            match sent {
                Some(s) => {
                    &&& final(self).batches % FLUSH_EVERY == 0
                    &&& s.wf()
                    &&& s@ == record_events(old(self).stats@, events@)
                    &&& final(self).stats@ == Map::<Seq<char>, Tally>::empty()
                },
                None => {
                    &&& final(self).batches % FLUSH_EVERY != 0
                    &&& final(self).stats@ == record_events(old(self).stats@, events@)
                },
            },
    {
        let ghost start = self.stats@;
        let ghost all = events@;
        let ghost b0 = self.batches;
        for le in it: events.into_iter()
            invariant
                self.stats.wf(),
                self.batches == b0,
                b0 < usize::MAX,
                it.seq() == all,
                batch_fits(start, all),
                self.stats@ == record_events(start, all.take(it.index() as int)),
        {
            let ghost j = it.index() as int;
            proof {
                assert(all[j] == le);
                assert(all.take(j + 1).drop_last() =~= all.take(j));
                assert(all.take(j + 1) + all.skip(j + 1) =~= all);
                lemma_record_events_grow(start, all.take(j + 1), all.skip(j + 1), le.service@);
                assert(stats_at(record_events(start, all), le.service@).fits());
            }
            document_log_event(&mut self.stats, le);
        }
        proof {
            assert(all.take(all.len() as int) =~= all);
        }
        self.batches = self.batches + 1;
        if self.batches % FLUSH_EVERY == 0 {
            let mut out = ServiceStats::new();
            std::mem::swap(&mut out, &mut self.stats);
            Some(out)
        } else {
            None
        }
    }

    /// At the end of the input: the statistics still gathered, unless there
    /// are none.
    pub fn finish(self) -> (last: Option<ServiceStats>)
        requires
            self.stats.wf(),
        ensures
            match last {
                Some(s) => s.wf() && s@ == self.stats@ && s@.dom().len() > 0,
                None => self.stats@.dom().len() == 0,
            },
    {
        if self.stats.is_empty() {
            None
        } else {
            Some(self.stats)
        }
    }
}

/// Every this many lines a progress message is due.
pub const PROGRESS_EVERY: usize = 500_000;

/// Whether a progress message is due once `line_count` lines are counted.
pub fn progress_due(line_count: usize) -> (r: bool)
    ensures
        r == (line_count % PROGRESS_EVERY == 0),
{
    line_count % PROGRESS_EVERY == 0
}

} // verus!
