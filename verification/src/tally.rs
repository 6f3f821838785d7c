use vstd::prelude::*;

verus! {

/// Counters over a multiset of log lines, as unbounded numbers: the
/// mathematical value that a `LogStats` stands for.
pub struct Tally {
    pub entries: nat,
    pub errors: nat,
    pub fatals: nat,
    pub latency: nat,
}

impl Tally {
    /// The counters of no log line.
    pub open spec fn zero() -> Tally {
        Tally { entries: 0, errors: 0, fatals: 0, latency: 0 }
    }

    /// Field-wise sum of two tallies.
    pub open spec fn plus(self, other: Tally) -> Tally {
        Tally {
            entries: self.entries + other.entries,
            errors: self.errors + other.errors,
            fatals: self.fatals + other.fatals,
            latency: self.latency + other.latency,
        }
    }

    /// Every counter can be held in a `usize`.
    pub open spec fn fits(self) -> bool {
        &&& self.entries <= usize::MAX
        &&& self.errors <= usize::MAX
        &&& self.fatals <= usize::MAX
        &&& self.latency <= usize::MAX
    }

    /// Every counter of `self` is at most the matching counter of `other`.
    pub open spec fn le(self, other: Tally) -> bool {
        &&& self.entries <= other.entries
        &&& self.errors <= other.errors
        &&& self.fatals <= other.fatals
        &&& self.latency <= other.latency
    }
}

/// Tallies add counter by counter: entries to entries, errors to errors,
/// fatals to fatals and latency to latency.
pub proof fn lemma_plus_fieldwise(a: Tally, b: Tally)
    ensures
        a.plus(b).entries == a.entries + b.entries,
        a.plus(b).errors == a.errors + b.errors,
        a.plus(b).fatals == a.fatals + b.fatals,
        a.plus(b).latency == a.latency + b.latency,
{
}

/// Adding tallies does not depend on the order of the operands.
pub proof fn lemma_plus_commutative(a: Tally, b: Tally)
    ensures
        a.plus(b) == b.plus(a),
{
}

/// Adding tallies does not depend on how the sum is grouped.
pub proof fn lemma_plus_associative(a: Tally, b: Tally, c: Tally)
    ensures
        a.plus(b).plus(c) == a.plus(b.plus(c)),
{
}

/// The empty tally is a neutral element of addition.
pub proof fn lemma_plus_zero(a: Tally)
    ensures
        a.plus(Tally::zero()) == a,
        Tally::zero().plus(a) == a,
{
}

} // verus!
