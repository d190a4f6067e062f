//! Optional transfer telemetry scoped to a caller's operation. Protocol
//! correctness never depends on an observer or a native UI being present.

use vstd::prelude::*;

verus! {

/// The progress of a transfer: its phase, and how much of how much is done. An observer that
/// several tasks share keeps it behind a lock of its own.
pub struct Progress {
    pub done: u64,
    pub total: u64,
    pub phase: u8,
}

/// What an observer sees of a transfer.
#[derive(Clone, Copy, Debug, PartialEq, Eq, Structural)]
pub struct Snapshot {
    pub done: u64,
    pub total: u64,
    pub phase: u8,
}

impl View for Progress {
    type V = Snapshot;

    open spec fn view(&self) -> Snapshot {
        Snapshot { done: self.done, total: self.total, phase: self.phase }
    }
}

impl Default for Progress {
    fn default() -> (r: Self)
        ensures
            r@ == (Snapshot { done: 0, total: 0, phase: 0 }),
    {
        Progress { done: 0, total: 0, phase: 0 }
    }
}

impl Progress {
    pub fn snapshot(&self) -> (r: Snapshot)
        ensures
            r == self@,
    {
        Snapshot { done: self.done, total: self.total, phase: self.phase }
    }

    pub fn reset(&mut self)
        ensures
            final(self)@ == (Snapshot { done: 0, total: 0, phase: 0 }),
    {
        self.done = 0;
        self.total = 0;
        self.phase = 0;
    }

    pub fn begin(&mut self, phase: u8, total: u64)
        ensures
            final(self)@ == (Snapshot { done: 0, total, phase }),
    {
        self.done = 0;
        self.total = total;
        self.phase = phase;
    }

    /// Count more bytes; the count wraps round as an atomic counter does.
    pub fn advance(&mut self, bytes: u64)
        ensures
            final(self)@ == (Snapshot {
                done: ((old(self).done + bytes) % 0x1_0000_0000_0000_0000) as u64,
                ..old(self)@
            }),
    {
        self.done = self.done.wrapping_add(bytes);
    }
}

/// Begin a phase with the observer, where there is one.
pub fn begin(observer: Option<&mut Progress>, phase: u8, total: u64) -> (r: bool)
    ensures
        r == observer is Some,
        observer matches Some(p) ==> final(p)@ == (Snapshot { done: 0, total, phase }),
{
    match observer {
        Some(p) => {
            p.begin(phase, total);
            true
        },
        None => false,
    }
}

/// How many bytes the observer counted; none where there is no observer.
pub fn bytes(observer: Option<&Progress>) -> (r: u64)
    ensures
        r == (match observer {
            Some(p) => p@.done,
            None => 0,
        }),
{
    match observer {
        Some(p) => p.snapshot().done,
        None => 0,
    }
}

/// The sum of a list of byte counts.
pub open spec fn sum(counts: Seq<u64>) -> int
    decreases counts.len(),
{
    if counts.len() == 0 {
        0
    } else {
        sum(counts.drop_last()) + counts.last()
    }
}

/// What an observer sees after a list of advances.
pub open spec fn advanced(start: Snapshot, counts: Seq<u64>) -> Snapshot
    decreases counts.len(),
{
    if counts.len() == 0 {
        start
    } else {
        let before = advanced(start, counts.drop_last());
        Snapshot {
            done: ((before.done + counts.last()) % 0x1_0000_0000_0000_0000) as u64,
            ..before
        }
    }
}

/// A transfer that begins counts from nothing: after any advances an observer sees their sum, the
/// total and the phase that were announced.
pub proof fn progress_counts_every_byte(phase: u8, total: u64, counts: Seq<u64>)
    requires
        sum(counts) <= u64::MAX,
    ensures
        advanced(Snapshot { done: 0, total, phase }, counts) == (Snapshot {
            done: sum(counts) as u64,
            total,
            phase,
        }),
        sum(counts) >= 0,
    decreases counts.len(),
{
    if counts.len() > 0 {
        sum_is_not_negative(counts.drop_last());
        progress_counts_every_byte(phase, total, counts.drop_last());
    }
}

proof fn sum_is_not_negative(counts: Seq<u64>)
    ensures
        sum(counts) >= 0,
    decreases counts.len(),
{
    if counts.len() > 0 {
        sum_is_not_negative(counts.drop_last());
    }
}

} // verus!
