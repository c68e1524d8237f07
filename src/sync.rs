use vstd::prelude::*;
use crate::segment::Segment;
use crate::checkpoint::{resume_spec, Resume};
use crate::store::{lemma_upsert_idempotent, upsert_all};

verus! {

/// Consecutive unreadable records tolerated before a cycle is abandoned.
pub const MAX_CONSECUTIVE_FAILURES: u64 = 20;

/// Where a sync cycle stands.
#[derive(PartialEq, Eq, Structural, Clone, Copy, Debug)]
pub enum Phase {
    Running,
    Cancelled,
    Corrupt,
}

/// What the caller does with the record or line it just handed over.
#[derive(PartialEq, Eq, Structural, Clone, Copy, Debug)]
pub enum Step {
    /// Upsert the record inside the open transaction.
    Apply,
    /// Move to the next line and read again.
    SkipLine,
    /// Roll back and stop: too many unreadable records in a row.
    Abort,
    /// Roll back and stop: cancellation was requested.
    Rollback,
}

/// What the reader produced for one position of the blob.
pub enum Event {
    /// A record, and whether cancellation had been requested when it was read.
    Record(Segment, bool),
    /// A line that did not parse.
    Malformed,
}

pub struct CycleView {
    pub phase: Phase,
    pub failures: nat,
    pub applied: Seq<Segment>,
}

pub open spec fn start_view() -> CycleView {
    CycleView { phase: Phase::Running, failures: 0, applied: Seq::empty() }
}

pub open spec fn step_of(v: CycleView, e: Event) -> Step {
    match v.phase {
        Phase::Cancelled => Step::Rollback,
        Phase::Corrupt => Step::Abort,
        Phase::Running => match e {
            Event::Record(_, true) => Step::Rollback,
            Event::Record(_, false) => Step::Apply,
            Event::Malformed => if v.failures + 1 > MAX_CONSECUTIVE_FAILURES {
                Step::Abort
            } else {
                Step::SkipLine
            },
        },
    }
}

pub open spec fn next_view(v: CycleView, e: Event) -> CycleView {
    match v.phase {
        Phase::Running => match e {
            Event::Record(s, true) => CycleView { phase: Phase::Cancelled, ..v },
            Event::Record(s, false) => CycleView { failures: 0, applied: v.applied.push(s), ..v },
            Event::Malformed => if v.failures + 1 > MAX_CONSECUTIVE_FAILURES {
                CycleView { phase: Phase::Corrupt, failures: v.failures + 1, ..v }
            } else {
                CycleView { failures: v.failures + 1, ..v }
            },
        },
        _ => v,
    }
}

/// The cycle's state after the events `es`, from the start.
pub open spec fn run(es: Seq<Event>) -> CycleView
    decreases es.len(),
{
    if es.len() == 0 {
        start_view()
    } else {
        next_view(run(es.drop_last()), es.last())
    }
}

/// The store and checkpoint once a cycle over `es` has reached the end of a
/// blob of `blob_len` bytes: committed only if the cycle is still running.
pub open spec fn cycle_effect(
    store: Map<Seq<char>, Segment>,
    checkpoint: Option<u64>,
    blob_len: u64,
    es: Seq<Event>,
) -> (Map<Seq<char>, Segment>, Option<u64>) {
    let v = run(es);
    if v.phase == Phase::Running {
        (upsert_all(store, v.applied), Some(blob_len))
    } else {
        (store, checkpoint)
    }
}

/// One sync cycle over a blob: decides, record by record, what the caller
/// does with its open transaction, and whether it may commit at the end.
pub struct SyncCycle {
    blob_len: u64,
    phase: Phase,
    failures: u64,
    applied: Ghost<Seq<Segment>>,
}

impl View for SyncCycle {
    type V = CycleView;

    closed spec fn view(&self) -> CycleView {
        CycleView { phase: self.phase, failures: self.failures as nat, applied: self.applied@ }
    }
}

impl SyncCycle {
    /// The length of the blob this cycle reads.
    pub closed spec fn blob_len(&self) -> u64 {
        self.blob_len
    }

    pub closed spec fn wf(&self) -> bool {
        self.failures <= MAX_CONSECUTIVE_FAILURES + 1
            && (self.phase == Phase::Running ==> self.failures <= MAX_CONSECUTIVE_FAILURES)
    }

    pub fn new(blob_len: u64) -> (r: SyncCycle)
        ensures
            r@ == start_view(),
            r.blob_len() == blob_len,
            r.wf(),
    {
        SyncCycle { blob_len, phase: Phase::Running, failures: 0, applied: Ghost(Seq::empty()) }
    }

    pub fn phase(&self) -> (r: Phase)
        ensures
            r == self@.phase,
    {
        self.phase
    }

    /// A record was read; `cancelled` tells whether cancellation was requested.
    pub fn on_record(&mut self, seg: &Segment, cancelled: bool) -> (r: Step)
        requires
            old(self).wf(),
        ensures
            final(self).wf(),
            final(self).blob_len() == old(self).blob_len(),
            r == step_of(old(self)@, Event::Record(*seg, cancelled)),
            final(self)@ == next_view(old(self)@, Event::Record(*seg, cancelled)),
    {
        match self.phase {
            Phase::Cancelled => Step::Rollback,
            Phase::Corrupt => Step::Abort,
            Phase::Running => {
                if cancelled {
                    self.phase = Phase::Cancelled;
                    Step::Rollback
                } else {
                    self.failures = 0;
                    self.applied = Ghost(self.applied@.push(*seg));
                    Step::Apply
                }
            },
        }
    }

    /// A line could not be read as a record.
    pub fn on_malformed(&mut self) -> (r: Step)
        requires
            old(self).wf(),
        ensures
            final(self).wf(),
            final(self).blob_len() == old(self).blob_len(),
            r == step_of(old(self)@, Event::Malformed),
            final(self)@ == next_view(old(self)@, Event::Malformed),
    {
        match self.phase {
            Phase::Cancelled => Step::Rollback,
            Phase::Corrupt => Step::Abort,
            Phase::Running => {
                self.failures = self.failures + 1;
                if self.failures > MAX_CONSECUTIVE_FAILURES {
                    self.phase = Phase::Corrupt;
                    Step::Abort
                } else {
                    Step::SkipLine
                }
            },
        }
    }

    /// The end of the blob was reached: the checkpoint to store after the
    /// commit, or `None` where the transaction must be rolled back.
    pub fn finish(&self) -> (r: Option<u64>)
        ensures
            r == (if self@.phase == Phase::Running { Some(self.blob_len()) } else { None::<u64> }),
    {
        match self.phase {
            Phase::Running => Some(self.blob_len),
            _ => None,
        }
    }
}

proof fn lemma_stopped_stays(es: Seq<Event>, i: int)
    requires
        0 <= i < es.len(),
        run(es.subrange(0, i + 1)).phase != Phase::Running,
    ensures
        run(es).phase != Phase::Running,
    decreases es.len(),
{
    if i + 1 < es.len() {
        assert(es.drop_last().subrange(0, i + 1) =~= es.subrange(0, i + 1));
        lemma_stopped_stays(es.drop_last(), i);
    } else {
        assert(es.subrange(0, i + 1) =~= es);
    }
}

/// A cycle in which cancellation is seen at any record commits nothing: the
/// store and the checkpoint stay as they were.
pub proof fn lemma_cancel_commits_nothing(
    store: Map<Seq<char>, Segment>,
    checkpoint: Option<u64>,
    blob_len: u64,
    es: Seq<Event>,
    i: int,
)
    requires
        0 <= i < es.len(),
        es[i] matches Event::Record(_, true),
    ensures
        cycle_effect(store, checkpoint, blob_len, es) == (store, checkpoint),
{
    let pre = es.subrange(0, i + 1);
    assert(pre.drop_last() =~= es.subrange(0, i));
    lemma_stopped_stays(es, i);
}

/// A sync against a blob that has not grown since the last commit does
/// nothing, and replaying the records of a committed cycle changes nothing.
pub proof fn lemma_sync_idempotent(store: Map<Seq<char>, Segment>, blob_len: u64, es: Seq<Event>)
    ensures
        resume_spec(blob_len, Some(blob_len)) == Resume::UpToDate,
        ({
            let (after, cp) = cycle_effect(store, None, blob_len, es);
            cycle_effect(after, cp, blob_len, es) == (after, cp)
        }),
{
    let v = run(es);
    if v.phase == Phase::Running {
        lemma_upsert_idempotent(store, v.applied);
    }
}

/// A cycle cancelled part-way, followed by a complete cycle over the same
/// blob, leaves the store and checkpoint as the complete cycle alone does.
pub proof fn lemma_resume_after_cancel(
    store: Map<Seq<char>, Segment>,
    checkpoint: Option<u64>,
    blob_len: u64,
    cancelled: Seq<Event>,
    i: int,
    complete: Seq<Event>,
)
    requires
        0 <= i < cancelled.len(),
        cancelled[i] matches Event::Record(_, true),
    ensures
        ({
            let (s1, c1) = cycle_effect(store, checkpoint, blob_len, cancelled);
            cycle_effect(s1, c1, blob_len, complete) == cycle_effect(store, checkpoint, blob_len, complete)
        }),
{
    lemma_cancel_commits_nothing(store, checkpoint, blob_len, cancelled, i);
}

/// A cycle never records a checkpoint beyond the blob it read: starting from
/// one within the blob, the checkpoint after the cycle is within it too.
pub proof fn lemma_checkpoint_within_blob(
    store: Map<Seq<char>, Segment>,
    checkpoint: Option<u64>,
    blob_len: u64,
    es: Seq<Event>,
)
    requires
        checkpoint matches Some(c) ==> c <= blob_len,
    ensures
        cycle_effect(store, checkpoint, blob_len, es).1 matches Some(c) ==> c <= blob_len,
{
}

} // verus!
