//! The measurement driver: repeats probe attempts for one (agent, URL) pair
//! under one of two dispatch modes, producing an ordered series of samples.
//!
//! The two modes differ deliberately in their failure contracts:
//! - **Sequential**: attempt `i + 1` is dispatched only after attempt `i` has
//!   returned, with an inter-attempt delay after each success. The first
//!   failure aborts the drive; no partial series is ever produced.
//! - **Concurrent** ("flood"): all attempts are dispatched at once, the delay
//!   is ignored, and each attempt's failure is absorbed individually: the
//!   failed attempt is simply omitted from the series. The series keeps
//!   submission order — attempt `i`'s sample sits at position `i` among the
//!   successes, with failed positions closed up, never left as gaps.
//!
//! The drivers here are the decision half of the loop: they say which attempt
//! to dispatch next and how long to wait first, and they fold each attempt's
//! outcome into the series. Performing a probe (the network call) is the
//! caller's side of the contract.

use vstd::prelude::*;

use crate::sample::MeasureResponse;
use crate::sample::SampleModel;
use crate::sample::series_model;

verus! {

/// How repeated probe attempts are dispatched.
#[derive(Debug, Clone, Copy, PartialEq, Eq, Structural)]
pub enum DispatchMode {
    /// One attempt at a time, delayed, failing fast on the first error.
    Sequential,
    /// All attempts at once, ignoring the delay, dropping failed attempts.
    Concurrent,
}

/// Why a probe attempt failed.
#[derive(Debug, Clone, PartialEq, Eq)]
pub enum ProbeError {
    /// Network-level failure reaching the agent: connection refused,
    /// timeout, or a transport fault upstream of the measurement.
    Transport(String),
    /// The agent was reachable but reported a measurement failure,
    /// carrying the agent's error text.
    Agent(String),
    /// The agent's response body was malformed or unexpected.
    Decode(String),
}

/// An ordered series of samples for one (agent, URL) pair, labeled with the
/// URL they were measured against. Position `i` corresponds to attempt `i`.
#[derive(Debug)]
pub struct LabeledSeries {
    pub label: String,
    pub samples: Vec<MeasureResponse>,
}

impl LabeledSeries {
    /// An empty series for the given URL, sized for `times` attempts.
    pub fn new(label: String, times: usize) -> (s: LabeledSeries)
        ensures
            s.label@ == label@,
            s.samples@.len() == 0,
    {
        LabeledSeries { label, samples: Vec::with_capacity(times) }
    }
}

/// The wait commanded before attempt `i` of a sequential drive: nothing
/// before the first attempt, the configured delay before every later one.
pub open spec fn wait_before_attempt(i: nat, delay_ms: u64) -> u64 {
    if i == 0 {
        0
    } else {
        delay_ms
    }
}

/// The total wait a sequential drive of `times` attempts commands.
pub open spec fn total_wait(times: nat, delay_ms: u64) -> int
    decreases times,
{
    if times == 0 {
        0
    } else {
        total_wait((times - 1) as nat, delay_ms) + wait_before_attempt(
            (times - 1) as nat,
            delay_ms,
        ) as int
    }
}

/// A fully successful sequential drive of `times` attempts waits for exactly
/// `(times - 1) * delay` in total, so the drive takes at least that long.
pub proof fn lemma_sequential_minimum_wait(times: nat, delay_ms: u64)
    requires
        times > 0,
    ensures
        total_wait(times, delay_ms) == (times - 1) * delay_ms,
    decreases times,
{
    if times == 1 {
        assert(total_wait(0, delay_ms) == 0);
        assert(total_wait(1, delay_ms) == wait_before_attempt(0, delay_ms) as int);
    } else {
        lemma_sequential_minimum_wait((times - 1) as nat, delay_ms);
        assert(wait_before_attempt((times - 1) as nat, delay_ms) == delay_ms);
        assert(total_wait(times, delay_ms) == total_wait((times - 1) as nat, delay_ms)
            + delay_ms as int);
        assert((times - 1) * delay_ms == (times - 2) * delay_ms + delay_ms)
            by (nonlinear_arith)
            requires
                times >= 2,
        ;
    }
}

/// One commanded probe dispatch of a sequential drive: wait
/// `wait_before_ms`, then issue attempt number `attempt`.
pub struct Dispatch {
    pub attempt: usize,
    pub wait_before_ms: u64,
}

/// The sequential driver. Samples collected so far sit in `collected` in
/// attempt order; `aborted` is set by the first failed attempt and is never
/// cleared — a failed drive yields no series.
pub struct SequentialDrive {
    pub times: usize,
    pub delay_ms: u64,
    pub collected: Vec<MeasureResponse>,
    pub aborted: bool,
}

impl SequentialDrive {
    /// A fresh drive of `times` attempts with `delay_ms` between attempts.
    pub fn new(times: usize, delay_ms: u64) -> (d: SequentialDrive)
        ensures
            d.times == times,
            d.delay_ms == delay_ms,
            d.collected@.len() == 0,
            !d.aborted,
    {
        SequentialDrive { times, delay_ms, collected: Vec::with_capacity(times), aborted: false }
    }

    /// The next attempt to issue, with the wait that precedes it — or
    /// nothing when the drive is complete or has aborted. No attempt is ever
    /// commanded after a failure.
    pub fn next_dispatch(&self) -> (r: Option<Dispatch>)
        ensures
            r is Some <==> (!self.aborted && self.collected@.len() < self.times),
            r matches Some(d) ==> d.attempt == self.collected@.len()
                && d.wait_before_ms == wait_before_attempt(
                self.collected@.len() as nat,
                self.delay_ms,
            ),
    {
        if !self.aborted && self.collected.len() < self.times {
            let wait: u64 = if self.collected.len() == 0 {
                0
            } else {
                self.delay_ms
            };
            Some(Dispatch { attempt: self.collected.len(), wait_before_ms: wait })
        } else {
            None
        }
    }

    /// Folds one attempt's outcome into the drive. A success is appended at
    /// the next position; the first failure aborts the drive, leaves the
    /// collected samples untouched, and hands the error back for the caller
    /// to propagate.
    pub fn on_outcome(&mut self, outcome: Result<MeasureResponse, ProbeError>) -> (r: Result<
        (),
        ProbeError,
    >)
        requires
            !old(self).aborted,
            old(self).collected@.len() < old(self).times,
        ensures
            final(self).times == old(self).times,
            final(self).delay_ms == old(self).delay_ms,
            outcome matches Ok(s) ==> r is Ok && !final(self).aborted
                && final(self).collected@ == old(self).collected@.push(s),
            outcome matches Err(e) ==> r == Err::<(), ProbeError>(e)
                && final(self).aborted
                && final(self).collected@ == old(self).collected@,
    {
        match outcome {
            Ok(s) => {
                self.collected.push(s);
                Ok(())
            },
            Err(e) => {
                self.aborted = true;
                Err(e)
            },
        }
    }

    /// Whether every attempt has succeeded.
    pub fn is_complete(&self) -> (r: bool)
        ensures
            r == (!self.aborted && self.collected@.len() == self.times),
    {
        !self.aborted && self.collected.len() == self.times
    }

    /// The finished series: exactly `times` samples, in dispatch order.
    /// Only a drive on which every attempt succeeded has one.
    pub fn into_series(self, label: String) -> (s: LabeledSeries)
        requires
            !self.aborted,
            self.collected@.len() == self.times,
        ensures
            s.label@ == label@,
            s.samples@ == self.collected@,
    {
        LabeledSeries { label, samples: self.collected }
    }
}

/// The state of one submission slot of a concurrent drive.
#[derive(Debug)]
pub enum Slot {
    /// The attempt is still in flight.
    Pending,
    /// The attempt succeeded with this sample.
    Done(MeasureResponse),
    /// The attempt failed; it will be omitted from the series.
    Failed,
}

/// The samples of the settled slots, in submission order, failed and pending
/// positions omitted.
pub open spec fn successes_of(s: Seq<Slot>) -> Seq<SampleModel>
    decreases s.len(),
{
    if s.len() == 0 {
        Seq::empty()
    } else {
        successes_of(s.drop_last()) + (match s.last() {
            Slot::Done(m) => seq![m@],
            _ => Seq::<SampleModel>::empty(),
        })
    }
}

/// How many slots hold a successful sample.
pub open spec fn count_done(s: Seq<Slot>) -> int
    decreases s.len(),
{
    if s.len() == 0 {
        0
    } else {
        count_done(s.drop_last()) + (match s.last() {
            Slot::Done(_) => 1int,
            _ => 0int,
        })
    }
}

/// How many slots hold a failed attempt.
pub open spec fn count_failed(s: Seq<Slot>) -> int
    decreases s.len(),
{
    if s.len() == 0 {
        0
    } else {
        count_failed(s.drop_last()) + (match s.last() {
            Slot::Failed => 1int,
            _ => 0int,
        })
    }
}

/// Whether every slot has settled: no attempt is still in flight.
pub open spec fn all_settled(s: Seq<Slot>) -> bool {
    forall|k: int| 0 <= k < s.len() ==> !(#[trigger] s[k] matches Slot::Pending)
}

/// The concurrent ("flood") driver. All `times` attempts are dispatched up
/// front; slot `i` records the outcome of attempt `i`, whatever order the
/// outcomes arrive in.
pub struct ConcurrentDrive {
    pub slots: Vec<Slot>,
}

impl ConcurrentDrive {
    /// A fresh drive of `times` attempts, all of them to be dispatched at
    /// once and none settled yet.
    pub fn new(times: usize) -> (d: ConcurrentDrive)
        ensures
            d.slots@.len() == times,
            forall|k: int| 0 <= k < times ==> (#[trigger] d.slots@[k] matches Slot::Pending),
    {
        let mut slots: Vec<Slot> = Vec::with_capacity(times);
        let mut i: usize = 0;
        while i < times
            invariant
                i <= times,
                slots@.len() == i,
                forall|k: int| 0 <= k < i ==> (#[trigger] slots@[k] matches Slot::Pending),
            decreases times - i,
        {
            slots.push(Slot::Pending);
            i = i + 1;
        }
        ConcurrentDrive { slots }
    }

    /// Settles slot `attempt` with its outcome. Outcomes may arrive in any
    /// completion order: the slot index alone decides where a successful
    /// sample will sit. A failure is absorbed here — recorded as a failed
    /// slot and not propagated.
    pub fn on_outcome(&mut self, attempt: usize, outcome: Result<MeasureResponse, ProbeError>)
        requires
            attempt < old(self).slots@.len(),
            old(self).slots@[attempt as int] matches Slot::Pending,
        ensures
            final(self).slots@ == old(self).slots@.update(
                attempt as int,
                match outcome {
                    Ok(s) => Slot::Done(s),
                    Err(_) => Slot::Failed,
                },
            ),
    {
        let slot = match outcome {
            Ok(s) => Slot::Done(s),
            Err(_) => Slot::Failed,
        };
        self.slots.set(attempt, slot);
    }

    /// Whether every attempt has settled.
    pub fn all_settled(&self) -> (r: bool)
        ensures
            r == all_settled(self.slots@),
    {
        let mut i: usize = 0;
        while i < self.slots.len()
            invariant
                i <= self.slots@.len(),
                forall|k: int| 0 <= k < i ==> !(#[trigger] self.slots@[k] matches Slot::Pending),
            decreases self.slots@.len() - i,
        {
            match &self.slots[i] {
                Slot::Pending => {
                    return false;
                },
                _ => {},
            }
            i = i + 1;
        }
        true
    }

    /// The finished series: the successful samples in submission order,
    /// failed attempts omitted. A drive with failures still yields a series —
    /// failures never abort a concurrent drive.
    pub fn into_series(self, label: String) -> (s: LabeledSeries)
        requires
            all_settled(self.slots@),
        ensures
            s.label@ == label@,
            series_model(s.samples@) == successes_of(self.slots@),
    {
        let mut samples: Vec<MeasureResponse> = Vec::new();
        let mut i: usize = 0;
        while i < self.slots.len()
            invariant
                i <= self.slots@.len(),
                series_model(samples@) =~= successes_of(self.slots@.take(i as int)),
            decreases self.slots@.len() - i,
        {
            proof {
                assert(self.slots@.take(i + 1).drop_last() =~= self.slots@.take(i as int));
                assert(self.slots@.take(i + 1).last() == self.slots@[i as int]);
            }
            match &self.slots[i] {
                Slot::Done(m) => {
                    samples.push(m.duplicate());
                },
                _ => {},
            }
            i = i + 1;
        }
        proof {
            assert(self.slots@.take(self.slots@.len() as int) =~= self.slots@);
        }
        LabeledSeries { label, samples }
    }
}

/// The successes of a slot sequence number exactly its done slots.
proof fn lemma_successes_len(s: Seq<Slot>)
    ensures
        successes_of(s).len() == count_done(s),
        count_done(s) >= 0,
    decreases s.len(),
{
    if s.len() > 0 {
        lemma_successes_len(s.drop_last());
    }
}

/// Concurrent partial tolerance: once every slot has settled, the series
/// holds exactly one sample per non-failed attempt — `times - failures`
/// samples in all — and no failure escapes to the caller.
pub proof fn lemma_partial_tolerance(s: Seq<Slot>)
    requires
        all_settled(s),
    ensures
        successes_of(s).len() == s.len() - count_failed(s),
    decreases s.len(),
{
    if s.len() > 0 {
        assert forall|k: int| 0 <= k < s.drop_last().len() implies !(#[trigger] s.drop_last()[k]
            matches Slot::Pending) by {
            assert(s.drop_last()[k] == s[k]);
        }
        lemma_partial_tolerance(s.drop_last());
        assert(!(s.last() matches Slot::Pending));
    }
}

/// Concurrent submission-order stability: a successful attempt's sample
/// sits at the position given by the number of successes submitted before
/// it — its submission index with failed positions closed up — whatever
/// order the outcomes settled in.
pub proof fn lemma_submission_order(s: Seq<Slot>, i: int)
    requires
        0 <= i < s.len(),
        s[i] matches Slot::Done(_),
    ensures
        0 <= count_done(s.take(i)) < successes_of(s).len(),
        successes_of(s)[count_done(s.take(i))] == s[i]->Done_0@,
    decreases s.len(),
{
    lemma_successes_len(s.take(i));
    if i == s.len() - 1 {
        assert(s.take(i) =~= s.drop_last());
        lemma_successes_len(s.drop_last());
    } else {
        lemma_submission_order(s.drop_last(), i);
        assert(s.drop_last().take(i) =~= s.take(i));
        lemma_successes_len(s.drop_last());
    }
}

} // verus!
