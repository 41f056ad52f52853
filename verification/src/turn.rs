//! One user turn on one endpoint, as decisions: attempts, retries, verdict.
//!
//! Whoever drives a turn runs its attempts; this module says when to run the
//! next one and what the turn comes to. Retry authority is a single allowance
//! that the handler grants to the turn. Each retry draws on it mechanically. A
//! failover is a verdict for the caller: nothing here dials elsewhere.

use crate::driver;
use crate::driver::DriverFault;
use crate::emission;
use crate::emission::{EmissionRecord, LedgerEntry, Outbox, StreamEndCause, StreamId,
    TurnVerdictRecord};
use crate::event_handler;
use crate::event_handler::{EventHandler, FaultDirective, StreamFacts, StreamState,
    TurnResolution};
use crate::openai;
use crate::openai::{AttemptEnd, TurnVerdict};
use vstd::prelude::*;

verus! {

/// The state of one turn.
#[derive(Debug)]
pub struct Turn {
    /// The stream that the turn's attempts refine into.
    pub st: StreamState,
    /// Retries that may still be made.
    pub remaining_allowance: u32,
    /// How often the read loop was polled.
    pub select_polls: u64,
}

/// What a turn holds.
#[verifier::ext_equal]
pub struct TurnFacts {
    pub st: StreamFacts,
    pub remaining_allowance: u32,
    pub select_polls: u64,
}

impl View for Turn {
    type V = TurnFacts;

    open spec fn view(&self) -> TurnFacts {
        TurnFacts {
            st: self.st@,
            remaining_allowance: self.remaining_allowance,
            select_polls: self.select_polls,
        }
    }
}

/// A verdict, or none yet, as the specification sees it.
pub open spec fn verdict_view(r: Option<TurnVerdict>) -> Option<TurnVerdict<Seq<char>>> {
    match r {
        Some(v) => Some(v@),
        None => None,
    }
}

/// The verdict on a turn that a fault ended, given what the strategy answers
/// to the fault. A retry is no verdict.
pub open spec fn fault_verdict(
    directive: FaultDirective,
    attempt: u32,
    fault: DriverFault<Seq<char>>,
) -> Option<TurnVerdict<Seq<char>>> {
    match directive {
        FaultDirective::RetrySameEndpoint => None,
        FaultDirective::Failover => Some(TurnVerdict::Failover { attempts_here: attempt }),
        FaultDirective::GiveUp => Some(TurnVerdict::Failed(fault)),
    }
}

/// The fault that an attempt ended with, where the strategy has a say in what
/// comes of it. It has none in a commit or a cancellation.
pub open spec fn arguable_fault(end: AttemptEnd<Seq<char>>) -> Option<DriverFault<Seq<char>>> {
    match end {
        AttemptEnd::Complete(TurnResolution::Committed(_)) => None,
        AttemptEnd::Complete(TurnResolution::Fault(f)) => Some(f),
        AttemptEnd::Wire(StreamEndCause::Cancelled) => None,
        AttemptEnd::Wire(c) => Some(openai::wire_fault_of(c)),
    }
}

impl TurnFacts {
    /// A turn before its first attempt.
    pub open spec fn fresh(stream_id: StreamId, allowance: u32) -> TurnFacts {
        TurnFacts {
            st: StreamFacts::fresh(stream_id),
            remaining_allowance: allowance,
            select_polls: 0,
        }
    }

    /// What the turn comes to when an attempt ends so; nothing yet where the
    /// attempt is to be retried.
    pub open spec fn verdict(self, failover: bool, end: AttemptEnd<Seq<char>>) -> Option<
        TurnVerdict<Seq<char>>,
    > {
        match arguable_fault(end) {
            Some(f) => fault_verdict(
                event_handler::fault_directive(self.remaining_allowance, failover),
                self.st.attempt,
                f,
            ),
            None => match end {
                AttemptEnd::Complete(TurnResolution::Committed(o)) => Some(
                    TurnVerdict::Committed(o),
                ),
                _ => Some(TurnVerdict::Failed(DriverFault::Protocol("cancelled"@))),
            },
        }
    }

    /// Whether a retry is drawn from the allowance when an attempt ends so.
    pub open spec fn draws(self, end: AttemptEnd<Seq<char>>) -> bool {
        arguable_fault(end) is Some && self.remaining_allowance > 0
    }

    /// The turn after an attempt ended so.
    pub open spec fn after(self, end: AttemptEnd<Seq<char>>) -> TurnFacts {
        if self.draws(end) {
            TurnFacts { remaining_allowance: (self.remaining_allowance - 1) as u32, ..self }
        } else {
            self
        }
    }

    /// What is put on record when an attempt ends so, after its bucket's
    /// return.
    pub open spec fn draw_records(self, end: AttemptEnd<Seq<char>>) -> Seq<
        EmissionRecord<Seq<char>>,
    > {
        if self.draws(end) {
            seq![
                event_handler::ledger_record(
                    self.st.stream_id,
                    self.st.attempt,
                    LedgerEntry::RetryAllowanceSpent {
                        remaining: self.after(end).remaining_allowance,
                    },
                ),
            ]
        } else {
            Seq::empty()
        }
    }
}

/// What a turn comes to, given whether its next attempt was let in: a turn
/// that was not fails at once.
pub open spec fn admission_verdict(admitted: bool) -> Option<TurnVerdict<Seq<char>>> {
    if admitted {
        None
    } else {
        Some(
            TurnVerdict::Failed(
                DriverFault::Protocol("no send bucket available (admission denied)"@),
            ),
        )
    }
}

/// What a turn comes to, given whether its next attempt was let in.
pub fn judge_admission(admitted: bool) -> (r: Option<TurnVerdict>)
    ensures
        verdict_view(r) == admission_verdict(admitted),
{
    if admitted {
        return None;
    }
    Some(
        TurnVerdict::Failed(
            DriverFault::Protocol("no send bucket available (admission denied)".to_owned()),
        ),
    )
}

/// A verdict as it is recorded.
pub open spec fn recorded_verdict(v: TurnVerdict<Seq<char>>) -> TurnVerdictRecord<Seq<char>> {
    match v {
        TurnVerdict::Committed(o) => TurnVerdictRecord::Committed {
            finish_reason: o.finish_reason,
            chars: o.content.len() as usize,
            usage: o.usage,
        },
        TurnVerdict::Failover { attempts_here } => TurnVerdictRecord::FailoverDirected {
            after_attempts: attempts_here,
        },
        TurnVerdict::Failed(f) => TurnVerdictRecord::Failed { fault: driver::fault_text(f) },
    }
}

/// The record that closes a turn.
pub open spec fn trailer(t: TurnFacts, v: TurnVerdict<Seq<char>>) -> EmissionRecord<Seq<char>> {
    EmissionRecord::TurnTrailer {
        stream: t.st.stream_id,
        format_version: emission::CAPTURE_FORMAT_VERSION,
        attempts: t.st.attempt,
        verdict: recorded_verdict(v),
        reads: t.st.reads,
        installments: t.st.installments,
        events: t.st.events,
        normalization_errors: t.st.norm_errors,
        select_polls: t.select_polls,
        capture_policy: "full",
    }
}

impl Turn {
    /// Begin a turn: a fresh stream, and the allowance that the handler grants.
    pub fn begin(handler: &EventHandler, stream_id: StreamId, out: &mut Outbox) -> (r: Self)
        ensures
            r@ == TurnFacts::fresh(stream_id, handler.allowance()),
            final(out)@ == old(out)@.push(
                event_handler::ledger_record(
                    stream_id,
                    0,
                    LedgerEntry::RetryAllowanceGranted { total: handler.allowance() },
                ),
            ),
    {
        Turn {
            st: handler.begin_stream(stream_id, out),
            remaining_allowance: handler.retry_allowance_per_turn(),
            select_polls: 0,
        }
    }

    /// Start the next attempt and ask for a send bucket. Without one the turn
    /// is over.
    pub fn next_attempt(&mut self, handler: &EventHandler, out: &mut Outbox) -> (r: Option<
        TurnVerdict,
    >)
        ensures
            final(self)@ == (TurnFacts { st: old(self)@.st.next_attempt(), ..old(self)@ }),
            exists|taken: Result<u32, u32>| #[trigger]
                handler.drew(taken) && final(out)@ == old(out)@.push(
                    event_handler::ledger_record(
                        final(self)@.st.stream_id,
                        final(self)@.st.attempt,
                        event_handler::admission_of(taken),
                    ),
                ) && verdict_view(r) == admission_verdict(taken is Ok),
    {
        let attempt: u32 = self.st.begin_attempt();
        let (stream, _) = self.st.label();
        judge_admission(handler.acquire_send_bucket(stream, attempt, out))
    }

    /// Count one poll of the read loop. The count wraps at its width.
    pub fn count_poll(&mut self)
        ensures
            final(self)@ == (TurnFacts {
                select_polls: old(self)@.select_polls.wrapping_add(1),
                ..old(self)@
            }),
    {
        self.select_polls = self.select_polls.wrapping_add(1);
    }

    /// An attempt ended: return its bucket, and say what the turn comes to, or
    /// nothing where the attempt is to be retried.
    pub fn attempt_ended(&mut self, handler: &EventHandler, end: AttemptEnd, out: &mut Outbox) -> (r:
        Option<TurnVerdict>)
        ensures
            final(self)@ == old(self)@.after(end@),
            verdict_view(r) == old(self)@.verdict(handler.failover_known(), end@),
            exists|before: u32| #[trigger]
                handler.took_back(before) && final(out)@ == old(out)@.push(
                    event_handler::ledger_record(
                        old(self)@.st.stream_id,
                        old(self)@.st.attempt,
                        event_handler::return_of(before),
                    ),
                ) + old(self)@.draw_records(end@),
    {
        let ghost t0 = self@;
        let ghost ended = end@;
        let ghost sent = out@;
        let (stream, attempt) = self.st.label();
        handler.return_send_bucket(stream, attempt, out);
        let ghost returned = out@;
        assert(returned + Seq::<EmissionRecord<Seq<char>>>::empty() =~= returned);
        let fault = match end {
            AttemptEnd::Complete(TurnResolution::Committed(o)) => {
                return Some(TurnVerdict::Committed(o));
            },
            AttemptEnd::Complete(TurnResolution::Fault(f)) => f,
            AttemptEnd::Wire(cause) => {
                if let StreamEndCause::Cancelled = &cause {
                    return Some(TurnVerdict::Failed(DriverFault::Protocol("cancelled".to_owned())));
                }
                openai::wire_fault(cause)
            },
        };
        assert(arguable_fault(ended) == Some(fault@));
        let directive = handler.on_wire_fault(
            stream,
            attempt,
            &mut self.remaining_allowance,
            out,
        );
        assert(out@ =~= returned + t0.draw_records(ended));
        match directive {
            FaultDirective::RetrySameEndpoint => None,
            FaultDirective::Failover => Some(TurnVerdict::Failover { attempts_here: attempt }),
            FaultDirective::GiveUp => Some(TurnVerdict::Failed(fault)),
        }
    }

    /// Put the turn's closing record on record.
    pub fn close(&self, verdict: &TurnVerdict, out: &mut Outbox)
        ensures
            final(out)@ == old(out)@.push(trailer(self@, verdict@)),
    {
        let record = match verdict {
            TurnVerdict::Committed(o) => TurnVerdictRecord::Committed {
                finish_reason: o.finish_reason.clone(),
                chars: o.content.as_str().unicode_len(),
                usage: o.usage,
            },
            TurnVerdict::Failover { attempts_here } => TurnVerdictRecord::FailoverDirected {
                after_attempts: *attempts_here,
            },
            TurnVerdict::Failed(f) => TurnVerdictRecord::Failed { fault: f.to_string() },
        };
        let (stream, attempts) = self.st.label();
        let (reads, installments, events, normalization_errors) = self.st.tally();
        out.emit(
            EmissionRecord::TurnTrailer {
                stream,
                format_version: emission::CAPTURE_FORMAT_VERSION,
                attempts,
                verdict: record,
                reads,
                installments,
                events,
                normalization_errors,
                select_polls: self.select_polls,
                capture_policy: "full",
            },
        );
    }
}

// ---- laws -----------------------------------------------------------------

/// A turn after a series of attempts.
pub open spec fn after_all(t: TurnFacts, ends: Seq<AttemptEnd<Seq<char>>>) -> TurnFacts
    decreases ends.len(),
{
    if ends.len() == 0 {
        t
    } else {
        after_all(t, ends.drop_last()).after(ends.last())
    }
}

/// A turn retries no more often than it was granted, whatever its attempts
/// end with: each retry leaves one less.
pub proof fn lemma_retries_are_bounded(
    t: TurnFacts,
    failover: bool,
    ends: Seq<AttemptEnd<Seq<char>>>,
)
    requires
        forall|k: int|
            0 <= k < ends.len() ==> (#[trigger] after_all(t, ends.take(k))).verdict(
                failover,
                ends[k],
            ) is None,
    ensures
        ends.len() <= t.remaining_allowance,
        after_all(t, ends).remaining_allowance == t.remaining_allowance - ends.len(),
    decreases ends.len(),
{
    if ends.len() > 0 {
        let fewer = ends.drop_last();
        assert forall|k: int| 0 <= k < fewer.len() implies (#[trigger] after_all(
            t,
            fewer.take(k),
        )).verdict(failover, fewer[k]) is None by {
            assert(fewer.take(k) =~= ends.take(k));
            assert(after_all(t, ends.take(k)).verdict(failover, ends[k]) is None);
        }
        lemma_retries_are_bounded(t, failover, fewer);
        let last = ends.len() - 1;
        assert(ends.take(last) =~= fewer);
        assert(after_all(t, ends.take(last)).verdict(failover, ends[last]) is None);
    }
}

/// A turn commits exactly what an attempt committed, and only then.
pub proof fn lemma_commits_come_from_attempts(
    t: TurnFacts,
    failover: bool,
    end: AttemptEnd<Seq<char>>,
)
    ensures
        t.verdict(failover, end) matches Some(TurnVerdict::Committed(o)) ==> end
            == AttemptEnd::Complete(TurnResolution::Committed(o)),
        end matches AttemptEnd::Complete(TurnResolution::Committed(o)) ==> t.verdict(failover, end)
            == Some(TurnVerdict::Committed(o)),
{
}

/// A failover is directed only once the allowance is spent, and only where an
/// alternative is known.
pub proof fn lemma_failover_is_the_last_resort(
    t: TurnFacts,
    failover: bool,
    end: AttemptEnd<Seq<char>>,
)
    ensures
        t.verdict(failover, end) is Some && t.verdict(failover, end)->0 is Failover
            ==> t.remaining_allowance == 0 && failover && arguable_fault(end) is Some,
{
}

/// A cancelled turn is over: it is never retried, fails over nowhere, and
/// costs no allowance.
pub proof fn lemma_cancellation_is_final(t: TurnFacts, failover: bool)
    ensures
        ({
            let end = AttemptEnd::<Seq<char>>::Wire(StreamEndCause::Cancelled);
            &&& t.verdict(failover, end) == Some(
                TurnVerdict::Failed(DriverFault::Protocol("cancelled"@)),
            )
            &&& t.after(end) == t
        }),
{
}

} // verus!
