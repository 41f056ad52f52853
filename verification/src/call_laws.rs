//! What holds of calls, stated over what goes into them and what comes out.

use crate::attempt;
use crate::attempt::{Attempt, Limits, ReadStamp, Step, WireEvent};
use crate::clock_laws;
use crate::conversation;
use crate::conversation::Conversation;
use crate::driver::{ChatOutcome, DriverEvent, DriverFault};
use crate::emission;
use crate::emission::{EmissionRecord, LedgerEntry, Outbox, SchedNote, StreamEndCause, StreamId};
use crate::endpoint_laws;
use crate::env_file;
use crate::env_file::{EnvFileError, EnvSource};
use crate::event_handler;
use crate::event_handler::{Chunk, EventHandler, FaultDirective, FlowDirective, Normalized,
    Refinement, StreamState, TurnResolution};
use crate::installment_laws;
use crate::liveness::StarvationClock;
use crate::machine;
use crate::machine::{EndCause, StreamMachine};
use crate::openai;
use crate::openai::{AttemptEnd, ConfigError, Message, OpenAiConfig, ResponseGate, TurnVerdict};
use crate::ports;
use crate::ports::CaptureSink;
use crate::refinement_laws;
use crate::settings::{Settings, SettingsError};
use crate::sse;
use crate::sse::{SseEvent, SseOverflow, SseParser};
use crate::text;
use crate::turn;
use crate::turn::Turn;
use crate::turn_laws;
use crate::wire_laws;
use vstd::prelude::*;

verus! {

// ---- the parser -----------------------------------------------------------

/// A body without a blank line, pushed into an empty parser together with a
/// blank line of either form, comes out as that one frame, and nothing is left
/// pending.
pub proof fn lemma_pushed_bodies_come_out_whole(
    p: &mut SseParser,
    chunk: &[u8],
    r: Result<Vec<SseEvent>, SseOverflow>,
    body: Seq<u8>,
    end: Seq<u8>,
)
    requires
        call_ensures(SseParser::push, (p, chunk), r),
        old(p).pending() == Seq::<u8>::empty(),
        chunk@ == body + end,
        end == seq![10u8, 10u8] || end == seq![13u8, 10u8, 13u8, 10u8],
        forall|j: int| 0 <= j < body.len() ==> !#[trigger] wire_laws::blank_line_at(chunk@, j),
    ensures
        final(p).pending() == Seq::<u8>::empty(),
        final(p).limit() == old(p).limit(),
        r matches Ok(evs) && sse::events_view(evs@) == sse::events_of(seq![body]),
{
    assert(old(p).pending() + chunk@ =~= chunk@);
    wire_laws::lemma_a_closed_body_is_one_frame(body, end);
}

/// Bytes that complete no frame are kept as they came, and refused only where
/// they are more than the parser's bound.
pub proof fn lemma_pushed_bytes_are_kept(
    p: &mut SseParser,
    chunk: &[u8],
    r: Result<Vec<SseEvent>, SseOverflow>,
)
    requires
        call_ensures(SseParser::push, (p, chunk), r),
        forall|i: int| !#[trigger] wire_laws::blank_line_at(old(p).pending() + chunk@, i),
    ensures
        final(p).pending() == old(p).pending() + chunk@,
        final(p).limit() == old(p).limit(),
        old(p).pending().len() + chunk@.len() <= old(p).limit() ==> (r matches Ok(evs)
            && evs@.len() == 0),
        old(p).pending().len() + chunk@.len() > old(p).limit() ==> (r matches Err(o)
            && o.limit_bytes == old(p).limit()),
{
    wire_laws::lemma_no_blank_line_no_frame(old(p).pending() + chunk@);
    if let Ok(evs) = r {
        assert(sse::events_view(evs@).len() == evs@.len());
    }
}

/// A parser starts empty, under the bound that it is given, or one mebibyte.
pub proof fn lemma_parsers_start_empty(limit: usize, p: SseParser, q: SseParser)
    requires
        call_ensures(SseParser::with_limit, (limit,), p),
        call_ensures(SseParser::new, (), q),
    ensures
        p.pending().len() == 0,
        p.limit() == limit,
        q.pending().len() == 0,
        q.limit() == 1024 * 1024,
{
}

/// The end of the stream closes what is pending into one frame. Where that
/// says something, nothing is left; where it says nothing, all of it is.
pub proof fn lemma_parsers_finish(
    p: SseParser,
    evs: Vec<SseEvent>,
    q: SseParser,
    rest: (Vec<SseEvent>, Vec<u8>),
)
    requires
        call_ensures(SseParser::finish, (p,), evs),
        call_ensures(SseParser::finish_with_residue, (q,), rest),
    ensures
        p.pending().len() > 0 ==> sse::events_view(evs@) == sse::events_of(seq![p.pending()]),
        p.pending().len() == 0 ==> evs@.len() == 0,
        q.pending().len() > 0 ==> sse::events_view(rest.0@) == sse::events_of(seq![q.pending()]),
        rest.0@.len() > 0 ==> rest.1@.len() == 0,
        rest.0@.len() == 0 ==> rest.1@ == q.pending(),
{
    assert(sse::events_view(evs@).len() == evs@.len());
    assert(sse::events_view(rest.0@).len() == rest.0@.len());
    sse::lemma_one_block(q.pending());
    if q.pending().len() == 0 {
        assert(q.pending() =~= Seq::empty());
        sse::lemma_empty_block();
    }
}

// ---- the starvation clock -------------------------------------------------

/// Looking at the content channel: below the floor after warm-up the clock is
/// started or runs on, at any other time it stops; and starvation is found
/// exactly when the clock has run for the bound.
pub proof fn lemma_clocks_find_starvation(
    c: &mut StarvationClock,
    below_floor: bool,
    warmed: bool,
    now_ns: u128,
    sustained_ns: u128,
    r: bool,
)
    requires
        call_ensures(
            StarvationClock::evaluate,
            (c, below_floor, warmed, now_ns, sustained_ns),
            r,
        ),
    ensures
        !(below_floor && warmed) ==> final(c).starved_since is None && !r,
        below_floor && warmed ==> final(c).starved_since == (match old(c).starved_since {
            Some(s) => Some(s),
            None => Some(now_ns),
        }),
        below_floor && warmed ==> (r <==> sustained_ns == 0 || (old(c).starved_since matches Some(s)
            && now_ns >= s + sustained_ns)),
{
}

/// A tick of an attempt that has read something ends it exactly when the
/// average is below the floor, a second has passed since the first byte, and
/// the clock has run for as many seconds as the attempt's own bound says. The
/// end names the floor and that bound.
pub proof fn lemma_ticks_end_starved_attempts(
    a: &mut Attempt,
    handler: &EventHandler,
    st: &mut StreamState,
    below_floor: bool,
    since_first_byte_ns: u128,
    now_ns: u128,
    bytes_per_sec: u64,
    active_streams: u64,
    out: &mut Outbox,
    r: Option<AttemptEnd>,
)
    requires
        call_ensures(
            Attempt::on_tick,
            (
                a,
                handler,
                st,
                below_floor,
                since_first_byte_ns,
                now_ns,
                bytes_per_sec,
                active_streams,
                out,
            ),
            r,
        ),
        old(a)@.first_byte_seen,
    ensures
        ({
            let starved = below_floor && since_first_byte_ns >= 1_000_000_000;
            let bound = old(a)@.limits.throughput_sustained_secs * 1_000_000_000;
            let since = match old(a)@.starved_since {
                Some(s) => s,
                None => now_ns,
            };
            &&& r is Some <==> starved && (bound == 0 || now_ns - since >= bound)
            &&& starved ==> final(a)@.starved_since == Some(since)
            &&& !starved ==> final(a)@.starved_since is None
            &&& r matches Some(end) ==> end@ == AttemptEnd::Wire(
                StreamEndCause::<Seq<char>>::ThroughputStarved {
                    floor_bps: old(a)@.limits.throughput_floor_bps,
                    sustained_secs: old(a)@.limits.throughput_sustained_secs,
                },
            )
            &&& final(a)@.limits == old(a)@.limits
            &&& final(a)@.window_bytes == 0
            &&& r is None ==> final(st)@ == old(st)@
        }),
{
}

/// Before the first byte a tick does nothing.
pub proof fn lemma_ticks_wait_for_the_first_byte(
    a: &mut Attempt,
    handler: &EventHandler,
    st: &mut StreamState,
    below_floor: bool,
    since_first_byte_ns: u128,
    now_ns: u128,
    bytes_per_sec: u64,
    active_streams: u64,
    out: &mut Outbox,
    r: Option<AttemptEnd>,
)
    requires
        call_ensures(
            Attempt::on_tick,
            (
                a,
                handler,
                st,
                below_floor,
                since_first_byte_ns,
                now_ns,
                bytes_per_sec,
                active_streams,
                out,
            ),
            r,
        ),
        !old(a)@.first_byte_seen,
    ensures
        final(a)@ == old(a)@,
        final(st)@ == old(st)@,
        final(out)@ == old(out)@,
        r is None,
{
    assert(final(out)@ =~= old(out)@);
}

/// A cut ends the attempt at the wire with the cause that the bounds and the
/// words give it, and leaves the attempt's stream with nothing gathered.
pub proof fn lemma_cuts_end_attempts(
    a: &Attempt,
    handler: &EventHandler,
    st: &mut StreamState,
    ev: WireEvent,
    out: &mut Outbox,
    r: AttemptEnd,
)
    requires
        call_ensures(Attempt::on_cut, (a, handler, st, ev, out), r),
    ensures
        ev is Cancelled || ev is CancelledDialing ==> r@ == AttemptEnd::Wire(
            StreamEndCause::<Seq<char>>::Cancelled,
        ),
        ev is OverallDeadline ==> r@ == AttemptEnd::Wire(
            StreamEndCause::<Seq<char>>::OverallDeadline {
                limit_secs: a@.limits.overall_deadline_secs,
            },
        ),
        ev is HeaderTimeout ==> r@ == AttemptEnd::Wire(
            StreamEndCause::<Seq<char>>::FirstByteBackstop {
                window_secs: a@.limits.first_byte_backstop_secs,
            },
        ),
        ev is Stall && a@.read_seq > 0 ==> r@ == AttemptEnd::Wire(
            StreamEndCause::<Seq<char>>::StallTimeout {
                window_secs: a@.limits.stall_timeout_secs,
            },
        ),
        ev is Stall && a@.read_seq == 0 ==> r@ == AttemptEnd::Wire(
            StreamEndCause::<Seq<char>>::FirstByteBackstop {
                window_secs: a@.limits.first_byte_backstop_secs,
            },
        ),
        ev matches WireEvent::ConnectError { detail } ==> r@ == AttemptEnd::Wire(
            StreamEndCause::ConnectError { detail: detail@ },
        ),
        ev matches WireEvent::TransportError { detail } ==> r@ == AttemptEnd::Wire(
            StreamEndCause::TransportError { detail: detail@ },
        ),
        final(st)@ == attempt::finalized(old(st)@),
{
}

// ---- the turn -------------------------------------------------------------

/// An attempt that ended in anything but a commit or a cancellation is retried
/// while the turn has a retry left, and costs it one; with none left the turn
/// is a failover where an alternative is known, and failed elsewhere.
pub proof fn lemma_ended_attempts_are_retried(
    t: &mut Turn,
    handler: &EventHandler,
    end: AttemptEnd,
    out: &mut Outbox,
    r: Option<TurnVerdict>,
)
    requires
        call_ensures(Turn::attempt_ended, (t, handler, end, out), r),
        turn_laws::is_setback(end@),
    ensures
        old(t).remaining_allowance > 0 ==> r is None && final(t).remaining_allowance == old(t).remaining_allowance - 1,
        old(t).remaining_allowance == 0 ==> final(t).remaining_allowance == 0 && r is Some,
        old(t).remaining_allowance == 0 && handler.failover_known() ==> (r matches Some(
            TurnVerdict::Failover { attempts_here },
        ) && attempts_here == old(t)@.st.attempt),
        old(t).remaining_allowance == 0 && !handler.failover_known() ==> (r matches Some(v)
            && match end@ {
            AttemptEnd::Complete(TurnResolution::Fault(f)) => v@ == TurnVerdict::Failed(f),
            AttemptEnd::Wire(c) => v@ == TurnVerdict::Failed(openai::wire_fault_of(c)),
            _ => false,
        }),
        final(t)@.st == old(t)@.st,
        final(t).select_polls == old(t).select_polls,
{
    turn_laws::lemma_setbacks_are_retried(old(t)@, handler.failover_known(), end@);
}

/// A commit is the verdict of the turn, and a cancellation is its failure, at
/// no cost.
pub proof fn lemma_ended_attempts_settle(
    t: &mut Turn,
    handler: &EventHandler,
    end: AttemptEnd,
    out: &mut Outbox,
    r: Option<TurnVerdict>,
)
    requires
        call_ensures(Turn::attempt_ended, (t, handler, end, out), r),
        !turn_laws::is_setback(end@),
    ensures
        final(t)@ == old(t)@,
        end@ matches AttemptEnd::Complete(TurnResolution::Committed(o)) ==> (r matches Some(v) && v@
            == TurnVerdict::Committed(o)),
        end@ matches AttemptEnd::Wire(_) ==> (r matches Some(v) && v@ == TurnVerdict::Failed(
            DriverFault::Protocol("cancelled"@),
        )),
{
}

/// A turn begins with the allowance that the strategy grants, on record, on a
/// stream of its own that has no attempt yet. A poll is counted, and nothing
/// else is touched.
pub proof fn lemma_turns_begin(
    handler: &EventHandler,
    stream_id: StreamId,
    out: &mut Outbox,
    t: Turn,
    u: &mut Turn,
)
    requires
        call_ensures(Turn::begin, (handler, stream_id, out), t),
        call_ensures(Turn::count_poll, (u,), ()),
    ensures
        t.remaining_allowance == handler.allowance(),
        t.select_polls == 0,
        t@.st.stream_id == stream_id,
        t@.st.attempt == 0,
        final(out)@ == old(out)@.push(
            EmissionRecord::<Seq<char>>::Ledger {
                stream: stream_id,
                attempt: 0,
                entry: LedgerEntry::RetryAllowanceGranted { total: handler.allowance() },
            },
        ),
        final(u).select_polls == (if old(u).select_polls == u64::MAX {
            0
        } else {
            old(u).select_polls + 1
        }),
        final(u).remaining_allowance == old(u).remaining_allowance,
        final(u)@.st == old(u)@.st,
{
}

/// The next attempt is numbered one on and starts clean. It is let in exactly
/// if a bucket was drawn, and what was drawn is on record under its number.
pub proof fn lemma_attempts_are_let_in(
    t: &mut Turn,
    handler: &EventHandler,
    out: &mut Outbox,
    r: Option<TurnVerdict>,
)
    requires
        call_ensures(Turn::next_attempt, (t, handler, out), r),
    ensures
        final(t)@.st == old(t)@.st.next_attempt(),
        final(t).remaining_allowance == old(t).remaining_allowance,
        final(t).select_polls == old(t).select_polls,
        final(out)@.len() == old(out)@.len() + 1,
        final(out)@.take(old(out)@.len() as int) == old(out)@,
        r is None <==> final(out)@[old(out)@.len() as int] is Ledger && final(out)@[old(out)@.len() as int]->Ledger_entry is SendBucketSpent,
        r is Some <==> final(out)@[old(out)@.len() as int] == (EmissionRecord::<
            Seq<char>,
        >::Ledger {
            stream: old(t)@.st.stream_id,
            attempt: final(t)@.st.attempt,
            entry: LedgerEntry::SendBucketDenied,
        }),
        r matches Some(v) ==> v@ == TurnVerdict::Failed(
            DriverFault::Protocol("no send bucket available (admission denied)"@),
        ),
{
    assert(final(out)@.take(old(out)@.len() as int) =~= old(out)@);
}

/// The record that closes a turn holds the turn's own counts and its verdict.
pub proof fn lemma_turns_are_closed(t: &Turn, v: &TurnVerdict, out: &mut Outbox)
    requires
        call_ensures(Turn::close, (t, v, out), ()),
    ensures
        ({
            let rec = EmissionRecord::<Seq<char>>::TurnTrailer {
                stream: t@.st.stream_id,
                format_version: 2,
                attempts: t@.st.attempt,
                verdict: turn::recorded_verdict(v@),
                reads: t@.st.reads,
                installments: t@.st.installments,
                events: t@.st.events,
                normalization_errors: t@.st.norm_errors,
                select_polls: t.select_polls,
                capture_policy: "full",
            };
            final(out)@ == old(out)@.push(rec)
        }),
{
}

/// A strategy keeps what it is made with, and a stream begins with the
/// allowance that it grants, on record.
pub proof fn lemma_strategies_grant_allowances(
    send_buckets: u32,
    allowance: u32,
    failover: bool,
    h: EventHandler,
    stream_id: StreamId,
    out: &mut Outbox,
    st: StreamState,
)
    requires
        call_ensures(EventHandler::new, (send_buckets, allowance, failover), h),
        call_ensures(EventHandler::begin_stream, (&h, stream_id, out), st),
    ensures
        h.allowance() == allowance,
        h.failover_known() == failover,
        h.pool_made_with(send_buckets),
        st@.stream_id == stream_id,
        st@.attempt == 0,
        st@.machine.content.len() == 0,
        final(out)@ == old(out)@.push(
            EmissionRecord::<Seq<char>>::Ledger {
                stream: stream_id,
                attempt: 0,
                entry: LedgerEntry::RetryAllowanceGranted { total: allowance },
            },
        ),
{
}

/// Asking for a bucket puts one entry on record: that one was spent exactly if
/// it was had, and that none was there exactly if not.
pub proof fn lemma_buckets_are_asked_for(
    h: &EventHandler,
    stream: StreamId,
    attempt: u32,
    out: &mut Outbox,
    r: bool,
)
    requires
        call_ensures(EventHandler::acquire_send_bucket, (h, stream, attempt, out), r),
    ensures
        ({
            let n = old(out)@.len() as int;
            &&& final(out)@.len() == n + 1
            &&& final(out)@.take(n) == old(out)@
            &&& !r ==> final(out)@[n] == (EmissionRecord::<Seq<char>>::Ledger {
                stream,
                attempt,
                entry: LedgerEntry::SendBucketDenied,
            })
            &&& r ==> exists|v: u32|
                v > 0 && #[trigger] h.drew(Ok(v)) && final(out)@[n] == (EmissionRecord::<
                    Seq<char>,
                >::Ledger {
                    stream,
                    attempt,
                    entry: LedgerEntry::SendBucketSpent { available_after: (v - 1) as u32 },
                })
        }),
{
    assert(final(out)@.take(old(out)@.len() as int) =~= old(out)@);
    let taken = choose|taken: Result<u32, u32>| #[trigger]
        h.drew(taken) && r == (taken is Ok) && final(out)@ == old(out)@.push(
            event_handler::ledger_record(stream, attempt, event_handler::admission_of(taken)),
        );
    event_handler::lemma_draws_are_honest(*h, taken);
    if let Ok(v) = taken {
        assert(h.drew(Ok(v)));
    }
}

/// Returning a bucket puts one entry on record, with one more than there was.
pub proof fn lemma_buckets_are_returned(
    h: &EventHandler,
    stream: StreamId,
    attempt: u32,
    out: &mut Outbox,
)
    requires
        call_ensures(EventHandler::return_send_bucket, (h, stream, attempt, out), ()),
    ensures
        exists|v: u32| #[trigger]
            h.took_back(v) && final(out)@ == old(out)@.push(
                EmissionRecord::<Seq<char>>::Ledger {
                    stream,
                    attempt,
                    entry: LedgerEntry::SendBucketReturned {
                        available_after: if v == u32::MAX {
                            0
                        } else {
                            (v + 1) as u32
                        },
                    },
                },
            ),
{
    let v = choose|v: u32| #[trigger]
        h.took_back(v) && final(out)@ == old(out)@.push(
            event_handler::ledger_record(stream, attempt, event_handler::return_of(v)),
        );
    assert(h.took_back(v));
}

/// A wire fault draws one retry, on record, while any is left. With none left
/// nothing is drawn, and the answer is the alternative or to give up.
pub proof fn lemma_faults_draw_retries(
    handler: &EventHandler,
    stream: StreamId,
    attempt: u32,
    remaining: &mut u32,
    out: &mut Outbox,
    r: FaultDirective,
)
    requires
        call_ensures(EventHandler::on_wire_fault, (handler, stream, attempt, remaining, out), r),
    ensures
        *old(remaining) > 0 ==> r == FaultDirective::RetrySameEndpoint && *final(remaining) == *old(remaining) - 1 && final(out)@ == old(out)@.push(
            EmissionRecord::<Seq<char>>::Ledger {
                stream,
                attempt,
                entry: LedgerEntry::RetryAllowanceSpent { remaining: *final(remaining) },
            },
        ),
        *old(remaining) == 0 ==> *final(remaining) == 0 && final(out)@ == old(out)@,
        *old(remaining) == 0 && handler.failover_known() ==> r == FaultDirective::Failover,
        *old(remaining) == 0 && !handler.failover_known() ==> r == FaultDirective::GiveUp,
{
}

/// Finalizing an attempt gives the machine's verdict and leaves a machine that
/// has gathered nothing, with every count as it was.
pub proof fn lemma_attempts_are_finalized(
    handler: &EventHandler,
    st: &mut StreamState,
    cause: EndCause,
    out: &mut Outbox,
    r: TurnResolution,
)
    requires
        call_ensures(EventHandler::finalize_attempt, (handler, st, cause, out), r),
    ensures
        old(st)@.machine.verdict(cause) matches Ok(o) ==> r@ == TurnResolution::Committed(o),
        old(st)@.machine.verdict(cause) matches Err(f) ==> r@ == TurnResolution::Fault(f),
        final(st)@.machine.content.len() == 0,
        final(st)@.machine.finish_reason is None,
        final(st)@.attempt == old(st)@.attempt,
        final(st)@.stream_id == old(st)@.stream_id,
        final(st)@.reads == old(st)@.reads,
        final(st)@.installments == old(st)@.installments,
        final(st)@.events == old(st)@.events,
        final(out)@.len() == old(out)@.len() + old(st)@.machine.anomalies.len(),
        forall|k: int|
            0 <= k < old(st)@.machine.anomalies.len() ==> final(out)@[old(out)@.len() + k] == (
            EmissionRecord::<Seq<char>>::Anomaly {
                stream: old(st)@.stream_id,
                attempt: old(st)@.attempt,
                note: #[trigger] old(st)@.machine.anomalies[k],
            }),
{
}

// ---- refinement -----------------------------------------------------------

/// An installment that did not normalize is a fault in its own words, on
/// record under its number, and feeds nothing to the machine. One that did,
/// with no more than one choice, adds its text to the machine's and puts each
/// of its channels and events on record.
pub proof fn lemma_installments_are_applied(
    handler: &EventHandler,
    st: &mut StreamState,
    installment_seq: u64,
    norm: Result<Normalized, String>,
    out: &mut Outbox,
    r: Result<FlowDirective, DriverFault>,
)
    requires
        call_ensures(EventHandler::apply, (handler, st, installment_seq, norm, out), r),
    ensures
        norm matches Err(detail) ==> (r matches Err(f) && f@ == DriverFault::Protocol(detail@))
            && final(st)@.machine == old(st)@.machine && final(out)@ == old(out)@ + seq![
            EmissionRecord::<Seq<char>>::NormalizationError {
                stream: old(st)@.stream_id,
                attempt: old(st)@.attempt,
                installment_seq,
                detail: detail@,
            },
        ],
        norm matches Ok(n) ==> (n.multiple_choices is Some ==> r is Err && final(st)@ == old(st)@),
        norm matches Ok(n) ==> (n.multiple_choices is None ==> {
            &&& r matches Ok(d) && (d == FlowDirective::StopComplete <==> n@.events.contains(
                DriverEvent::Done,
            )) && d != FlowDirective::Abort
            &&& final(st)@.machine.content == old(st)@.machine.content + machine::delta_text(
                n@.events,
            )
            &&& final(st)@.machine.usage == (match machine::last_usage(n@.events) {
                Some(u) => Some(u),
                None => old(st)@.machine.usage,
            })
            &&& final(out)@.len() == old(out)@.len() + n.unhandled_channels@.len()
                + n.events@.len()
            &&& forall|k: int|
                0 <= k < n.events@.len() ==> final(out)@[old(out)@.len()
                    + n.unhandled_channels@.len() + k] == (EmissionRecord::<
                    Seq<char>,
                >::NormalizedEvent {
                    stream: old(st)@.stream_id,
                    attempt: old(st)@.attempt,
                    installment_seq,
                    event: (#[trigger] n.events@[k])@,
                })
        }),
{
    if let Ok(n) = norm {
        if n.multiple_choices is None {
            refinement_laws::lemma_every_event_is_recorded(old(st)@, installment_seq, n@);
            machine::lemma_feeding_adds_up(old(st)@.machine, n@.events);
            let c = n@.unhandled_channels.len() as int;
            assert(n@.events.len() == n.events@.len());
            assert(n@.unhandled_channels.len() == n.unhandled_channels@.len());
            assert forall|k: int| 0 <= k < n.events@.len() implies final(out)@[old(out)@.len()
                + n.unhandled_channels@.len() + k] == (EmissionRecord::<
                Seq<char>,
            >::NormalizedEvent {
                stream: old(st)@.stream_id,
                attempt: old(st)@.attempt,
                installment_seq,
                event: (#[trigger] n.events@[k])@,
            }) by {
                assert(n@.events[k] == n.events@[k]@);
            }
        }
    }
}

/// A read that an attempt is told of is counted, by the attempt and its
/// stream, and on record before anything that it completes; what completes
/// nothing is left pending.
pub proof fn lemma_reads_are_told<F: Fn(&str) -> Result<Chunk, String>>(
    a: &mut Attempt,
    handler: &EventHandler,
    st: &mut StreamState,
    chunk: &[u8],
    stamp: ReadStamp,
    decode: &F,
    out: &mut Outbox,
    r: Option<AttemptEnd>,
)
    requires
        call_ensures(Attempt::on_read::<F>, (a, handler, st, chunk, stamp, decode, out), r),
    ensures
        final(a)@.pending == sse::residue(old(a)@.pending + chunk@),
        final(a)@.first_byte_seen,
        final(a)@.read_seq == refinement_laws::counted(old(a)@.read_seq),
        final(a)@.limits == old(a)@.limits,
        final(a)@.starved_since == old(a)@.starved_since,
        final(out)@.len() > old(out)@.len(),
        installment_laws::read_on_record(
            old(a)@,
            old(st)@,
            final(out)@[old(out)@.len() as int],
            chunk@,
            stamp,
        ),
        sse::residue(old(a)@.pending + chunk@).len() > old(a)@.buf_limit ==> (r matches Some(end)
            && end@ == AttemptEnd::Wire(
            StreamEndCause::<Seq<char>>::BufferOverflow { limit_bytes: old(a)@.buf_limit },
        )),
{
    let s = choose|s: Step| #[trigger]
        attempt::reads(*decode, old(a)@, old(st)@, chunk@, stamp, s) && final(a)@ == s.a && final(st)@
            == s.st && final(out)@ == old(out)@ + s.records && attempt::end_view(r) == s.end;
    if !old(a)@.overflows(chunk@) {
        let evs = sse::events_of(sse::frames(old(a)@.pending + chunk@));
        let rs = choose|rs: Seq<Refinement>| #[trigger]
            attempt::frames_handled(
                *decode,
                old(a)@.after_read(chunk@),
                old(st)@.one_read(),
                stamp,
                evs,
                rs,
            ) && s == attempt::read_step(old(a)@, old(st)@, chunk@, stamp, rs);
        clock_laws::lemma_frames_leave_the_clock(
            old(a)@.after_read(chunk@),
            old(st)@.one_read(),
            stamp,
            evs.take(rs.len() as int),
            rs,
        );
    }
    assert(chunk.len() == chunk@.len());
    assert(final(out)@[old(out)@.len() as int] == s.records[0]);
}

/// What a stream's state tells of itself is what it holds.
pub proof fn lemma_streams_tell_what_they_hold(
    st: &StreamState,
    label: (StreamId, u32),
    tally: (u64, u64, u64, u64),
    bytes: u64,
    content: bool,
    next: &mut StreamState,
    number: u32,
)
    requires
        call_ensures(StreamState::label, (st,), label),
        call_ensures(StreamState::tally, (st,), tally),
        call_ensures(StreamState::content_so_far, (st,), bytes),
        call_ensures(StreamState::has_content, (st,), content),
        call_ensures(StreamState::begin_attempt, (next,), number),
    ensures
        label == (st@.stream_id, st@.attempt),
        tally == (st@.reads, st@.installments, st@.events, st@.norm_errors),
        bytes == st@.content_bytes,
        content == st@.saw_any_content,
        number == final(next)@.attempt,
        number == (if old(next)@.attempt == u32::MAX {
            0
        } else {
            old(next)@.attempt + 1
        }),
        final(next)@.machine.content.len() == 0,
        final(next)@.machine.finish_reason is None,
        !final(next)@.saw_any_content,
        final(next)@.events == old(next)@.events,
        final(next)@.reads == old(next)@.reads,
{
}

// ---- the machine ----------------------------------------------------------

/// Feeding a machine: text is added at the end, the first finish reason is
/// kept, the last usage replaces the one before, and the sentinel is
/// remembered. Nothing that was gathered is lost.
pub proof fn lemma_machines_gather(m: &mut StreamMachine, ev: &DriverEvent)
    requires
        call_ensures(StreamMachine::feed, (m, ev), ()),
    ensures
        ({
            let before = old(m)@;
            let after = final(m)@;
            &&& after.content == (match *ev {
                DriverEvent::TextDelta(t) => before.content + t@,
                _ => before.content,
            })
            &&& after.finish_reason == (match (before.finish_reason, *ev) {
                (None, DriverEvent::Finish(r)) => Some(r@),
                _ => before.finish_reason,
            })
            &&& after.usage == (match *ev {
                DriverEvent::Usage { prompt_tokens, completion_tokens, total_tokens } => Some(
                    (prompt_tokens, completion_tokens, total_tokens),
                ),
                _ => before.usage,
            })
            &&& after.saw_done == (before.saw_done || *ev is Done)
            &&& *ev is TextDelta && before.finish_reason is Some ==> after.anomalies
                == before.anomalies.push("text delta arrived after finish_reason"@)
            &&& *ev matches DriverEvent::Finish(r) ==> (before.finish_reason matches Some(first)
                ==> after.anomalies == before.anomalies.push(
                "second finish_reason '"@ + r@ + "' after '"@ + first + "' — keeping the first"@,
            ))
            &&& !(*ev is TextDelta || *ev is Finish) || before.finish_reason is None
                ==> after.anomalies == before.anomalies
        }),
{
}

/// A machine completes a call exactly if it has a finish reason and was not
/// told to abort, with all that it gathered.
pub proof fn lemma_machines_complete(
    m: StreamMachine,
    cause: EndCause,
    r: Result<ChatOutcome, DriverFault>,
)
    requires
        call_ensures(StreamMachine::finalize, (m, cause), r),
    ensures
        r is Ok <==> cause == EndCause::StreamEnded && m@.finish_reason is Some,
        r matches Ok(o) ==> o.content@ == m@.content && Some(o.finish_reason@)
            == m@.finish_reason && o.usage == m@.usage,
        r matches Err(f) ==> (f is Aborted <==> cause == EndCause::HandlerAbort),
        r matches Err(f) ==> (f is EmptyStream <==> cause == EndCause::StreamEnded
            && m@.content.len() == 0),
        r matches Err(f) ==> (f is Truncated <==> cause == EndCause::StreamEnded
            && m@.content.len() > 0),
{
}

// ---- the conversation -----------------------------------------------------

/// Asking adds the line as the user's, at the end. Settling a commit adds the
/// answer as the assistant's; settling a failure takes the last message back
/// and tells people.
pub proof fn lemma_conversations_grow(
    c: &mut Conversation,
    line: &str,
    d: &mut Conversation,
    v: &TurnVerdict,
    told: Option<String>,
)
    requires
        call_ensures(Conversation::ask, (c, line), ()),
        call_ensures(Conversation::settle, (d, v), told),
        !(v is Failover),
    ensures
        final(c)@ == old(c)@.push(Message::<Seq<char>> { role: "user"@, content: line@ }),
        v@ matches TurnVerdict::Committed(o) ==> final(d)@ == old(d)@.push(
            Message::<Seq<char>> { role: "assistant"@, content: o.content },
        ) && told is None,
        v@ matches TurnVerdict::Failed(f) ==> (told matches Some(notice) && notice@
            == conversation::failure_text(f)),
        v@ is Failed && old(d)@.len() > 0 ==> final(d)@ == old(d)@.take(old(d)@.len() - 1),
        v@ is Failed && old(d)@.len() == 0 ==> final(d)@ == old(d)@,
{
    if v@ is Failed && old(d)@.len() > 0 {
        assert(old(d)@.drop_last() =~= old(d)@.take(old(d)@.len() - 1));
    }
}

/// A conversation begins with its system prompt alone, tells its messages as
/// they are, and keeps only the system's when it is reset.
pub proof fn lemma_conversations_begin(
    prompt: Option<&str>,
    c: Conversation,
    d: &mut Conversation,
    role: &str,
    content: &str,
    m: Message,
)
    requires
        call_ensures(Conversation::new, (prompt,), c),
        call_ensures(Conversation::reset, (d,), ()),
        call_ensures(Message::new, (role, content), m),
    ensures
        match prompt {
            Some(p) => c@ == seq![Message::<Seq<char>> { role: "system"@, content: p@ }],
            None => c@.len() == 0,
        },
        final(d)@ == old(d)@.filter(|m: Message<Seq<char>>| m.role == "system"@),
        m.role@ == role@,
        m.content@ == content@,
{
    turn_laws::lemma_reset_keeps_the_system(old(d)@);
}

// ---- the source -----------------------------------------------------------

/// A variable is what the file says of it, else what the process environment
/// says, else nothing.
pub proof fn lemma_variables_are_looked_up(src: &EnvSource, key: &str, r: Option<String>)
    requires
        call_ensures(EnvSource::get, (src, key), r),
    ensures
        src.file().contains_key(key@) ==> (r matches Some(v) && v@ == src.file()[key@]),
        !src.file().contains_key(key@) && src.process().contains_key(key@) ==> (r matches Some(v)
            && v@ == src.process()[key@]),
        !src.file().contains_key(key@) && !src.process().contains_key(key@) ==> r is None,
{
}

/// A file is read from its first line on, with nothing known before it. What
/// it gives is what the source says for the file, beside the process
/// environment; what is wrong with it is told with the path of the file.
pub proof fn lemma_sources_are_read(
    path: &str,
    content: &str,
    process: &Vec<(String, String)>,
    r: Result<EnvSource, EnvFileError>,
    plain: EnvSource,
)
    requires
        call_ensures(EnvSource::from_file, (path, content, process), r),
        call_ensures(EnvSource::process_only, (process,), plain),
    ensures
        match env_file::env_entries(content@, 0, Map::empty()) {
            Ok(entries) => r matches Ok(src) && src.file() == entries && src.process()
                == env_file::environment(process@) && src.origin_text() == Some(path@),
            Err((line, kind)) => r matches Err(e) && e.line == line && e.kind == kind && e.origin@
                == path@,
        },
        plain.file() == Map::<Seq<char>, Seq<char>>::empty(),
        plain.process() == env_file::environment(process@),
        plain.origin_text() is None,
{
}

/// An endpoint and a session are configured from the source's own variables.
pub proof fn lemma_sources_configure(
    src: &EnvSource,
    prefix: &str,
    r: Result<OpenAiConfig, ConfigError>,
    plain: Result<OpenAiConfig, ConfigError>,
    session: Result<Settings, SettingsError>,
)
    requires
        call_ensures(OpenAiConfig::from_source_prefixed, (src, prefix), r),
        call_ensures(OpenAiConfig::from_source, (src,), plain),
        call_ensures(Settings::from_source, (src,), session),
    ensures
        r is Ok <==> endpoint_laws::has_key(src@, prefix@) && src@.contains_key(
            prefix@ + "OPENAI_MODEL"@,
        ) && endpoint_laws::bounds_read(src@),
        r matches Ok(c) ==> c.model@ == src@[prefix@ + "OPENAI_MODEL"@],
        r matches Ok(c) ==> c.throughput_sustained_secs == endpoint_laws::count_of(
            src@,
            "OPENAI_THROUGHPUT_SUSTAINED_SECS"@,
            20,
        ),
        plain matches Ok(c) ==> c.model@ == src@["OPENAI_MODEL"@],
        session matches Ok(s) ==> (plain matches Ok(c) && s.primary@ == c@),
        session matches Ok(s) ==> s.send_buckets == endpoint_laws::count_of(
            src@,
            "OPENAI_SEND_BUCKETS"@,
            1,
        ),
        session matches Ok(s) ==> s.retry_allowance == endpoint_laws::count_of(
            src@,
            "OPENAI_RETRY_ALLOWANCE"@,
            1,
        ),
{
    endpoint_laws::lemma_variables_configure(src@, prefix@);
    endpoint_laws::lemma_variables_configure(src@, Seq::empty());
    endpoint_laws::lemma_variables_set_up(src@);
    assert(Seq::<char>::empty() + "OPENAI_MODEL"@ =~= "OPENAI_MODEL"@);
}

/// An endpoint is asked at its own address and held to its own bounds.
pub proof fn lemma_endpoints_are_addressed(cfg: &OpenAiConfig, url: String, limits: Limits)
    requires
        call_ensures(OpenAiConfig::completions_url, (cfg,), url),
        call_ensures(OpenAiConfig::limits, (cfg,), limits),
    ensures
        url@ == cfg.base_url@ + "/chat/completions"@,
        limits == (Limits {
            stall_timeout_secs: cfg.stall_timeout_secs,
            first_byte_backstop_secs: cfg.first_byte_backstop_secs,
            overall_deadline_secs: cfg.overall_deadline_secs,
            throughput_floor_bps: cfg.throughput_floor_bps,
            throughput_sustained_secs: cfg.throughput_sustained_secs,
        }),
{
}

// ---- observers ------------------------------------------------------------

/// A capture is flushed at the end of a turn and at the latest when
/// sixty-four records are written since the last flush, and then counts anew.
pub proof fn lemma_captures_are_paced(c: &mut CaptureSink, rec: &EmissionRecord, flush: bool)
    requires
        call_ensures(CaptureSink::wrote, (c, rec), flush),
    ensures
        flush <==> *rec is TurnTrailer || old(c)@ >= 63,
        flush ==> final(c)@ == 0,
        !flush ==> final(c)@ == old(c)@ + 1,
{
}

/// What is emitted comes out at the end of the outbox, whole.
pub proof fn lemma_emitted_records_come_last(out: &mut Outbox, rec: EmissionRecord)
    requires
        call_ensures(Outbox::emit, (out, rec), ()),
    ensures
        final(out)@ == old(out)@ + seq![rec@],
{
    assert(final(out)@ =~= old(out)@ + seq![rec@]);
}

/// The bus reports its latency at every two hundred and fifty-sixth emit, and
/// dropped records whenever their number has changed.
pub proof fn lemma_the_bus_reports(
    emitted_before: u64,
    due: bool,
    peak_us: u64,
    latency: EmissionRecord,
    last_reported: u64,
    dropped: u64,
    drops: Option<EmissionRecord>,
)
    requires
        call_ensures(emission::latency_report_due, (emitted_before,), due),
        call_ensures(emission::latency_record, (peak_us,), latency),
        call_ensures(emission::drop_record, (last_reported, dropped), drops),
    ensures
        due <==> (emitted_before + 1) % 256 == 0,
        latency@ == (EmissionRecord::<Seq<char>>::Scheduler {
            stream: 0,
            attempt: 0,
            note: SchedNote::EmitLatencyUs { us: peak_us },
        }),
        drops is Some <==> dropped != last_reported,
        drops matches Some(rec) ==> rec@ == (EmissionRecord::<Seq<char>>::CaptureDrop { dropped }),
{
}

/// The names and lines of a capture.
pub proof fn lemma_captures_are_named(secs: u64, name: String, detail: &str, line: String)
    requires
        call_ensures(ports::capture_file_name, (secs,), name),
        call_ensures(ports::capture_error_line, (detail,), line),
    ensures
        name@ == "capture-"@ + text::decimal(secs as nat) + ".jsonl"@,
        line@ == "{\"rec\":\"capture_error\",\"detail\":\""@ + detail@ + "\"}"@,
{
}

// ---- texts ----------------------------------------------------------------

/// Building and comparing texts: nothing is added, lost or overlooked.
pub proof fn lemma_texts_are_built_whole(
    a: &str,
    b: &str,
    both: String,
    n: u64,
    between: String,
    s: &mut String,
    same: bool,
    within: bool,
)
    requires
        call_ensures(text::concat, (a, b), both),
        call_ensures(text::number_between, (a, n, b), between),
        call_ensures(text::push_decimal, (s, n), ()),
        call_ensures(text::same_text, (a, b), same),
        call_ensures(text::contains, (a, b), within),
    ensures
        both@ == a@ + b@,
        between@ == a@ + text::decimal(n as nat) + b@,
        final(s)@ == old(s)@ + text::decimal(n as nat),
        same <==> a@ == b@,
        within <==> exists|i: int|
            0 <= i <= a@.len() - b@.len() && #[trigger] a@.subrange(i, i + b@.len()) == b@,
{
    if within {
        let i = choose|i: int| text::occurs_at(a@, b@, i);
        assert(a@.subrange(i, i + b@.len()) == b@);
    }
    if exists|i: int| 0 <= i <= a@.len() - b@.len() && #[trigger] a@.subrange(i, i + b@.len()) == b@ {
        let i = choose|i: int|
            0 <= i <= a@.len() - b@.len() && #[trigger] a@.subrange(i, i + b@.len()) == b@;
        assert(text::occurs_at(a@, b@, i));
    }
}

/// Judging a response: an event stream is let in exactly if its status is a
/// success and its type declares one.
pub proof fn lemma_responses_are_judged(status: u16, content_type: &str, r: ResponseGate)
    requires
        call_ensures(openai::gate_response, (status, content_type), r),
    ensures
        r == ResponseGate::HttpError <==> status < 200 || status > 299,
        r == ResponseGate::Stream <==> 200 <= status <= 299 && exists|i: int| #[trigger]
            text::occurs_at(content_type@, "text/event-stream"@, i),
{
}

} // verus!
