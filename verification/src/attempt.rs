//! One attempt at a streamed reply, as decisions.
//!
//! Whoever drives an attempt dials, reads and sleeps; this module decides. It
//! is told of each thing that happens on the wire and answers with records for
//! the outbox and, once the attempt is over, with its end. The clocks are
//! wire-detectable ones: the gap between reads, with a looser backstop before
//! the first byte; the throughput floor; and the deadline of the whole turn.
//!
//! Every exit passes through the handler's finalization, and every exit is on
//! record. Where the wire ended the attempt, or the handler rejected a frame,
//! the fault is theirs; otherwise the machine gives the verdict.

use crate::driver::DriverFault;
use crate::emission::{EmissionRecord, InstallmentKind, InstallmentStatus, Outbox, SchedNote,
    StreamEndCause, WireNote};
use crate::event_handler;
use crate::event_handler::{Chunk, EventHandler, FlowDirective, Refinement, StreamFacts,
    StreamState, TurnResolution};
use crate::liveness;
use crate::liveness::{StarvationClock, Tick};
use crate::machine::{EndCause, Gathered};
use crate::openai;
use crate::openai::{AttemptEnd, BodyRead, OpenAiConfig};
use crate::sse;
use crate::sse::{SseEvent, SseParser, SsePayload};
use crate::text;
use vstd::prelude::*;
use vstd::utf8::*;

verus! {

/// The bounds that an attempt is held to.
#[derive(Debug, Clone, Copy, PartialEq, Eq, Structural)]
pub struct Limits {
    pub stall_timeout_secs: u64,
    pub first_byte_backstop_secs: u64,
    pub overall_deadline_secs: u64,
    pub throughput_floor_bps: u64,
    pub throughput_sustained_secs: u64,
}

/// When a read happened: milliseconds since the stream began, wall-clock
/// milliseconds, and milliseconds since the read before.
#[derive(Debug, Clone, Copy, PartialEq, Eq, Structural)]
pub struct ReadStamp {
    pub at_ms: u64,
    pub wall_unix_ms: u64,
    pub gap_ms: u64,
}

/// A thing that ends an attempt at the wire.
#[derive(Debug)]
pub enum WireEvent<S = String> {
    /// Cancelled before a response arrived.
    CancelledDialing,
    /// No response within the first-byte backstop.
    HeaderTimeout,
    ConnectError { detail: S },
    HttpError { status: u16, body: BodyRead<S> },
    ForeignBody { content_type: S, body: BodyRead<S> },
    /// Cancelled while streaming.
    Cancelled,
    OverallDeadline,
    /// No read within the stall window.
    Stall,
    TransportError { detail: S },
}

impl View for WireEvent {
    type V = WireEvent<Seq<char>>;

    open spec fn view(&self) -> WireEvent<Seq<char>> {
        match *self {
            WireEvent::CancelledDialing => WireEvent::CancelledDialing,
            WireEvent::HeaderTimeout => WireEvent::HeaderTimeout,
            WireEvent::ConnectError { detail } => WireEvent::ConnectError { detail: detail@ },
            WireEvent::HttpError { status, body } => WireEvent::HttpError { status, body: body@ },
            WireEvent::ForeignBody { content_type, body } => WireEvent::ForeignBody {
                content_type: content_type@,
                body: body@,
            },
            WireEvent::Cancelled => WireEvent::Cancelled,
            WireEvent::OverallDeadline => WireEvent::OverallDeadline,
            WireEvent::Stall => WireEvent::Stall,
            WireEvent::TransportError { detail } => WireEvent::TransportError { detail: detail@ },
        }
    }
}

/// The state of one attempt on the wire.
#[derive(Debug)]
pub struct Attempt {
    limits: Limits,
    parser: SseParser,
    read_seq: u64,
    first_byte_seen: bool,
    inst_seq: u64,
    span_start: u64,
    ttft_emitted: bool,
    window_bytes: u64,
    clock: StarvationClock,
}

/// What an attempt holds.
#[verifier::ext_equal]
pub struct AttemptFacts {
    pub limits: Limits,
    /// Bytes that complete no frame yet, and the bound on their number.
    pub pending: Seq<u8>,
    pub buf_limit: usize,
    /// Reads so far, and whether there has been one.
    pub read_seq: u64,
    pub first_byte_seen: bool,
    /// Installments so far.
    pub inst_seq: u64,
    /// The read that the next installment's span begins with.
    pub span_start: u64,
    /// Whether the time to first token has been reported.
    pub ttft_emitted: bool,
    /// Bytes of text since the last tick.
    pub window_bytes: u64,
    pub starved_since: Option<u128>,
}

impl View for Attempt {
    type V = AttemptFacts;

    closed spec fn view(&self) -> AttemptFacts {
        AttemptFacts {
            limits: self.limits,
            pending: self.parser.pending(),
            buf_limit: self.parser.limit(),
            read_seq: self.read_seq,
            first_byte_seen: self.first_byte_seen,
            inst_seq: self.inst_seq,
            span_start: self.span_start,
            ttft_emitted: self.ttft_emitted,
            window_bytes: self.window_bytes,
            starved_since: self.clock.starved_since,
        }
    }
}

/// An end, or none yet, as the specification sees it.
pub open spec fn end_view(r: Option<AttemptEnd>) -> Option<AttemptEnd<Seq<char>>> {
    match r {
        Some(e) => Some(e@),
        None => None,
    }
}

/// What a step of an attempt does: the attempt and the stream after it, the
/// records that it adds, and the end, if it is one.
#[verifier::ext_equal]
pub struct Step {
    pub a: AttemptFacts,
    pub st: StreamFacts,
    pub records: Seq<EmissionRecord<Seq<char>>>,
    pub end: Option<AttemptEnd<Seq<char>>>,
}

/// The stream after its attempt has been finalized.
pub open spec fn finalized(st: StreamFacts) -> StreamFacts {
    StreamFacts { machine: Gathered::nothing(), ..st }
}

// ---- cuts -----------------------------------------------------------------

impl AttemptFacts {
    /// Before anything has arrived.
    pub open spec fn fresh(limits: Limits) -> AttemptFacts {
        AttemptFacts {
            limits,
            pending: Seq::empty(),
            buf_limit: sse::DEFAULT_BUF_LIMIT,
            read_seq: 0,
            first_byte_seen: false,
            inst_seq: 0,
            span_start: 1,
            ttft_emitted: false,
            window_bytes: 0,
            starved_since: None,
        }
    }

    /// How long the next read may take: the first-byte backstop before any
    /// read, the stall window after.
    pub open spec fn stall_window(self) -> u64 {
        if self.read_seq == 0 {
            self.limits.first_byte_backstop_secs
        } else {
            self.limits.stall_timeout_secs
        }
    }

    /// Why an attempt in this state ends when this happens.
    pub open spec fn cut_cause(self, ev: WireEvent<Seq<char>>) -> StreamEndCause<Seq<char>> {
        match ev {
            WireEvent::CancelledDialing => StreamEndCause::Cancelled,
            WireEvent::HeaderTimeout => StreamEndCause::FirstByteBackstop {
                window_secs: self.limits.first_byte_backstop_secs,
            },
            WireEvent::ConnectError { detail } => StreamEndCause::ConnectError { detail },
            WireEvent::HttpError { status, body } => StreamEndCause::HttpError {
                status,
                body: openai::body_text(body),
            },
            WireEvent::ForeignBody { content_type, body } => StreamEndCause::NotAnEventStream {
                content_type,
                body_prefix: openai::body_text(body),
            },
            WireEvent::Cancelled => StreamEndCause::Cancelled,
            WireEvent::OverallDeadline => StreamEndCause::OverallDeadline {
                limit_secs: self.limits.overall_deadline_secs,
            },
            WireEvent::Stall => if self.read_seq == 0 {
                StreamEndCause::FirstByteBackstop { window_secs: self.stall_window() }
            } else {
                StreamEndCause::StallTimeout { window_secs: self.stall_window() }
            },
            WireEvent::TransportError { detail } => StreamEndCause::TransportError { detail },
        }
    }
}

/// Which clock woke the read loop, for the events that a clock brings.
pub open spec fn wake_arm(ev: WireEvent<Seq<char>>) -> Option<&'static str> {
    match ev {
        WireEvent::Cancelled => Some("cancel"),
        WireEvent::OverallDeadline => Some("overall_deadline"),
        WireEvent::Stall => Some("stall"),
        _ => None,
    }
}

/// The record of a stream's end.
pub open spec fn end_record(
    st: StreamFacts,
    cause: StreamEndCause<Seq<char>>,
    unconsumed: usize,
) -> EmissionRecord<Seq<char>> {
    EmissionRecord::StreamEnd {
        stream: st.stream_id,
        attempt: st.attempt,
        cause,
        unconsumed_buffer_bytes: unconsumed,
    }
}

/// The records of a cut: the wake, where a clock brought it, then the end.
pub open spec fn cut_records(a: AttemptFacts, st: StreamFacts, ev: WireEvent<Seq<char>>) -> Seq<
    EmissionRecord<Seq<char>>,
> {
    let end = end_record(st, a.cut_cause(ev), a.pending.len() as usize);
    match wake_arm(ev) {
        Some(arm) => seq![
            EmissionRecord::Scheduler {
                stream: st.stream_id,
                attempt: st.attempt,
                note: SchedNote::SelectWake { arm },
            },
            end,
        ],
        None => seq![end],
    }
}

/// A cut at the wire: it is put on record, and then what the machine found odd
/// up to it. The machine has no say in the end.
pub open spec fn cut_step(a: AttemptFacts, st: StreamFacts, ev: WireEvent<Seq<char>>) -> Step {
    Step {
        a,
        st: finalized(st),
        records: cut_records(a, st, ev) + event_handler::anomaly_records(st),
        end: Some(AttemptEnd::Wire(a.cut_cause(ev))),
    }
}

/// Finalize an attempt that the wire ended: its fault is the wire's, whatever
/// the machine gathered.
fn abandon(handler: &EventHandler, st: &mut StreamState, out: &mut Outbox)
    ensures
        final(st)@ == finalized(old(st)@),
        final(out)@ == old(out)@ + event_handler::anomaly_records(old(st)@),
{
    let _ = handler.finalize_attempt(st, EndCause::HandlerAbort, out);
}

fn emit_end(st: &StreamState, cause: StreamEndCause, unconsumed: usize, out: &mut Outbox)
    ensures
        final(out)@ == old(out)@.push(end_record(st@, cause@, unconsumed)),
{
    let (stream, attempt) = st.label();
    out.emit(
        EmissionRecord::StreamEnd { stream, attempt, cause, unconsumed_buffer_bytes: unconsumed },
    );
}

fn emit_wake(st: &StreamState, arm: &'static str, out: &mut Outbox)
    ensures
        final(out)@ == old(out)@.push(
            EmissionRecord::Scheduler {
                stream: st@.stream_id,
                attempt: st@.attempt,
                note: SchedNote::SelectWake { arm },
            },
        ),
{
    let (stream, attempt) = st.label();
    out.emit(EmissionRecord::Scheduler { stream, attempt, note: SchedNote::SelectWake { arm } });
}

/// The bounds that attempts on an endpoint are held to.
pub open spec fn limits_of(cfg: OpenAiConfig<Seq<char>>) -> Limits {
    Limits {
        stall_timeout_secs: cfg.stall_timeout_secs,
        first_byte_backstop_secs: cfg.first_byte_backstop_secs,
        overall_deadline_secs: cfg.overall_deadline_secs,
        throughput_floor_bps: cfg.throughput_floor_bps,
        throughput_sustained_secs: cfg.throughput_sustained_secs,
    }
}

impl OpenAiConfig {
    /// The bounds that attempts on this endpoint are held to.
    pub fn limits(&self) -> (r: Limits)
        ensures
            r == limits_of(self@),
    {
        Limits {
            stall_timeout_secs: self.stall_timeout_secs,
            first_byte_backstop_secs: self.first_byte_backstop_secs,
            overall_deadline_secs: self.overall_deadline_secs,
            throughput_floor_bps: self.throughput_floor_bps,
            throughput_sustained_secs: self.throughput_sustained_secs,
        }
    }
}

impl Attempt {
    /// An attempt before anything has arrived.
    pub fn new(limits: Limits) -> (r: Self)
        ensures
            r@ == AttemptFacts::fresh(limits),
    {
        Attempt {
            limits,
            parser: SseParser::with_limit(sse::DEFAULT_BUF_LIMIT),
            read_seq: 0,
            first_byte_seen: false,
            inst_seq: 0,
            span_start: 1,
            ttft_emitted: false,
            window_bytes: 0,
            clock: StarvationClock::new(),
        }
    }

    /// How many seconds the next read may take.
    pub fn stall_window_secs(&self) -> (r: u64)
        ensures
            r == self@.stall_window(),
    {
        if self.read_seq == 0 {
            self.limits.first_byte_backstop_secs
        } else {
            self.limits.stall_timeout_secs
        }
    }

    /// Whether anything has been read. Before that, throughput has no meaning.
    pub fn first_byte_seen(&self) -> (r: bool)
        ensures
            r == self@.first_byte_seen,
    {
        self.first_byte_seen
    }

    /// Bytes of text since the last tick. Comments do not count.
    pub fn window_bytes(&self) -> (r: u64)
        ensures
            r == self@.window_bytes,
    {
        self.window_bytes
    }

    /// The wire gave out: record it and end.
    pub fn on_cut(
        &self,
        handler: &EventHandler,
        st: &mut StreamState,
        ev: WireEvent,
        out: &mut Outbox,
    ) -> (r: AttemptEnd)
        ensures
            ({
                let s = cut_step(self@, old(st)@, ev@);
                &&& final(st)@ == s.st
                &&& final(out)@ == old(out)@ + s.records
                &&& Some(r@) == s.end
            }),
    {
        let ghost what = ev@;
        let ghost st0 = st@;
        let ghost sent = out@;
        let unconsumed: usize = self.parser.buffered();
        match &ev {
            WireEvent::Cancelled => emit_wake(st, "cancel", out),
            WireEvent::OverallDeadline => emit_wake(st, "overall_deadline", out),
            WireEvent::Stall => emit_wake(st, "stall", out),
            _ => {},
        }
        let cause = match ev {
            WireEvent::CancelledDialing => StreamEndCause::Cancelled,
            WireEvent::HeaderTimeout => StreamEndCause::FirstByteBackstop {
                window_secs: self.limits.first_byte_backstop_secs,
            },
            WireEvent::ConnectError { detail } => StreamEndCause::ConnectError { detail },
            WireEvent::HttpError { status, body } => StreamEndCause::HttpError {
                status,
                body: body.into_text(),
            },
            WireEvent::ForeignBody { content_type, body } => StreamEndCause::NotAnEventStream {
                content_type,
                body_prefix: body.into_text(),
            },
            WireEvent::Cancelled => StreamEndCause::Cancelled,
            WireEvent::OverallDeadline => StreamEndCause::OverallDeadline {
                limit_secs: self.limits.overall_deadline_secs,
            },
            WireEvent::Stall => if self.read_seq == 0 {
                StreamEndCause::FirstByteBackstop { window_secs: self.stall_window_secs() }
            } else {
                StreamEndCause::StallTimeout { window_secs: self.stall_window_secs() }
            },
            WireEvent::TransportError { detail } => StreamEndCause::TransportError { detail },
        };
        assert(cause@ == self@.cut_cause(what));
        emit_end(st, cause.clone(), unconsumed, out);
        assert(out@ =~= sent + cut_records(self@, st0, what));
        abandon(handler, st, out);
        assert(out@ =~= sent + cut_step(self@, st0, what).records);
        AttemptEnd::Wire(cause)
    }
}

// ---- ticks ----------------------------------------------------------------

/// The sustained window in nanoseconds.
pub open spec fn sustained_ns(limits: Limits) -> u128 {
    (limits.throughput_sustained_secs * 1_000_000_000) as u128
}

/// One throughput tick. Before the first byte it does nothing.
pub open spec fn tick_step(
    a: AttemptFacts,
    st: StreamFacts,
    t: Tick,
    bytes_per_sec: u64,
    active_streams: u64,
) -> Step {
    if !a.first_byte_seen {
        Step { a, st, records: Seq::empty(), end: None }
    } else {
        let sample = EmissionRecord::<Seq<char>>::Scheduler {
            stream: st.stream_id,
            attempt: st.attempt,
            note: SchedNote::ContentThroughput { bytes_per_sec, active_streams },
        };
        let cause = StreamEndCause::<Seq<char>>::ThroughputStarved {
            floor_bps: a.limits.throughput_floor_bps,
            sustained_secs: a.limits.throughput_sustained_secs,
        };
        let after = AttemptFacts {
            window_bytes: 0,
            starved_since: liveness::since_after(a.starved_since, t),
            ..a
        };
        if liveness::trips(a.starved_since, t, sustained_ns(a.limits)) {
            Step {
                a: after,
                st: finalized(st),
                records: seq![sample, end_record(st, cause, a.pending.len() as usize)]
                    + event_handler::anomaly_records(st),
                end: Some(AttemptEnd::Wire(cause)),
            }
        } else {
            Step { a: after, st, records: seq![sample], end: None }
        }
    }
}

/// How long after the first byte throughput begins to count, in nanoseconds.
pub const WARM_UP_NS: u128 = 1_000_000_000;

impl Attempt {
    /// A throughput tick. `below_floor` says whether the average, now
    /// `bytes_per_sec`, is below the floor. The times are nanoseconds: since
    /// the first byte, and since the stream began.
    pub fn on_tick(
        &mut self,
        handler: &EventHandler,
        st: &mut StreamState,
        below_floor: bool,
        since_first_byte_ns: u128,
        now_ns: u128,
        bytes_per_sec: u64,
        active_streams: u64,
        out: &mut Outbox,
    ) -> (r: Option<AttemptEnd>)
        ensures
            ({
                let t = Tick {
                    starved: since_first_byte_ns >= WARM_UP_NS && below_floor,
                    now_ns,
                };
                let s = tick_step(old(self)@, old(st)@, t, bytes_per_sec, active_streams);
                &&& final(self)@ == s.a
                &&& final(st)@ == s.st
                &&& final(out)@ == old(out)@ + s.records
                &&& end_view(r) == s.end
            }),
    {
        let ghost sent = out@;
        if !self.first_byte_seen {
            assert(sent + Seq::<EmissionRecord<Seq<char>>>::empty() =~= sent);
            return None;
        }
        let unconsumed: usize = self.parser.buffered();
        let sustained: u128 = self.limits.throughput_sustained_secs as u128 * 1_000_000_000u128;
        let warmed = since_first_byte_ns >= WARM_UP_NS;
        let starved = self.clock.evaluate(below_floor, warmed, now_ns, sustained);
        self.window_bytes = 0;
        let (stream, attempt) = st.label();
        out.emit(
            EmissionRecord::Scheduler {
                stream,
                attempt,
                note: SchedNote::ContentThroughput { bytes_per_sec, active_streams },
            },
        );
        let ghost t = Tick { starved: warmed && below_floor, now_ns };
        let ghost s = tick_step(old(self)@, old(st)@, t, bytes_per_sec, active_streams);
        assert(self@ =~= s.a);
        if starved {
            let cause = StreamEndCause::ThroughputStarved {
                floor_bps: self.limits.throughput_floor_bps,
                sustained_secs: self.limits.throughput_sustained_secs,
            };
            emit_end(st, cause.clone(), unconsumed, out);
            abandon(handler, st, out);
            assert(out@ =~= sent + s.records);
            return Some(AttemptEnd::Wire(cause));
        }
        assert(out@ =~= sent + s.records);
        None
    }
}

// ---- frames ---------------------------------------------------------------

/// The record of a complete installment.
pub open spec fn installment_record(
    a: AttemptFacts,
    st: StreamFacts,
    kind: InstallmentKind,
    payload: Seq<char>,
    bytes: usize,
    status: InstallmentStatus,
) -> EmissionRecord<Seq<char>> {
    EmissionRecord::Installment {
        stream: st.stream_id,
        attempt: st.attempt,
        seq: a.inst_seq.wrapping_add(1),
        first_read: a.span_start,
        last_read: a.read_seq,
        bytes,
        kind,
        payload,
        status,
    }
}

/// The record of a frame that would not decode.
pub open spec fn undecodable_record(
    a: AttemptFacts,
    st: StreamFacts,
    raw: Seq<u8>,
    error: Seq<char>,
) -> EmissionRecord<Seq<char>> {
    EmissionRecord::UndecodableInstallment {
        stream: st.stream_id,
        attempt: st.attempt,
        seq: a.inst_seq.wrapping_add(1),
        bytes: raw.len() as usize,
        error,
        hex_prefix: text::hex_dump(
            if raw.len() <= 16 {
                raw
            } else {
                raw.take(16)
            },
        ),
    }
}

/// One note about the wire as a record.
pub open spec fn wire_record(st: StreamFacts, note: WireNote<Seq<char>>) -> EmissionRecord<
    Seq<char>,
> {
    EmissionRecord::Wire { stream: st.stream_id, attempt: st.attempt, note }
}

/// Ending an attempt through the handler: the end on record, then what the
/// machine found odd, and the machine's verdict as the end.
pub open spec fn completion(
    a: AttemptFacts,
    st: StreamFacts,
    records: Seq<EmissionRecord<Seq<char>>>,
    cause: StreamEndCause<Seq<char>>,
    how: EndCause,
) -> Step {
    Step {
        a,
        st: finalized(st),
        records: records + seq![end_record(st, cause, a.pending.len() as usize)]
            + event_handler::anomaly_records(st),
        end: Some(AttemptEnd::Complete(event_handler::resolution(st.machine.verdict(how)))),
    }
}

/// What a frame of data does once it is refined. `before` counts the bytes of
/// text before it, and `records` is what it has put on record so far. A frame
/// that the handler rejects ends the attempt with the fault that the handler
/// stated.
pub open spec fn directed_step(
    a: AttemptFacts,
    before: u64,
    st: StreamFacts,
    records: Seq<EmissionRecord<Seq<char>>>,
    result: Result<FlowDirective, DriverFault<Seq<char>>>,
) -> Step {
    match result {
        Ok(FlowDirective::Continue) => Step {
            a: AttemptFacts {
                window_bytes: a.window_bytes.wrapping_add(st.content_bytes.wrapping_sub(before)),
                ..a
            },
            st,
            records,
            end: None,
        },
        Ok(FlowDirective::StopComplete) => completion(
            a,
            st,
            records,
            StreamEndCause::DoneSentinelConsumed,
            EndCause::StreamEnded,
        ),
        Ok(FlowDirective::Abort) => completion(
            a,
            st,
            records,
            StreamEndCause::HandlerDirected { directive: "abort"@ },
            EndCause::HandlerAbort,
        ),
        Err(fault) => Step {
            end: Some(AttemptEnd::Complete(TurnResolution::Fault(fault))),
            ..completion(
                a,
                st,
                records,
                StreamEndCause::HandlerDirected { directive: "protocol_error"@ },
                EndCause::HandlerAbort,
            )
        },
    }
}

/// What is put on record of a frame of data before it is refined: the
/// installment, the time to first token if it is the first, and the gap.
pub open spec fn data_records(
    a: AttemptFacts,
    st: StreamFacts,
    stamp: ReadStamp,
    data: Seq<char>,
    bytes: usize,
) -> Seq<EmissionRecord<Seq<char>>> {
    let first = installment_record(
        a,
        st,
        InstallmentKind::Data,
        data,
        bytes,
        InstallmentStatus::Complete,
    );
    let gap = wire_record(st, WireNote::InterReadGap { ms: stamp.gap_ms, bytes });
    if a.ttft_emitted {
        seq![first, gap]
    } else {
        seq![first, wire_record(st, WireNote::Ttft { ms: stamp.at_ms }), gap]
    }
}

/// What the frame `ev` does, given what refining it comes to if it is data.
pub open spec fn frame_step(
    a: AttemptFacts,
    st: StreamFacts,
    stamp: ReadStamp,
    ev: SseEvent<Seq<char>, Seq<u8>>,
    r: Refinement,
) -> Step {
    let next = AttemptFacts {
        inst_seq: a.inst_seq.wrapping_add(1),
        span_start: a.read_seq,
        ..a
    };
    match ev.payload {
        SsePayload::Undecodable { raw, error } => Step {
            a: next,
            st,
            records: seq![undecodable_record(a, st, raw, error)],
            end: None,
        },
        SsePayload::Comment(c) => Step {
            a: next,
            st,
            records: seq![
                installment_record(
                    a,
                    st,
                    InstallmentKind::Comment,
                    c,
                    ev.raw_byte_len,
                    InstallmentStatus::Complete,
                ),
                wire_record(st, WireNote::KeepAliveComment),
            ],
            end: None,
        },
        SsePayload::Data(d) => directed_step(
            AttemptFacts { ttft_emitted: true, ..next },
            st.content_bytes,
            r.st,
            data_records(a, st, stamp, d, ev.raw_byte_len) + r.records,
            r.result,
        ),
    }
}

/// `r` is what refining the frame `ev` may come to, if it is data.
pub open spec fn frame_refines<F: Fn(&str) -> Result<Chunk, String>>(
    decode: F,
    a: AttemptFacts,
    st: StreamFacts,
    ev: SseEvent<Seq<char>, Seq<u8>>,
    r: Refinement,
) -> bool {
    match ev.payload {
        SsePayload::Data(d) => event_handler::refines(
            decode,
            st,
            a.inst_seq.wrapping_add(1),
            InstallmentKind::Data,
            d,
            r,
        ),
        _ => true,
    }
}

/// Handling frames in order, given what refining each comes to.
pub open spec fn frames_run(
    a: AttemptFacts,
    st: StreamFacts,
    stamp: ReadStamp,
    evs: Seq<SseEvent<Seq<char>, Seq<u8>>>,
    rs: Seq<Refinement>,
) -> Step
    decreases evs.len(),
{
    if evs.len() == 0 || rs.len() == 0 {
        Step { a, st, records: Seq::empty(), end: None }
    } else {
        let before = frames_run(a, st, stamp, evs.drop_last(), rs.drop_last());
        let s = frame_step(before.a, before.st, stamp, evs.last(), rs.last());
        Step { a: s.a, st: s.st, records: before.records + s.records, end: s.end }
    }
}

/// Frame `k` is handled in the state that those before it left, none of which
/// ended the attempt, and `rs[k]` is what refining it may come to.
pub open spec fn frame_fits<F: Fn(&str) -> Result<Chunk, String>>(
    decode: F,
    a: AttemptFacts,
    st: StreamFacts,
    stamp: ReadStamp,
    evs: Seq<SseEvent<Seq<char>, Seq<u8>>>,
    rs: Seq<Refinement>,
    k: int,
) -> bool {
    let before = frames_run(a, st, stamp, evs.take(k), rs.take(k));
    before.end is None && frame_refines(decode, before.a, before.st, evs[k], rs[k])
}

/// `rs` is what refining the first frames may come to.
pub open spec fn frames_refine<F: Fn(&str) -> Result<Chunk, String>>(
    decode: F,
    a: AttemptFacts,
    st: StreamFacts,
    stamp: ReadStamp,
    evs: Seq<SseEvent<Seq<char>, Seq<u8>>>,
    rs: Seq<Refinement>,
) -> bool {
    &&& rs.len() <= evs.len()
    &&& forall|k: int|
        0 <= k < rs.len() ==> #[trigger] frame_fits(decode, a, st, stamp, evs, rs, k)
}

/// `rs` is what refining the handled frames may come to: handling stops at the
/// first frame that ends the attempt, or else after the last.
pub open spec fn frames_handled<F: Fn(&str) -> Result<Chunk, String>>(
    decode: F,
    a: AttemptFacts,
    st: StreamFacts,
    stamp: ReadStamp,
    evs: Seq<SseEvent<Seq<char>, Seq<u8>>>,
    rs: Seq<Refinement>,
) -> bool {
    &&& frames_refine(decode, a, st, stamp, evs, rs)
    &&& rs.len() < evs.len() ==> frames_run(a, st, stamp, evs.take(rs.len() as int), rs).end is Some
}

proof fn lemma_one_more_frame<F: Fn(&str) -> Result<Chunk, String>>(
    decode: F,
    a: AttemptFacts,
    st: StreamFacts,
    stamp: ReadStamp,
    evs: Seq<SseEvent<Seq<char>, Seq<u8>>>,
    rs: Seq<Refinement>,
    r: Refinement,
)
    requires
        frames_refine(decode, a, st, stamp, evs, rs),
        rs.len() < evs.len(),
        ({
            let before = frames_run(a, st, stamp, evs.take(rs.len() as int), rs);
            before.end is None && frame_refines(
                decode,
                before.a,
                before.st,
                evs[rs.len() as int],
                r,
            )
        }),
    ensures
        frames_refine(decode, a, st, stamp, evs, rs.push(r)),
        ({
            let before = frames_run(a, st, stamp, evs.take(rs.len() as int), rs);
            let s = frame_step(before.a, before.st, stamp, evs[rs.len() as int], r);
            frames_run(a, st, stamp, evs.take((rs.len() + 1) as int), rs.push(r)) == (Step {
                a: s.a,
                st: s.st,
                records: before.records + s.records,
                end: s.end,
            })
        }),
{
    let n = rs.len() as int;
    let more = rs.push(r);
    assert(evs.take(n + 1).drop_last() =~= evs.take(n));
    assert(more.drop_last() =~= rs);
    assert forall|k: int| 0 <= k < more.len() implies #[trigger] frame_fits(
        decode,
        a,
        st,
        stamp,
        evs,
        more,
        k,
    ) by {
        assert(more.take(k) =~= rs.take(k));
        if k < n {
            assert(frame_fits(decode, a, st, stamp, evs, rs, k));
        } else {
            assert(rs.take(n) =~= rs);
        }
    }
}

fn emit_wire(st: &StreamState, note: WireNote, out: &mut Outbox)
    ensures
        final(out)@ == old(out)@.push(wire_record(st@, note@)),
{
    let (stream, attempt) = st.label();
    out.emit(EmissionRecord::Wire { stream, attempt, note });
}

impl Attempt {
    fn emit_undecodable(&self, st: &StreamState, raw: &Vec<u8>, error: &String, out: &mut Outbox)
        ensures
            final(out)@ == old(out)@.push(undecodable_record(self@, st@, raw@, error@)),
    {
        let (stream, attempt) = st.label();
        out.emit(
            EmissionRecord::UndecodableInstallment {
                stream,
                attempt,
                seq: self.inst_seq.wrapping_add(1),
                bytes: raw.len(),
                error: error.clone(),
                hex_prefix: text::hex_prefix(raw.as_slice(), 16),
            },
        );
    }

    fn emit_installment(
        &self,
        st: &StreamState,
        kind: InstallmentKind,
        payload: &String,
        bytes: usize,
        status: InstallmentStatus,
        out: &mut Outbox,
    )
        ensures
            final(out)@ == old(out)@.push(
                installment_record(self@, st@, kind, payload@, bytes, status),
            ),
    {
        let (stream, attempt) = st.label();
        out.emit(
            EmissionRecord::Installment {
                stream,
                attempt,
                seq: self.inst_seq.wrapping_add(1),
                first_read: self.span_start,
                last_read: self.read_seq,
                bytes,
                kind,
                payload: payload.clone(),
                status,
            },
        );
    }

    fn complete(
        &self,
        handler: &EventHandler,
        st: &mut StreamState,
        cause: StreamEndCause,
        how: EndCause,
        out: &mut Outbox,
    ) -> (r: AttemptEnd)
        ensures
            ({
                let s = completion(self@, old(st)@, Seq::empty(), cause@, how);
                &&& final(st)@ == s.st
                &&& final(out)@ == old(out)@ + s.records
                &&& Some(r@) == s.end
            }),
    {
        let ghost sent = out@;
        let ghost facts = st@;
        let ghost c = cause@;
        emit_end(st, cause, self.parser.buffered(), out);
        let res = handler.finalize_attempt(st, how, out);
        assert(out@ =~= sent + completion(self@, facts, Seq::empty(), c, how).records);
        AttemptEnd::Complete(res)
    }

    /// Do as the handler directs.
    fn follow(
        &mut self,
        handler: &EventHandler,
        st: &mut StreamState,
        before: u64,
        directive: Result<FlowDirective, DriverFault>,
        out: &mut Outbox,
    ) -> (r: Option<AttemptEnd>)
        ensures
            ({
                let s = directed_step(
                    old(self)@,
                    before,
                    old(st)@,
                    Seq::empty(),
                    event_handler::directive_view(directive),
                );
                &&& final(self)@ == s.a
                &&& final(st)@ == s.st
                &&& final(out)@ == old(out)@ + s.records
                &&& end_view(r) == s.end
            }),
    {
        let ghost sent = out@;
        match directive {
            Ok(FlowDirective::Continue) => {
                self.window_bytes = self.window_bytes.wrapping_add(
                    st.content_so_far().wrapping_sub(before),
                );
                assert(sent + Seq::<EmissionRecord<Seq<char>>>::empty() =~= sent);
                None
            },
            Ok(FlowDirective::StopComplete) => Some(
                self.complete(
                    handler,
                    st,
                    StreamEndCause::DoneSentinelConsumed,
                    EndCause::StreamEnded,
                    out,
                ),
            ),
            Ok(FlowDirective::Abort) => Some(
                self.complete(
                    handler,
                    st,
                    StreamEndCause::HandlerDirected { directive: "abort".to_owned() },
                    EndCause::HandlerAbort,
                    out,
                ),
            ),
            Err(fault) => {
                let _ = self.complete(
                    handler,
                    st,
                    StreamEndCause::HandlerDirected { directive: "protocol_error".to_owned() },
                    EndCause::HandlerAbort,
                    out,
                );
                Some(AttemptEnd::Complete(TurnResolution::Fault(fault)))
            },
        }
    }

    /// Record a frame of data, up to where it is refined.
    fn emit_data(
        &mut self,
        st: &StreamState,
        data: &String,
        bytes: usize,
        stamp: ReadStamp,
        out: &mut Outbox,
    )
        ensures
            final(self)@ == (AttemptFacts {
                inst_seq: old(self)@.inst_seq.wrapping_add(1),
                span_start: old(self)@.read_seq,
                ttft_emitted: true,
                ..old(self)@
            }),
            final(out)@ == old(out)@ + data_records(old(self)@, st@, stamp, data@, bytes),
    {
        let ghost a0 = self@;
        let ghost sent = out@;
        self.emit_installment(
            st,
            InstallmentKind::Data,
            data,
            bytes,
            InstallmentStatus::Complete,
            out,
        );
        if !self.ttft_emitted {
            emit_wire(st, WireNote::Ttft { ms: stamp.at_ms }, out);
        }
        emit_wire(st, WireNote::InterReadGap { ms: stamp.gap_ms, bytes }, out);
        self.inst_seq = self.inst_seq.wrapping_add(1);
        self.span_start = self.read_seq;
        self.ttft_emitted = true;
        assert(out@ =~= sent + data_records(a0, st@, stamp, data@, bytes));
    }

    /// Handle one complete frame.
    fn on_frame<F: Fn(&str) -> Result<Chunk, String>>(
        &mut self,
        handler: &EventHandler,
        st: &mut StreamState,
        ev: &SseEvent,
        stamp: ReadStamp,
        decode: &F,
        out: &mut Outbox,
    ) -> (r: Option<AttemptEnd>)
        requires
            event_handler::decodes_any(*decode),
        ensures
            exists|rf: Refinement| #[trigger]
                frame_refines(*decode, old(self)@, old(st)@, ev@, rf) && {
                    let s = frame_step(old(self)@, old(st)@, stamp, ev@, rf);
                    &&& final(self)@ == s.a
                    &&& final(st)@ == s.st
                    &&& final(out)@ == old(out)@ + s.records
                    &&& end_view(r) == s.end
                },
    {
        let ghost a0 = self@;
        let ghost st0 = st@;
        let ghost sent = out@;
        let ghost any = Refinement {
            st: st0,
            records: Seq::empty(),
            result: Ok(FlowDirective::Continue),
        };
        match &ev.payload {
            SsePayload::Undecodable { raw, error } => {
                self.emit_undecodable(st, raw, error, out);
                self.inst_seq = self.inst_seq.wrapping_add(1);
                self.span_start = self.read_seq;
                proof {
                    let s = frame_step(a0, st0, stamp, ev@, any);
                    assert(frame_refines(*decode, a0, st0, ev@, any));
                    assert(self@ =~= s.a);
                    assert(out@ =~= sent + s.records);
                }
                None
            },
            SsePayload::Comment(c) => {
                self.emit_installment(
                    st,
                    InstallmentKind::Comment,
                    c,
                    ev.raw_byte_len,
                    InstallmentStatus::Complete,
                    out,
                );
                emit_wire(st, WireNote::KeepAliveComment, out);
                self.inst_seq = self.inst_seq.wrapping_add(1);
                self.span_start = self.read_seq;
                proof {
                    let s = frame_step(a0, st0, stamp, ev@, any);
                    assert(frame_refines(*decode, a0, st0, ev@, any));
                    assert(self@ =~= s.a);
                    assert(out@ =~= sent + s.records);
                }
                None
            },
            SsePayload::Data(d) => {
                self.emit_data(st, d, ev.raw_byte_len, stamp, out);
                let ghost told = out@;
                let ghost a1 = self@;
                let before: u64 = st.content_so_far();
                let directive = handler.on_installment(
                    st,
                    self.inst_seq,
                    InstallmentKind::Data,
                    d.as_str(),
                    InstallmentStatus::Complete,
                    decode,
                    out,
                );
                let ghost rf = choose|rf: Refinement| #[trigger]
                    event_handler::refines(
                        *decode,
                        st0,
                        self.inst_seq,
                        InstallmentKind::Data,
                        d@,
                        rf,
                    ) && st@ == rf.st && out@ == told + rf.records
                        && event_handler::directive_view(directive) == rf.result;
                assert(frame_refines(*decode, a0, st0, ev@, rf));
                let end = self.follow(handler, st, before, directive, out);
                proof {
                    lemma_directed_records(
                        a1,
                        before,
                        rf.st,
                        data_records(a0, st0, stamp, d@, ev.raw_byte_len) + rf.records,
                        rf.result,
                    );
                    let s = frame_step(a0, st0, stamp, ev@, rf);
                    assert(out@ =~= sent + s.records);
                }
                end
            },
        }
    }
}

/// What follows a directive comes behind what is on record already.
proof fn lemma_directed_records(
    a: AttemptFacts,
    before: u64,
    st: StreamFacts,
    records: Seq<EmissionRecord<Seq<char>>>,
    result: Result<FlowDirective, DriverFault<Seq<char>>>,
)
    ensures
        ({
            let bare = directed_step(a, before, st, Seq::empty(), result);
            let s = directed_step(a, before, st, records, result);
            &&& s.a == bare.a
            &&& s.st == bare.st
            &&& s.end == bare.end
            &&& s.records == records + bare.records
        }),
{
    let bare = directed_step(a, before, st, Seq::empty(), result);
    let s = directed_step(a, before, st, records, result);
    assert(s.records =~= records + bare.records);
}

// ---- reads ----------------------------------------------------------------

/// The record of a read.
pub open spec fn read_record(
    a: AttemptFacts,
    st: StreamFacts,
    bytes: usize,
    stamp: ReadStamp,
) -> EmissionRecord<Seq<char>> {
    EmissionRecord::Read {
        stream: st.stream_id,
        attempt: st.attempt,
        seq: a.read_seq.wrapping_add(1),
        at_ms: stamp.at_ms,
        wall_unix_ms: stamp.wall_unix_ms,
        bytes,
        gap_ms: stamp.gap_ms,
    }
}

impl AttemptFacts {
    /// After a read, before its frames are handled.
    pub open spec fn after_read(self, chunk: Seq<u8>) -> AttemptFacts {
        AttemptFacts {
            read_seq: self.read_seq.wrapping_add(1),
            first_byte_seen: true,
            pending: sse::residue(self.pending + chunk),
            ..self
        }
    }

    /// Whether a read would leave more pending than the bound allows.
    pub open spec fn overflows(self, chunk: Seq<u8>) -> bool {
        sse::residue(self.pending + chunk).len() > self.buf_limit
    }
}

/// A read that leaves too much pending: it is recorded, and the attempt ends.
pub open spec fn overflow_step(
    a: AttemptFacts,
    st: StreamFacts,
    chunk: Seq<u8>,
    stamp: ReadStamp,
) -> Step {
    let after = a.after_read(chunk);
    let cause = StreamEndCause::<Seq<char>>::BufferOverflow { limit_bytes: a.buf_limit };
    Step {
        a: after,
        st: finalized(st.one_read()),
        records: seq![
            read_record(a, st, chunk.len() as usize, stamp),
            end_record(st, cause, after.pending.len() as usize),
        ] + event_handler::anomaly_records(st.one_read()),
        end: Some(AttemptEnd::Wire(cause)),
    }
}

/// Any other read: it is recorded, and then the frames that it completes are
/// handled.
pub open spec fn read_step(
    a: AttemptFacts,
    st: StreamFacts,
    chunk: Seq<u8>,
    stamp: ReadStamp,
    rs: Seq<Refinement>,
) -> Step {
    let evs = sse::events_of(sse::frames(a.pending + chunk));
    let run = frames_run(
        a.after_read(chunk),
        st.one_read(),
        stamp,
        evs.take(rs.len() as int),
        rs,
    );
    Step {
        records: seq![read_record(a, st, chunk.len() as usize, stamp)] + run.records,
        ..run
    }
}

/// `s` is what a read may come to, with this decoder.
pub open spec fn reads<F: Fn(&str) -> Result<Chunk, String>>(
    decode: F,
    a: AttemptFacts,
    st: StreamFacts,
    chunk: Seq<u8>,
    stamp: ReadStamp,
    s: Step,
) -> bool {
    if a.overflows(chunk) {
        s == overflow_step(a, st, chunk, stamp)
    } else {
        exists|rs: Seq<Refinement>| #[trigger]
            frames_handled(
                decode,
                a.after_read(chunk),
                st.one_read(),
                stamp,
                sse::events_of(sse::frames(a.pending + chunk)),
                rs,
            ) && s == read_step(a, st, chunk, stamp, rs)
    }
}

impl Attempt {
    /// Bytes arrived: handle every frame that they complete, up to the first
    /// that ends the attempt.
    pub fn on_read<F: Fn(&str) -> Result<Chunk, String>>(
        &mut self,
        handler: &EventHandler,
        st: &mut StreamState,
        chunk: &[u8],
        stamp: ReadStamp,
        decode: &F,
        out: &mut Outbox,
    ) -> (r: Option<AttemptEnd>)
        requires
            event_handler::decodes_any(*decode),
        ensures
            exists|s: Step| #[trigger]
                reads(*decode, old(self)@, old(st)@, chunk@, stamp, s) && final(self)@ == s.a
                    && final(st)@ == s.st && final(out)@ == old(out)@ + s.records && end_view(r)
                    == s.end,
    {
        let ghost a0 = self@;
        let ghost st0 = st@;
        let ghost sent = out@;
        self.read_seq = self.read_seq.wrapping_add(1);
        st.count_read();
        self.first_byte_seen = true;
        let (stream, attempt) = st.label();
        out.emit(
            EmissionRecord::Read {
                stream,
                attempt,
                seq: self.read_seq,
                at_ms: stamp.at_ms,
                wall_unix_ms: stamp.wall_unix_ms,
                bytes: chunk.len(),
                gap_ms: stamp.gap_ms,
            },
        );
        let ghost told = out@;
        let pushed = self.parser.push(chunk);
        let ghost a1 = a0.after_read(chunk@);
        let ghost st1 = st0.one_read();
        assert(self@ =~= a1);
        assert(st@ == st1);
        match pushed {
            Err(overflow) => {
                let cause = StreamEndCause::BufferOverflow { limit_bytes: overflow.limit_bytes };
                emit_end(st, cause.clone(), self.parser.buffered(), out);
                abandon(handler, st, out);
                proof {
                    let s = overflow_step(a0, st0, chunk@, stamp);
                    assert(reads(*decode, a0, st0, chunk@, stamp, s));
                    assert(out@ =~= sent + s.records);
                }
                Some(AttemptEnd::Wire(cause))
            },
            Ok(frames) => {
                let ghost evs = sse::events_of(sse::frames(a0.pending + chunk@));
                let mut rs: Ghost<Seq<Refinement>> = Ghost(Seq::empty());
                let mut i: usize = 0;
                proof {
                    assert(told + frames_run(a1, st1, stamp, evs.take(0), rs@).records =~= told);
                    assert(frames_refine(*decode, a1, st1, stamp, evs, rs@));
                }
                while i < frames.len()
                    invariant
                        event_handler::decodes_any(*decode),
                        i <= frames@.len(),
                        sse::events_view(frames@) == evs,
                        evs == sse::events_of(sse::frames(a0.pending + chunk@)),
                        a1 == a0.after_read(chunk@),
                        st1 == st0.one_read(),
                        !a0.overflows(chunk@),
                        told == sent.push(read_record(a0, st0, chunk@.len() as usize, stamp)),
                        rs@.len() == i,
                        frames_refine(*decode, a1, st1, stamp, evs, rs@),
                        ({
                            let run = frames_run(a1, st1, stamp, evs.take(i as int), rs@);
                            &&& run.end is None
                            &&& self@ == run.a
                            &&& st@ == run.st
                            &&& out@ == told + run.records
                        }),
                        a0 == old(self)@,
                        st0 == old(st)@,
                        sent == old(out)@,
                    decreases frames@.len() - i,
                {
                    let ghost run = frames_run(a1, st1, stamp, evs.take(i as int), rs@);
                    assert(evs[i as int] == frames@[i as int]@);
                    let ghost out_before = out@;
                    let end = self.on_frame(handler, st, &frames[i], stamp, decode, out);
                    proof {
                        let rf = choose|rf: Refinement| #[trigger]
                            frame_refines(*decode, run.a, run.st, evs[i as int], rf) && {
                                let s = frame_step(run.a, run.st, stamp, evs[i as int], rf);
                                &&& self@ == s.a
                                &&& st@ == s.st
                                &&& out@ == out_before + s.records
                                &&& end_view(end) == s.end
                            };
                        lemma_one_more_frame(*decode, a1, st1, stamp, evs, rs@, rf);
                        rs@ = rs@.push(rf);
                        let next = frames_run(a1, st1, stamp, evs.take(i + 1), rs@);
                        assert(out@ =~= told + next.records);
                    }
                    i += 1;
                    if end.is_some() {
                        proof {
                            let s = read_step(a0, st0, chunk@, stamp, rs@);
                            assert(frames_handled(*decode, a1, st1, stamp, evs, rs@));
                            assert(reads(*decode, a0, st0, chunk@, stamp, s));
                            assert(out@ =~= sent + s.records);
                        }
                        return end;
                    }
                }
                proof {
                    let s = read_step(a0, st0, chunk@, stamp, rs@);
                    assert(frames_handled(*decode, a1, st1, stamp, evs, rs@));
                    assert(reads(*decode, a0, st0, chunk@, stamp, s));
                    assert(out@ =~= sent + s.records);
                }
                None
            },
        }
    }
}

// ---- the peer closes ------------------------------------------------------

/// What the bytes left at the end become: one recovered installment, or
/// residue that became none. `r` is what refining the installment comes to.
pub open spec fn tail_step(a: AttemptFacts, st: StreamFacts, r: Refinement) -> Step {
    let next = AttemptFacts { inst_seq: a.inst_seq.wrapping_add(1), ..a };
    match sse::block_event(a.pending) {
        None => Step {
            a,
            st,
            records: if a.pending.len() == 0 {
                Seq::empty()
            } else {
                seq![
                    EmissionRecord::Residue {
                        stream: st.stream_id,
                        attempt: st.attempt,
                        bytes: a.pending.len() as usize,
                        lossy_text: decode_utf8(a.pending),
                    },
                ]
            },
            end: None,
        },
        Some(ev) => match ev.payload {
            SsePayload::Undecodable { raw, error } => Step {
                a: next,
                st,
                records: seq![undecodable_record(a, st, raw, error)],
                end: None,
            },
            SsePayload::Comment(c) => Step {
                a: next,
                st,
                records: seq![
                    installment_record(
                        a,
                        st,
                        InstallmentKind::Comment,
                        c,
                        ev.raw_byte_len,
                        InstallmentStatus::RecoveredTail,
                    ),
                ],
                end: None,
            },
            SsePayload::Data(d) => Step {
                a: next,
                st: r.st,
                records: seq![
                    installment_record(
                        a,
                        st,
                        InstallmentKind::Data,
                        d,
                        ev.raw_byte_len,
                        InstallmentStatus::RecoveredTail,
                    ),
                ] + r.records,
                end: None,
            },
        },
    }
}

/// Why a stream that the peer closed ended: with content or without.
pub open spec fn close_cause(st: StreamFacts) -> StreamEndCause<Seq<char>> {
    if st.saw_any_content {
        StreamEndCause::PeerClosed
    } else {
        StreamEndCause::ClosedWithNoContent
    }
}

/// The peer closed the stream: what was left, the end, what the machine found
/// odd, and a note where the machine commits without the sentinel.
pub open spec fn close_step(a: AttemptFacts, st: StreamFacts, r: Refinement) -> Step {
    let tail = tail_step(a, st, r);
    let res = event_handler::resolution(tail.st.machine.verdict(EndCause::StreamEnded));
    let note = if res is Committed && !tail.st.machine.saw_done {
        seq![wire_record(tail.st, WireNote::EofWithoutDoneSentinel)]
    } else {
        Seq::empty()
    };
    Step {
        a: tail.a,
        st: finalized(tail.st),
        records: tail.records + seq![end_record(tail.st, close_cause(tail.st), 0)]
            + event_handler::anomaly_records(tail.st) + note,
        end: Some(AttemptEnd::Complete(res)),
    }
}

/// `r` is what refining the recovered installment may come to, if there is one.
pub open spec fn tail_refines<F: Fn(&str) -> Result<Chunk, String>>(
    decode: F,
    a: AttemptFacts,
    st: StreamFacts,
    r: Refinement,
) -> bool {
    match sse::block_event(a.pending) {
        Some(ev) => frame_refines(decode, a, st, ev, r),
        None => true,
    }
}

impl Attempt {
    /// Put the bytes left at the end on record, refined where they became an
    /// installment. What the handler directs no longer matters.
    fn recover_tail<F: Fn(&str) -> Result<Chunk, String>>(
        &self,
        Ghost(pending): Ghost<Seq<u8>>,
        handler: &EventHandler,
        st: &mut StreamState,
        tail: &Vec<SseEvent>,
        residue: &Vec<u8>,
        decode: &F,
        out: &mut Outbox,
    )
        requires
            event_handler::decodes_any(*decode),
            sse::events_view(tail@) == sse::events_of(sse::final_block(pending)),
            residue@ == (if sse::block_event(pending) is Some {
                Seq::<u8>::empty()
            } else {
                pending
            }),
        ensures
            ({
                let a = AttemptFacts { pending, ..self@ };
                exists|rf: Refinement| #[trigger]
                    tail_refines(*decode, a, old(st)@, rf) && {
                        let s = tail_step(a, old(st)@, rf);
                        &&& final(st)@ == s.st
                        &&& final(out)@ == old(out)@ + s.records
                    }
            }),
    {
        let ghost a0 = AttemptFacts { pending, ..self@ };
        let ghost st0 = st@;
        let ghost sent = out@;
        let ghost any = Refinement {
            st: st0,
            records: Seq::empty(),
            result: Ok(FlowDirective::Continue),
        };
        proof {
            sse::lemma_one_block(a0.pending);
            if a0.pending.len() == 0 {
                assert(a0.pending =~= Seq::empty());
                sse::lemma_empty_block();
            }
            assert(sse::events_view(tail@).len() == tail@.len());
        }
        if tail.len() > 0 {
            let ev = &tail[0];
            assert(sse::events_view(tail@)[0] == ev@);
            assert(sse::block_event(a0.pending) == Some(ev@));
            match &ev.payload {
                SsePayload::Undecodable { raw, error } => {
                    self.emit_undecodable(st, raw, error, out);
                    proof {
                        assert(tail_refines(*decode, a0, st0, any));
                        assert(out@ =~= sent + tail_step(a0, st0, any).records);
                    }
                },
                SsePayload::Comment(c) => {
                    self.emit_installment(
                        st,
                        InstallmentKind::Comment,
                        c,
                        ev.raw_byte_len,
                        InstallmentStatus::RecoveredTail,
                        out,
                    );
                    proof {
                        assert(tail_refines(*decode, a0, st0, any));
                        assert(out@ =~= sent + tail_step(a0, st0, any).records);
                    }
                },
                SsePayload::Data(d) => {
                    self.emit_installment(
                        st,
                        InstallmentKind::Data,
                        d,
                        ev.raw_byte_len,
                        InstallmentStatus::RecoveredTail,
                        out,
                    );
                    let ghost told = out@;
                    let seq: u64 = self.inst_seq.wrapping_add(1);
                    let _directive = handler.on_installment(
                        st,
                        seq,
                        InstallmentKind::Data,
                        d.as_str(),
                        InstallmentStatus::RecoveredTail,
                        decode,
                        out,
                    );
                    proof {
                        let rf = choose|rf: Refinement| #[trigger]
                            event_handler::refines(*decode, st0, seq, InstallmentKind::Data, d@, rf)
                                && st@ == rf.st && out@ == told + rf.records;
                        assert(tail_refines(*decode, a0, st0, rf));
                        assert(out@ =~= sent + tail_step(a0, st0, rf).records);
                    }
                },
            }
        } else {
            assert(sse::block_event(a0.pending) is None);
            if residue.len() > 0 {
                let (stream, attempt) = st.label();
                let lossy_text = sse::decode_valid(residue.as_slice());
                out.emit(
                    EmissionRecord::Residue { stream, attempt, bytes: residue.len(), lossy_text },
                );
            }
            proof {
                assert(tail_refines(*decode, a0, st0, any));
                assert(out@ =~= sent + tail_step(a0, st0, any).records);
            }
        }
    }

    /// The peer closed the stream: recover what was left, then ask the machine
    /// for its verdict.
    pub fn on_peer_closed<F: Fn(&str) -> Result<Chunk, String>>(
        self,
        handler: &EventHandler,
        st: &mut StreamState,
        decode: &F,
        out: &mut Outbox,
    ) -> (r: AttemptEnd)
        requires
            event_handler::decodes_any(*decode),
        ensures
            exists|rf: Refinement| #[trigger]
                tail_refines(*decode, self@, old(st)@, rf) && {
                    let s = close_step(self@, old(st)@, rf);
                    &&& final(st)@ == s.st
                    &&& final(out)@ == old(out)@ + s.records
                    &&& Some(r@) == s.end
                },
    {
        let ghost a0 = self@;
        let ghost st0 = st@;
        let ghost sent = out@;
        let mut at = self;
        let mut parser = SseParser::with_limit(at.parser.limit_bytes());
        std::mem::swap(&mut at.parser, &mut parser);
        let (tail, residue) = parser.finish_with_residue();
        at.recover_tail(Ghost(a0.pending), handler, st, &tail, &residue, decode, out);
        let ghost a1 = AttemptFacts { pending: a0.pending, ..at@ };
        let ghost rf = choose|rf: Refinement| #[trigger]
            tail_refines(*decode, a1, st0, rf) && {
                let s = tail_step(a1, st0, rf);
                &&& st@ == s.st
                &&& out@ == sent + s.records
            };
        assert(a1 =~= a0);
        let cause = if st.has_content() {
            StreamEndCause::PeerClosed
        } else {
            StreamEndCause::ClosedWithNoContent
        };
        emit_end(st, cause, 0, out);
        let saw_sentinel = st.saw_sentinel();
        let res = handler.finalize_attempt(st, EndCause::StreamEnded, out);
        if let TurnResolution::Committed(_) = &res {
            if !saw_sentinel {
                emit_wire(st, WireNote::EofWithoutDoneSentinel, out);
            }
        }
        assert(out@ =~= sent + close_step(a0, st0, rf).records);
        AttemptEnd::Complete(res)
    }
}

} // verus!
