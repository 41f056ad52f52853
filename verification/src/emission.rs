//! Typed records of every observable fact, and the pacing rules of the bus
//! that carries them to observers.
//!
//! Code that decides does not write anywhere: it appends records to an
//! [`Outbox`], and whoever drives it hands them on in order. Observers receive
//! records and return nothing.
//!
//! The type parameter `S` of each type holds text: `String` in executable
//! code, a sequence of characters in specifications.

use crate::driver::DriverEvent;
use vstd::prelude::*;

verus! {

pub const CAPTURE_FORMAT_VERSION: u32 = 2;

/// Stable identifier for one concurrent stream, so that a multiplexed capture
/// can be taken apart per stream.
pub type StreamId = u64;

/// One observable fact.
#[derive(Debug, PartialEq)]
pub enum EmissionRecord<S = String> {
    Read {
        stream: StreamId,
        attempt: u32,
        seq: u64,
        at_ms: u64,
        wall_unix_ms: u64,
        bytes: usize,
        gap_ms: u64,
    },
    Installment {
        stream: StreamId,
        attempt: u32,
        seq: u64,
        first_read: u64,
        last_read: u64,
        bytes: usize,
        kind: InstallmentKind,
        payload: S,
        status: InstallmentStatus,
    },
    NormalizedEvent { stream: StreamId, attempt: u32, installment_seq: u64, event: DriverEvent<S> },
    NormalizationError { stream: StreamId, attempt: u32, installment_seq: u64, detail: S },
    /// A complete frame that would not decode, carried as evidence.
    UndecodableInstallment {
        stream: StreamId,
        attempt: u32,
        seq: u64,
        bytes: usize,
        error: S,
        hex_prefix: S,
    },
    Residue { stream: StreamId, attempt: u32, bytes: usize, lossy_text: S },
    StreamEnd {
        stream: StreamId,
        attempt: u32,
        cause: StreamEndCause<S>,
        unconsumed_buffer_bytes: usize,
    },
    Wire { stream: StreamId, attempt: u32, note: WireNote<S> },
    Ledger { stream: StreamId, attempt: u32, entry: LedgerEntry },
    Anomaly { stream: StreamId, attempt: u32, note: S },
    /// Scheduler and throughput samples.
    Scheduler { stream: StreamId, attempt: u32, note: SchedNote },
    TurnTrailer {
        stream: StreamId,
        format_version: u32,
        attempts: u32,
        verdict: TurnVerdictRecord<S>,
        reads: u64,
        installments: u64,
        events: u64,
        normalization_errors: u64,
        select_polls: u64,
        capture_policy: &'static str,
    },
    /// Reported by the bus writer when records were dropped under load.
    CaptureDrop { dropped: u64 },
}

/// What an installment carries.
#[derive(Debug, Clone, Copy, PartialEq, Eq, Structural)]
pub enum InstallmentKind {
    Data,
    Comment,
}

/// How an installment was completed.
#[derive(Debug, Clone, Copy, PartialEq, Eq, Structural)]
pub enum InstallmentStatus {
    Complete,
    RecoveredTail,
}

/// Why a stream ended.
#[derive(Debug, PartialEq, Eq)]
pub enum StreamEndCause<S = String> {
    DoneSentinelConsumed,
    PeerClosed,
    ClosedWithNoContent,
    StallTimeout { window_secs: u64 },
    ThroughputStarved { floor_bps: u64, sustained_secs: u64 },
    OverallDeadline { limit_secs: u64 },
    FirstByteBackstop { window_secs: u64 },
    TransportError { detail: S },
    HandlerDirected { directive: S },
    BufferOverflow { limit_bytes: usize },
    HttpError { status: u16, body: S },
    /// A response that was no event stream, with its body as it was read.
    NotAnEventStream { content_type: S, body_prefix: S },
    ConnectError { detail: S },
    MultipleChoicesUnsupported { n: usize },
    Cancelled,
}

/// A fact about the wire.
#[derive(Debug, PartialEq, Eq)]
pub enum WireNote<S = String> {
    Ttft { ms: u64 },
    InterReadGap { ms: u64, bytes: usize },
    KeepAliveComment,
    EofWithoutDoneSentinel,
    ReadPacingEngaged,
    /// A channel other than content is present and is not interpreted here.
    UnhandledChannel { channel: S },
}

/// A scheduler sample.
#[derive(Debug, Clone, Copy, PartialEq, Eq)]
pub enum SchedNote {
    /// Throughput of the content channel over the averaging window.
    ContentThroughput { bytes_per_sec: u64, active_streams: u64 },
    /// Which clock woke the read loop.
    SelectWake { arm: &'static str },
    /// Latency of handing a record to the bus.
    EmitLatencyUs { us: u64 },
}

/// A movement in the strategy's accounts.
#[derive(Debug, Clone, Copy, PartialEq, Eq, Structural)]
pub enum LedgerEntry {
    SendBucketSpent { available_after: u32 },
    SendBucketReturned { available_after: u32 },
    SendBucketDenied,
    RetryAllowanceGranted { total: u32 },
    RetryAllowanceSpent { remaining: u32 },
}

/// The verdict on a turn, as recorded.
#[derive(Debug, PartialEq, Eq)]
pub enum TurnVerdictRecord<S = String> {
    Committed { finish_reason: S, chars: usize, usage: Option<(u32, u32, u32)> },
    Failed { fault: S },
    FailoverDirected { after_attempts: u32 },
}

impl View for EmissionRecord {
    type V = EmissionRecord<Seq<char>>;

    open spec fn view(&self) -> EmissionRecord<Seq<char>> {
        match *self {
            EmissionRecord::Read { stream, attempt, seq, at_ms, wall_unix_ms, bytes, gap_ms } => {
                EmissionRecord::Read { stream, attempt, seq, at_ms, wall_unix_ms, bytes, gap_ms }
            },
            EmissionRecord::Installment {
                stream,
                attempt,
                seq,
                first_read,
                last_read,
                bytes,
                kind,
                payload,
                status,
            } => EmissionRecord::Installment {
                stream,
                attempt,
                seq,
                first_read,
                last_read,
                bytes,
                kind,
                payload: payload@,
                status,
            },
            EmissionRecord::NormalizedEvent { stream, attempt, installment_seq, event } => {
                EmissionRecord::NormalizedEvent { stream, attempt, installment_seq, event: event@ }
            },
            EmissionRecord::NormalizationError { stream, attempt, installment_seq, detail } => {
                EmissionRecord::NormalizationError { stream, attempt, installment_seq, detail: detail@ }
            },
            EmissionRecord::UndecodableInstallment {
                stream,
                attempt,
                seq,
                bytes,
                error,
                hex_prefix,
            } => EmissionRecord::UndecodableInstallment {
                stream,
                attempt,
                seq,
                bytes,
                error: error@,
                hex_prefix: hex_prefix@,
            },
            EmissionRecord::Residue { stream, attempt, bytes, lossy_text } => {
                EmissionRecord::Residue { stream, attempt, bytes, lossy_text: lossy_text@ }
            },
            EmissionRecord::StreamEnd { stream, attempt, cause, unconsumed_buffer_bytes } => {
                EmissionRecord::StreamEnd { stream, attempt, cause: cause@, unconsumed_buffer_bytes }
            },
            EmissionRecord::Wire { stream, attempt, note } => {
                EmissionRecord::Wire { stream, attempt, note: note@ }
            },
            EmissionRecord::Ledger { stream, attempt, entry } => {
                EmissionRecord::Ledger { stream, attempt, entry }
            },
            EmissionRecord::Anomaly { stream, attempt, note } => {
                EmissionRecord::Anomaly { stream, attempt, note: note@ }
            },
            EmissionRecord::Scheduler { stream, attempt, note } => {
                EmissionRecord::Scheduler { stream, attempt, note }
            },
            EmissionRecord::TurnTrailer {
                stream,
                format_version,
                attempts,
                verdict,
                reads,
                installments,
                events,
                normalization_errors,
                select_polls,
                capture_policy,
            } => EmissionRecord::TurnTrailer {
                stream,
                format_version,
                attempts,
                verdict: verdict@,
                reads,
                installments,
                events,
                normalization_errors,
                select_polls,
                capture_policy,
            },
            EmissionRecord::CaptureDrop { dropped } => EmissionRecord::CaptureDrop { dropped },
        }
    }
}

impl View for StreamEndCause {
    type V = StreamEndCause<Seq<char>>;

    open spec fn view(&self) -> StreamEndCause<Seq<char>> {
        match *self {
            StreamEndCause::DoneSentinelConsumed => StreamEndCause::DoneSentinelConsumed,
            StreamEndCause::PeerClosed => StreamEndCause::PeerClosed,
            StreamEndCause::ClosedWithNoContent => StreamEndCause::ClosedWithNoContent,
            StreamEndCause::StallTimeout { window_secs } => {
                StreamEndCause::StallTimeout { window_secs }
            },
            StreamEndCause::ThroughputStarved { floor_bps, sustained_secs } => {
                StreamEndCause::ThroughputStarved { floor_bps, sustained_secs }
            },
            StreamEndCause::OverallDeadline { limit_secs } => {
                StreamEndCause::OverallDeadline { limit_secs }
            },
            StreamEndCause::FirstByteBackstop { window_secs } => {
                StreamEndCause::FirstByteBackstop { window_secs }
            },
            StreamEndCause::TransportError { detail } => {
                StreamEndCause::TransportError { detail: detail@ }
            },
            StreamEndCause::HandlerDirected { directive } => {
                StreamEndCause::HandlerDirected { directive: directive@ }
            },
            StreamEndCause::BufferOverflow { limit_bytes } => {
                StreamEndCause::BufferOverflow { limit_bytes }
            },
            StreamEndCause::HttpError { status, body } => {
                StreamEndCause::HttpError { status, body: body@ }
            },
            StreamEndCause::NotAnEventStream { content_type, body_prefix } => {
                StreamEndCause::NotAnEventStream { content_type: content_type@, body_prefix: body_prefix@ }
            },
            StreamEndCause::ConnectError { detail } => {
                StreamEndCause::ConnectError { detail: detail@ }
            },
            StreamEndCause::MultipleChoicesUnsupported { n } => {
                StreamEndCause::MultipleChoicesUnsupported { n }
            },
            StreamEndCause::Cancelled => StreamEndCause::Cancelled,
        }
    }
}

impl View for WireNote {
    type V = WireNote<Seq<char>>;

    open spec fn view(&self) -> WireNote<Seq<char>> {
        match *self {
            WireNote::Ttft { ms } => WireNote::Ttft { ms },
            WireNote::InterReadGap { ms, bytes } => WireNote::InterReadGap { ms, bytes },
            WireNote::KeepAliveComment => WireNote::KeepAliveComment,
            WireNote::EofWithoutDoneSentinel => WireNote::EofWithoutDoneSentinel,
            WireNote::ReadPacingEngaged => WireNote::ReadPacingEngaged,
            WireNote::UnhandledChannel { channel } => {
                WireNote::UnhandledChannel { channel: channel@ }
            },
        }
    }
}

impl View for TurnVerdictRecord {
    type V = TurnVerdictRecord<Seq<char>>;

    open spec fn view(&self) -> TurnVerdictRecord<Seq<char>> {
        match *self {
            TurnVerdictRecord::Committed { finish_reason, chars, usage } => {
                TurnVerdictRecord::Committed { finish_reason: finish_reason@, chars, usage }
            },
            TurnVerdictRecord::Failed { fault } => TurnVerdictRecord::Failed { fault: fault@ },
            TurnVerdictRecord::FailoverDirected { after_attempts } => {
                TurnVerdictRecord::FailoverDirected { after_attempts }
            },
        }
    }
}

impl Clone for EmissionRecord {
    fn clone(&self) -> (r: Self)
        ensures
            r@ == self@,
    {
        match self {
            EmissionRecord::Read {
                stream,
                attempt,
                seq,
                at_ms,
                wall_unix_ms,
                bytes,
                gap_ms,
            } => EmissionRecord::Read {
                stream: *stream,
                attempt: *attempt,
                seq: *seq,
                at_ms: *at_ms,
                wall_unix_ms: *wall_unix_ms,
                bytes: *bytes,
                gap_ms: *gap_ms,
            },
            EmissionRecord::Installment {
                stream,
                attempt,
                seq,
                first_read,
                last_read,
                bytes,
                kind,
                payload,
                status,
            } => EmissionRecord::Installment {
                stream: *stream,
                attempt: *attempt,
                seq: *seq,
                first_read: *first_read,
                last_read: *last_read,
                bytes: *bytes,
                kind: *kind,
                payload: payload.clone(),
                status: *status,
            },
            EmissionRecord::NormalizedEvent {
                stream,
                attempt,
                installment_seq,
                event,
            } => EmissionRecord::NormalizedEvent {
                stream: *stream,
                attempt: *attempt,
                installment_seq: *installment_seq,
                event: event.clone(),
            },
            EmissionRecord::NormalizationError {
                stream,
                attempt,
                installment_seq,
                detail,
            } => EmissionRecord::NormalizationError {
                stream: *stream,
                attempt: *attempt,
                installment_seq: *installment_seq,
                detail: detail.clone(),
            },
            EmissionRecord::UndecodableInstallment {
                stream,
                attempt,
                seq,
                bytes,
                error,
                hex_prefix,
            } => EmissionRecord::UndecodableInstallment {
                stream: *stream,
                attempt: *attempt,
                seq: *seq,
                bytes: *bytes,
                error: error.clone(),
                hex_prefix: hex_prefix.clone(),
            },
            EmissionRecord::Residue {
                stream,
                attempt,
                bytes,
                lossy_text,
            } => EmissionRecord::Residue {
                stream: *stream,
                attempt: *attempt,
                bytes: *bytes,
                lossy_text: lossy_text.clone(),
            },
            EmissionRecord::StreamEnd {
                stream,
                attempt,
                cause,
                unconsumed_buffer_bytes,
            } => EmissionRecord::StreamEnd {
                stream: *stream,
                attempt: *attempt,
                cause: cause.clone(),
                unconsumed_buffer_bytes: *unconsumed_buffer_bytes,
            },
            EmissionRecord::Wire { stream, attempt, note } => EmissionRecord::Wire {
                stream: *stream,
                attempt: *attempt,
                note: note.clone(),
            },
            EmissionRecord::Ledger { stream, attempt, entry } => EmissionRecord::Ledger {
                stream: *stream,
                attempt: *attempt,
                entry: *entry,
            },
            EmissionRecord::Anomaly { stream, attempt, note } => EmissionRecord::Anomaly {
                stream: *stream,
                attempt: *attempt,
                note: note.clone(),
            },
            EmissionRecord::Scheduler { stream, attempt, note } => EmissionRecord::Scheduler {
                stream: *stream,
                attempt: *attempt,
                note: *note,
            },
            EmissionRecord::TurnTrailer {
                stream,
                format_version,
                attempts,
                verdict,
                reads,
                installments,
                events,
                normalization_errors,
                select_polls,
                capture_policy,
            } => EmissionRecord::TurnTrailer {
                stream: *stream,
                format_version: *format_version,
                attempts: *attempts,
                verdict: verdict.clone(),
                reads: *reads,
                installments: *installments,
                events: *events,
                normalization_errors: *normalization_errors,
                select_polls: *select_polls,
                capture_policy: *capture_policy,
            },
            EmissionRecord::CaptureDrop { dropped } => EmissionRecord::CaptureDrop {
                dropped: *dropped,
            },
        }
    }
}

impl Clone for StreamEndCause {
    fn clone(&self) -> (r: Self)
        ensures
            r@ == self@,
    {
        match self {
            StreamEndCause::DoneSentinelConsumed => StreamEndCause::DoneSentinelConsumed,
            StreamEndCause::PeerClosed => StreamEndCause::PeerClosed,
            StreamEndCause::ClosedWithNoContent => StreamEndCause::ClosedWithNoContent,
            StreamEndCause::StallTimeout { window_secs } => StreamEndCause::StallTimeout {
                window_secs: *window_secs,
            },
            StreamEndCause::ThroughputStarved {
                floor_bps,
                sustained_secs,
            } => StreamEndCause::ThroughputStarved {
                floor_bps: *floor_bps,
                sustained_secs: *sustained_secs,
            },
            StreamEndCause::OverallDeadline { limit_secs } => StreamEndCause::OverallDeadline {
                limit_secs: *limit_secs,
            },
            StreamEndCause::FirstByteBackstop { window_secs } => StreamEndCause::FirstByteBackstop {
                window_secs: *window_secs,
            },
            StreamEndCause::TransportError { detail } => StreamEndCause::TransportError {
                detail: detail.clone(),
            },
            StreamEndCause::HandlerDirected { directive } => StreamEndCause::HandlerDirected {
                directive: directive.clone(),
            },
            StreamEndCause::BufferOverflow { limit_bytes } => StreamEndCause::BufferOverflow {
                limit_bytes: *limit_bytes,
            },
            StreamEndCause::HttpError { status, body } => StreamEndCause::HttpError {
                status: *status,
                body: body.clone(),
            },
            StreamEndCause::NotAnEventStream {
                content_type,
                body_prefix,
            } => StreamEndCause::NotAnEventStream {
                content_type: content_type.clone(),
                body_prefix: body_prefix.clone(),
            },
            StreamEndCause::ConnectError { detail } => StreamEndCause::ConnectError {
                detail: detail.clone(),
            },
            StreamEndCause::MultipleChoicesUnsupported {
                n,
            } => StreamEndCause::MultipleChoicesUnsupported {
                n: *n,
            },
            StreamEndCause::Cancelled => StreamEndCause::Cancelled,
        }
    }
}

impl Clone for WireNote {
    fn clone(&self) -> (r: Self)
        ensures
            r@ == self@,
    {
        match self {
            WireNote::Ttft { ms } => WireNote::Ttft { ms: *ms },
            WireNote::InterReadGap { ms, bytes } => WireNote::InterReadGap {
                ms: *ms,
                bytes: *bytes,
            },
            WireNote::KeepAliveComment => WireNote::KeepAliveComment,
            WireNote::EofWithoutDoneSentinel => WireNote::EofWithoutDoneSentinel,
            WireNote::ReadPacingEngaged => WireNote::ReadPacingEngaged,
            WireNote::UnhandledChannel { channel } => WireNote::UnhandledChannel {
                channel: channel.clone(),
            },
        }
    }
}

impl Clone for TurnVerdictRecord {
    fn clone(&self) -> (r: Self)
        ensures
            r@ == self@,
    {
        match self {
            TurnVerdictRecord::Committed {
                finish_reason,
                chars,
                usage,
            } => TurnVerdictRecord::Committed {
                finish_reason: finish_reason.clone(),
                chars: *chars,
                usage: *usage,
            },
            TurnVerdictRecord::Failed { fault } => TurnVerdictRecord::Failed {
                fault: fault.clone(),
            },
            TurnVerdictRecord::FailoverDirected {
                after_attempts,
            } => TurnVerdictRecord::FailoverDirected {
                after_attempts: *after_attempts,
            },
        }
    }
}

/// An observer. It receives records and has no say in the flow.
pub trait ObserverSink: Send {
    fn write(&mut self, rec: &EmissionRecord);
}

/// Executable records as the specification sees them.
pub open spec fn records_view(v: Seq<EmissionRecord>) -> Seq<EmissionRecord<Seq<char>>> {
    v.map_values(|r: EmissionRecord| r@)
}

/// Records produced and not yet handed on, oldest first.
#[derive(Debug)]
pub struct Outbox {
    records: Vec<EmissionRecord>,
}

impl View for Outbox {
    type V = Seq<EmissionRecord<Seq<char>>>;

    closed spec fn view(&self) -> Seq<EmissionRecord<Seq<char>>> {
        records_view(self.records@)
    }
}

impl Outbox {
    /// An empty outbox.
    pub fn new() -> (r: Self)
        ensures
            r@ == Seq::<EmissionRecord<Seq<char>>>::empty(),
    {
        let r = Outbox { records: Vec::new() };
        assert(r@ =~= Seq::empty());
        r
    }

    /// Append one record.
    pub fn emit(&mut self, rec: EmissionRecord)
        ensures
            final(self)@ == old(self)@.push(rec@),
    {
        self.records.push(rec);
        assert(self@ =~= old(self)@.push(rec@));
    }

    /// Hand the records over, oldest first.
    pub fn into_records(self) -> (r: Vec<EmissionRecord>)
        ensures
            records_view(r@) == self@,
    {
        self.records
    }
}

// ---- bus pacing -----------------------------------------------------------

/// Every so many emits, the bus reports the peak latency of handing a record
/// over.
pub const EMITS_PER_LATENCY_REPORT: u64 = 256;

/// Whether the emit that follows `emitted_before` others closes a reporting
/// period.
pub fn latency_report_due(emitted_before: u64) -> (r: bool)
    ensures
        r == ((emitted_before + 1) % (EMITS_PER_LATENCY_REPORT as int) == 0),
{
    emitted_before % EMITS_PER_LATENCY_REPORT == EMITS_PER_LATENCY_REPORT - 1
}

/// The report of a peak latency. It belongs to no stream.
pub fn latency_record(peak_us: u64) -> (r: EmissionRecord)
    ensures
        r@ == (EmissionRecord::<Seq<char>>::Scheduler {
            stream: 0,
            attempt: 0,
            note: SchedNote::EmitLatencyUs { us: peak_us },
        }),
{
    EmissionRecord::Scheduler {
        stream: 0,
        attempt: 0,
        note: SchedNote::EmitLatencyUs { us: peak_us },
    }
}

/// The report of dropped records, due when their number has changed since it
/// was last reported.
pub fn drop_record(last_reported: u64, dropped: u64) -> (r: Option<EmissionRecord>)
    ensures
        match r {
            Some(rec) => dropped != last_reported && rec@ == (EmissionRecord::<
                Seq<char>,
            >::CaptureDrop { dropped }),
            None => dropped == last_reported,
        },
{
    if dropped != last_reported {
        Some(EmissionRecord::CaptureDrop { dropped })
    } else {
        None
    }
}

} // verus!
