//! What holds of what observers are given: the terminal's lines, the pace of a
//! capture, and the texts that the specification sees in executable values.

use crate::attempt;
use crate::attempt::WireEvent;
use crate::conversation::{AfterPrimary, Command};
use crate::driver;
use crate::driver::{ChatOutcome, DriverEvent, DriverFault};
use crate::emission;
use crate::emission::{EmissionRecord, StreamEndCause, StreamId, TurnVerdictRecord, WireNote};
use crate::event_handler;
use crate::event_handler::{Choice, Chunk, FlowDirective, Normalized, TurnResolution};
use crate::machine;
use crate::openai;
use crate::openai::{AttemptEnd, BodyRead, ConfigError, Message, OpenAiConfig, TurnVerdict};
use crate::ports;
use crate::ports::Shown;
use crate::settings;
use crate::settings::{Settings, SettingsError};
use crate::sse;
use crate::sse::{SseEvent, SsePayload};
use crate::text;
use crate::turn;
use vstd::prelude::*;

verus! {

// ---- the terminal ---------------------------------------------------------

/// An event on the terminal: text is shown as it stands, as the reply; a
/// finish reason and the usage are notices, with their words and numbers; the
/// end sentinel is not shown.
pub proof fn lemma_events_are_shown(
    stream: StreamId,
    attempt: u32,
    installment_seq: u64,
    t: Seq<char>,
    p: u32,
    c: u32,
    n: u32,
)
    ensures
        ports::shown(
            EmissionRecord::NormalizedEvent {
                stream,
                attempt,
                installment_seq,
                event: DriverEvent::TextDelta(t),
            },
        ) == Shown::Reply(t),
        ports::shown(
            EmissionRecord::NormalizedEvent {
                stream,
                attempt,
                installment_seq,
                event: DriverEvent::Finish(t),
            },
        ) == Shown::Notice("\n[SYSTEM] Stream completed. Exit Reason: "@ + t),
        ports::shown(
            EmissionRecord::NormalizedEvent {
                stream,
                attempt,
                installment_seq,
                event: DriverEvent::Usage {
                    prompt_tokens: p,
                    completion_tokens: c,
                    total_tokens: n,
                },
            },
        ) == Shown::Notice(
            "[ACCOUNTING] Prompt: "@ + text::decimal(p as nat) + ", Completion: "@ + text::decimal(
                c as nat,
            ) + ", Total: "@ + text::decimal(n as nat),
        ),
        ports::shown(
            EmissionRecord::NormalizedEvent {
                stream,
                attempt,
                installment_seq,
                event: DriverEvent::Done,
            },
        ) == Shown::<Seq<char>>::Nothing,
{
}

/// What else the operator is told, word for word: the time to the first token,
/// a channel that is not interpreted, an oddity, a failed normalization, a
/// frame that is no text, residue, and dropped records.
pub proof fn lemma_notices_are_shown(
    stream: StreamId,
    attempt: u32,
    seq: u64,
    ms: u64,
    bytes: usize,
    t: Seq<char>,
    h: Seq<char>,
)
    ensures
        ports::shown(EmissionRecord::Wire { stream, attempt, note: WireNote::Ttft { ms } })
            == Shown::Notice("\n[METRIC] TTFT: "@ + text::decimal(ms as nat) + "ms"@),
        ports::shown(
            EmissionRecord::Wire {
                stream,
                attempt,
                note: WireNote::UnhandledChannel { channel: t },
            },
        ) == Shown::Notice(
            "\n[WIRE] unhandled channel present: "@ + t + " (surfaced, not interpreted)"@,
        ),
        ports::shown(EmissionRecord::Anomaly { stream, attempt, note: t }) == Shown::Notice(
            "\n[ANOMALY] "@ + t,
        ),
        ports::shown(
            EmissionRecord::NormalizationError { stream, attempt, installment_seq: seq, detail: t },
        ) == Shown::Notice("\n[WIRE-ERROR] normalization failed: "@ + t),
        ports::shown(
            EmissionRecord::UndecodableInstallment {
                stream,
                attempt,
                seq,
                bytes,
                error: t,
                hex_prefix: h,
            },
        ) == Shown::Notice(
            "\n[WIRE-ERROR] undecodable frame ("@ + text::decimal(bytes as nat) + "b): "@ + t
                + " ["@ + h + "]"@,
        ),
        ports::shown(EmissionRecord::Residue { stream, attempt, bytes, lossy_text: t })
            == Shown::Notice(
            "\n[WIRE-ERROR] "@ + text::decimal(bytes as nat) + "b unframed residue at stream end"@,
        ),
        ports::shown(EmissionRecord::CaptureDrop { dropped: ms }) == Shown::Notice(
            "\n[CAPTURE] "@ + text::decimal(ms as nat) + " record(s) dropped under load"@,
        ),
{
}

/// Nothing else is shown.
pub proof fn lemma_all_else_is_not_shown(rec: EmissionRecord<Seq<char>>)
    ensures
        rec is Read || rec is Installment || rec is StreamEnd || rec is Ledger || rec is Scheduler
            || rec is TurnTrailer ==> ports::shown(rec) == Shown::<Seq<char>>::Nothing,
        rec matches EmissionRecord::Wire { note, .. } ==> (!(note is Ttft)
            && !(note is UnhandledChannel) ==> ports::shown(rec) == Shown::<Seq<char>>::Nothing),
{
}

// ---- the capture ----------------------------------------------------------

/// A capture is flushed at the end of a turn and when the sixty-fourth record
/// since the last flush is written, and at no other time.
pub proof fn lemma_captures_are_flushed_in_time(
    unflushed: u32,
    rec: EmissionRecord<Seq<char>>,
)
    ensures
        rec is TurnTrailer ==> ports::flush_due(unflushed, rec),
        !(rec is TurnTrailer) ==> (ports::flush_due(unflushed, rec) <==> unflushed >= 63),
        ports::RECORDS_PER_FLUSH == 64,
        emission::EMITS_PER_LATENCY_REPORT == 256,
        emission::CAPTURE_FORMAT_VERSION == 2,
{
}

// ---- texts that the specification sees ------------------------------------

/// The specification sees every text and every number of an event, an outcome
/// and a fault, each in its place.
pub proof fn lemma_testimony_is_seen_whole(e: DriverEvent, o: ChatOutcome, f: DriverFault)
    ensures
        match e {
            DriverEvent::TextDelta(t) => e@ == DriverEvent::TextDelta(t@),
            DriverEvent::Finish(r) => e@ == DriverEvent::Finish(r@),
            DriverEvent::Usage { prompt_tokens, completion_tokens, total_tokens } => e@ == (
            DriverEvent::<Seq<char>>::Usage { prompt_tokens, completion_tokens, total_tokens }),
            DriverEvent::Done => e@ == DriverEvent::<Seq<char>>::Done,
        },
        o@.content == o.content@,
        o@.finish_reason == o.finish_reason@,
        o@.usage == o.usage,
        match f {
            DriverFault::Truncated { partial_chars } => f@ == (DriverFault::<
                Seq<char>,
            >::Truncated { partial_chars }),
            DriverFault::Aborted { partial_chars } => f@ == (DriverFault::<Seq<char>>::Aborted {
                partial_chars,
            }),
            DriverFault::Stalled { after_secs } => f@ == (DriverFault::<Seq<char>>::Stalled {
                after_secs,
            }),
            DriverFault::BufferOverflow { limit_bytes } => f@ == (DriverFault::<
                Seq<char>,
            >::BufferOverflow { limit_bytes }),
            DriverFault::EmptyStream => f@ == DriverFault::<Seq<char>>::EmptyStream,
            DriverFault::Protocol(msg) => f@ == DriverFault::Protocol(msg@),
        },
{
}

/// The specification sees a result, or that there is none, as it is: an error
/// as an error, and success as success.
pub proof fn lemma_results_are_seen_as_they_are(
    verdict: Option<TurnVerdict>,
    end: Option<AttemptEnd>,
    directive: Result<FlowDirective, DriverFault>,
    settled: Result<ChatOutcome, DriverFault>,
    decoded: Result<Chunk, String>,
    normalized: Result<Normalized, String>,
    config: Result<OpenAiConfig, ConfigError>,
    session: Result<Settings, SettingsError>,
)
    ensures
        match verdict {
            Some(v) => turn::verdict_view(verdict) == Some(v@),
            None => turn::verdict_view(verdict) is None,
        },
        match end {
            Some(e) => attempt::end_view(end) == Some(e@),
            None => attempt::end_view(end) is None,
        },
        match directive {
            Ok(d) => event_handler::directive_view(directive) == Ok::<_, DriverFault<Seq<char>>>(d),
            Err(f) => event_handler::directive_view(directive) == Err::<FlowDirective, _>(f@),
        },
        match settled {
            Ok(o) => machine::verdict_view(settled) == Ok::<_, DriverFault<Seq<char>>>(o@),
            Err(f) => machine::verdict_view(settled) == Err::<ChatOutcome<Seq<char>>, _>(f@),
        },
        match decoded {
            Ok(c) => event_handler::decoded_view(decoded) == Ok::<_, Seq<char>>(c@),
            Err(e) => event_handler::decoded_view(decoded) == Err::<
                Chunk<Seq<char>, Seq<Choice<Seq<char>>>>,
                _,
            >(e@),
        },
        match normalized {
            Ok(n) => event_handler::normalized_view(normalized) == Ok::<_, Seq<char>>(n@),
            Err(e) => event_handler::normalized_view(normalized) == Err::<
                Normalized<Seq<DriverEvent<Seq<char>>>, Seq<Seq<char>>>,
                _,
            >(e@),
        },
        match config {
            Ok(c) => openai::config_view(config) == Ok::<_, ConfigError<Seq<char>>>(c@),
            Err(e) => openai::config_view(config) == Err::<OpenAiConfig<Seq<char>>, _>(e@),
        },
        match session {
            Ok(s) => settings::settings_view(session) == Ok::<_, SettingsError<Seq<char>>>(s@),
            Err(e) => settings::settings_view(session) == Err::<Settings<Seq<char>>, _>(e@),
        },
{
}

/// The specification sees a list item by item, each in its place.
pub proof fn lemma_lists_are_seen_whole(
    evs: Seq<DriverEvent>,
    frames: Seq<SseEvent>,
    recs: Seq<EmissionRecord>,
    ms: Seq<Message>,
    ts: Seq<String>,
    k: int,
)
    ensures
        driver::events_view(evs).len() == evs.len(),
        0 <= k < evs.len() ==> driver::events_view(evs)[k] == evs[k]@,
        sse::events_view(frames).len() == frames.len(),
        0 <= k < frames.len() ==> sse::events_view(frames)[k] == frames[k]@,
        emission::records_view(recs).len() == recs.len(),
        0 <= k < recs.len() ==> emission::records_view(recs)[k] == recs[k]@,
        openai::messages_view(ms).len() == ms.len(),
        0 <= k < ms.len() ==> openai::messages_view(ms)[k] == ms[k]@,
        machine::texts(ts).len() == ts.len(),
        0 <= k < ts.len() ==> machine::texts(ts)[k] == ts[k]@,
{
}

/// The specification sees every text, number and flag of a chunk and of what
/// it normalizes to, each in its place.
pub proof fn lemma_chunks_are_seen_whole(c: Chunk, n: Normalized, k: int)
    ensures
        c@.choices.len() == c.choices@.len(),
        0 <= k < c.choices@.len() ==> c@.choices[k].delta.tool_calls
            == c.choices@[k].delta.tool_calls,
        0 <= k < c.choices@.len() ==> match c.choices@[k].delta.content {
            Some(t) => c@.choices[k].delta.content == Some(t@),
            None => c@.choices[k].delta.content is None,
        },
        0 <= k < c.choices@.len() ==> match c.choices@[k].finish_reason {
            Some(r) => c@.choices[k].finish_reason == Some(r@),
            None => c@.choices[k].finish_reason is None,
        },
        c@.usage == c.usage,
        match c.error {
            Some(e) => c@.error == Some(e@),
            None => c@.error is None,
        },
        n@.events.len() == n.events@.len(),
        0 <= k < n.events@.len() ==> n@.events[k] == n.events@[k]@,
        n@.unhandled_channels.len() == n.unhandled_channels@.len(),
        0 <= k < n.unhandled_channels@.len() ==> n@.unhandled_channels[k]
            == n.unhandled_channels@[k]@,
        n@.multiple_choices == n.multiple_choices,
{
}

/// The specification sees the bytes, the text and the length of a frame.
pub proof fn lemma_frames_are_seen_whole(e: SseEvent)
    ensures
        e@.raw_byte_len == e.raw_byte_len,
        match e.payload {
            SsePayload::Comment(t) => e@.payload == SsePayload::<Seq<char>, Seq<u8>>::Comment(t@),
            SsePayload::Data(t) => e@.payload == SsePayload::<Seq<char>, Seq<u8>>::Data(t@),
            SsePayload::Undecodable { raw, error } => e@.payload == (SsePayload::Undecodable {
                raw: raw@,
                error: error@,
            }),
        },
{
}

/// The specification sees how an attempt and a turn ended, whole.
pub proof fn lemma_ends_are_seen_whole(
    a: AttemptEnd,
    v: TurnVerdict,
    r: TurnResolution,
    p: AfterPrimary,
    b: BodyRead,
)
    ensures
        match a {
            AttemptEnd::Complete(r) => a@ == AttemptEnd::Complete(r@),
            AttemptEnd::Wire(c) => a@ == AttemptEnd::Wire(c@),
        },
        match v {
            TurnVerdict::Committed(o) => v@ == TurnVerdict::Committed(o@),
            TurnVerdict::Failover { attempts_here } => v@ == (TurnVerdict::<Seq<char>>::Failover {
                attempts_here,
            }),
            TurnVerdict::Failed(f) => v@ == TurnVerdict::Failed(f@),
        },
        match r {
            TurnResolution::Committed(o) => r@ == TurnResolution::Committed(o@),
            TurnResolution::Fault(f) => r@ == TurnResolution::Fault(f@),
        },
        match p {
            AfterPrimary::Settle(v) => p@ == AfterPrimary::Settle(v@),
            AfterPrimary::Reissue { notice } => p@ == (AfterPrimary::Reissue { notice: notice@ }),
        },
        match b {
            BodyRead::Text(t) => b@ == BodyRead::Text(t@),
            BodyRead::Failed => b@ == BodyRead::<Seq<char>>::Failed,
            BodyRead::TimedOut => b@ == BodyRead::<Seq<char>>::TimedOut,
        },
{
}

/// The specification sees why a stream ended, whole.
pub proof fn lemma_causes_are_seen_whole(c: StreamEndCause, w: WireNote, v: TurnVerdictRecord)
    ensures
        match c {
            StreamEndCause::DoneSentinelConsumed => c@ == StreamEndCause::<
                Seq<char>,
            >::DoneSentinelConsumed,
            StreamEndCause::PeerClosed => c@ == StreamEndCause::<Seq<char>>::PeerClosed,
            StreamEndCause::ClosedWithNoContent => c@ == StreamEndCause::<
                Seq<char>,
            >::ClosedWithNoContent,
            StreamEndCause::StallTimeout { window_secs } => c@ == (StreamEndCause::<
                Seq<char>,
            >::StallTimeout { window_secs }),
            StreamEndCause::ThroughputStarved { floor_bps, sustained_secs } => c@ == (
            StreamEndCause::<Seq<char>>::ThroughputStarved { floor_bps, sustained_secs }),
            StreamEndCause::OverallDeadline { limit_secs } => c@ == (StreamEndCause::<
                Seq<char>,
            >::OverallDeadline { limit_secs }),
            StreamEndCause::FirstByteBackstop { window_secs } => c@ == (StreamEndCause::<
                Seq<char>,
            >::FirstByteBackstop { window_secs }),
            StreamEndCause::TransportError { detail } => c@ == (StreamEndCause::TransportError {
                detail: detail@,
            }),
            StreamEndCause::HandlerDirected { directive } => c@ == (
            StreamEndCause::HandlerDirected { directive: directive@ }),
            StreamEndCause::BufferOverflow { limit_bytes } => c@ == (StreamEndCause::<
                Seq<char>,
            >::BufferOverflow { limit_bytes }),
            StreamEndCause::HttpError { status, body } => c@ == (StreamEndCause::HttpError {
                status,
                body: body@,
            }),
            StreamEndCause::NotAnEventStream { content_type, body_prefix } => c@ == (
            StreamEndCause::NotAnEventStream {
                content_type: content_type@,
                body_prefix: body_prefix@,
            }),
            StreamEndCause::ConnectError { detail } => c@ == (StreamEndCause::ConnectError {
                detail: detail@,
            }),
            StreamEndCause::MultipleChoicesUnsupported { n } => c@ == (StreamEndCause::<
                Seq<char>,
            >::MultipleChoicesUnsupported { n }),
            StreamEndCause::Cancelled => c@ == StreamEndCause::<Seq<char>>::Cancelled,
        },
        match w {
            WireNote::Ttft { ms } => w@ == (WireNote::<Seq<char>>::Ttft { ms }),
            WireNote::InterReadGap { ms, bytes } => w@ == (WireNote::<Seq<char>>::InterReadGap {
                ms,
                bytes,
            }),
            WireNote::KeepAliveComment => w@ == WireNote::<Seq<char>>::KeepAliveComment,
            WireNote::EofWithoutDoneSentinel => w@ == WireNote::<
                Seq<char>,
            >::EofWithoutDoneSentinel,
            WireNote::ReadPacingEngaged => w@ == WireNote::<Seq<char>>::ReadPacingEngaged,
            WireNote::UnhandledChannel { channel } => w@ == (WireNote::UnhandledChannel {
                channel: channel@,
            }),
        },
        match v {
            TurnVerdictRecord::Committed { finish_reason, chars, usage } => v@ == (
            TurnVerdictRecord::Committed { finish_reason: finish_reason@, chars, usage }),
            TurnVerdictRecord::Failed { fault } => v@ == (TurnVerdictRecord::Failed {
                fault: fault@,
            }),
            TurnVerdictRecord::FailoverDirected { after_attempts } => v@ == (TurnVerdictRecord::<
                Seq<char>,
            >::FailoverDirected { after_attempts }),
        },
{
}

/// The specification sees what happened on the wire, and what a line asks
/// for, whole.
pub proof fn lemma_wire_events_are_seen_whole(w: WireEvent, c: Command, s: Shown)
    ensures
        match w {
            WireEvent::CancelledDialing => w@ == WireEvent::<Seq<char>>::CancelledDialing,
            WireEvent::HeaderTimeout => w@ == WireEvent::<Seq<char>>::HeaderTimeout,
            WireEvent::ConnectError { detail } => w@ == (WireEvent::ConnectError {
                detail: detail@,
            }),
            WireEvent::HttpError { status, body } => w@ == (WireEvent::HttpError {
                status,
                body: body@,
            }),
            WireEvent::ForeignBody { content_type, body } => w@ == (WireEvent::ForeignBody {
                content_type: content_type@,
                body: body@,
            }),
            WireEvent::Cancelled => w@ == WireEvent::<Seq<char>>::Cancelled,
            WireEvent::OverallDeadline => w@ == WireEvent::<Seq<char>>::OverallDeadline,
            WireEvent::Stall => w@ == WireEvent::<Seq<char>>::Stall,
            WireEvent::TransportError { detail } => w@ == (WireEvent::TransportError {
                detail: detail@,
            }),
        },
        match c {
            Command::Blank => c@ == Command::<Seq<char>>::Blank,
            Command::Quit => c@ == Command::<Seq<char>>::Quit,
            Command::Reset => c@ == Command::<Seq<char>>::Reset,
            Command::Say(t) => c@ == Command::Say(t@),
        },
        match s {
            Shown::Nothing => s@ == Shown::<Seq<char>>::Nothing,
            Shown::Reply(t) => s@ == Shown::Reply(t@),
            Shown::Notice(t) => s@ == Shown::Notice(t@),
        },
{
}

/// The specification sees a configuration and the settings whole, each part
/// in its place.
pub proof fn lemma_settings_are_seen_whole(
    c: OpenAiConfig,
    s: Settings,
    m: Message,
    e: ConfigError,
    f: SettingsError,
)
    ensures
        c@.base_url == c.base_url@,
        c@.api_key == c.api_key@,
        c@.model == c.model@,
        c@.request_usage == c.request_usage,
        c@.stall_timeout_secs == c.stall_timeout_secs,
        c@.first_byte_backstop_secs == c.first_byte_backstop_secs,
        c@.overall_deadline_secs == c.overall_deadline_secs,
        c@.throughput_floor_bps == c.throughput_floor_bps,
        c@.throughput_sustained_secs == c.throughput_sustained_secs,
        match c.system_prompt {
            Some(p) => c@.system_prompt == Some(p@),
            None => c@.system_prompt is None,
        },
        s@.primary == s.primary@,
        match s.failover {
            Some(f) => s@.failover == Some(f@),
            None => s@.failover is None,
        },
        s@.retry_allowance == s.retry_allowance,
        s@.send_buckets == s.send_buckets,
        s@.bus_capacity == s.bus_capacity,
        match s.capture_dir {
            Some(d) => s@.capture_dir == Some(d@),
            None => s@.capture_dir is None,
        },
        m@.role == m.role@,
        m@.content == m.content@,
        match e {
            ConfigError::MissingApiKey => e@ == ConfigError::<Seq<char>>::MissingApiKey,
            ConfigError::MissingModel => e@ == ConfigError::<Seq<char>>::MissingModel,
            ConfigError::NotAnInteger { name, cause } => e@ == (ConfigError::NotAnInteger {
                name: name@,
                cause,
            }),
        },
        match f {
            SettingsError::Endpoint(e) => f@ == SettingsError::Endpoint(e@),
            SettingsError::Budget(e) => f@ == SettingsError::<Seq<char>>::Budget(e),
        },
{
}

/// The specification sees every field of a record, each in its place.
pub proof fn lemma_records_are_seen_whole(r: EmissionRecord)
    ensures
        match r {
            EmissionRecord::Read { stream, attempt, seq, at_ms, wall_unix_ms, bytes, gap_ms } => r@
                == (EmissionRecord::<Seq<char>>::Read {
                stream,
                attempt,
                seq,
                at_ms,
                wall_unix_ms,
                bytes,
                gap_ms,
            }),
            EmissionRecord::Installment {
                stream,
                attempt,
                seq,
                first_read,
                last_read,
                bytes,
                kind,
                payload,
                status,
            } => r@ == (EmissionRecord::Installment {
                stream,
                attempt,
                seq,
                first_read,
                last_read,
                bytes,
                kind,
                payload: payload@,
                status,
            }),
            EmissionRecord::NormalizedEvent { stream, attempt, installment_seq, event } => r@ == (
            EmissionRecord::NormalizedEvent { stream, attempt, installment_seq, event: event@ }),
            EmissionRecord::NormalizationError { stream, attempt, installment_seq, detail } => r@
                == (EmissionRecord::NormalizationError {
                stream,
                attempt,
                installment_seq,
                detail: detail@,
            }),
            EmissionRecord::UndecodableInstallment {
                stream,
                attempt,
                seq,
                bytes,
                error,
                hex_prefix,
            } => r@ == (EmissionRecord::UndecodableInstallment {
                stream,
                attempt,
                seq,
                bytes,
                error: error@,
                hex_prefix: hex_prefix@,
            }),
            EmissionRecord::Residue { stream, attempt, bytes, lossy_text } => r@ == (
            EmissionRecord::Residue { stream, attempt, bytes, lossy_text: lossy_text@ }),
            EmissionRecord::StreamEnd { stream, attempt, cause, unconsumed_buffer_bytes } => r@
                == (EmissionRecord::StreamEnd {
                stream,
                attempt,
                cause: cause@,
                unconsumed_buffer_bytes,
            }),
            EmissionRecord::Wire { stream, attempt, note } => r@ == (EmissionRecord::Wire {
                stream,
                attempt,
                note: note@,
            }),
            EmissionRecord::Ledger { stream, attempt, entry } => r@ == (EmissionRecord::<
                Seq<char>,
            >::Ledger { stream, attempt, entry }),
            EmissionRecord::Anomaly { stream, attempt, note } => r@ == (EmissionRecord::Anomaly {
                stream,
                attempt,
                note: note@,
            }),
            EmissionRecord::Scheduler { stream, attempt, note } => r@ == (EmissionRecord::<
                Seq<char>,
            >::Scheduler { stream, attempt, note }),
            EmissionRecord::TurnTrailer {
                stream,
                format_version,
                attempts,
                verdict,
                reads,
                installments,
                events,
                normalization_errors,
                select_polls,
                capture_policy,
            } => r@ == (EmissionRecord::TurnTrailer {
                stream,
                format_version,
                attempts,
                verdict: verdict@,
                reads,
                installments,
                events,
                normalization_errors,
                select_polls,
                capture_policy,
            }),
            EmissionRecord::CaptureDrop { dropped } => r@ == (EmissionRecord::<
                Seq<char>,
            >::CaptureDrop { dropped }),
        },
{
}

} // verus!
