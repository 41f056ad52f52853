//! What observers do with records: the terminal's lines, and the pace of a
//! capture.
//!
//! Sinks run behind the bus, never in the read loop. A slow one costs records,
//! never the wire.

use crate::driver::DriverEvent;
use crate::emission::{EmissionRecord, WireNote};
use crate::text;
use vstd::prelude::*;

verus! {

// ---- the terminal ---------------------------------------------------------

/// What the terminal shows of a record.
#[derive(Debug, PartialEq, Eq)]
pub enum Shown<S = String> {
    Nothing,
    /// Text of the reply, as it stands, on the standard output.
    Reply(S),
    /// A line for the operator, on the standard error.
    Notice(S),
}

impl View for Shown {
    type V = Shown<Seq<char>>;

    open spec fn view(&self) -> Shown<Seq<char>> {
        match *self {
            Shown::Nothing => Shown::Nothing,
            Shown::Reply(s) => Shown::Reply(s@),
            Shown::Notice(s) => Shown::Notice(s@),
        }
    }
}

/// What the terminal shows of a normalized event.
pub open spec fn shown_event(ev: DriverEvent<Seq<char>>) -> Shown<Seq<char>> {
    match ev {
        DriverEvent::TextDelta(t) => Shown::Reply(t),
        DriverEvent::Finish(reason) => Shown::Notice(
            "\n[SYSTEM] Stream completed. Exit Reason: "@ + reason,
        ),
        DriverEvent::Usage { prompt_tokens, completion_tokens, total_tokens } => Shown::Notice(
            "[ACCOUNTING] Prompt: "@ + text::decimal(prompt_tokens as nat) + ", Completion: "@
                + text::decimal(completion_tokens as nat) + ", Total: "@ + text::decimal(
                total_tokens as nat,
            ),
        ),
        DriverEvent::Done => Shown::Nothing,
    }
}

/// What the terminal shows of a record.
pub open spec fn shown(rec: EmissionRecord<Seq<char>>) -> Shown<Seq<char>> {
    match rec {
        EmissionRecord::NormalizedEvent { event, .. } => shown_event(event),
        EmissionRecord::Wire { note: WireNote::Ttft { ms }, .. } => Shown::Notice(
            "\n[METRIC] TTFT: "@ + text::decimal(ms as nat) + "ms"@,
        ),
        EmissionRecord::Wire { note: WireNote::UnhandledChannel { channel }, .. } => Shown::Notice(
            "\n[WIRE] unhandled channel present: "@ + channel + " (surfaced, not interpreted)"@,
        ),
        EmissionRecord::Anomaly { note, .. } => Shown::Notice("\n[ANOMALY] "@ + note),
        EmissionRecord::NormalizationError { detail, .. } => Shown::Notice(
            "\n[WIRE-ERROR] normalization failed: "@ + detail,
        ),
        EmissionRecord::UndecodableInstallment { bytes, error, hex_prefix, .. } => Shown::Notice(
            "\n[WIRE-ERROR] undecodable frame ("@ + text::decimal(bytes as nat) + "b): "@ + error
                + " ["@ + hex_prefix + "]"@,
        ),
        EmissionRecord::Residue { bytes, .. } => Shown::Notice(
            "\n[WIRE-ERROR] "@ + text::decimal(bytes as nat)
                + "b unframed residue at stream end"@,
        ),
        EmissionRecord::CaptureDrop { dropped } => Shown::Notice(
            "\n[CAPTURE] "@ + text::decimal(dropped as nat) + " record(s) dropped under load"@,
        ),
        _ => Shown::Nothing,
    }
}

fn show_event(ev: &DriverEvent) -> (r: Shown)
    ensures
        r@ == shown_event(ev@),
{
    match ev {
        DriverEvent::TextDelta(t) => Shown::Reply(t.clone()),
        DriverEvent::Finish(reason) => Shown::Notice(
            text::concat("\n[SYSTEM] Stream completed. Exit Reason: ", reason.as_str()),
        ),
        DriverEvent::Usage { prompt_tokens, completion_tokens, total_tokens } => {
            let mut line: String = "[ACCOUNTING] Prompt: ".to_owned();
            text::push_decimal(&mut line, *prompt_tokens as u64);
            line.append(", Completion: ");
            text::push_decimal(&mut line, *completion_tokens as u64);
            line.append(", Total: ");
            text::push_decimal(&mut line, *total_tokens as u64);
            Shown::Notice(line)
        },
        DriverEvent::Done => Shown::Nothing,
    }
}

/// Live rendering on a terminal, off normalized-event records: what reaches
/// the screen is what reached the machine, a recovered tail included.
#[derive(Debug, Clone, Copy)]
pub struct TerminalSink;

impl TerminalSink {
    /// What to show of a record.
    pub fn render(&self, rec: &EmissionRecord) -> (r: Shown)
        ensures
            r@ == shown(rec@),
    {
        match rec {
            EmissionRecord::NormalizedEvent { event, .. } => show_event(event),
            EmissionRecord::Wire { note: WireNote::Ttft { ms }, .. } => Shown::Notice(
                text::number_between("\n[METRIC] TTFT: ", *ms, "ms"),
            ),
            EmissionRecord::Wire { note: WireNote::UnhandledChannel { channel }, .. } => {
                let mut line: String = "\n[WIRE] unhandled channel present: ".to_owned();
                line.append(channel.as_str());
                line.append(" (surfaced, not interpreted)");
                Shown::Notice(line)
            },
            EmissionRecord::Anomaly { note, .. } => Shown::Notice(
                text::concat("\n[ANOMALY] ", note.as_str()),
            ),
            EmissionRecord::NormalizationError { detail, .. } => Shown::Notice(
                text::concat("\n[WIRE-ERROR] normalization failed: ", detail.as_str()),
            ),
            EmissionRecord::UndecodableInstallment { bytes, error, hex_prefix, .. } => {
                let mut line: String = text::number_between(
                    "\n[WIRE-ERROR] undecodable frame (",
                    *bytes as u64,
                    "b): ",
                );
                line.append(error.as_str());
                line.append(" [");
                line.append(hex_prefix.as_str());
                line.append("]");
                Shown::Notice(line)
            },
            EmissionRecord::Residue { bytes, .. } => Shown::Notice(
                text::number_between(
                    "\n[WIRE-ERROR] ",
                    *bytes as u64,
                    "b unframed residue at stream end",
                ),
            ),
            EmissionRecord::CaptureDrop { dropped } => Shown::Notice(
                text::number_between("\n[CAPTURE] ", *dropped, " record(s) dropped under load"),
            ),
            _ => Shown::Nothing,
        }
    }
}

// ---- the capture ----------------------------------------------------------

/// After how many records a capture is flushed at the latest.
pub const RECORDS_PER_FLUSH: u32 = 64;

/// The pace of a capture: it is flushed at the end of a turn and every so many
/// records, which bounds what an abrupt exit can lose.
#[derive(Debug)]
pub struct CaptureSink {
    since_flush: u32,
}

impl View for CaptureSink {
    type V = u32;

    closed spec fn view(&self) -> u32 {
        self.since_flush
    }
}

/// Whether to flush after `rec`, with this many records unflushed before it.
pub open spec fn flush_due(since_flush: u32, rec: EmissionRecord<Seq<char>>) -> bool {
    rec is TurnTrailer || since_flush + 1 >= RECORDS_PER_FLUSH
}

impl CaptureSink {
    #[verifier::type_invariant]
    spec fn paced(self) -> bool {
        self.since_flush < RECORDS_PER_FLUSH
    }

    /// A capture with nothing in it.
    pub fn new() -> (r: Self)
        ensures
            r@ == 0,
    {
        CaptureSink { since_flush: 0 }
    }

    /// A record was written: whether to flush now.
    pub fn wrote(&mut self, rec: &EmissionRecord) -> (flush: bool)
        ensures
            flush == flush_due(old(self)@, rec@),
            final(self)@ == (if flush {
                0
            } else {
                (old(self)@ + 1) as u32
            }),
            final(self)@ < RECORDS_PER_FLUSH,
    {
        proof {
            use_type_invariant(&*self);
        }
        let unflushed: u32 = self.since_flush + 1;
        let boundary = match rec {
            EmissionRecord::TurnTrailer { .. } => true,
            _ => false,
        };
        if boundary || unflushed >= RECORDS_PER_FLUSH {
            self.since_flush = 0;
            return true;
        }
        self.since_flush = unflushed;
        false
    }
}

impl Default for CaptureSink {
    fn default() -> (r: Self)
        ensures
            r@ == 0,
    {
        CaptureSink::new()
    }
}

/// The name of a capture file begun at this many seconds since the epoch.
pub fn capture_file_name(secs: u64) -> (r: String)
    ensures
        r@ == "capture-"@ + text::decimal(secs as nat) + ".jsonl"@,
{
    text::number_between("capture-", secs, ".jsonl")
}

/// The line that stands in a capture for a record that could not be written.
pub fn capture_error_line(detail: &str) -> (r: String)
    ensures
        r@ == "{\"rec\":\"capture_error\",\"detail\":\""@ + detail@ + "\"}"@,
{
    let head = text::concat("{\"rec\":\"capture_error\",\"detail\":\"", detail);
    text::concat(head.as_str(), "\"}")
}

} // verus!
