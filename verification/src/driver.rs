//! The vocabulary of the streaming seam: the events that a streaming chat call
//! emits, the outcome that a completed call settles into, and the faults that
//! an incomplete call ends in.
//!
//! Events and outcome are distinct types. An event is testimony that arrives
//! mid-flight; the outcome is the verdict on the whole call.
//!
//! The type parameter `S` of each type holds text: `String` in executable
//! code, a sequence of characters in specifications.

use crate::text;
use vstd::prelude::*;

verus! {

/// One normalized event from the vendor stream, in arrival order.
#[derive(Debug, PartialEq, Eq)]
pub enum DriverEvent<S = String> {
    /// A fragment of assistant text.
    TextDelta(S),
    /// The vendor's stated reason that generation stopped. Receipt of this
    /// event is what makes a call completable.
    Finish(S),
    /// Token accounting, where the endpoint supplies it.
    Usage { prompt_tokens: u32, completion_tokens: u32, total_tokens: u32 },
    /// The `[DONE]` sentinel: bookkeeping only, without completion authority.
    Done,
}

impl View for DriverEvent {
    type V = DriverEvent<Seq<char>>;

    open spec fn view(&self) -> DriverEvent<Seq<char>> {
        match *self {
            DriverEvent::TextDelta(t) => DriverEvent::TextDelta(t@),
            DriverEvent::Finish(r) => DriverEvent::Finish(r@),
            DriverEvent::Usage { prompt_tokens, completion_tokens, total_tokens } => {
                DriverEvent::Usage { prompt_tokens, completion_tokens, total_tokens }
            },
            DriverEvent::Done => DriverEvent::Done,
        }
    }
}

impl Clone for DriverEvent {
    fn clone(&self) -> (r: Self)
        ensures
            r@ == self@,
    {
        match self {
            DriverEvent::TextDelta(t) => DriverEvent::TextDelta(t.clone()),
            DriverEvent::Finish(r) => DriverEvent::Finish(r.clone()),
            DriverEvent::Usage { prompt_tokens, completion_tokens, total_tokens } => {
                DriverEvent::Usage {
                    prompt_tokens: *prompt_tokens,
                    completion_tokens: *completion_tokens,
                    total_tokens: *total_tokens,
                }
            },
            DriverEvent::Done => DriverEvent::Done,
        }
    }
}

/// Executable events as the specification sees them.
pub open spec fn events_view(evs: Seq<DriverEvent>) -> Seq<DriverEvent<Seq<char>>> {
    evs.map_values(|e: DriverEvent| e@)
}

/// The settled result of one successful streaming chat call.
///
/// `content` is the full assistant reply, assembled from every `TextDelta`.
#[derive(Debug, PartialEq, Eq)]
pub struct ChatOutcome<S = String> {
    pub content: S,
    pub finish_reason: S,
    /// Prompt, completion and total tokens.
    pub usage: Option<(u32, u32, u32)>,
}

impl View for ChatOutcome {
    type V = ChatOutcome<Seq<char>>;

    open spec fn view(&self) -> ChatOutcome<Seq<char>> {
        ChatOutcome {
            content: self.content@,
            finish_reason: self.finish_reason@,
            usage: self.usage,
        }
    }
}

impl Clone for ChatOutcome {
    fn clone(&self) -> (r: Self)
        ensures
            r@ == self@,
    {
        ChatOutcome {
            content: self.content.clone(),
            finish_reason: self.finish_reason.clone(),
            usage: self.usage,
        }
    }
}

/// Faults for calls that did not settle into a `ChatOutcome`.
#[derive(Debug, PartialEq, Eq)]
pub enum DriverFault<S = String> {
    /// The byte stream ended before any finish reason arrived. The length of
    /// the partial text is reported; the text itself is committed nowhere.
    Truncated { partial_chars: usize },
    /// The event handler asked for the stream to be abandoned.
    Aborted { partial_chars: usize },
    /// No bytes, or too few, arrived within the window.
    Stalled { after_secs: u64 },
    /// The reassembly buffer exceeded its bound.
    BufferOverflow { limit_bytes: usize },
    /// The stream was accepted but closed without producing any content.
    EmptyStream,
    /// The peer sent something outside the contract.
    Protocol(S),
}

impl View for DriverFault {
    type V = DriverFault<Seq<char>>;

    open spec fn view(&self) -> DriverFault<Seq<char>> {
        match *self {
            DriverFault::Truncated { partial_chars } => DriverFault::Truncated { partial_chars },
            DriverFault::Aborted { partial_chars } => DriverFault::Aborted { partial_chars },
            DriverFault::Stalled { after_secs } => DriverFault::Stalled { after_secs },
            DriverFault::BufferOverflow { limit_bytes } => DriverFault::BufferOverflow {
                limit_bytes,
            },
            DriverFault::EmptyStream => DriverFault::EmptyStream,
            DriverFault::Protocol(msg) => DriverFault::Protocol(msg@),
        }
    }
}

impl Clone for DriverFault {
    fn clone(&self) -> (r: Self)
        ensures
            r@ == self@,
    {
        match self {
            DriverFault::Truncated { partial_chars } => DriverFault::Truncated {
                partial_chars: *partial_chars,
            },
            DriverFault::Aborted { partial_chars } => DriverFault::Aborted {
                partial_chars: *partial_chars,
            },
            DriverFault::Stalled { after_secs } => DriverFault::Stalled { after_secs: *after_secs },
            DriverFault::BufferOverflow { limit_bytes } => DriverFault::BufferOverflow {
                limit_bytes: *limit_bytes,
            },
            DriverFault::EmptyStream => DriverFault::EmptyStream,
            DriverFault::Protocol(msg) => DriverFault::Protocol(msg.clone()),
        }
    }
}

/// The message of a fault, for people.
pub open spec fn fault_text(f: DriverFault<Seq<char>>) -> Seq<char> {
    match f {
        DriverFault::Truncated { partial_chars } => {
            "stream truncated: connection ended before finish_reason ("@ + text::decimal(
                partial_chars as nat,
            ) + " chars of uncommitted partial output discarded)"@
        },
        DriverFault::Aborted { partial_chars } => {
            "stream aborted by handler directive ("@ + text::decimal(partial_chars as nat)
                + " chars of uncommitted partial output discarded)"@
        },
        DriverFault::Stalled { after_secs } => {
            "stream stalled: no bytes for "@ + text::decimal(after_secs as nat) + "s"@
        },
        DriverFault::BufferOverflow { limit_bytes } => {
            "SSE buffer exceeded "@ + text::decimal(limit_bytes as nat)
                + " bytes without a frame terminator"@
        },
        DriverFault::EmptyStream => "stream accepted but produced no content before closing"@,
        DriverFault::Protocol(msg) => "protocol violation: "@ + msg,
    }
}

impl DriverFault {
    /// The message of this fault, for people.
    pub fn to_string(&self) -> (r: String)
        ensures
            r@ == fault_text(self@),
    {
        match self {
            DriverFault::Truncated { partial_chars } => text::number_between(
                "stream truncated: connection ended before finish_reason (",
                *partial_chars as u64,
                " chars of uncommitted partial output discarded)",
            ),
            DriverFault::Aborted { partial_chars } => text::number_between(
                "stream aborted by handler directive (",
                *partial_chars as u64,
                " chars of uncommitted partial output discarded)",
            ),
            DriverFault::Stalled { after_secs } => text::number_between(
                "stream stalled: no bytes for ",
                *after_secs,
                "s",
            ),
            DriverFault::BufferOverflow { limit_bytes } => text::number_between(
                "SSE buffer exceeded ",
                *limit_bytes as u64,
                " bytes without a frame terminator",
            ),
            DriverFault::EmptyStream => {
                "stream accepted but produced no content before closing".to_owned()
            },
            DriverFault::Protocol(msg) => text::concat("protocol violation: ", msg.as_str()),
        }
    }
}

} // verus!
