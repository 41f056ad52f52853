//! Refinement of installments into events, and the strategy that answers wire
//! faults.
//!
//! Refinement is synchronous and holds no lock: each stream owns its
//! [`StreamState`]. The pool of send buckets is shared between streams and
//! atomic. Every fact goes to the outbox as a record, and only the strategy
//! returns directives.
//!
//! Decoding the vendor's JSON is left to the caller, who passes a decoder; a
//! [`Chunk`] holds what the refinement reads of it. Counters wrap at the width
//! of their type.

use crate::driver;
use crate::driver::{ChatOutcome, DriverEvent, DriverFault};
use crate::emission::{EmissionRecord, InstallmentKind, InstallmentStatus, LedgerEntry, Outbox,
    StreamId, WireNote};
use crate::machine;
use crate::machine::{EndCause, Gathered, StreamMachine};
use crate::text;
use std::sync::atomic::{AtomicU32, Ordering};
use vstd::prelude::*;
use vstd::utf8::*;

verus! {

/// What the driver is to do after an installment.
#[derive(Debug, Clone, Copy, PartialEq, Eq, Structural)]
pub enum FlowDirective {
    Continue,
    StopComplete,
    Abort,
}

/// What the driver is to do after a fault.
#[derive(Debug, Clone, Copy, PartialEq, Eq, Structural)]
pub enum FaultDirective {
    RetrySameEndpoint,
    Failover,
    GiveUp,
}

// ---- the vendor's chunk ---------------------------------------------------

/// What one decoded chunk says.
#[derive(Debug)]
pub struct Chunk<S = String, L = Vec<Choice>> {
    pub choices: L,
    pub usage: Option<Usage>,
    /// The server's error, rendered as JSON text.
    pub error: Option<S>,
}

/// One choice of a chunk.
#[derive(Debug)]
pub struct Choice<S = String> {
    pub delta: Delta<S>,
    pub finish_reason: Option<S>,
}

/// The increment that a choice brings.
#[derive(Debug)]
pub struct Delta<S = String> {
    pub content: Option<S>,
    /// Whether tool calls are present. They are not interpreted here.
    pub tool_calls: bool,
}

/// Token accounting.
#[derive(Debug, Clone, Copy, PartialEq, Eq, Structural)]
pub struct Usage {
    pub prompt_tokens: u32,
    pub completion_tokens: u32,
    pub total_tokens: u32,
}

impl View for Choice {
    type V = Choice<Seq<char>>;

    open spec fn view(&self) -> Choice<Seq<char>> {
        Choice {
            delta: Delta {
                content: machine::opt_text(self.delta.content),
                tool_calls: self.delta.tool_calls,
            },
            finish_reason: machine::opt_text(self.finish_reason),
        }
    }
}

impl View for Chunk {
    type V = Chunk<Seq<char>, Seq<Choice<Seq<char>>>>;

    open spec fn view(&self) -> Chunk<Seq<char>, Seq<Choice<Seq<char>>>> {
        Chunk {
            choices: self.choices@.map_values(|c: Choice| c@),
            usage: self.usage,
            error: machine::opt_text(self.error),
        }
    }
}

/// What a decoder made of a text, as the specification sees it.
pub open spec fn decoded_view(d: Result<Chunk, String>) -> Result<
    Chunk<Seq<char>, Seq<Choice<Seq<char>>>>,
    Seq<char>,
> {
    match d {
        Ok(c) => Ok(c@),
        Err(e) => Err(e@),
    }
}

/// The decoder may be called on any text.
pub open spec fn decodes_any<F: Fn(&str) -> Result<Chunk, String>>(decode: F) -> bool {
    forall|s: &str| #[trigger] call_requires(decode, (s,))
}

/// The decoder, called on the text `data`, may return `d`.
pub open spec fn decodes_to<F: Fn(&str) -> Result<Chunk, String>>(
    decode: F,
    data: Seq<char>,
    d: Result<Chunk, String>,
) -> bool {
    exists|s: &str| s@ == data && #[trigger] call_ensures(decode, (s,), d)
}

// ---- normalization --------------------------------------------------------

/// The outcome of normalizing one data installment.
#[derive(Debug)]
pub struct Normalized<E = Vec<DriverEvent>, C = Vec<String>> {
    pub events: E,
    /// Channels other than content that were seen, one entry per sighting.
    pub unhandled_channels: C,
    /// The number of choices, where there is more than one.
    pub multiple_choices: Option<usize>,
}

impl View for Normalized {
    type V = Normalized<Seq<DriverEvent<Seq<char>>>, Seq<Seq<char>>>;

    open spec fn view(&self) -> Normalized<Seq<DriverEvent<Seq<char>>>, Seq<Seq<char>>> {
        Normalized {
            events: driver::events_view(self.events@),
            unhandled_channels: machine::texts(self.unhandled_channels@),
            multiple_choices: self.multiple_choices,
        }
    }
}

/// A normalization as the specification sees it.
pub open spec fn normalized_view(r: Result<Normalized, String>) -> Result<
    Normalized<Seq<DriverEvent<Seq<char>>>, Seq<Seq<char>>>,
    Seq<char>,
> {
    match r {
        Ok(n) => Ok(n@),
        Err(e) => Err(e@),
    }
}

/// Whether a data installment is the end sentinel.
pub open spec fn is_done_sentinel(data: Seq<char>) -> bool {
    text::trimmed(data) == "[DONE]"@
}

/// What the end sentinel normalizes to.
pub open spec fn done_form() -> Normalized<Seq<DriverEvent<Seq<char>>>, Seq<Seq<char>>> {
    Normalized {
        events: seq![DriverEvent::Done],
        unhandled_channels: Seq::empty(),
        multiple_choices: None,
    }
}

/// The events of one choice: its text, unless empty, then its finish reason.
pub open spec fn choice_events(c: Choice<Seq<char>>) -> Seq<DriverEvent<Seq<char>>> {
    let text = match c.delta.content {
        Some(t) => if t.len() > 0 {
            seq![DriverEvent::TextDelta(t)]
        } else {
            Seq::empty()
        },
        None => Seq::empty(),
    };
    let finish = match c.finish_reason {
        Some(r) => seq![DriverEvent::Finish(r)],
        None => Seq::empty(),
    };
    text + finish
}

/// The events of the choices, in order.
pub open spec fn choices_events(cs: Seq<Choice<Seq<char>>>) -> Seq<DriverEvent<Seq<char>>>
    decreases cs.len(),
{
    if cs.len() == 0 {
        Seq::empty()
    } else {
        choices_events(cs.drop_last()) + choice_events(cs.last())
    }
}

/// The channels that the choices show besides content.
pub open spec fn choices_channels(cs: Seq<Choice<Seq<char>>>) -> Seq<Seq<char>>
    decreases cs.len(),
{
    if cs.len() == 0 {
        Seq::empty()
    } else if cs.last().delta.tool_calls {
        choices_channels(cs.drop_last()).push("tool_calls"@)
    } else {
        choices_channels(cs.drop_last())
    }
}

/// The events of a whole chunk: those of its choices, then its usage.
pub open spec fn chunk_events(c: Chunk<Seq<char>, Seq<Choice<Seq<char>>>>) -> Seq<
    DriverEvent<Seq<char>>,
> {
    match c.usage {
        Some(u) => choices_events(c.choices).push(
            DriverEvent::Usage {
                prompt_tokens: u.prompt_tokens,
                completion_tokens: u.completion_tokens,
                total_tokens: u.total_tokens,
            },
        ),
        None => choices_events(c.choices),
    }
}

/// What a decoded text normalizes to.
pub open spec fn normal_form(
    d: Result<Chunk<Seq<char>, Seq<Choice<Seq<char>>>>, Seq<char>>,
) -> Result<Normalized<Seq<DriverEvent<Seq<char>>>, Seq<Seq<char>>>, Seq<char>> {
    match d {
        Err(e) => Err("unparseable chunk: "@ + e),
        Ok(c) => match c.error {
            Some(err) => Err("server error in stream: "@ + err),
            None => Ok(
                Normalized {
                    events: chunk_events(c),
                    unhandled_channels: choices_channels(c.choices),
                    multiple_choices: if c.choices.len() > 1 {
                        Some(c.choices.len() as usize)
                    } else {
                        None
                    },
                },
            ),
        },
    }
}

/// `n` is what `data` normalizes to, with this decoder. The end sentinel never
/// reaches the decoder; every other text does, as it stands.
pub open spec fn normalizes<F: Fn(&str) -> Result<Chunk, String>>(
    decode: F,
    data: Seq<char>,
    n: Result<Normalized<Seq<DriverEvent<Seq<char>>>, Seq<Seq<char>>>, Seq<char>>,
) -> bool {
    if is_done_sentinel(data) {
        n == Ok::<_, Seq<char>>(done_form())
    } else {
        exists|d: Result<Chunk, String>| #[trigger]
            decodes_to(decode, data, d) && n == normal_form(decoded_view(d))
    }
}

/// Normalize a decoded chunk.
pub fn normalize_chunk(decoded: Result<Chunk, String>) -> (r: Result<Normalized, String>)
    ensures
        normalized_view(r) == normal_form(decoded_view(decoded)),
{
    let chunk = match decoded {
        Ok(c) => c,
        Err(e) => {
            return Err(text::concat("unparseable chunk: ", e.as_str()));
        },
    };
    if let Some(err) = &chunk.error {
        return Err(text::concat("server error in stream: ", err.as_str()));
    }
    let n: usize = chunk.choices.len();
    let multiple_choices: Option<usize> = if n > 1 {
        Some(n)
    } else {
        None
    };
    let mut events: Vec<DriverEvent> = Vec::new();
    let mut unhandled: Vec<String> = Vec::new();
    let ghost choices = chunk@.choices;
    assert(driver::events_view(events@) =~= choices_events(choices.take(0)));
    assert(machine::texts(unhandled@) =~= choices_channels(choices.take(0)));
    let mut i: usize = 0;
    while i < n
        invariant
            n == chunk.choices@.len(),
            i <= n,
            choices == chunk@.choices,
            driver::events_view(events@) == choices_events(choices.take(i as int)),
            machine::texts(unhandled@) == choices_channels(choices.take(i as int)),
        decreases n - i,
    {
        let c = &chunk.choices[i];
        let ghost upto = choices.take(i + 1);
        assert(upto.drop_last() =~= choices.take(i as int));
        assert(upto.last() == c@);
        let ghost channels_before = machine::texts(unhandled@);
        if c.delta.tool_calls {
            unhandled.push("tool_calls".to_owned());
            assert(machine::texts(unhandled@) =~= channels_before.push("tool_calls"@));
        }
        let ghost events_before = driver::events_view(events@);
        if let Some(t) = &c.delta.content {
            if !t.as_str().is_empty() {
                events.push(DriverEvent::TextDelta(t.clone()));
            }
        }
        if let Some(r) = &c.finish_reason {
            events.push(DriverEvent::Finish(r.clone()));
        }
        assert(driver::events_view(events@) =~= events_before + choice_events(c@));
        i += 1;
    }
    assert(choices.take(n as int) =~= choices);
    if let Some(u) = chunk.usage {
        let ghost events_before = driver::events_view(events@);
        let ev = DriverEvent::Usage {
            prompt_tokens: u.prompt_tokens,
            completion_tokens: u.completion_tokens,
            total_tokens: u.total_tokens,
        };
        let ghost ev_view = ev@;
        events.push(ev);
        assert(driver::events_view(events@) =~= events_before.push(ev_view));
    }
    Ok(Normalized { events, unhandled_channels: unhandled, multiple_choices })
}

/// Normalize one data installment.
pub fn normalize<F: Fn(&str) -> Result<Chunk, String>>(data: &str, decode: &F) -> (r: Result<
    Normalized,
    String,
>)
    requires
        decodes_any(*decode),
    ensures
        normalizes(*decode, data@, normalized_view(r)),
{
    let chars = text::chars_of(data);
    let sentinel = text::chars_of("[DONE]");
    if text::same_chars(text::trim(chars.as_slice()), sentinel.as_slice()) {
        let mut events: Vec<DriverEvent> = Vec::new();
        events.push(DriverEvent::Done);
        let n = Normalized { events, unhandled_channels: Vec::new(), multiple_choices: None };
        assert(n@.events =~= done_form().events);
        assert(n@.unhandled_channels =~= done_form().unhandled_channels);
        return Ok(n);
    }
    let decoded = decode(data);
    assert(decodes_to(*decode, data@, decoded));
    normalize_chunk(decoded)
}

// ---- per-stream state -----------------------------------------------------

/// Per-stream refinement state, owned by exactly one stream.
#[derive(Debug)]
pub struct StreamState {
    pub stream_id: StreamId,
    pub attempt: u32,
    pub(crate) machine: StreamMachine,
    pub installments: u64,
    pub events: u64,
    pub norm_errors: u64,
    pub reads: u64,
    pub content_bytes: u64,
    pub saw_any_content: bool,
}

/// What a stream's state holds.
#[verifier::ext_equal]
pub struct StreamFacts {
    pub stream_id: StreamId,
    pub attempt: u32,
    pub machine: Gathered,
    pub installments: u64,
    pub events: u64,
    pub norm_errors: u64,
    pub reads: u64,
    pub content_bytes: u64,
    pub saw_any_content: bool,
}

impl View for StreamState {
    type V = StreamFacts;

    closed spec fn view(&self) -> StreamFacts {
        StreamFacts {
            stream_id: self.stream_id,
            attempt: self.attempt,
            machine: self.machine@,
            installments: self.installments,
            events: self.events,
            norm_errors: self.norm_errors,
            reads: self.reads,
            content_bytes: self.content_bytes,
            saw_any_content: self.saw_any_content,
        }
    }
}

impl StreamFacts {
    /// A stream before its first attempt.
    pub open spec fn fresh(stream_id: StreamId) -> StreamFacts {
        StreamFacts {
            stream_id,
            attempt: 0,
            machine: Gathered::nothing(),
            installments: 0,
            events: 0,
            norm_errors: 0,
            reads: 0,
            content_bytes: 0,
            saw_any_content: false,
        }
    }

    /// A stream at the start of its next attempt, which has seen no content.
    pub open spec fn next_attempt(self) -> StreamFacts {
        StreamFacts {
            attempt: self.attempt.wrapping_add(1),
            machine: Gathered::nothing(),
            saw_any_content: false,
            ..self
        }
    }

    /// A stream after one more read.
    pub open spec fn one_read(self) -> StreamFacts {
        StreamFacts { reads: self.reads.wrapping_add(1), ..self }
    }

    /// A stream after the events of one installment.
    pub open spec fn took(self, evs: Seq<DriverEvent<Seq<char>>>) -> StreamFacts {
        StreamFacts {
            machine: self.machine.after_all(evs),
            installments: self.installments.wrapping_add(1),
            events: self.events.wrapping_add(evs.len() as u64),
            content_bytes: bytes_after(self.content_bytes, evs),
            saw_any_content: self.saw_any_content || has_text(evs),
            ..self
        }
    }
}

/// A byte count after the text of `evs`, in UTF-8, has been added.
pub open spec fn bytes_after(count: u64, evs: Seq<DriverEvent<Seq<char>>>) -> u64
    decreases evs.len(),
{
    if evs.len() == 0 {
        count
    } else {
        let before = bytes_after(count, evs.drop_last());
        match evs.last() {
            DriverEvent::TextDelta(t) => before.wrapping_add(encode_utf8(t).len() as usize as u64),
            _ => before,
        }
    }
}

/// Whether any event is text.
pub open spec fn has_text(evs: Seq<DriverEvent<Seq<char>>>) -> bool {
    exists|k: int| 0 <= k < evs.len() && #[trigger] evs[k] is TextDelta
}

/// Whether any event is the end sentinel.
pub open spec fn has_done(evs: Seq<DriverEvent<Seq<char>>>) -> bool {
    exists|k: int| 0 <= k < evs.len() && #[trigger] evs[k] is Done
}

impl StreamState {
    fn new(stream_id: StreamId) -> (r: Self)
        ensures
            r@ == StreamFacts::fresh(stream_id),
    {
        StreamState {
            stream_id,
            attempt: 0,
            machine: StreamMachine::new(),
            installments: 0,
            events: 0,
            norm_errors: 0,
            reads: 0,
            content_bytes: 0,
            saw_any_content: false,
        }
    }

    /// Start the next attempt: its number, with a machine that has seen
    /// nothing, and no content seen. The counters run on.
    pub fn begin_attempt(&mut self) -> (r: u32)
        ensures
            final(self)@ == old(self)@.next_attempt(),
            r == final(self)@.attempt,
    {
        self.attempt = self.attempt.wrapping_add(1);
        self.machine = StreamMachine::new();
        self.saw_any_content = false;
        self.attempt
    }

    /// Count one read.
    pub fn count_read(&mut self)
        ensures
            final(self)@ == old(self)@.one_read(),
    {
        self.reads = self.reads.wrapping_add(1);
    }

    /// The stream's identifier and the number of the current attempt.
    pub fn label(&self) -> (r: (StreamId, u32))
        ensures
            r.0 == self@.stream_id,
            r.1 == self@.attempt,
    {
        (self.stream_id, self.attempt)
    }

    /// The stream's counters: reads, installments, events and normalization
    /// errors.
    pub fn tally(&self) -> (r: (u64, u64, u64, u64))
        ensures
            r.0 == self@.reads,
            r.1 == self@.installments,
            r.2 == self@.events,
            r.3 == self@.norm_errors,
    {
        (self.reads, self.installments, self.events, self.norm_errors)
    }

    /// How many bytes of text have arrived.
    pub fn content_so_far(&self) -> (r: u64)
        ensures
            r == self@.content_bytes,
    {
        self.content_bytes
    }

    /// Whether the end sentinel has arrived in this attempt.
    pub fn saw_sentinel(&self) -> (r: bool)
        ensures
            r == self@.machine.saw_done,
    {
        self.machine.saw_done()
    }

    /// Whether any text has arrived in this attempt.
    pub fn has_content(&self) -> (r: bool)
        ensures
            r == self@.saw_any_content,
    {
        self.saw_any_content
    }

    /// Take the events of one installment; tell whether the end sentinel was
    /// among them.
    fn take_events(&mut self, evs: &Vec<DriverEvent>) -> (r: bool)
        ensures
            final(self)@ == old(self)@.took(driver::events_view(evs@)),
            r == has_done(driver::events_view(evs@)),
    {
        let ghost all = driver::events_view(evs@);
        let ghost start = self@;
        self.installments = self.installments.wrapping_add(1);
        self.events = self.events.wrapping_add(evs.len() as u64);
        let mut saw_done: bool = false;
        let mut i: usize = 0;
        assert(all.take(0) =~= Seq::empty());
        while i < evs.len()
            invariant
                i <= evs@.len(),
                all == driver::events_view(evs@),
                self.stream_id == start.stream_id,
                self.attempt == start.attempt,
                self.machine@ == start.machine.after_all(all.take(i as int)),
                self.installments == start.installments.wrapping_add(1),
                self.events == start.events.wrapping_add(evs@.len() as u64),
                self.norm_errors == start.norm_errors,
                self.reads == start.reads,
                self.content_bytes == bytes_after(start.content_bytes, all.take(i as int)),
                self.saw_any_content == (start.saw_any_content || has_text(all.take(i as int))),
                saw_done == has_done(all.take(i as int)),
            decreases evs@.len() - i,
        {
            let ev = &evs[i];
            let ghost upto = all.take(i + 1);
            proof {
                assert(upto.drop_last() =~= all.take(i as int));
                assert(upto.last() == ev@);
                lemma_has_step(all, i as int);
            }
            self.machine.feed(ev);
            if let DriverEvent::TextDelta(t) = ev {
                self.content_bytes = self.content_bytes.wrapping_add(t.as_str().len() as u64);
                self.saw_any_content = true;
            }
            if let DriverEvent::Done = ev {
                saw_done = true;
            }
            i += 1;
        }
        assert(all.take(i as int) =~= all);
        assert(self@ =~= start.took(all));
        saw_done
    }
}

proof fn lemma_has_step(all: Seq<DriverEvent<Seq<char>>>, i: int)
    requires
        0 <= i < all.len(),
    ensures
        has_text(all.take(i + 1)) == (has_text(all.take(i)) || all[i] is TextDelta),
        has_done(all.take(i + 1)) == (has_done(all.take(i)) || all[i] is Done),
{
    let a = all.take(i);
    let b = all.take(i + 1);
    assert(b[i] == all[i]);
    assert forall|k: int| 0 <= k < i implies a[k] == b[k] by {}
    if has_text(a) {
        let k = choose|k: int| 0 <= k < a.len() && #[trigger] a[k] is TextDelta;
        assert(b[k] is TextDelta);
    }
    if has_done(a) {
        let k = choose|k: int| 0 <= k < a.len() && #[trigger] a[k] is Done;
        assert(b[k] is Done);
    }
    if has_text(b) {
        let k = choose|k: int| 0 <= k < b.len() && #[trigger] b[k] is TextDelta;
        if k < i {
            assert(a[k] is TextDelta);
        }
    }
    if has_done(b) {
        let k = choose|k: int| 0 <= k < b.len() && #[trigger] b[k] is Done;
        if k < i {
            assert(a[k] is Done);
        }
    }
}

// ---- refinement of one installment ----------------------------------------

/// What refining one installment does: the state after it, the records that it
/// adds, and what the driver is told.
#[verifier::ext_equal]
pub struct Refinement {
    pub st: StreamFacts,
    pub records: Seq<EmissionRecord<Seq<char>>>,
    pub result: Result<FlowDirective, DriverFault<Seq<char>>>,
}

/// A directive as the specification sees it.
pub open spec fn directive_view(r: Result<FlowDirective, DriverFault>) -> Result<
    FlowDirective,
    DriverFault<Seq<char>>,
> {
    match r {
        Ok(d) => Ok(d),
        Err(f) => Err(f@),
    }
}

/// The note that the choices of a chunk are too many.
pub open spec fn multiple_choices_text(n: usize) -> Seq<char> {
    "multiple choices (n="@ + text::decimal(n as nat) + ") not supported"@
}

/// The wire notes for unhandled channels, one each.
pub open spec fn channel_notes(st: StreamFacts, channels: Seq<Seq<char>>) -> Seq<
    EmissionRecord<Seq<char>>,
> {
    channels.map_values(
        |c: Seq<char>|
            EmissionRecord::<Seq<char>>::Wire {
                stream: st.stream_id,
                attempt: st.attempt,
                note: WireNote::UnhandledChannel { channel: c },
            },
    )
}

/// The records of events, one each.
pub open spec fn event_records(
    st: StreamFacts,
    installment_seq: u64,
    evs: Seq<DriverEvent<Seq<char>>>,
) -> Seq<EmissionRecord<Seq<char>>> {
    evs.map_values(
        |e: DriverEvent<Seq<char>>|
            EmissionRecord::<Seq<char>>::NormalizedEvent {
                stream: st.stream_id,
                attempt: st.attempt,
                installment_seq,
                event: e,
            },
    )
}

/// The record of an installment that could not be normalized.
pub open spec fn error_record(
    st: StreamFacts,
    installment_seq: u64,
    detail: Seq<char>,
) -> EmissionRecord<Seq<char>> {
    EmissionRecord::NormalizationError {
        stream: st.stream_id,
        attempt: st.attempt,
        installment_seq,
        detail,
    }
}

/// Refining one data installment, given what it normalizes to.
pub open spec fn refined(
    st: StreamFacts,
    installment_seq: u64,
    norm: Result<Normalized<Seq<DriverEvent<Seq<char>>>, Seq<Seq<char>>>, Seq<char>>,
) -> Refinement {
    match norm {
        Err(detail) => Refinement {
            st: StreamFacts { norm_errors: st.norm_errors.wrapping_add(1), ..st },
            records: seq![error_record(st, installment_seq, detail)],
            result: Err(DriverFault::Protocol(detail)),
        },
        Ok(n) => match n.multiple_choices {
            Some(k) => Refinement {
                st,
                records: seq![error_record(st, installment_seq, multiple_choices_text(k))],
                result: Err(DriverFault::Protocol(multiple_choices_text(k))),
            },
            None => Refinement {
                st: st.took(n.events),
                records: channel_notes(st, n.unhandled_channels) + event_records(
                    st,
                    installment_seq,
                    n.events,
                ),
                result: Ok(
                    if has_done(n.events) {
                        FlowDirective::StopComplete
                    } else {
                        FlowDirective::Continue
                    },
                ),
            },
        },
    }
}

/// `r` is what refining an installment may come to, with this decoder. A
/// comment changes nothing.
pub open spec fn refines<F: Fn(&str) -> Result<Chunk, String>>(
    decode: F,
    st: StreamFacts,
    installment_seq: u64,
    kind: InstallmentKind,
    payload: Seq<char>,
    r: Refinement,
) -> bool {
    if kind == InstallmentKind::Comment {
        r == Refinement { st, records: Seq::empty(), result: Ok(FlowDirective::Continue) }
    } else {
        exists|n| #[trigger]
            normalizes(decode, payload, n) && r == refined(st, installment_seq, n)
    }
}

// ---- the component --------------------------------------------------------

/// How one attempt resolved.
#[derive(Debug)]
pub enum TurnResolution<S = String> {
    Committed(ChatOutcome<S>),
    Fault(DriverFault<S>),
}

impl View for TurnResolution {
    type V = TurnResolution<Seq<char>>;

    open spec fn view(&self) -> TurnResolution<Seq<char>> {
        match *self {
            TurnResolution::Committed(o) => TurnResolution::Committed(o@),
            TurnResolution::Fault(f) => TurnResolution::Fault(f@),
        }
    }
}

/// The resolution that a verdict of the machine stands for.
pub open spec fn resolution(
    v: Result<ChatOutcome<Seq<char>>, DriverFault<Seq<char>>>,
) -> TurnResolution<Seq<char>> {
    match v {
        Ok(o) => TurnResolution::Committed(o),
        Err(f) => TurnResolution::Fault(f),
    }
}

/// The records of what a machine found odd, one each.
pub open spec fn anomaly_records(st: StreamFacts) -> Seq<EmissionRecord<Seq<char>>> {
    st.machine.anomalies.map_values(
        |note: Seq<char>|
            EmissionRecord::<Seq<char>>::Anomaly {
                stream: st.stream_id,
                attempt: st.attempt,
                note,
            },
    )
}

/// One ledger entry as a record.
pub open spec fn ledger_record(stream: StreamId, attempt: u32, entry: LedgerEntry) -> EmissionRecord<
    Seq<char>,
> {
    EmissionRecord::Ledger { stream, attempt, entry }
}

/// The pool of send buckets after one is spent, if there is one.
pub open spec fn after_spend(available: u32) -> Option<u32> {
    if available > 0 {
        Some((available - 1) as u32)
    } else {
        None
    }
}

/// The pool of send buckets after one is returned. It wraps at its width.
pub open spec fn after_return(available: u32) -> u32 {
    available.wrapping_add(1)
}

/// The pool of send buckets after one is spent, if there is one.
pub fn spend_bucket(available: u32) -> (r: Option<u32>)
    ensures
        r == after_spend(available),
{
    available.checked_sub(1)
}

/// `AtomicU32::fetch_update` with [`spend_bucket`]. It hands back the value
/// that stood in the pool: under `Ok` a value from which a bucket could be
/// spent, under `Err` one from which none could. Which value stands there
/// depends on the other streams.
#[verifier::external_body]
fn take_bucket(pool: &AtomicU32) -> (r: Result<u32, u32>)
    ensures
        match r {
            Ok(v) => v > 0,
            Err(v) => v == 0,
        },
{
    pool.fetch_update(Ordering::SeqCst, Ordering::SeqCst, |v: u32| spend_bucket(v))
}

/// The ledger entry for an attempt to spend a bucket, given the pool's value
/// before it: under `Ok` one was spent, under `Err` there was none.
pub open spec fn admission_of(taken: Result<u32, u32>) -> LedgerEntry {
    match taken {
        Ok(v) => LedgerEntry::SendBucketSpent { available_after: after_spend(v)->0 },
        Err(_) => LedgerEntry::SendBucketDenied,
    }
}

/// The ledger entry for a bucket's return, given the pool's value before it.
pub open spec fn return_of(before: u32) -> LedgerEntry {
    LedgerEntry::SendBucketReturned { available_after: after_return(before) }
}

/// The ledger entry for an attempt to spend a bucket, given the pool's value
/// before it.
pub fn admission_entry(taken: Result<u32, u32>) -> (r: LedgerEntry)
    requires
        taken matches Ok(v) ==> v > 0,
    ensures
        r == admission_of(taken),
{
    match taken {
        Ok(v) => LedgerEntry::SendBucketSpent { available_after: v - 1 },
        Err(_) => LedgerEntry::SendBucketDenied,
    }
}

/// The ledger entry for a bucket's return, given the pool's value before it.
pub fn return_entry(before: u32) -> (r: LedgerEntry)
    ensures
        r == return_of(before),
{
    LedgerEntry::SendBucketReturned { available_after: before.wrapping_add(1) }
}

/// What the strategy answers to a fault with this much allowance left.
pub open spec fn fault_directive(remaining: u32, failover: bool) -> FaultDirective {
    if remaining > 0 {
        FaultDirective::RetrySameEndpoint
    } else if failover {
        FaultDirective::Failover
    } else {
        FaultDirective::GiveUp
    }
}

/// The event handler: strategy counters, shared by every stream. Per-stream
/// state is handed out by [`EventHandler::begin_stream`].
#[derive(Debug)]
pub struct EventHandler {
    send_buckets: AtomicU32,
    retry_allowance_per_turn: u32,
    knows_failover_exists: bool,
}

impl EventHandler {
    /// How many retries a turn may make on one endpoint.
    pub closed spec fn allowance(&self) -> u32 {
        self.retry_allowance_per_turn
    }

    /// Whether the strategy knows of an alternative endpoint.
    pub closed spec fn failover_known(&self) -> bool {
        self.knows_failover_exists
    }

    /// The pool was made with `n` buckets.
    pub closed spec fn pool_made_with(&self, n: u32) -> bool {
        call_ensures(AtomicU32::new, (n,), self.send_buckets)
    }

    /// `taken` is what drawing one bucket from the pool gave: the pool's value
    /// before it, under `Ok` if a bucket could be spent and was.
    pub closed spec fn drew(&self, taken: Result<u32, u32>) -> bool {
        call_ensures(take_bucket, (&self.send_buckets,), taken)
    }

    /// One bucket was put back into the pool, whose value before it was
    /// `before`.
    pub closed spec fn took_back(&self, before: u32) -> bool {
        call_ensures(AtomicU32::fetch_add, (&self.send_buckets, 1u32, Ordering::SeqCst), before)
    }

    /// A handler with a pool of `send_buckets` buckets. What number an atomic
    /// holds is not stated, only which calls were made on it.
    pub fn new(
        send_buckets: u32,
        retry_allowance_per_turn: u32,
        knows_failover_exists: bool,
    ) -> (r: Self)
        ensures
            r.pool_made_with(send_buckets),
            r.allowance() == retry_allowance_per_turn,
            r.failover_known() == knows_failover_exists,
    {
        EventHandler {
            send_buckets: AtomicU32::new(send_buckets),
            retry_allowance_per_turn,
            knows_failover_exists,
        }
    }

    /// Whether the strategy knows of an alternative endpoint.
    pub fn knows_failover_exists(&self) -> (r: bool)
        ensures
            r == self.failover_known(),
    {
        self.knows_failover_exists
    }

    /// How many retries a turn may make on one endpoint.
    pub fn retry_allowance_per_turn(&self) -> (r: u32)
        ensures
            r == self.allowance(),
    {
        self.retry_allowance_per_turn
    }

    /// Create per-stream state, and record the retry allowance granted to it.
    pub fn begin_stream(&self, stream_id: StreamId, out: &mut Outbox) -> (r: StreamState)
        ensures
            r@ == StreamFacts::fresh(stream_id),
            final(out)@ == old(out)@.push(
                ledger_record(
                    stream_id,
                    0,
                    LedgerEntry::RetryAllowanceGranted { total: self.allowance() },
                ),
            ),
    {
        out.emit(
            EmissionRecord::Ledger {
                stream: stream_id,
                attempt: 0,
                entry: LedgerEntry::RetryAllowanceGranted { total: self.retry_allowance_per_turn },
            },
        );
        StreamState::new(stream_id)
    }

    /// Spend one send bucket before dialing. Without one, fail at once, on
    /// record; never wait.
    pub fn acquire_send_bucket(&self, stream: StreamId, attempt: u32, out: &mut Outbox) -> (r: bool)
        ensures
            exists|taken: Result<u32, u32>| #[trigger]
                self.drew(taken) && r == (taken is Ok) && final(out)@ == old(out)@.push(
                    ledger_record(stream, attempt, admission_of(taken)),
                ),
    {
        let taken = take_bucket(&self.send_buckets);
        assert(self.drew(taken));
        out.emit(EmissionRecord::Ledger { stream, attempt, entry: admission_entry(taken) });
        taken.is_ok()
    }

    /// Return a send bucket to the pool. The pool wraps at its width.
    pub fn return_send_bucket(&self, stream: StreamId, attempt: u32, out: &mut Outbox)
        ensures
            exists|before: u32| #[trigger]
                self.took_back(before) && final(out)@ == old(out)@.push(
                    ledger_record(stream, attempt, return_of(before)),
                ),
    {
        let before: u32 = self.send_buckets.fetch_add(1, Ordering::SeqCst);
        assert(self.took_back(before));
        out.emit(EmissionRecord::Ledger { stream, attempt, entry: return_entry(before) });
    }

    /// Answer a wire fault: draw on the remaining allowance; without any,
    /// fail over if an alternative is known, else give up.
    pub fn on_wire_fault(
        &self,
        stream: StreamId,
        attempt: u32,
        remaining_allowance: &mut u32,
        out: &mut Outbox,
    ) -> (r: FaultDirective)
        ensures
            r == fault_directive(*old(remaining_allowance), self.failover_known()),
            *old(remaining_allowance) > 0 ==> *final(remaining_allowance) == *old(
                remaining_allowance,
            ) - 1 && final(out)@ == old(out)@.push(
                ledger_record(
                    stream,
                    attempt,
                    LedgerEntry::RetryAllowanceSpent { remaining: *final(remaining_allowance) },
                ),
            ),
            *old(remaining_allowance) == 0 ==> *final(remaining_allowance) == 0 && final(out)@
                == old(out)@,
    {
        if *remaining_allowance > 0 {
            *remaining_allowance = *remaining_allowance - 1;
            out.emit(
                EmissionRecord::Ledger {
                    stream,
                    attempt,
                    entry: LedgerEntry::RetryAllowanceSpent { remaining: *remaining_allowance },
                },
            );
            return FaultDirective::RetrySameEndpoint;
        }
        if self.knows_failover_exists {
            FaultDirective::Failover
        } else {
            FaultDirective::GiveUp
        }
    }

    /// Refine a normalized data installment: feed the machine, add the
    /// records, and say how the flow goes on.
    pub fn apply(
        &self,
        st: &mut StreamState,
        installment_seq: u64,
        norm: Result<Normalized, String>,
        out: &mut Outbox,
    ) -> (r: Result<FlowDirective, DriverFault>)
        ensures
            ({
                let after = refined(old(st)@, installment_seq, normalized_view(norm));
                &&& final(st)@ == after.st
                &&& final(out)@ == old(out)@ + after.records
                &&& directive_view(r) == after.result
            }),
    {
        let stream = st.stream_id;
        let attempt = st.attempt;
        let ghost facts = st@;
        let ghost sent = out@;
        let norm = match norm {
            Ok(n) => n,
            Err(detail) => {
                st.norm_errors = st.norm_errors.wrapping_add(1);
                out.emit(
                    EmissionRecord::NormalizationError {
                        stream,
                        attempt,
                        installment_seq,
                        detail: detail.clone(),
                    },
                );
                assert(out@ =~= sent + seq![error_record(facts, installment_seq, detail@)]);
                return Err(DriverFault::Protocol(detail));
            },
        };
        if let Some(n) = norm.multiple_choices {
            let detail = text::number_between(
                "multiple choices (n=",
                n as u64,
                ") not supported",
            );
            out.emit(
                EmissionRecord::NormalizationError {
                    stream,
                    attempt,
                    installment_seq,
                    detail: detail.clone(),
                },
            );
            assert(out@ =~= sent + seq![error_record(facts, installment_seq, detail@)]);
            return Err(DriverFault::Protocol(detail));
        }
        let ghost notes = channel_notes(facts, norm@.unhandled_channels);
        let mut i: usize = 0;
        assert(sent + notes.take(0) =~= sent);
        while i < norm.unhandled_channels.len()
            invariant
                i <= norm.unhandled_channels@.len(),
                stream == facts.stream_id,
                attempt == facts.attempt,
                notes == channel_notes(facts, norm@.unhandled_channels),
                out@ == sent + notes.take(i as int),
            decreases norm.unhandled_channels@.len() - i,
        {
            out.emit(
                EmissionRecord::Wire {
                    stream,
                    attempt,
                    note: WireNote::UnhandledChannel {
                        channel: norm.unhandled_channels[i].clone(),
                    },
                },
            );
            assert(out@ =~= sent + notes.take(i + 1));
            i += 1;
        }
        assert(notes.take(i as int) =~= notes);
        let saw_done = st.take_events(&norm.events);
        let ghost recs = event_records(facts, installment_seq, norm@.events);
        let mut j: usize = 0;
        assert(sent + notes + recs.take(0) =~= sent + notes);
        while j < norm.events.len()
            invariant
                j <= norm.events@.len(),
                stream == facts.stream_id,
                attempt == facts.attempt,
                recs == event_records(facts, installment_seq, norm@.events),
                out@ == sent + notes + recs.take(j as int),
            decreases norm.events@.len() - j,
        {
            out.emit(
                EmissionRecord::NormalizedEvent {
                    stream,
                    attempt,
                    installment_seq,
                    event: norm.events[j].clone(),
                },
            );
            assert(out@ =~= sent + notes + recs.take(j + 1));
            j += 1;
        }
        assert(recs.take(j as int) =~= recs);
        assert(out@ =~= sent + (notes + recs));
        if saw_done {
            return Ok(FlowDirective::StopComplete);
        }
        Ok(FlowDirective::Continue)
    }

    /// Refine one complete installment.
    pub fn on_installment<F: Fn(&str) -> Result<Chunk, String>>(
        &self,
        st: &mut StreamState,
        installment_seq: u64,
        kind: InstallmentKind,
        payload: &str,
        _status: InstallmentStatus,
        decode: &F,
        out: &mut Outbox,
    ) -> (r: Result<FlowDirective, DriverFault>)
        requires
            decodes_any(*decode),
        ensures
            exists|after: Refinement| #[trigger]
                refines(*decode, old(st)@, installment_seq, kind, payload@, after) && final(st)@
                    == after.st && final(out)@ == old(out)@ + after.records && directive_view(r)
                    == after.result,
    {
        let ghost facts = st@;
        let ghost sent = out@;
        if kind == InstallmentKind::Comment {
            proof {
                let after = Refinement {
                    st: facts,
                    records: Seq::empty(),
                    result: Ok(FlowDirective::Continue),
                };
                assert(sent + after.records =~= sent);
                assert(refines(*decode, facts, installment_seq, kind, payload@, after));
            }
            return Ok(FlowDirective::Continue);
        }
        let norm = normalize(payload, decode);
        proof {
            let n = normalized_view(norm);
            assert(normalizes(*decode, payload@, n));
            assert(refines(
                *decode,
                facts,
                installment_seq,
                kind,
                payload@,
                refined(facts, installment_seq, n),
            ));
        }
        self.apply(st, installment_seq, norm, out)
    }

    /// Record what the machine found odd, and resolve this attempt. The
    /// stream is left with a machine that has seen nothing.
    pub fn finalize_attempt(&self, st: &mut StreamState, cause: EndCause, out: &mut Outbox) -> (r:
        TurnResolution)
        ensures
            final(st)@ == (StreamFacts { machine: Gathered::nothing(), ..old(st)@ }),
            final(out)@ == old(out)@ + anomaly_records(old(st)@),
            r@ == resolution(old(st)@.machine.verdict(cause)),
    {
        let stream = st.stream_id;
        let attempt = st.attempt;
        let ghost facts = st@;
        let ghost sent = out@;
        let mut machine = StreamMachine::new();
        std::mem::swap(&mut st.machine, &mut machine);
        let notes = machine.anomaly_notes();
        let ghost recs = anomaly_records(facts);
        let mut i: usize = 0;
        assert(sent + recs.take(0) =~= sent);
        while i < notes.len()
            invariant
                i <= notes@.len(),
                stream == facts.stream_id,
                attempt == facts.attempt,
                machine::texts(notes@) == facts.machine.anomalies,
                recs == anomaly_records(facts),
                out@ == sent + recs.take(i as int),
            decreases notes@.len() - i,
        {
            assert(machine::texts(notes@)[i as int] == notes@[i as int]@);
            out.emit(EmissionRecord::Anomaly { stream, attempt, note: notes[i].clone() });
            assert(out@ =~= sent + recs.take(i + 1));
            i += 1;
        }
        assert(machine::texts(notes@).len() == notes@.len());
        assert(recs.take(i as int) =~= recs);
        match machine.finalize(cause) {
            Ok(outcome) => TurnResolution::Committed(outcome),
            Err(fault) => TurnResolution::Fault(fault),
        }
    }
}

// ---- laws -----------------------------------------------------------------

/// A draw gives a bucket exactly if one was free.
pub proof fn lemma_draws_are_honest(h: EventHandler, taken: Result<u32, u32>)
    requires
        h.drew(taken),
    ensures
        taken matches Ok(v) ==> after_spend(v) is Some,
        taken matches Err(v) ==> after_spend(v) is None,
{
}

/// A bucket that is spent and returned leaves the pool as it was.
pub proof fn lemma_bucket_round_trip(available: u32)
    ensures
        after_spend(available) matches Some(left) ==> after_return(left) == available,
{
}

/// Tool calls are never lost: a chunk without a server error and with at most
/// one choice adds one wire note for every choice that shows them, before any
/// event record.
pub proof fn lemma_tool_calls_are_surfaced(
    st: StreamFacts,
    installment_seq: u64,
    c: Chunk<Seq<char>, Seq<Choice<Seq<char>>>>,
)
    requires
        c.error is None,
        c.choices.len() == 1,
        c.choices[0].delta.tool_calls,
    ensures
        ({
            let after = refined(st, installment_seq, normal_form(Ok(c)));
            &&& after.records.len() > 0
            &&& after.records[0] == (EmissionRecord::<Seq<char>>::Wire {
                stream: st.stream_id,
                attempt: st.attempt,
                note: WireNote::UnhandledChannel { channel: "tool_calls"@ },
            })
        }),
{
    let none = c.choices.drop_last();
    assert(none.len() == 0);
    assert(choices_channels(none) =~= Seq::empty());
    assert(choices_channels(c.choices) =~= seq!["tool_calls"@]);
}

/// More than one choice is rejected, not merged: the stream's state is
/// untouched, no event is recorded, and the error is on record.
pub proof fn lemma_multiple_choices_are_rejected(
    st: StreamFacts,
    installment_seq: u64,
    c: Chunk<Seq<char>, Seq<Choice<Seq<char>>>>,
)
    requires
        c.error is None,
        c.choices.len() > 1,
    ensures
        ({
            let after = refined(st, installment_seq, normal_form(Ok(c)));
            &&& after.st == st
            &&& after.records.len() == 1
            &&& after.records[0] is NormalizationError
            &&& after.result is Err
        }),
{
}

/// A failed installment is always on record, and never feeds the machine.
pub proof fn lemma_failures_are_recorded(
    st: StreamFacts,
    installment_seq: u64,
    norm: Result<Normalized<Seq<DriverEvent<Seq<char>>>, Seq<Seq<char>>>, Seq<char>>,
)
    ensures
        refined(st, installment_seq, norm).result is Err ==> {
            let after = refined(st, installment_seq, norm);
            &&& after.st.machine == st.machine
            &&& after.records.len() == 1
            &&& exists|detail: Seq<char>|
                after.records[0] == #[trigger] error_record(st, installment_seq, detail)
                    && after.result == Err::<FlowDirective, _>(DriverFault::Protocol(detail))
        },
{
    let after = refined(st, installment_seq, norm);
    if after.result is Err {
        match norm {
            Err(detail) => {
                assert(after.records[0] == error_record(st, installment_seq, detail));
            },
            Ok(n) => {
                assert(after.records[0] == error_record(
                    st,
                    installment_seq,
                    multiple_choices_text(n.multiple_choices->0),
                ));
            },
        }
    }
}

} // verus!
