//! The completion state machine: the one place where it is decided whether a
//! call completed.
//!
//! The transport feeds every event through the machine and asks for the
//! verdict at end of stream. An outcome is issued only if a finish reason was
//! observed; every other ending is a fault. The content of an outcome is the
//! concatenation of the text deltas, in order and unedited.

use crate::driver::{ChatOutcome, DriverEvent, DriverFault};
use crate::text;
use vstd::prelude::*;

verus! {

/// Why the transport stopped feeding events.
#[derive(Debug, Clone, Copy, PartialEq, Eq, Structural)]
pub enum EndCause {
    /// The byte stream ended: the peer closed it, or `[DONE]` was consumed.
    StreamEnded,
    /// The handler asked for the stream to be abandoned.
    HandlerAbort,
}

/// The pending verdict on one streaming call.
#[derive(Debug)]
pub struct StreamMachine {
    content: String,
    finish_reason: Option<String>,
    usage: Option<(u32, u32, u32)>,
    saw_done: bool,
    /// Non-fatal oddities observed, in order.
    pub anomalies: Vec<String>,
}

/// What a machine has gathered.
#[verifier::ext_equal]
pub struct Gathered {
    pub content: Seq<char>,
    pub finish_reason: Option<Seq<char>>,
    pub usage: Option<(u32, u32, u32)>,
    pub saw_done: bool,
    pub anomalies: Seq<Seq<char>>,
}

/// An optional string as the specification sees it.
pub open spec fn opt_text(s: Option<String>) -> Option<Seq<char>> {
    match s {
        Some(t) => Some(t@),
        None => None,
    }
}

/// A list of strings as the specification sees it.
pub open spec fn texts(v: Seq<String>) -> Seq<Seq<char>> {
    v.map_values(|s: String| s@)
}

impl View for StreamMachine {
    type V = Gathered;

    closed spec fn view(&self) -> Gathered {
        Gathered {
            content: self.content@,
            finish_reason: opt_text(self.finish_reason),
            usage: self.usage,
            saw_done: self.saw_done,
            anomalies: texts(self.anomalies@),
        }
    }
}

impl Gathered {
    /// Before any event.
    pub open spec fn nothing() -> Gathered {
        Gathered {
            content: Seq::empty(),
            finish_reason: None,
            usage: None,
            saw_done: false,
            anomalies: Seq::empty(),
        }
    }

    /// After one more event.
    pub open spec fn after(self, ev: DriverEvent<Seq<char>>) -> Gathered {
        match ev {
            DriverEvent::TextDelta(t) => Gathered {
                content: self.content + t,
                anomalies: if self.finish_reason is Some {
                    self.anomalies.push("text delta arrived after finish_reason"@)
                } else {
                    self.anomalies
                },
                ..self
            },
            DriverEvent::Finish(r) => match self.finish_reason {
                Some(prev) => Gathered {
                    anomalies: self.anomalies.push(
                        "second finish_reason '"@ + r + "' after '"@ + prev
                            + "' — keeping the first"@,
                    ),
                    ..self
                },
                None => Gathered { finish_reason: Some(r), ..self },
            },
            DriverEvent::Usage { prompt_tokens, completion_tokens, total_tokens } => Gathered {
                usage: Some((prompt_tokens, completion_tokens, total_tokens)),
                ..self
            },
            DriverEvent::Done => Gathered { saw_done: true, ..self },
        }
    }

    /// After a run of events, from the first to the last.
    pub open spec fn after_all(self, evs: Seq<DriverEvent<Seq<char>>>) -> Gathered
        decreases evs.len(),
    {
        if evs.len() == 0 {
            self
        } else {
            self.after_all(evs.drop_last()).after(evs.last())
        }
    }

    /// The verdict.
    pub open spec fn verdict(self, cause: EndCause) -> Result<
        ChatOutcome<Seq<char>>,
        DriverFault<Seq<char>>,
    > {
        let partial_chars = self.content.len() as usize;
        match cause {
            EndCause::HandlerAbort => Err(DriverFault::Aborted { partial_chars }),
            EndCause::StreamEnded => match self.finish_reason {
                Some(finish_reason) => Ok(
                    ChatOutcome { content: self.content, finish_reason, usage: self.usage },
                ),
                None => if self.content.len() == 0 {
                    Err(DriverFault::EmptyStream)
                } else {
                    Err(DriverFault::Truncated { partial_chars })
                },
            },
        }
    }
}

/// A result of the machine as the specification sees it.
pub open spec fn verdict_view(r: Result<ChatOutcome, DriverFault>) -> Result<
    ChatOutcome<Seq<char>>,
    DriverFault<Seq<char>>,
> {
    match r {
        Ok(o) => Ok(o@),
        Err(f) => Err(f@),
    }
}

impl StreamMachine {
    /// A machine that has seen nothing.
    pub fn new() -> (r: Self)
        ensures
            r@ == Gathered::nothing(),
    {
        let r = StreamMachine {
            content: String::new(),
            finish_reason: None,
            usage: None,
            saw_done: false,
            anomalies: Vec::new(),
        };
        assert(r@ =~= Gathered::nothing());
        r
    }

    /// How many characters of text have accumulated.
    pub fn partial_chars(&self) -> (r: usize)
        ensures
            r == self@.content.len(),
    {
        self.content.as_str().unicode_len()
    }

    /// Whether a finish reason has been observed.
    pub fn is_completable(&self) -> (r: bool)
        ensures
            r == (self@.finish_reason is Some),
    {
        self.finish_reason.is_some()
    }

    /// Whether the `[DONE]` sentinel has been observed.
    pub fn saw_done(&self) -> (r: bool)
        ensures
            r == self@.saw_done,
    {
        self.saw_done
    }

    /// The oddities observed, in order.
    pub fn anomaly_notes(&self) -> (r: &Vec<String>)
        ensures
            texts(r@) == self@.anomalies,
    {
        &self.anomalies
    }

    /// Fold one event into the pending verdict.
    pub fn feed(&mut self, ev: &DriverEvent)
        ensures
            final(self)@ == old(self)@.after(ev@),
    {
        match ev {
            DriverEvent::TextDelta(t) => {
                if self.finish_reason.is_some() {
                    self.anomalies.push("text delta arrived after finish_reason".to_owned());
                }
                self.content.append(t.as_str());
            },
            DriverEvent::Finish(r) => {
                if let Some(prev) = &self.finish_reason {
                    let mut note: String = "second finish_reason '".to_owned();
                    note.append(r.as_str());
                    note.append("' after '");
                    note.append(prev.as_str());
                    note.append("' — keeping the first");
                    self.anomalies.push(note);
                } else {
                    self.finish_reason = Some(r.clone());
                }
            },
            DriverEvent::Usage { prompt_tokens, completion_tokens, total_tokens } => {
                self.usage = Some((*prompt_tokens, *completion_tokens, *total_tokens));
            },
            DriverEvent::Done => {
                self.saw_done = true;
            },
        }
        assert(self@ =~= old(self)@.after(ev@));
    }

    /// The verdict. Consumes the machine, so that no event can follow it.
    pub fn finalize(self, cause: EndCause) -> (r: Result<ChatOutcome, DriverFault>)
        ensures
            verdict_view(r) == self@.verdict(cause),
    {
        let partial_chars: usize = self.content.as_str().unicode_len();
        match (cause, self.finish_reason) {
            (EndCause::HandlerAbort, _) => Err(DriverFault::Aborted { partial_chars }),
            (EndCause::StreamEnded, Some(finish_reason)) => Ok(
                ChatOutcome { content: self.content, finish_reason, usage: self.usage },
            ),
            (EndCause::StreamEnded, None) => {
                if partial_chars == 0 {
                    Err(DriverFault::EmptyStream)
                } else {
                    Err(DriverFault::Truncated { partial_chars })
                }
            },
        }
    }
}

impl Default for StreamMachine {
    fn default() -> (r: Self)
        ensures
            r@ == Gathered::nothing(),
    {
        StreamMachine::new()
    }
}

// ---- laws -----------------------------------------------------------------

/// The text of the deltas among `evs`, in order.
pub open spec fn delta_text(evs: Seq<DriverEvent<Seq<char>>>) -> Seq<char>
    decreases evs.len(),
{
    if evs.len() == 0 {
        Seq::empty()
    } else {
        match evs.last() {
            DriverEvent::TextDelta(t) => delta_text(evs.drop_last()) + t,
            _ => delta_text(evs.drop_last()),
        }
    }
}

/// The first finish reason among `evs`.
pub open spec fn first_finish(evs: Seq<DriverEvent<Seq<char>>>) -> Option<Seq<char>>
    decreases evs.len(),
{
    if evs.len() == 0 {
        None
    } else {
        match (first_finish(evs.drop_last()), evs.last()) {
            (Some(r), _) => Some(r),
            (None, DriverEvent::Finish(r)) => Some(r),
            (None, _) => None,
        }
    }
}

/// The last usage report among `evs`.
pub open spec fn last_usage(evs: Seq<DriverEvent<Seq<char>>>) -> Option<(u32, u32, u32)>
    decreases evs.len(),
{
    if evs.len() == 0 {
        None
    } else {
        match evs.last() {
            DriverEvent::Usage { prompt_tokens, completion_tokens, total_tokens } => Some(
                (prompt_tokens, completion_tokens, total_tokens),
            ),
            _ => last_usage(evs.drop_last()),
        }
    }
}

/// What is noted of the oddities among `evs`, in order: text after a finish
/// reason, and a finish reason after the first.
pub open spec fn oddity_notes(evs: Seq<DriverEvent<Seq<char>>>) -> Seq<Seq<char>>
    decreases evs.len(),
{
    if evs.len() == 0 {
        Seq::empty()
    } else {
        let before = oddity_notes(evs.drop_last());
        match (first_finish(evs.drop_last()), evs.last()) {
            (Some(_), DriverEvent::TextDelta(_)) => before.push(
                "text delta arrived after finish_reason"@,
            ),
            (Some(first), DriverEvent::Finish(r)) => before.push(
                "second finish_reason '"@ + r + "' after '"@ + first + "' — keeping the first"@,
            ),
            _ => before,
        }
    }
}

/// The machine never edits testimony. Whatever the events were: the content is
/// their text in order, the finish reason is the first one, the usage is the
/// last one, and every oddity is noted in words, in order, and nothing else is.
pub proof fn lemma_machine_keeps_testimony(evs: Seq<DriverEvent<Seq<char>>>)
    ensures
        Gathered::nothing().after_all(evs).content == delta_text(evs),
        Gathered::nothing().after_all(evs).finish_reason == first_finish(evs),
        Gathered::nothing().after_all(evs).usage == last_usage(evs),
        Gathered::nothing().after_all(evs).saw_done == evs.contains(DriverEvent::Done),
        Gathered::nothing().after_all(evs).anomalies == oddity_notes(evs),
    decreases evs.len(),
{
    if evs.len() > 0 {
        let before = evs.drop_last();
        lemma_machine_keeps_testimony(before);
        let done = DriverEvent::<Seq<char>>::Done;
        if evs.contains(done) {
            let k = choose|k: int| 0 <= k < evs.len() && evs[k] == done;
            if k < evs.len() - 1 {
                assert(before[k] == done);
            }
        }
        if before.contains(done) {
            let k = choose|k: int| 0 <= k < before.len() && before[k] == done;
            assert(evs[k] == done);
        }
        if evs.last() == done {
            assert(evs[evs.len() - 1] == done);
        }
    }
}

/// What a machine gathers on top of what it had: the text is added at the end,
/// a finish reason counts if there was none, and a usage report replaces the
/// one before.
pub proof fn lemma_feeding_adds_up(g: Gathered, evs: Seq<DriverEvent<Seq<char>>>)
    ensures
        g.after_all(evs).content == g.content + delta_text(evs),
        g.after_all(evs).finish_reason == (match g.finish_reason {
            Some(r) => Some(r),
            None => first_finish(evs),
        }),
        g.after_all(evs).usage == (match last_usage(evs) {
            Some(u) => Some(u),
            None => g.usage,
        }),
    decreases evs.len(),
{
    if evs.len() > 0 {
        lemma_feeding_adds_up(g, evs.drop_last());
        assert(g.after_all(evs).content =~= g.content + delta_text(evs));
    } else {
        assert(g.content + delta_text(evs) =~= g.content);
    }
}

/// An outcome exists exactly when a finish reason was received and the handler
/// did not abort. The outcome then holds the whole text of the deltas, the
/// first finish reason and the last usage report. Neither `[DONE]` nor end of
/// stream completes a call.
pub proof fn lemma_finish_reason_alone_completes(
    evs: Seq<DriverEvent<Seq<char>>>,
    cause: EndCause,
)
    ensures
        Gathered::nothing().after_all(evs).verdict(cause) is Ok <==> cause == EndCause::StreamEnded
            && exists|k: int| 0 <= k < evs.len() && #[trigger] evs[k] is Finish,
        Gathered::nothing().after_all(evs).verdict(cause) matches Ok(o) ==> o.content == delta_text(
            evs,
        ) && Some(o.finish_reason) == first_finish(evs) && o.usage == last_usage(evs),
{
    lemma_machine_keeps_testimony(evs);
    lemma_first_finish(evs);
}

/// A first finish reason exists exactly when some event is one.
pub proof fn lemma_first_finish(evs: Seq<DriverEvent<Seq<char>>>)
    ensures
        first_finish(evs) is Some <==> exists|k: int|
            0 <= k < evs.len() && #[trigger] evs[k] is Finish,
    decreases evs.len(),
{
    if evs.len() > 0 {
        let before = evs.drop_last();
        lemma_first_finish(before);
        if first_finish(before) is Some {
            let k = choose|k: int| 0 <= k < before.len() && #[trigger] before[k] is Finish;
            assert(evs[k] is Finish);
        }
        if evs.last() is Finish {
            assert(evs[evs.len() - 1] is Finish);
        }
        if exists|k: int| 0 <= k < evs.len() && #[trigger] evs[k] is Finish {
            let k = choose|k: int| 0 <= k < evs.len() && #[trigger] evs[k] is Finish;
            if k < evs.len() - 1 {
                assert(before[k] is Finish);
            }
        }
    }
}

/// The endings are distinct: an abort is never a truncation, and a stream that
/// produced nothing is never one either.
pub proof fn lemma_endings_are_distinct(g: Gathered)
    ensures
        g.verdict(EndCause::HandlerAbort) matches Err(f) && f is Aborted,
        g.finish_reason is None && g.content.len() == 0 ==> (g.verdict(EndCause::StreamEnded)
            matches Err(f) && f is EmptyStream),
        g.finish_reason is None && g.content.len() > 0 ==> (g.verdict(EndCause::StreamEnded)
            matches Err(f) && f is Truncated),
{
}

} // verus!
