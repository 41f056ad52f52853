//! What holds of a turn's decisions and of what they are told as, stated over
//! how its attempts end.

use crate::conversation;
use crate::conversation::{AfterPrimary, Command};
use crate::driver;
use crate::driver::{ChatOutcome, DriverFault};
use crate::emission::{EmissionRecord, LedgerEntry, StreamEndCause, StreamId, TurnVerdictRecord};
use crate::event_handler::TurnResolution;
use crate::openai;
use crate::openai::{AttemptEnd, Message, TurnVerdict};
use crate::text;
use crate::text_laws;
use crate::turn;
use crate::turn::TurnFacts;
use vstd::prelude::*;

verus! {

// ---- retries --------------------------------------------------------------

/// An end that is neither a commit nor a cancellation.
pub open spec fn is_setback(end: AttemptEnd<Seq<char>>) -> bool {
    match end {
        AttemptEnd::Complete(TurnResolution::Committed(_)) => false,
        AttemptEnd::Wire(StreamEndCause::Cancelled) => false,
        _ => true,
    }
}

/// Every end but a commit and a cancellation is retried while a retry is left,
/// whatever it was that ended the attempt, and costs that one retry, on
/// record. With none left it is a failover where an alternative is known;
/// elsewhere it is the failure of the turn.
pub proof fn lemma_setbacks_are_retried(t: TurnFacts, failover: bool, end: AttemptEnd<Seq<char>>)
    requires
        is_setback(end),
    ensures
        t.remaining_allowance > 0 ==> {
            &&& t.verdict(failover, end) is None
            &&& t.after(end).remaining_allowance == t.remaining_allowance - 1
            &&& t.after(end).st == t.st
            &&& t.after(end).select_polls == t.select_polls
            &&& t.draw_records(end) == seq![
                EmissionRecord::<Seq<char>>::Ledger {
                    stream: t.st.stream_id,
                    attempt: t.st.attempt,
                    entry: LedgerEntry::RetryAllowanceSpent {
                        remaining: (t.remaining_allowance - 1) as u32,
                    },
                },
            ]
        },
        t.remaining_allowance == 0 ==> {
            &&& t.after(end) == t
            &&& t.draw_records(end) == Seq::<EmissionRecord<Seq<char>>>::empty()
            &&& failover ==> t.verdict(failover, end) == Some(
                TurnVerdict::<Seq<char>>::Failover { attempts_here: t.st.attempt },
            )
            &&& !failover ==> t.verdict(failover, end) is Some && t.verdict(failover, end)->0 is Failed
        },
        t.remaining_allowance == 0 && !failover ==> (end matches AttemptEnd::Complete(
            TurnResolution::Fault(f),
        ) ==> t.verdict(failover, end) == Some(TurnVerdict::Failed(f))),
        t.remaining_allowance == 0 && !failover ==> (end matches AttemptEnd::Wire(c) ==> t.verdict(
            failover,
            end,
        ) == Some(TurnVerdict::Failed(openai::wire_fault_of(c)))),
{
}

/// A setback at the wire is one, whatever its cause: a connection that could
/// not be made, a refused request, a silence, a broken or an overlong stream
/// are all retried alike.
pub proof fn lemma_wire_causes_are_alike(
    t: TurnFacts,
    failover: bool,
    c: StreamEndCause<Seq<char>>,
    d: StreamEndCause<Seq<char>>,
)
    requires
        !(c is Cancelled),
        !(d is Cancelled),
    ensures
        t.verdict(failover, AttemptEnd::Wire(c)) is None <==> t.remaining_allowance > 0,
        t.after(AttemptEnd::Wire(c)) == t.after(AttemptEnd::Wire(d)),
        t.draw_records(AttemptEnd::Wire(c)) == t.draw_records(AttemptEnd::Wire(d)),
        t.remaining_allowance > 0 || failover ==> t.verdict(failover, AttemptEnd::Wire(c))
            == t.verdict(failover, AttemptEnd::Wire(d)),
{
}

/// A turn makes every retry that it was granted: setback after setback, each
/// leaves one less and no verdict, until none is left.
pub proof fn lemma_retries_are_made_in_full(
    t: TurnFacts,
    failover: bool,
    ends: Seq<AttemptEnd<Seq<char>>>,
)
    requires
        ends.len() <= t.remaining_allowance,
        forall|k: int| 0 <= k < ends.len() ==> is_setback(#[trigger] ends[k]),
    ensures
        turn::after_all(t, ends).remaining_allowance == t.remaining_allowance - ends.len(),
        forall|k: int|
            0 <= k < ends.len() ==> turn::after_all(t, ends.take(k)).verdict(
                failover,
                #[trigger] ends[k],
            ) is None,
    decreases ends.len(),
{
    if ends.len() > 0 {
        let fewer = ends.drop_last();
        let n = fewer.len() as int;
        assert forall|k: int| 0 <= k < n implies is_setback(#[trigger] fewer[k]) by {
            assert(is_setback(ends[k]));
        }
        lemma_retries_are_made_in_full(t, failover, fewer);
        assert(is_setback(ends[n]));
        assert forall|k: int| 0 <= k < ends.len() implies turn::after_all(t, ends.take(k)).verdict(
            failover,
            #[trigger] ends[k],
        ) is None by {
            if k < n {
                assert(ends.take(k) =~= fewer.take(k));
                assert(ends[k] == fewer[k]);
            } else {
                assert(ends.take(k) =~= fewer);
            }
        }
    }
}

/// A commit and a cancellation settle the turn at once, whatever is left of
/// the allowance, and cost nothing.
pub proof fn lemma_commits_and_cancellations_settle(
    t: TurnFacts,
    failover: bool,
    o: ChatOutcome<Seq<char>>,
)
    ensures
        ({
            let commit = AttemptEnd::<Seq<char>>::Complete(TurnResolution::Committed(o));
            let cancel = AttemptEnd::<Seq<char>>::Wire(StreamEndCause::Cancelled);
            &&& t.verdict(failover, commit) == Some(TurnVerdict::Committed(o))
            &&& t.after(commit) == t
            &&& t.draw_records(commit) == Seq::<EmissionRecord<Seq<char>>>::empty()
            &&& t.verdict(failover, cancel) == Some(
                TurnVerdict::Failed(DriverFault::Protocol("cancelled"@)),
            )
            &&& t.after(cancel) == t
            &&& t.draw_records(cancel) == Seq::<EmissionRecord<Seq<char>>>::empty()
        }),
{
}

/// A turn begins with the allowance that it was granted, on a fresh stream. An
/// attempt that is not let in is the failure of the turn; one that is let in is
/// no verdict.
pub proof fn lemma_turns_begin_with_their_allowance(stream_id: StreamId, allowance: u32)
    ensures
        TurnFacts::fresh(stream_id, allowance).remaining_allowance == allowance,
        TurnFacts::fresh(stream_id, allowance).select_polls == 0,
        TurnFacts::fresh(stream_id, allowance).st.stream_id == stream_id,
        TurnFacts::fresh(stream_id, allowance).st.attempt == 0,
        turn::admission_verdict(true) is None,
        turn::admission_verdict(false) == Some(
            TurnVerdict::Failed(
                DriverFault::Protocol("no send bucket available (admission denied)"@),
            ),
        ),
{
}

// ---- the closing record ---------------------------------------------------

/// The record that closes a turn says what the turn came to and what it
/// counted, in full.
pub proof fn lemma_trailers_tell_the_turn(
    t: TurnFacts,
    o: ChatOutcome<Seq<char>>,
    attempts_here: u32,
    f: DriverFault<Seq<char>>,
    v: TurnVerdict<Seq<char>>,
)
    requires
        o.content.len() <= usize::MAX,
    ensures
        turn::trailer(t, v) is TurnTrailer,
        ({
            let r = turn::trailer(t, v);
            &&& r->TurnTrailer_stream == t.st.stream_id
            &&& r->TurnTrailer_format_version == 2
            &&& r->TurnTrailer_attempts == t.st.attempt
            &&& r->TurnTrailer_reads == t.st.reads
            &&& r->TurnTrailer_installments == t.st.installments
            &&& r->TurnTrailer_events == t.st.events
            &&& r->TurnTrailer_normalization_errors == t.st.norm_errors
            &&& r->TurnTrailer_select_polls == t.select_polls
            &&& r->TurnTrailer_capture_policy == "full"
        }),
        turn::trailer(t, TurnVerdict::Committed(o))->TurnTrailer_verdict == (
        TurnVerdictRecord::Committed {
            finish_reason: o.finish_reason,
            chars: o.content.len() as usize,
            usage: o.usage,
        }),
        turn::trailer(t, TurnVerdict::Failover { attempts_here })->TurnTrailer_verdict == (
        TurnVerdictRecord::<Seq<char>>::FailoverDirected { after_attempts: attempts_here }),
        turn::trailer(t, TurnVerdict::Failed(f))->TurnTrailer_verdict == (
        TurnVerdictRecord::Failed { fault: driver::fault_text(f) }),
{
}

// ---- faults in words ------------------------------------------------------

/// What a cut at the wire amounts to. A silence or a starvation is a stall of
/// the window that ran out; an overlong frame is an overflow of its bound; a
/// refusal is told with its status and its body, a foreign body with its type,
/// and a broken connection in its own words.
pub proof fn lemma_wire_faults_tell_their_cause(
    secs: u64,
    floor_bps: u64,
    limit_bytes: usize,
    status: u16,
    a: Seq<char>,
    b: Seq<char>,
    n: usize,
)
    ensures
        openai::wire_fault_of(StreamEndCause::StallTimeout { window_secs: secs })
            == (DriverFault::<Seq<char>>::Stalled { after_secs: secs }),
        openai::wire_fault_of(StreamEndCause::FirstByteBackstop { window_secs: secs })
            == (DriverFault::<Seq<char>>::Stalled { after_secs: secs }),
        openai::wire_fault_of(
            StreamEndCause::ThroughputStarved { floor_bps, sustained_secs: secs },
        ) == (DriverFault::<Seq<char>>::Stalled { after_secs: secs }),
        openai::wire_fault_of(StreamEndCause::OverallDeadline { limit_secs: secs })
            == (DriverFault::<Seq<char>>::Stalled { after_secs: secs }),
        openai::wire_fault_of(StreamEndCause::BufferOverflow { limit_bytes })
            == (DriverFault::<Seq<char>>::BufferOverflow { limit_bytes }),
        openai::wire_fault_of(StreamEndCause::HttpError { status, body: a })
            == DriverFault::Protocol("HTTP "@ + text::decimal(status as nat) + ": "@ + a),
        openai::wire_fault_of(StreamEndCause::NotAnEventStream { content_type: a, body_prefix: b })
            == DriverFault::Protocol(
            "not an event stream (Content-Type: "@ + a + "): "@ + b,
        ),
        openai::wire_fault_of(StreamEndCause::ConnectError { detail: a }) == DriverFault::Protocol(
            a,
        ),
        openai::wire_fault_of(StreamEndCause::TransportError { detail: a })
            == DriverFault::Protocol(a),
        openai::wire_fault_of(StreamEndCause::DoneSentinelConsumed) == DriverFault::Protocol(
            "DoneSentinelConsumed"@,
        ),
        openai::wire_fault_of(StreamEndCause::PeerClosed) == DriverFault::Protocol("PeerClosed"@),
        openai::wire_fault_of(StreamEndCause::ClosedWithNoContent) == DriverFault::Protocol(
            "ClosedWithNoContent"@,
        ),
        openai::wire_fault_of(StreamEndCause::HandlerDirected { directive: a })
            == DriverFault::Protocol(
            "HandlerDirected { directive: "@ + openai::quoted_text(a) + " }"@,
        ),
        openai::wire_fault_of(StreamEndCause::MultipleChoicesUnsupported { n })
            == DriverFault::Protocol(
            "MultipleChoicesUnsupported { n: "@ + text::decimal(n as nat) + " }"@,
        ),
        openai::wire_fault_of(StreamEndCause::Cancelled) == DriverFault::Protocol("Cancelled"@),
{
}

/// Each fault has a message of its own, with its numbers or its words in it.
pub proof fn lemma_faults_are_told_in_words(n: usize, secs: u64, msg: Seq<char>)
    ensures
        driver::fault_text(DriverFault::Truncated { partial_chars: n })
            == "stream truncated: connection ended before finish_reason ("@ + text::decimal(
            n as nat,
        ) + " chars of uncommitted partial output discarded)"@,
        driver::fault_text(DriverFault::Aborted { partial_chars: n })
            == "stream aborted by handler directive ("@ + text::decimal(n as nat)
            + " chars of uncommitted partial output discarded)"@,
        driver::fault_text(DriverFault::Stalled { after_secs: secs })
            == "stream stalled: no bytes for "@ + text::decimal(secs as nat) + "s"@,
        driver::fault_text(DriverFault::BufferOverflow { limit_bytes: n }) == "SSE buffer exceeded "@
            + text::decimal(n as nat) + " bytes without a frame terminator"@,
        driver::fault_text(DriverFault::EmptyStream)
            == "stream accepted but produced no content before closing"@,
        driver::fault_text(DriverFault::Protocol(msg)) == "protocol violation: "@ + msg,
{
}

// ---- the conversation -----------------------------------------------------

/// White space around a line changes nothing of what it asks for: nothing at
/// all, to quit, to reset, or to say the line as it stands.
pub proof fn lemma_lines_ask_alike(before: Seq<char>, line: Seq<char>, after: Seq<char>)
    requires
        text_laws::is_blank(before),
        text_laws::is_solid(line),
        text_laws::is_blank(after),
    ensures
        line.len() == 0 ==> conversation::command_of(before + line + after) == Command::<
            Seq<char>,
        >::Blank,
        line == "/quit"@ ==> conversation::command_of(before + line + after) == Command::<
            Seq<char>,
        >::Quit,
        line == "/exit"@ ==> conversation::command_of(before + line + after) == Command::<
            Seq<char>,
        >::Quit,
        line == "/reset"@ ==> conversation::command_of(before + line + after) == Command::<
            Seq<char>,
        >::Reset,
        line.len() > 0 && line != "/quit"@ && line != "/exit"@ && line != "/reset"@
            ==> conversation::command_of(before + line + after) == Command::Say(line),
{
    text_laws::lemma_trimming_bares_the_core(before, line, after);
    reveal_strlit("/quit");
    reveal_strlit("/exit");
    reveal_strlit("/reset");
    assert("/quit"@[1] == 'q' && "/exit"@[1] == 'e' && "/reset"@.len() == 6);
    assert("/quit"@.len() == 5 && "/exit"@.len() == 5);
}

/// A reset keeps exactly the system's messages, in their order.
pub proof fn lemma_reset_keeps_the_system(history: Seq<Message<Seq<char>>>)
    ensures
        conversation::system_only(history) == history.filter(
            |m: Message<Seq<char>>| m.role == "system"@,
        ),
    decreases history.len(),
{
    reveal(Seq::filter);
    if history.len() > 0 {
        lemma_reset_keeps_the_system(history.drop_last());
    }
}

/// A conversation begins with its system prompt, if it has one, and nothing
/// else. A line joins at the end as the user's. A committed answer joins at
/// the end as the assistant's, word for word; a failure takes the last message
/// back; a failover leaves all as it is. What came before stays.
pub proof fn lemma_history_grows_at_its_end(
    prompt: Seq<char>,
    history: Seq<Message<Seq<char>>>,
    line: Seq<char>,
    o: ChatOutcome<Seq<char>>,
    f: DriverFault<Seq<char>>,
    attempts_here: u32,
)
    ensures
        conversation::begun(Some(prompt)) == seq![
            Message::<Seq<char>> { role: "system"@, content: prompt },
        ],
        conversation::begun(None) == Seq::<Message<Seq<char>>>::empty(),
        conversation::asked(history, line) == history + seq![
            Message::<Seq<char>> { role: "user"@, content: line },
        ],
        conversation::settled(history, TurnVerdict::Committed(o)) == history + seq![
            Message::<Seq<char>> { role: "assistant"@, content: o.content },
        ],
        history.len() > 0 ==> conversation::settled(history, TurnVerdict::Failed(f))
            == history.take(history.len() - 1),
        history.len() == 0 ==> conversation::settled(history, TurnVerdict::Failed(f)) == history,
        conversation::settled(history, TurnVerdict::Failover { attempts_here }) == history,
        conversation::failure_text(f) == "\n[TURN FAILED] "@ + driver::fault_text(f)
            + " — turn not committed to history"@,
{
    if history.len() > 0 {
        assert(history.drop_last() =~= history.take(history.len() - 1));
    }
}

/// A verdict that is no failover stands. A failover is issued again where
/// there is an alternative, and people are told after how many attempts and
/// where; elsewhere it is a failure.
pub proof fn lemma_failovers_are_resolved(
    v: TurnVerdict<Seq<char>>,
    attempts_here: u32,
    url: Seq<char>,
    alternative: Option<Seq<char>>,
)
    ensures
        !(v is Failover) ==> conversation::after_primary(v, alternative) == AfterPrimary::Settle(v),
        conversation::after_primary(TurnVerdict::Failover { attempts_here }, Some(url)) == (
        AfterPrimary::Reissue {
            notice: "\n[FAILOVER] primary exhausted after "@ + text::decimal(attempts_here as nat)
                + " attempt(s); re-issuing on "@ + url,
        }),
        conversation::after_primary(TurnVerdict::Failover { attempts_here }, None)
            == AfterPrimary::Settle(
            TurnVerdict::Failed(
                DriverFault::Protocol("failover directed but no alternative configured"@),
            ),
        ),
{
}

} // verus!
