//! What holds of normalization and refinement, stated over what a chunk says
//! and what goes on record.

use crate::driver::{ChatOutcome, DriverEvent, DriverFault};
use crate::emission::{EmissionRecord, InstallmentKind, LedgerEntry, StreamId, WireNote};
use crate::event_handler;
use crate::event_handler::{Choice, Chunk, FaultDirective, FlowDirective, Normalized,
    Refinement, StreamFacts, TurnResolution, Usage};
use crate::machine;
use crate::machine::{EndCause, Gathered};
use crate::text;
use crate::text_laws;
use vstd::prelude::*;
use vstd::utf8::*;

verus! {

// ---- what a chunk says ----------------------------------------------------

/// A text, or none.
pub open spec fn text_or_none(t: Option<Seq<char>>) -> Seq<char> {
    match t {
        Some(t) => t,
        None => Seq::empty(),
    }
}

/// The content of the choices, from the first to the last.
pub open spec fn content_text(cs: Seq<Choice<Seq<char>>>) -> Seq<char>
    decreases cs.len(),
{
    if cs.len() == 0 {
        Seq::empty()
    } else {
        text_or_none(cs[0].delta.content) + content_text(cs.skip(1))
    }
}

/// The finish reasons of the choices, from the first to the last.
pub open spec fn reasons(cs: Seq<Choice<Seq<char>>>) -> Seq<Seq<char>>
    decreases cs.len(),
{
    if cs.len() == 0 {
        Seq::empty()
    } else {
        (match cs[0].finish_reason {
            Some(r) => seq![r],
            None => Seq::empty(),
        }) + reasons(cs.skip(1))
    }
}

/// The finish reasons among events, from the first to the last.
pub open spec fn reasons_heard(evs: Seq<DriverEvent<Seq<char>>>) -> Seq<Seq<char>>
    decreases evs.len(),
{
    if evs.len() == 0 {
        Seq::empty()
    } else {
        match evs.last() {
            DriverEvent::Finish(r) => reasons_heard(evs.drop_last()).push(r),
            _ => reasons_heard(evs.drop_last()),
        }
    }
}

proof fn lemma_content_snoc(cs: Seq<Choice<Seq<char>>>)
    requires
        cs.len() > 0,
    ensures
        content_text(cs) == content_text(cs.drop_last()) + text_or_none(cs.last().delta.content),
        reasons(cs) == reasons(cs.drop_last()) + (match cs.last().finish_reason {
            Some(r) => seq![r],
            None => Seq::empty(),
        }),
    decreases cs.len(),
{
    let rest = cs.skip(1);
    if cs.len() == 1 {
        assert(rest =~= Seq::empty());
        assert(cs.drop_last() =~= Seq::empty());
        assert(content_text(rest) =~= Seq::empty());
        assert(content_text(cs.drop_last()) =~= Seq::empty());
        assert(reasons(rest) =~= Seq::empty());
        assert(content_text(cs) =~= content_text(cs.drop_last()) + text_or_none(
            cs.last().delta.content,
        ));
        assert(reasons(cs) =~= reasons(cs.drop_last()) + (match cs.last().finish_reason {
            Some(r) => seq![r],
            None => Seq::empty(),
        }));
    } else {
        lemma_content_snoc(rest);
        assert(rest.drop_last() =~= cs.drop_last().skip(1));
        assert(rest.last() == cs.last());
        assert(cs.drop_last()[0] == cs[0]);
        assert(content_text(cs) =~= content_text(cs.drop_last()) + text_or_none(
            cs.last().delta.content,
        ));
        assert(reasons(cs) =~= reasons(cs.drop_last()) + (match cs.last().finish_reason {
            Some(r) => seq![r],
            None => Seq::empty(),
        }));
    }
}

proof fn lemma_heard_concat(a: Seq<DriverEvent<Seq<char>>>, b: Seq<DriverEvent<Seq<char>>>)
    ensures
        machine::delta_text(a + b) == machine::delta_text(a) + machine::delta_text(b),
        reasons_heard(a + b) == reasons_heard(a) + reasons_heard(b),
    decreases b.len(),
{
    if b.len() == 0 {
        assert(a + b =~= a);
        assert(machine::delta_text(a) + machine::delta_text(b) =~= machine::delta_text(a));
        assert(reasons_heard(a) + reasons_heard(b) =~= reasons_heard(a));
    } else {
        assert((a + b).drop_last() =~= a + b.drop_last());
        assert((a + b).last() == b.last());
        lemma_heard_concat(a, b.drop_last());
        assert(machine::delta_text(a + b) =~= machine::delta_text(a) + machine::delta_text(b));
        assert(reasons_heard(a + b) =~= reasons_heard(a) + reasons_heard(b));
    }
}

proof fn lemma_one_choice(c: Choice<Seq<char>>)
    ensures
        event_handler::choice_events(c) == one_choice(c),
        machine::delta_text(one_choice(c)) == text_or_none(c.delta.content),
        reasons_heard(one_choice(c)) == (match c.finish_reason {
            Some(r) => seq![r],
            None => Seq::empty(),
        }),
{
    reveal_with_fuel(machine::delta_text, 3);
    reveal_with_fuel(reasons_heard, 3);
    let evs = one_choice(c);
    assert(event_handler::choice_events(c) =~= evs);
    assert(machine::delta_text(evs) =~= text_or_none(c.delta.content)) by {
        if evs.len() == 2 {
            assert(evs.drop_last() =~= seq![evs[0]]);
            assert(evs.drop_last().drop_last() =~= Seq::empty());
        } else if evs.len() == 1 {
            assert(evs.drop_last() =~= Seq::empty());
        }
    }
    assert(reasons_heard(evs) =~= (match c.finish_reason {
        Some(r) => seq![r],
        None => Seq::empty(),
    })) by {
        if evs.len() == 2 {
            assert(evs.drop_last() =~= seq![evs[0]]);
            assert(evs.drop_last().drop_last() =~= Seq::empty());
        } else if evs.len() == 1 {
            assert(evs.drop_last() =~= Seq::empty());
        }
    }
}

/// The events of one choice.
pub open spec fn one_choice(c: Choice<Seq<char>>) -> Seq<DriverEvent<Seq<char>>> {
    match (c.delta.content, c.finish_reason) {
        (Some(t), Some(r)) => if t.len() == 0 {
            seq![DriverEvent::Finish(r)]
        } else {
            seq![DriverEvent::TextDelta(t), DriverEvent::Finish(r)]
        },
        (Some(t), None) => if t.len() == 0 {
            Seq::empty()
        } else {
            seq![DriverEvent::TextDelta(t)]
        },
        (None, Some(r)) => seq![DriverEvent::Finish(r)],
        (None, None) => Seq::empty(),
    }
}

proof fn lemma_choices_heard(cs: Seq<Choice<Seq<char>>>)
    ensures
        machine::delta_text(event_handler::choices_events(cs)) == content_text(cs),
        reasons_heard(event_handler::choices_events(cs)) == reasons(cs),
        forall|k: int|
            0 <= k < event_handler::choices_events(cs).len() ==> (#[trigger] event_handler::choices_events(
                cs,
            )[k] matches DriverEvent::TextDelta(t) && t.len() > 0) || event_handler::choices_events(
                cs,
            )[k] is Finish,
    decreases cs.len(),
{
    if cs.len() > 0 {
        let before = event_handler::choices_events(cs.drop_last());
        let last = event_handler::choice_events(cs.last());
        let all = event_handler::choices_events(cs);
        lemma_choices_heard(cs.drop_last());
        lemma_one_choice(cs.last());
        lemma_heard_concat(before, last);
        lemma_content_snoc(cs);
        assert forall|k: int| 0 <= k < all.len() implies (#[trigger] all[k]
            matches DriverEvent::TextDelta(t) && t.len() > 0) || all[k] is Finish by {
            if k < before.len() {
                assert(all[k] == before[k]);
            } else {
                assert(all[k] == last[k - before.len()]);
            }
        }
    }
}

/// The events that a decoded text normalizes to.
pub open spec fn heard(c: Chunk<Seq<char>, Seq<Choice<Seq<char>>>>) -> Seq<DriverEvent<Seq<char>>> {
    event_handler::normal_form(Ok(c))->Ok_0.events
}

/// Text arrives unedited. Whatever a chunk without a server error holds, the
/// text of its events is the content of its choices, in order and character
/// for character; the finish reasons are those of its choices, in order; usage
/// comes last, once, with the chunk's numbers, and only if the chunk has it;
/// and nothing else is made up.
pub proof fn lemma_chunks_are_heard_whole(c: Chunk<Seq<char>, Seq<Choice<Seq<char>>>>)
    requires
        c.error is None,
    ensures
        event_handler::normal_form(Ok(c)) is Ok,
        machine::delta_text(heard(c)) == content_text(c.choices),
        reasons_heard(heard(c)) == reasons(c.choices),
        c.usage matches Some(u) ==> heard(c).len() > 0 && heard(c)[heard(c).len() - 1] == (
        DriverEvent::<Seq<char>>::Usage {
            prompt_tokens: u.prompt_tokens,
            completion_tokens: u.completion_tokens,
            total_tokens: u.total_tokens,
        }),
        forall|k: int|
            0 <= k < heard(c).len() && #[trigger] heard(c)[k] is Usage ==> c.usage is Some && k
                == heard(c).len() - 1,
        forall|k: int| 0 <= k < heard(c).len() ==> !(#[trigger] heard(c)[k] is Done),
        forall|k: int|
            0 <= k < heard(c).len() && #[trigger] heard(c)[k] is TextDelta
                ==> heard(c)[k]->TextDelta_0.len() > 0,
{
    lemma_choices_heard(c.choices);
    let own = event_handler::choices_events(c.choices);
    let evs = heard(c);
    if c.usage is Some {
        assert(evs.drop_last() =~= own);
    } else {
        assert(evs == own);
    }
    assert forall|k: int| 0 <= k < evs.len() implies ((#[trigger] evs[k] is Usage ==> c.usage is Some
        && k == evs.len() - 1) && !(evs[k] is Done) && (evs[k] is TextDelta
        ==> evs[k]->TextDelta_0.len() > 0)) by {
        if k < own.len() {
            assert(evs[k] == own[k]);
        }
    }
}

/// The choices of a chunk are heard one after the other: what a chunk says is
/// what its first choices say, then what its last say, with nothing between.
pub proof fn lemma_choices_are_heard_in_order(
    a: Seq<Choice<Seq<char>>>,
    b: Seq<Choice<Seq<char>>>,
    usage: Option<Usage>,
)
    ensures
        ({
            let whole = Chunk { choices: a + b, usage, error: None };
            let first = Chunk { choices: a, usage: None, error: None };
            let second = Chunk { choices: b, usage, error: None };
            &&& heard(whole) == heard(first) + heard(second)
            &&& event_handler::normal_form(Ok(whole))->Ok_0.unhandled_channels
                == event_handler::normal_form(Ok(first))->Ok_0.unhandled_channels
                + event_handler::normal_form(Ok(second))->Ok_0.unhandled_channels
        }),
{
    lemma_choices_concat(a, b);
    let whole = Chunk { choices: a + b, usage, error: None };
    let first = Chunk { choices: a, usage: None, error: None };
    let second = Chunk { choices: b, usage, error: None };
    assert(heard(whole) =~= heard(first) + heard(second));
}

proof fn lemma_choices_concat(a: Seq<Choice<Seq<char>>>, b: Seq<Choice<Seq<char>>>)
    ensures
        event_handler::choices_events(a + b) == event_handler::choices_events(a)
            + event_handler::choices_events(b),
        event_handler::choices_channels(a + b) == event_handler::choices_channels(a)
            + event_handler::choices_channels(b),
    decreases b.len(),
{
    let all = a + b;
    if b.len() == 0 {
        assert(all =~= a);
        assert(event_handler::choices_events(a) + event_handler::choices_events(b)
            =~= event_handler::choices_events(a));
        assert(event_handler::choices_channels(a) + event_handler::choices_channels(b)
            =~= event_handler::choices_channels(a));
    } else {
        assert(all.drop_last() =~= a + b.drop_last());
        assert(all.last() == b.last());
        lemma_choices_concat(a, b.drop_last());
        assert(event_handler::choices_events(all) =~= event_handler::choices_events(a)
            + event_handler::choices_events(b));
        assert(event_handler::choices_channels(all) =~= event_handler::choices_channels(a)
            + event_handler::choices_channels(b));
    }
}

/// One choice alone: its text, if it has any, and then its finish reason, if
/// it has one. Tool calls are named, and nothing else is.
pub proof fn lemma_one_choice_is_heard(c: Choice<Seq<char>>, t: Seq<char>, r: Seq<char>)
    ensures
        ({
            let evs = heard(Chunk { choices: seq![c], usage: None, error: None });
            let named = event_handler::normal_form(
                Ok(Chunk { choices: seq![c], usage: None, error: None }),
            )->Ok_0.unhandled_channels;
            let silent = c.delta.content is None || c.delta.content == Some(Seq::<char>::empty());
            &&& c.delta.content == Some(t) && t.len() > 0 && c.finish_reason == Some(r) ==> evs
                == seq![DriverEvent::TextDelta(t), DriverEvent::Finish(r)]
            &&& c.delta.content == Some(t) && t.len() > 0 && c.finish_reason is None ==> evs == seq![
                DriverEvent::TextDelta(t),
            ]
            &&& silent && c.finish_reason == Some(r) ==> evs == seq![DriverEvent::Finish(r)]
            &&& silent && c.finish_reason is None ==> evs == Seq::<DriverEvent<Seq<char>>>::empty()
            &&& c.delta.tool_calls ==> named == seq!["tool_calls"@]
            &&& !c.delta.tool_calls ==> named == Seq::<Seq<char>>::empty()
        }),
{
    let one = seq![c];
    assert(one.drop_last() =~= Seq::empty());
    assert(one.last() == c);
    lemma_one_choice(c);
    assert(event_handler::choices_events(one.drop_last()) =~= Seq::empty());
    assert(event_handler::choices_events(one) =~= one_choice(c));
    assert(event_handler::choices_channels(one.drop_last()) =~= Seq::empty());
    if c.delta.tool_calls {
        assert(event_handler::choices_channels(one) =~= seq!["tool_calls"@]);
    }
}

/// A chunk without choices says its usage, or nothing.
pub proof fn lemma_usage_is_heard(u: Usage)
    ensures
        heard(Chunk { choices: Seq::empty(), usage: Some(u), error: None }) == seq![
            DriverEvent::<Seq<char>>::Usage {
                prompt_tokens: u.prompt_tokens,
                completion_tokens: u.completion_tokens,
                total_tokens: u.total_tokens,
            },
        ],
        heard(Chunk { choices: Seq::empty(), usage: None, error: None }) == Seq::<
            DriverEvent<Seq<char>>,
        >::empty(),
{
}

/// What goes wrong is told in words: a text that is no chunk with the reason,
/// and a server's error as the server put it, whatever else the chunk holds. A
/// chunk that is neither is never an error, and more than one choice is told
/// by their number.
pub proof fn lemma_errors_are_told(
    e: Seq<char>,
    c: Chunk<Seq<char>, Seq<Choice<Seq<char>>>>,
)
    requires
        c.choices.len() <= usize::MAX,
    ensures
        event_handler::normal_form(Err(e)) == Err::<
            Normalized<Seq<DriverEvent<Seq<char>>>, Seq<Seq<char>>>,
            Seq<char>,
        >("unparseable chunk: "@ + e),
        c.error matches Some(err) ==> event_handler::normal_form(Ok(c)) == Err::<
            Normalized<Seq<DriverEvent<Seq<char>>>, Seq<Seq<char>>>,
            Seq<char>,
        >("server error in stream: "@ + err),
        c.error is None ==> event_handler::normal_form(Ok(c)) is Ok,
        c.error is None && c.choices.len() <= 1 ==> event_handler::normal_form(
            Ok(c),
        )->Ok_0.multiple_choices is None,
        c.error is None && c.choices.len() > 1 ==> (event_handler::normal_form(
            Ok(c),
        )->Ok_0.multiple_choices matches Some(n) && n == c.choices.len()),
{
}

/// The end sentinel is `[DONE]` with any white space around it, and nothing
/// else is. It says that the stream is done, and only that.
pub proof fn lemma_sentinel_is_done(data: Seq<char>, before: Seq<char>, after: Seq<char>)
    ensures
        text_laws::is_blank(before) && text_laws::is_blank(after)
            ==> event_handler::is_done_sentinel(before + "[DONE]"@ + after),
        event_handler::is_done_sentinel(data) ==> exists|i: int, j: int|
            0 <= i <= j <= data.len() && text_laws::is_blank(data.take(i)) && text_laws::is_blank(
                data.skip(j),
            ) && #[trigger] data.subrange(i, j) == "[DONE]"@,
        event_handler::done_form().events == seq![DriverEvent::<Seq<char>>::Done],
        event_handler::done_form().unhandled_channels == Seq::<Seq<char>>::empty(),
        event_handler::done_form().multiple_choices is None,
{
    reveal_strlit("[DONE]");
    if text_laws::is_blank(before) && text_laws::is_blank(after) {
        assert(!text::is_white_space('['));
        assert(!text::is_white_space(']'));
        text_laws::lemma_trimming_bares_the_core(before, "[DONE]"@, after);
    }
    if event_handler::is_done_sentinel(data) {
        text_laws::lemma_trimmed_lies_within(data);
    }
}

/// Whatever is decoded and normalized, its text arrives unedited: the events
/// that come out hold the content of the choices that went in.
pub proof fn lemma_normalized_chunks_are_heard_whole(
    decoded: Result<Chunk, String>,
    r: Result<Normalized, String>,
)
    requires
        call_ensures(event_handler::normalize_chunk, (decoded,), r),
    ensures
        decoded matches Ok(c) ==> (c.error is None ==> (r matches Ok(n) && machine::delta_text(
            n@.events,
        ) == content_text(c@.choices) && reasons_heard(n@.events) == reasons(c@.choices))),
        decoded matches Ok(c) ==> (c.error matches Some(err) ==> (r matches Err(told) && told@
            == "server error in stream: "@ + err@)),
        decoded matches Err(e) ==> (r matches Err(told) && told@ == "unparseable chunk: "@ + e@),
{
    if let Ok(c) = decoded {
        if c.error is None {
            lemma_chunks_are_heard_whole(c@);
        }
    }
}

/// What a text normalizes to, with a decoder. The end sentinel is done,
/// whatever the decoder would make of it. Any other text is what the decoder
/// made of that very text.
pub proof fn lemma_every_other_text_is_decoded<F: Fn(&str) -> Result<Chunk, String>>(
    decode: F,
    data: Seq<char>,
    n: Result<Normalized<Seq<DriverEvent<Seq<char>>>, Seq<Seq<char>>>, Seq<char>>,
)
    requires
        event_handler::normalizes(decode, data, n),
    ensures
        event_handler::is_done_sentinel(data) ==> (n matches Ok(done) && done.events == seq![
            DriverEvent::<Seq<char>>::Done,
        ] && done.unhandled_channels.len() == 0 && done.multiple_choices is None),
        !event_handler::is_done_sentinel(data) ==> exists|s: &str, d: Result<Chunk, String>|
            s@ == data && #[trigger] call_ensures(decode, (s,), d) && match d {
                Ok(c) => n == event_handler::normal_form(Ok(c@)),
                Err(e) => n == event_handler::normal_form(Err(e@)),
            },
{
    if !event_handler::is_done_sentinel(data) {
        let d = choose|d: Result<Chunk, String>| #[trigger]
            event_handler::decodes_to(decode, data, d) && n == event_handler::normal_form(
                event_handler::decoded_view(d),
            );
        let s = choose|s: &str| s@ == data && #[trigger] call_ensures(decode, (s,), d);
        assert(call_ensures(decode, (s,), d));
    }
}

/// Refining a comment changes nothing and directs nothing. Refining data is
/// refining what the data normalizes to, under the same number.
pub proof fn lemma_only_data_is_refined<F: Fn(&str) -> Result<Chunk, String>>(
    decode: F,
    st: StreamFacts,
    installment_seq: u64,
    payload: Seq<char>,
    r: Refinement,
)
    ensures
        event_handler::refines(decode, st, installment_seq, InstallmentKind::Comment, payload, r)
            ==> r.st == st && r.records.len() == 0 && r.result == Ok::<_, DriverFault<Seq<char>>>(
            FlowDirective::Continue,
        ),
        event_handler::refines(decode, st, installment_seq, InstallmentKind::Data, payload, r)
            ==> exists|n| #[trigger]
            event_handler::normalizes(decode, payload, n) && r == event_handler::refined(
                st,
                installment_seq,
                n,
            ),
{
}

// ---- what goes on record --------------------------------------------------

/// A counter one further on. It wraps at its width.
pub open spec fn counted(n: u64) -> int {
    if n == u64::MAX {
        0
    } else {
        n + 1
    }
}

/// An installment that does not normalize is put on record in words, under its
/// number, and counted; it changes nothing else of the stream, and its words
/// are the fault.
pub proof fn lemma_unreadable_installments_are_faults(
    st: StreamFacts,
    installment_seq: u64,
    detail: Seq<char>,
)
    ensures
        ({
            let r = event_handler::refined(st, installment_seq, Err(detail));
            &&& r.records == seq![
                EmissionRecord::<Seq<char>>::NormalizationError {
                    stream: st.stream_id,
                    attempt: st.attempt,
                    installment_seq,
                    detail,
                },
            ]
            &&& r.result == Err::<FlowDirective, _>(DriverFault::Protocol(detail))
            &&& r.st.norm_errors == counted(st.norm_errors)
            &&& r.st == (StreamFacts { norm_errors: r.st.norm_errors, ..st })
        }),
{
}

/// More than one choice is a fault in words that name their number, under the
/// installment's number; nothing of the stream changes.
pub proof fn lemma_many_choices_are_a_fault(
    st: StreamFacts,
    installment_seq: u64,
    n: Normalized<Seq<DriverEvent<Seq<char>>>, Seq<Seq<char>>>,
    k: usize,
)
    requires
        n.multiple_choices == Some(k),
    ensures
        ({
            let r = event_handler::refined(st, installment_seq, Ok(n));
            let words = "multiple choices (n="@ + text::decimal(k as nat) + ") not supported"@;
            &&& r.st == st
            &&& r.records == seq![
                EmissionRecord::<Seq<char>>::NormalizationError {
                    stream: st.stream_id,
                    attempt: st.attempt,
                    installment_seq,
                    detail: words,
                },
            ]
            &&& r.result == Err::<FlowDirective, _>(DriverFault::Protocol(words))
        }),
{
}

/// Every channel and every event of an installment goes on record, once each
/// and in order, channels first; nothing else does. The stream goes on unless
/// the end sentinel was among the events.
pub proof fn lemma_every_event_is_recorded(
    st: StreamFacts,
    installment_seq: u64,
    n: Normalized<Seq<DriverEvent<Seq<char>>>, Seq<Seq<char>>>,
)
    requires
        n.multiple_choices is None,
    ensures
        ({
            let r = event_handler::refined(st, installment_seq, Ok(n));
            let c = n.unhandled_channels.len() as int;
            &&& r.records.len() == c + n.events.len()
            &&& forall|k: int|
                0 <= k < c ==> #[trigger] r.records[k] == (EmissionRecord::<Seq<char>>::Wire {
                    stream: st.stream_id,
                    attempt: st.attempt,
                    note: WireNote::UnhandledChannel { channel: n.unhandled_channels[k] },
                })
            &&& forall|k: int|
                0 <= k < n.events.len() ==> r.records[c + k] == (EmissionRecord::<
                    Seq<char>,
                >::NormalizedEvent {
                    stream: st.stream_id,
                    attempt: st.attempt,
                    installment_seq,
                    event: #[trigger] n.events[k],
                })
            &&& n.events.contains(DriverEvent::Done) ==> r.result == Ok::<
                _,
                DriverFault<Seq<char>>,
            >(FlowDirective::StopComplete)
            &&& !n.events.contains(DriverEvent::Done) ==> r.result == Ok::<
                _,
                DriverFault<Seq<char>>,
            >(FlowDirective::Continue)
        }),
{
    let r = event_handler::refined(st, installment_seq, Ok(n));
    let done = DriverEvent::<Seq<char>>::Done;
    if n.events.contains(done) {
        let k = choose|k: int| 0 <= k < n.events.len() && n.events[k] == done;
        assert(n.events[k] is Done);
    }
    if event_handler::has_done(n.events) {
        let k = choose|k: int| 0 <= k < n.events.len() && #[trigger] n.events[k] is Done;
        assert(n.events[k] == done);
    }
}

/// What an installment does to the stream: one more installment, as many more
/// events as it has, its bytes of text, and whether any text has come. Who the
/// stream is, and what it has read and failed to read, stay.
pub proof fn lemma_installments_are_counted(
    st: StreamFacts,
    installment_seq: u64,
    n: Normalized<Seq<DriverEvent<Seq<char>>>, Seq<Seq<char>>>,
)
    requires
        n.multiple_choices is None,
        n.events.len() <= u64::MAX,
    ensures
        ({
            let r = event_handler::refined(st, installment_seq, Ok(n)).st;
            &&& r.stream_id == st.stream_id
            &&& r.attempt == st.attempt
            &&& r.reads == st.reads
            &&& r.norm_errors == st.norm_errors
            &&& r.installments == counted(st.installments)
            &&& r.events == (if st.events + n.events.len() > u64::MAX {
                st.events + n.events.len() - 0x1_0000_0000_0000_0000
            } else {
                st.events + n.events.len()
            })
            &&& r.content_bytes == event_handler::bytes_after(st.content_bytes, n.events)
            &&& r.saw_any_content <==> st.saw_any_content || exists|k: int|
                0 <= k < n.events.len() && #[trigger] n.events[k] is TextDelta
            &&& r.machine == st.machine.after_all(n.events)
        }),
{
}

/// Bytes of text are counted in UTF-8, delta by delta; nothing but text
/// counts; and the count goes on from where it stood.
pub proof fn lemma_bytes_of_text_are_counted(
    count: u64,
    a: Seq<DriverEvent<Seq<char>>>,
    b: Seq<DriverEvent<Seq<char>>>,
    ev: DriverEvent<Seq<char>>,
)
    ensures
        event_handler::bytes_after(count, Seq::empty()) == count,
        event_handler::bytes_after(count, a + b) == event_handler::bytes_after(
            event_handler::bytes_after(count, a),
            b,
        ),
        !(ev is TextDelta) ==> event_handler::bytes_after(count, seq![ev]) == count,
        ev matches DriverEvent::TextDelta(t) ==> (encode_utf8(t).len() <= usize::MAX
            ==> event_handler::bytes_after(count, seq![ev]) == (if count + encode_utf8(t).len()
            > u64::MAX {
            count + encode_utf8(t).len() - 0x1_0000_0000_0000_0000
        } else {
            count + encode_utf8(t).len()
        })),
    decreases b.len(),
{
    let one = seq![ev];
    assert(one.drop_last() =~= Seq::empty());
    assert(event_handler::bytes_after(count, one.drop_last()) == count);
    assert(one.last() == ev);
    let all = a + b;
    if b.len() == 0 {
        assert(all =~= a);
    } else {
        assert(all.drop_last() =~= a + b.drop_last());
        assert(all.last() == b.last());
        lemma_bytes_of_text_are_counted(count, a, b.drop_last(), ev);
    }
}

/// A stream begins with nothing counted and nothing gathered, under its own
/// identifier, before its first attempt.
pub proof fn lemma_streams_begin_empty(stream_id: StreamId)
    ensures
        ({
            let st = StreamFacts::fresh(stream_id);
            &&& st.stream_id == stream_id
            &&& st.attempt == 0
            &&& st.installments == 0
            &&& st.events == 0
            &&& st.norm_errors == 0
            &&& st.reads == 0
            &&& st.content_bytes == 0
            &&& !st.saw_any_content
            &&& st.machine.content.len() == 0
            &&& st.machine.finish_reason is None
            &&& st.machine.usage is None
            &&& !st.machine.saw_done
            &&& st.machine.anomalies.len() == 0
        }),
{
}

/// The next attempt of a stream is numbered one on and starts with nothing
/// gathered and no content seen, while every count runs on; a read counts one
/// read and touches nothing else.
pub proof fn lemma_attempts_start_clean(st: StreamFacts)
    ensures
        ({
            let next = st.next_attempt();
            &&& next.attempt == (if st.attempt == u32::MAX {
                0
            } else {
                st.attempt + 1
            })
            &&& next.machine == StreamFacts::fresh(st.stream_id).machine
            &&& !next.saw_any_content
            &&& next.stream_id == st.stream_id
            &&& next.installments == st.installments
            &&& next.events == st.events
            &&& next.norm_errors == st.norm_errors
            &&& next.reads == st.reads
            &&& next.content_bytes == st.content_bytes
        }),
        st.one_read().reads == counted(st.reads),
        st.one_read() == (StreamFacts { reads: st.one_read().reads, ..st }),
{
}

/// What the machine found odd is put on record note by note, in order.
pub proof fn lemma_anomalies_are_recorded(st: StreamFacts)
    ensures
        event_handler::anomaly_records(st).len() == st.machine.anomalies.len(),
        forall|k: int|
            0 <= k < st.machine.anomalies.len() ==> #[trigger] event_handler::anomaly_records(st)[k]
                == (EmissionRecord::<Seq<char>>::Anomaly {
                stream: st.stream_id,
                attempt: st.attempt,
                note: st.machine.anomalies[k],
            }),
{
}

// ---- verdicts of the machine ----------------------------------------------

/// What a machine's verdict says: an outcome is all that was gathered, as it
/// was gathered; a fault counts the characters that are discarded.
pub proof fn lemma_verdicts_are_exact(g: Gathered, reason: Seq<char>)
    requires
        g.content.len() <= usize::MAX,
    ensures
        g.finish_reason == Some(reason) ==> g.verdict(EndCause::StreamEnded) == Ok::<
            _,
            DriverFault<Seq<char>>,
        >(ChatOutcome { content: g.content, finish_reason: reason, usage: g.usage }),
        g.finish_reason is None && g.content.len() == 0 ==> g.verdict(EndCause::StreamEnded)
            == Err::<ChatOutcome<Seq<char>>, _>(DriverFault::<Seq<char>>::EmptyStream),
        g.finish_reason is None && g.content.len() > 0 ==> (g.verdict(EndCause::StreamEnded)
            matches Err(DriverFault::Truncated { partial_chars }) && partial_chars
            == g.content.len()),
        g.verdict(EndCause::HandlerAbort) matches Err(DriverFault::Aborted { partial_chars })
            && partial_chars == g.content.len(),
        forall|o: ChatOutcome<Seq<char>>| #[trigger]
            event_handler::resolution(Ok(o)) == TurnResolution::Committed(o),
        forall|f: DriverFault<Seq<char>>| #[trigger]
            event_handler::resolution(Err(f)) == TurnResolution::Fault(f),
{
}

/// What a machine gathers of a run of events, told by their places: the finish
/// reason is the one that no other precedes, and the usage is the one that no
/// other follows.
pub proof fn lemma_first_reason_and_last_usage_count(
    evs: Seq<DriverEvent<Seq<char>>>,
    k: int,
    r: Seq<char>,
    p: u32,
    c: u32,
    t: u32,
)
    requires
        0 <= k < evs.len(),
    ensures
        evs[k] == DriverEvent::Finish(r) && (forall|j: int|
            0 <= j < k ==> !(#[trigger] evs[j] is Finish)) ==> Gathered::nothing().after_all(
            evs,
        ).finish_reason == Some(r),
        evs[k] == (DriverEvent::<Seq<char>>::Usage {
            prompt_tokens: p,
            completion_tokens: c,
            total_tokens: t,
        }) && (forall|j: int| k < j < evs.len() ==> !(#[trigger] evs[j] is Usage))
            ==> Gathered::nothing().after_all(evs).usage == Some((p, c, t)),
    decreases evs.len(),
{
    let before = evs.drop_last();
    let n = before.len() as int;
    machine::lemma_machine_keeps_testimony(evs);
    if k < n {
        lemma_first_reason_and_last_usage_count(before, k, r, p, c, t);
        machine::lemma_machine_keeps_testimony(before);
        assert(before[k] == evs[k]);
        if forall|j: int| 0 <= j < k ==> !(#[trigger] evs[j] is Finish) {
            assert forall|j: int| 0 <= j < k implies !(#[trigger] before[j] is Finish) by {
                assert(before[j] == evs[j]);
            }
        }
        if forall|j: int| k < j < evs.len() ==> !(#[trigger] evs[j] is Usage) {
            assert(!(evs[n] is Usage));
            assert forall|j: int| k < j < before.len() implies !(#[trigger] before[j] is Usage) by {
                assert(before[j] == evs[j]);
            }
        }
    } else {
        if forall|j: int| 0 <= j < k ==> !(#[trigger] evs[j] is Finish) {
            machine::lemma_first_finish(before);
            assert forall|j: int| 0 <= j < before.len() implies !(#[trigger] before[j] is Finish) by {
                assert(before[j] == evs[j]);
            }
        }
    }
}

// ---- strategy -------------------------------------------------------------

/// The pool of send buckets loses one per attempt that is let in and gains one
/// per return, and the ledger tells the number after each. Without a bucket
/// there is no attempt, and the ledger says so.
pub proof fn lemma_buckets_are_accounted_for(stream: StreamId, attempt: u32, v: u32)
    ensures
        v > 0 ==> event_handler::admission_of(Ok(v)) == (LedgerEntry::SendBucketSpent {
            available_after: (v - 1) as u32,
        }),
        v > 0 ==> event_handler::after_spend(v) == Some((v - 1) as u32),
        event_handler::after_spend(0) is None,
        event_handler::admission_of(Err(v)) == LedgerEntry::SendBucketDenied,
        v < u32::MAX ==> event_handler::return_of(v) == (LedgerEntry::SendBucketReturned {
            available_after: (v + 1) as u32,
        }),
        event_handler::return_of(u32::MAX) == (LedgerEntry::SendBucketReturned {
            available_after: 0,
        }),
        forall|entry: LedgerEntry| #[trigger]
            event_handler::ledger_record(stream, attempt, entry) == (EmissionRecord::<
                Seq<char>,
            >::Ledger { stream, attempt, entry }),
{
}

/// The strategy's answer to a fault: a retry while any is left; after that the
/// alternative, if one is known; after that nothing.
pub proof fn lemma_strategy_is_exhausted_in_order(remaining: u32, failover: bool)
    ensures
        event_handler::fault_directive(remaining, failover) == FaultDirective::RetrySameEndpoint
            <==> remaining >= 1,
        event_handler::fault_directive(remaining, failover) == FaultDirective::Failover
            <==> remaining == 0 && failover,
        event_handler::fault_directive(remaining, failover) == FaultDirective::GiveUp
            <==> remaining == 0 && !failover,
{
}

} // verus!
