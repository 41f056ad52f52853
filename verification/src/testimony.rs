//! One path to the screen and to the history: what an attempt commits is what
//! its records showed, no more and no less.

use crate::attempt;
use crate::attempt::{AttemptFacts, ReadStamp, Step, WireEvent};
use crate::driver::{ChatOutcome, DriverEvent, DriverFault};
use crate::emission::{EmissionRecord, StreamEndCause};
use crate::event_handler;
use crate::event_handler::{Chunk, FlowDirective, Refinement, StreamFacts, TurnResolution};
use crate::liveness::Tick;
use crate::machine;
use crate::machine::{EndCause, Gathered};
use crate::openai::AttemptEnd;
use crate::ports;
use crate::ports::Shown;
use crate::sse;
use crate::sse::{SseEvent, SsePayload};
use vstd::prelude::*;

verus! {

/// The events that are on record, in order.
pub open spec fn recorded(records: Seq<EmissionRecord<Seq<char>>>) -> Seq<DriverEvent<Seq<char>>>
    decreases records.len(),
{
    if records.len() == 0 {
        Seq::empty()
    } else {
        let before = recorded(records.drop_last());
        match records.last() {
            EmissionRecord::NormalizedEvent { event, .. } => before.push(event),
            _ => before,
        }
    }
}

/// The oddities that are on record, in order.
pub open spec fn noted(records: Seq<EmissionRecord<Seq<char>>>) -> Seq<Seq<char>>
    decreases records.len(),
{
    if records.len() == 0 {
        Seq::empty()
    } else {
        let before = noted(records.drop_last());
        match records.last() {
            EmissionRecord::Anomaly { note, .. } => before.push(note),
            _ => before,
        }
    }
}

/// The text of the reply that a terminal shows of these records.
pub open spec fn shown_text(records: Seq<EmissionRecord<Seq<char>>>) -> Seq<char>
    decreases records.len(),
{
    if records.len() == 0 {
        Seq::empty()
    } else {
        let before = shown_text(records.drop_last());
        match ports::shown(records.last()) {
            Shown::Reply(t) => before + t,
            _ => before,
        }
    }
}

/// A fault that was put on record when an installment was rejected for it.
pub open spec fn is_rejection(
    records: Seq<EmissionRecord<Seq<char>>>,
    fault: DriverFault<Seq<char>>,
) -> bool {
    exists|i: int|
        0 <= i < records.len() && (#[trigger] records[i]
            matches EmissionRecord::NormalizationError { detail, .. } && fault
            == DriverFault::Protocol(detail))
}

/// How an attempt may end when its machine gathered `fed` and these records
/// were made: a commit is the machine's verdict; a fault is the machine's, or
/// that of a rejected installment, which then is on record; a cut is the
/// wire's.
pub open spec fn ends_truly(
    fed: Gathered,
    records: Seq<EmissionRecord<Seq<char>>>,
    end: AttemptEnd<Seq<char>>,
) -> bool {
    match end {
        AttemptEnd::Complete(TurnResolution::Committed(o)) => fed.verdict(EndCause::StreamEnded)
            == Ok::<_, DriverFault<Seq<char>>>(o),
        AttemptEnd::Complete(TurnResolution::Fault(f)) => {
            ||| fed.verdict(EndCause::StreamEnded) == Err::<ChatOutcome<Seq<char>>, _>(f)
            ||| fed.verdict(EndCause::HandlerAbort) == Err::<ChatOutcome<Seq<char>>, _>(f)
            ||| is_rejection(records, f)
        },
        AttemptEnd::Wire(_) => true,
    }
}

/// A step from `st` puts every event on record that the machine takes in, and
/// no other: the machine it leaves is the one it found, fed with what it
/// recorded. A step that ends the attempt ends it truly, puts every oddity that
/// the machine found on record, and leaves no machine behind.
pub open spec fn keeps_testimony(st: StreamFacts, s: Step) -> bool {
    let fed = st.machine.after_all(recorded(s.records));
    match s.end {
        None => s.st.machine == fed && noted(s.records) == Seq::<Seq<char>>::empty(),
        Some(e) => {
            &&& s.st.machine == Gathered::nothing()
            &&& noted(s.records) == fed.anomalies
            &&& ends_truly(fed, s.records, e)
        },
    }
}

// ---- helpers --------------------------------------------------------------

proof fn lemma_concat(a: Seq<EmissionRecord<Seq<char>>>, b: Seq<EmissionRecord<Seq<char>>>)
    ensures
        recorded(a + b) == recorded(a) + recorded(b),
        noted(a + b) == noted(a) + noted(b),
    decreases b.len(),
{
    if b.len() == 0 {
        assert(a + b =~= a);
        assert(recorded(a) + recorded(b) =~= recorded(a));
        assert(noted(a) + noted(b) =~= noted(a));
    } else {
        lemma_concat(a, b.drop_last());
        assert((a + b).drop_last() =~= a + b.drop_last());
        assert((a + b).last() == b.last());
        assert(recorded(a + b) =~= recorded(a) + recorded(b));
        assert(noted(a + b) =~= noted(a) + noted(b));
    }
}

/// None of these records is an event or an oddity.
spec fn is_silent(records: Seq<EmissionRecord<Seq<char>>>) -> bool {
    forall|i: int|
        0 <= i < records.len() ==> !(#[trigger] records[i] is NormalizedEvent) && !(
        records[i] is Anomaly)
}

proof fn lemma_silence(records: Seq<EmissionRecord<Seq<char>>>)
    requires
        is_silent(records),
    ensures
        recorded(records) == Seq::<DriverEvent<Seq<char>>>::empty(),
        noted(records) == Seq::<Seq<char>>::empty(),
    decreases records.len(),
{
    if records.len() > 0 {
        lemma_silence(records.drop_last());
        let last = records[records.len() - 1];
        assert(!(last is NormalizedEvent) && !(last is Anomaly));
    }
}

proof fn lemma_events_recorded(st: StreamFacts, seq: u64, evs: Seq<DriverEvent<Seq<char>>>)
    ensures
        recorded(event_handler::event_records(st, seq, evs)) == evs,
        noted(event_handler::event_records(st, seq, evs)) == Seq::<Seq<char>>::empty(),
    decreases evs.len(),
{
    let records = event_handler::event_records(st, seq, evs);
    if evs.len() > 0 {
        lemma_events_recorded(st, seq, evs.drop_last());
        assert(records.drop_last() =~= event_handler::event_records(st, seq, evs.drop_last()));
        assert(evs =~= evs.drop_last().push(evs.last()));
    } else {
        assert(evs =~= Seq::empty());
    }
}

proof fn lemma_oddities_noted(st: StreamFacts)
    ensures
        recorded(event_handler::anomaly_records(st)) == Seq::<DriverEvent<Seq<char>>>::empty(),
        noted(event_handler::anomaly_records(st)) == st.machine.anomalies,
    decreases st.machine.anomalies.len(),
{
    let records = event_handler::anomaly_records(st);
    let notes = st.machine.anomalies;
    if notes.len() > 0 {
        let fewer = StreamFacts {
            machine: Gathered { anomalies: notes.drop_last(), ..st.machine },
            ..st
        };
        lemma_oddities_noted(fewer);
        assert(records.drop_last() =~= event_handler::anomaly_records(fewer));
        assert(notes =~= notes.drop_last().push(notes.last()));
    } else {
        assert(notes =~= Seq::empty());
    }
}

proof fn lemma_after_all_concat(
    g: Gathered,
    a: Seq<DriverEvent<Seq<char>>>,
    b: Seq<DriverEvent<Seq<char>>>,
)
    ensures
        g.after_all(a + b) == g.after_all(a).after_all(b),
    decreases b.len(),
{
    if b.len() == 0 {
        assert(a + b =~= a);
    } else {
        lemma_after_all_concat(g, a, b.drop_last());
        assert((a + b).drop_last() =~= a + b.drop_last());
        assert((a + b).last() == b.last());
    }
}

proof fn lemma_refinement_keeps_testimony<F: Fn(&str) -> Result<Chunk, String>>(
    decode: F,
    a: AttemptFacts,
    st: StreamFacts,
    ev: SseEvent<Seq<char>, Seq<u8>>,
    r: Refinement,
)
    requires
        attempt::frame_refines(decode, a, st, ev, r),
        ev.payload is Data,
    ensures
        r.st.machine == st.machine.after_all(recorded(r.records)),
        noted(r.records) == Seq::<Seq<char>>::empty(),
        r.result matches Err(f) ==> is_rejection(r.records, f),
{
    let seq = a.inst_seq.wrapping_add(1);
    let d = ev.payload->Data_0;
    let n = choose|n| #[trigger]
        event_handler::normalizes(decode, d, n) && r == event_handler::refined(st, seq, n);
    match n {
        Ok(norm) if norm.multiple_choices is None => {
            let notes = event_handler::channel_notes(st, norm.unhandled_channels);
            let events = event_handler::event_records(st, seq, norm.events);
            lemma_silence(notes);
            lemma_events_recorded(st, seq, norm.events);
            lemma_concat(notes, events);
            assert(recorded(r.records) =~= norm.events);
            assert(noted(r.records) =~= Seq::empty());
        },
        _ => {
            lemma_silence(r.records);
            assert(r.records[0] is NormalizationError);
        },
    }
}

/// What a completion adds to `records`: no event, and every oddity.
proof fn lemma_completion_keeps_testimony(
    a: AttemptFacts,
    st: StreamFacts,
    records: Seq<EmissionRecord<Seq<char>>>,
    cause: StreamEndCause<Seq<char>>,
    how: EndCause,
)
    requires
        noted(records) == Seq::<Seq<char>>::empty(),
    ensures
        ({
            let s = attempt::completion(a, st, records, cause, how);
            &&& recorded(s.records) == recorded(records)
            &&& noted(s.records) == st.machine.anomalies
        }),
{
    let end = seq![attempt::end_record(st, cause, a.pending.len() as usize)];
    let odd = event_handler::anomaly_records(st);
    lemma_silence(end);
    lemma_oddities_noted(st);
    lemma_concat(records, end);
    lemma_concat(records + end, odd);
    assert(recorded(records + end + odd) =~= recorded(records));
    assert(noted(records + end + odd) =~= st.machine.anomalies);
}

proof fn lemma_frame_keeps_testimony<F: Fn(&str) -> Result<Chunk, String>>(
    decode: F,
    a: AttemptFacts,
    st: StreamFacts,
    stamp: ReadStamp,
    ev: SseEvent<Seq<char>, Seq<u8>>,
    r: Refinement,
)
    requires
        attempt::frame_refines(decode, a, st, ev, r),
    ensures
        keeps_testimony(st, attempt::frame_step(a, st, stamp, ev, r)),
{
    let s = attempt::frame_step(a, st, stamp, ev, r);
    if let SsePayload::Data(d) = ev.payload {
        lemma_refinement_keeps_testimony(decode, a, st, ev, r);
        let before = attempt::data_records(a, st, stamp, d, ev.raw_byte_len);
        let records = before + r.records;
        lemma_silence(before);
        lemma_concat(before, r.records);
        assert(recorded(records) =~= recorded(r.records));
        assert(noted(records) =~= Seq::empty());
        let told = AttemptFacts {
            inst_seq: a.inst_seq.wrapping_add(1),
            span_start: a.read_seq,
            ttft_emitted: true,
            ..a
        };
        match r.result {
            Ok(FlowDirective::Continue) => {},
            Ok(FlowDirective::StopComplete) => {
                lemma_completion_keeps_testimony(
                    told,
                    r.st,
                    records,
                    StreamEndCause::DoneSentinelConsumed,
                    EndCause::StreamEnded,
                );
            },
            Ok(FlowDirective::Abort) => {
                lemma_completion_keeps_testimony(
                    told,
                    r.st,
                    records,
                    StreamEndCause::HandlerDirected { directive: "abort"@ },
                    EndCause::HandlerAbort,
                );
            },
            Err(f) => {
                lemma_completion_keeps_testimony(
                    told,
                    r.st,
                    records,
                    StreamEndCause::HandlerDirected { directive: "protocol_error"@ },
                    EndCause::HandlerAbort,
                );
                lemma_rejection_carries_over(before, r.records, f);
                let rest = s.records.skip(records.len() as int);
                assert(s.records =~= records + rest);
                lemma_rejection_stays(records, rest, f);
            },
        }
    } else {
        lemma_silence(s.records);
    }
}

proof fn lemma_rejection_carries_over(
    a: Seq<EmissionRecord<Seq<char>>>,
    b: Seq<EmissionRecord<Seq<char>>>,
    f: DriverFault<Seq<char>>,
)
    requires
        is_rejection(b, f),
    ensures
        is_rejection(a + b, f),
{
    let i = choose|i: int|
        0 <= i < b.len() && (#[trigger] b[i] matches EmissionRecord::NormalizationError { detail, .. }
            && f == DriverFault::Protocol(detail));
    assert((a + b)[a.len() + i] == b[i]);
}

proof fn lemma_rejection_stays(
    a: Seq<EmissionRecord<Seq<char>>>,
    b: Seq<EmissionRecord<Seq<char>>>,
    f: DriverFault<Seq<char>>,
)
    requires
        is_rejection(a, f),
    ensures
        is_rejection(a + b, f),
{
    let i = choose|i: int|
        0 <= i < a.len() && (#[trigger] a[i] matches EmissionRecord::NormalizationError { detail, .. }
            && f == DriverFault::Protocol(detail));
    assert((a + b)[i] == a[i]);
}

/// Two steps after each other, the first of which does not end the attempt,
/// keep testimony together if each does.
pub proof fn lemma_testimony_adds_up(st: StreamFacts, first: Step, second: Step)
    requires
        first.end is None,
        keeps_testimony(st, first),
        keeps_testimony(first.st, second),
    ensures
        keeps_testimony(st, (Step { records: first.records + second.records, ..second })),
{
    lemma_concat(first.records, second.records);
    lemma_after_all_concat(st.machine, recorded(first.records), recorded(second.records));
    assert(noted(first.records + second.records) =~= noted(second.records));
    if let Some(AttemptEnd::Complete(TurnResolution::Fault(f))) = second.end {
        if is_rejection(second.records, f) {
            lemma_rejection_carries_over(first.records, second.records, f);
        }
    }
}

proof fn lemma_frames_keep_testimony<F: Fn(&str) -> Result<Chunk, String>>(
    decode: F,
    a: AttemptFacts,
    st: StreamFacts,
    stamp: ReadStamp,
    evs: Seq<SseEvent<Seq<char>, Seq<u8>>>,
    rs: Seq<Refinement>,
    n: int,
)
    requires
        attempt::frames_refine(decode, a, st, stamp, evs, rs),
        0 <= n <= rs.len(),
    ensures
        keeps_testimony(st, attempt::frames_run(a, st, stamp, evs.take(n), rs.take(n))),
    decreases n,
{
    if n > 0 {
        lemma_frames_keep_testimony(decode, a, st, stamp, evs, rs, n - 1);
        assert(evs.take(n).drop_last() =~= evs.take(n - 1));
        assert(rs.take(n).drop_last() =~= rs.take(n - 1));
        let before = attempt::frames_run(a, st, stamp, evs.take(n - 1), rs.take(n - 1));
        assert(attempt::frame_fits(decode, a, st, stamp, evs, rs, n - 1));
        lemma_frame_keeps_testimony(decode, before.a, before.st, stamp, evs[n - 1], rs[n - 1]);
        let last = attempt::frame_step(before.a, before.st, stamp, evs[n - 1], rs[n - 1]);
        lemma_testimony_adds_up(st, before, last);
    }
}

/// What a cut adds to `records`, which hold no event: every oddity.
proof fn lemma_abandoning_keeps_testimony(
    st: StreamFacts,
    records: Seq<EmissionRecord<Seq<char>>>,
    odd: Seq<EmissionRecord<Seq<char>>>,
)
    requires
        is_silent(records),
        odd == event_handler::anomaly_records(st),
    ensures
        recorded(records + odd) == Seq::<DriverEvent<Seq<char>>>::empty(),
        noted(records + odd) == st.machine.anomalies,
{
    lemma_silence(records);
    lemma_oddities_noted(st);
    lemma_concat(records, odd);
    assert(recorded(records + odd) =~= Seq::empty());
    assert(noted(records + odd) =~= st.machine.anomalies);
}

// ---- laws -----------------------------------------------------------------

/// Every read keeps testimony: what its frames feed the machine is on record.
pub proof fn lemma_reads_keep_testimony<F: Fn(&str) -> Result<Chunk, String>>(
    decode: F,
    a: AttemptFacts,
    st: StreamFacts,
    chunk: Seq<u8>,
    stamp: ReadStamp,
    s: Step,
)
    requires
        attempt::reads(decode, a, st, chunk, stamp, s),
    ensures
        keeps_testimony(st, s),
{
    if a.overflows(chunk) {
        lemma_abandoning_keeps_testimony(
            st.one_read(),
            s.records.take(2),
            event_handler::anomaly_records(st.one_read()),
        );
        assert(s.records =~= s.records.take(2) + event_handler::anomaly_records(st.one_read()));
    } else {
        let evs = sse::events_of(sse::frames(a.pending + chunk));
        let a1 = a.after_read(chunk);
        let st1 = st.one_read();
        let rs = choose|rs: Seq<Refinement>| #[trigger]
            attempt::frames_handled(decode, a1, st1, stamp, evs, rs) && s == attempt::read_step(
                a,
                st,
                chunk,
                stamp,
                rs,
            );
        let n = rs.len() as int;
        lemma_frames_keep_testimony(decode, a1, st1, stamp, evs, rs, n);
        assert(rs.take(n) =~= rs);
        let run = attempt::frames_run(a1, st1, stamp, evs.take(n), rs);
        let head = Step {
            a: a1,
            st: st1,
            records: seq![attempt::read_record(a, st, chunk.len() as usize, stamp)],
            end: None,
        };
        lemma_silence(head.records);
        lemma_testimony_adds_up(st, head, run);
        assert(s == (Step { records: head.records + run.records, ..run }));
    }
}

/// A throughput tick keeps testimony: it feeds the machine nothing, and
/// records no event.
pub proof fn lemma_ticks_keep_testimony(
    a: AttemptFacts,
    st: StreamFacts,
    t: Tick,
    bytes_per_sec: u64,
    active_streams: u64,
)
    ensures
        keeps_testimony(st, attempt::tick_step(a, st, t, bytes_per_sec, active_streams)),
{
    let s = attempt::tick_step(a, st, t, bytes_per_sec, active_streams);
    let odd = event_handler::anomaly_records(st);
    if s.end is Some {
        lemma_abandoning_keeps_testimony(st, s.records.take(2), odd);
        assert(s.records =~= s.records.take(2) + odd);
    } else {
        lemma_silence(s.records);
    }
}

/// A cut at the wire keeps testimony: whatever the machine had found odd comes
/// on record.
pub proof fn lemma_cuts_keep_testimony(
    a: AttemptFacts,
    st: StreamFacts,
    ev: WireEvent<Seq<char>>,
)
    ensures
        keeps_testimony(st, attempt::cut_step(a, st, ev)),
{
    lemma_abandoning_keeps_testimony(
        st,
        attempt::cut_records(a, st, ev),
        event_handler::anomaly_records(st),
    );
}

/// When the peer closes, testimony is kept too: a recovered tail is on record
/// like any other installment.
pub proof fn lemma_closing_keeps_testimony<F: Fn(&str) -> Result<Chunk, String>>(
    decode: F,
    a: AttemptFacts,
    st: StreamFacts,
    r: Refinement,
)
    requires
        attempt::tail_refines(decode, a, st, r),
    ensures
        keeps_testimony(st, attempt::close_step(a, st, r)),
{
    let tail = attempt::tail_step(a, st, r);
    let s = attempt::close_step(a, st, r);
    match sse::block_event(a.pending) {
        Some(ev) if ev.payload is Data => {
            lemma_refinement_keeps_testimony(decode, a, st, ev, r);
            let first = tail.records.take(1);
            lemma_silence(first);
            lemma_concat(first, r.records);
            assert(tail.records =~= first + r.records);
            assert(recorded(tail.records) =~= recorded(r.records));
            assert(noted(tail.records) =~= Seq::empty());
        },
        _ => {
            lemma_silence(tail.records);
        },
    }
    let end = seq![attempt::end_record(tail.st, attempt::close_cause(tail.st), 0)];
    let odd = event_handler::anomaly_records(tail.st);
    let so_far = tail.records + end + odd;
    let note = s.records.skip(so_far.len() as int);
    lemma_silence(end);
    lemma_oddities_noted(tail.st);
    assert(s.records =~= so_far + note);
    lemma_silence(note);
    lemma_concat(tail.records, end);
    lemma_concat(tail.records + end, odd);
    lemma_concat(so_far, note);
    assert(recorded(s.records) =~= recorded(tail.records));
    assert(noted(s.records) =~= tail.st.machine.anomalies);
}

/// The text that a terminal shows of records is the text of the events on
/// record.
pub proof fn lemma_shown_text_is_recorded_text(records: Seq<EmissionRecord<Seq<char>>>)
    ensures
        shown_text(records) == machine::delta_text(recorded(records)),
    decreases records.len(),
{
    if records.len() > 0 {
        let before = records.drop_last();
        lemma_shown_text_is_recorded_text(before);
        match records.last() {
            EmissionRecord::NormalizedEvent { event, .. } => {
                assert(recorded(records).drop_last() =~= recorded(before));
                assert(recorded(records).last() == event);
            },
            _ => {},
        }
    }
}

} // verus!
