//! What holds of every attempt, whatever happens on its wire.

use crate::attempt;
use crate::attempt::{AttemptFacts, ReadStamp, Step, WireEvent};
use crate::emission::{EmissionRecord, StreamEndCause, WireNote};
use crate::event_handler;
use crate::event_handler::{Chunk, Refinement, StreamFacts, TurnResolution};
use crate::liveness::Tick;
use crate::machine::{EndCause, Gathered};
use crate::openai::{AttemptEnd, BodyRead};
use crate::sse;
use crate::sse::{SseEvent, SsePayload};
use vstd::prelude::*;

verus! {

/// None of these records says that a stream ended.
pub open spec fn marks_no_end(records: Seq<EmissionRecord<Seq<char>>>) -> bool {
    forall|i: int| 0 <= i < records.len() ==> !(#[trigger] records[i] is StreamEnd)
}

/// Record `i`, and no other, says that the stream ended.
pub open spec fn marks_end_at(records: Seq<EmissionRecord<Seq<char>>>, i: int) -> bool {
    &&& 0 <= i < records.len()
    &&& records[i] is StreamEnd
    &&& forall|j: int| 0 <= j < records.len() && j != i ==> !(#[trigger] records[j] is StreamEnd)
}

/// A step of the stream `st` that ends its attempt says so exactly once, under
/// the attempt's own label, and with the cause where the wire was it. A step
/// that does not end the attempt never says so.
pub open spec fn marks_its_end(
    st: StreamFacts,
    records: Seq<EmissionRecord<Seq<char>>>,
    end: Option<AttemptEnd<Seq<char>>>,
) -> bool {
    match end {
        None => marks_no_end(records),
        Some(e) => exists|i: int| #[trigger]
            marks_end_at(records, i) && ends_as(st, records[i], e),
    }
}

/// Causes that go with a completed attempt: the sentinel, the peer's closing
/// with content or without, or the handler's word.
pub open spec fn is_completion_cause(c: StreamEndCause<Seq<char>>) -> bool {
    c is DoneSentinelConsumed || c is PeerClosed || c is ClosedWithNoContent
        || c is HandlerDirected
}

/// `rec` says of the attempt under way in `st` that it ended, and for which
/// cause: the wire's own if the wire ended it, and one that goes with a
/// completion if it was completed.
pub open spec fn ends_as(
    st: StreamFacts,
    rec: EmissionRecord<Seq<char>>,
    e: AttemptEnd<Seq<char>>,
) -> bool {
    &&& rec matches EmissionRecord::StreamEnd { stream, attempt, cause, .. }
    &&& stream == st.stream_id
    &&& attempt == st.attempt
    &&& match e {
        AttemptEnd::Wire(c) => cause == c,
        AttemptEnd::Complete(_) => is_completion_cause(cause),
    }
}

/// None of these records belongs to a turn as a whole: they hold no ledger
/// entry and no trailer.
pub open spec fn leaves_turn_alone(records: Seq<EmissionRecord<Seq<char>>>) -> bool {
    forall|i: int|
        0 <= i < records.len() ==> !(#[trigger] records[i] is Ledger) && !(
        records[i] is TurnTrailer)
}

/// A step of an attempt marks its end, keeps the attempt's label, and leaves
/// what belongs to the turn alone.
pub open spec fn is_orderly(st: StreamFacts, s: Step) -> bool {
    &&& marks_its_end(st, s.records, s.end)
    &&& s.st.stream_id == st.stream_id
    &&& s.st.attempt == st.attempt
    &&& leaves_turn_alone(s.records)
}

proof fn lemma_completion_is_orderly(
    a: AttemptFacts,
    st: StreamFacts,
    records: Seq<EmissionRecord<Seq<char>>>,
    cause: StreamEndCause<Seq<char>>,
    how: EndCause,
    res: TurnResolution<Seq<char>>,
)
    requires
        marks_no_end(records),
        leaves_turn_alone(records),
        is_completion_cause(cause),
    ensures
        ({
            let s = attempt::completion(a, st, records, cause, how);
            is_orderly(st, s) && is_orderly(
                st,
                (Step { end: Some(AttemptEnd::Complete(res)), ..s }),
            )
        }),
{
    let s = attempt::completion(a, st, records, cause, how);
    let i = records.len() as int;
    let odd = event_handler::anomaly_records(st);
    assert forall|j: int| 0 <= j < s.records.len() && j != i implies !(
    #[trigger] s.records[j] is StreamEnd) && !(s.records[j] is Ledger) && !(
    s.records[j] is TurnTrailer) by {
        if j < i {
            assert(s.records[j] == records[j]);
        } else {
            assert(s.records[j] == odd[j - i - 1]);
        }
    }
    assert(marks_end_at(s.records, i));
}

proof fn lemma_refinement_is_orderly<F: Fn(&str) -> Result<Chunk, String>>(
    decode: F,
    a: AttemptFacts,
    st: StreamFacts,
    ev: SseEvent<Seq<char>, Seq<u8>>,
    r: Refinement,
)
    requires
        attempt::frame_refines(decode, a, st, ev, r),
        ev.payload is Data,
    ensures
        marks_no_end(r.records),
        leaves_turn_alone(r.records),
        r.st.stream_id == st.stream_id,
        r.st.attempt == st.attempt,
{
}

proof fn lemma_frame_is_orderly<F: Fn(&str) -> Result<Chunk, String>>(
    decode: F,
    a: AttemptFacts,
    st: StreamFacts,
    stamp: ReadStamp,
    ev: SseEvent<Seq<char>, Seq<u8>>,
    r: Refinement,
)
    requires
        attempt::frame_refines(decode, a, st, ev, r),
    ensures
        is_orderly(st, attempt::frame_step(a, st, stamp, ev, r)),
{
    if let SsePayload::Data(d) = ev.payload {
        lemma_refinement_is_orderly(decode, a, st, ev, r);
        let before = attempt::data_records(a, st, stamp, d, ev.raw_byte_len);
        let records = before + r.records;
        assert(marks_no_end(before));
        assert(leaves_turn_alone(before));
        assert forall|i: int| 0 <= i < records.len() implies !(
        #[trigger] records[i] is StreamEnd) && !(records[i] is Ledger) && !(
        records[i] is TurnTrailer) by {
            if i < before.len() {
                assert(records[i] == before[i]);
            } else {
                assert(records[i] == r.records[i - before.len()]);
            }
        }
        let told = AttemptFacts {
            inst_seq: a.inst_seq.wrapping_add(1),
            span_start: a.read_seq,
            ttft_emitted: true,
            ..a
        };
        let res = match r.result {
            Err(f) => TurnResolution::Fault(f),
            Ok(_) => event_handler::resolution(r.st.machine.verdict(EndCause::StreamEnded)),
        };
        lemma_completion_is_orderly(
            told,
            r.st,
            records,
            StreamEndCause::DoneSentinelConsumed,
            EndCause::StreamEnded,
            res,
        );
        lemma_completion_is_orderly(
            told,
            r.st,
            records,
            StreamEndCause::HandlerDirected { directive: "abort"@ },
            EndCause::HandlerAbort,
            res,
        );
        lemma_completion_is_orderly(
            told,
            r.st,
            records,
            StreamEndCause::HandlerDirected { directive: "protocol_error"@ },
            EndCause::HandlerAbort,
            res,
        );
        lemma_label_decides(r.st, st, attempt::frame_step(a, st, stamp, ev, r));
    }
}

/// Only the label of a stream matters to whether a step is orderly.
proof fn lemma_label_decides(st: StreamFacts, other: StreamFacts, s: Step)
    requires
        st.stream_id == other.stream_id,
        st.attempt == other.attempt,
    ensures
        is_orderly(st, s) ==> is_orderly(other, s),
{
    if is_orderly(st, s) {
        if let Some(e) = s.end {
            let i = choose|i: int| #[trigger]
                marks_end_at(s.records, i) && ends_as(st, s.records[i], e);
            assert(ends_as(other, s.records[i], e));
        }
    }
}

/// Two steps after each other, the first of which does not end the attempt,
/// are orderly together if each is.
pub proof fn lemma_order_adds_up(st: StreamFacts, first: Step, second: Step)
    requires
        first.end is None,
        is_orderly(st, first),
        is_orderly(first.st, second),
    ensures
        is_orderly(st, (Step { records: first.records + second.records, ..second })),
{
    let all = first.records + second.records;
    let n = first.records.len() as int;
    assert forall|j: int| 0 <= j < n implies #[trigger] all[j] == first.records[j] by {}
    assert forall|j: int| n <= j < all.len() implies #[trigger] all[j] == second.records[j - n] by {}
    assert(leaves_turn_alone(all)) by {
        assert forall|i: int| 0 <= i < all.len() implies !(#[trigger] all[i] is Ledger) && !(
        all[i] is TurnTrailer) by {
            if i < n {
                assert(all[i] == first.records[i]);
            } else {
                assert(all[i] == second.records[i - n]);
            }
        }
    }
    match second.end {
        None => {
            assert(marks_no_end(all));
        },
        Some(e) => {
            let i = choose|i: int| #[trigger]
                marks_end_at(second.records, i) && ends_as(first.st, second.records[i], e);
            assert(all[n + i] == second.records[i]);
            assert(marks_end_at(all, n + i));
            assert(ends_as(st, all[n + i], e));
        },
    }
}

proof fn lemma_frames_are_orderly<F: Fn(&str) -> Result<Chunk, String>>(
    decode: F,
    a: AttemptFacts,
    st: StreamFacts,
    stamp: ReadStamp,
    evs: Seq<SseEvent<Seq<char>, Seq<u8>>>,
    rs: Seq<Refinement>,
    n: int,
)
    requires
        attempt::frames_refine(decode, a, st, stamp, evs, rs),
        0 <= n <= rs.len(),
    ensures
        is_orderly(st, attempt::frames_run(a, st, stamp, evs.take(n), rs.take(n))),
    decreases n,
{
    if n > 0 {
        lemma_frames_are_orderly(decode, a, st, stamp, evs, rs, n - 1);
        assert(evs.take(n).drop_last() =~= evs.take(n - 1));
        assert(rs.take(n).drop_last() =~= rs.take(n - 1));
        let before = attempt::frames_run(a, st, stamp, evs.take(n - 1), rs.take(n - 1));
        assert(attempt::frame_fits(decode, a, st, stamp, evs, rs, n - 1));
        lemma_frame_is_orderly(decode, before.a, before.st, stamp, evs[n - 1], rs[n - 1]);
        let last = attempt::frame_step(before.a, before.st, stamp, evs[n - 1], rs[n - 1]);
        lemma_order_adds_up(st, before, last);
    }
}

/// Every read is orderly: if it ends the attempt, that is on record exactly
/// once.
pub proof fn lemma_reads_are_orderly<F: Fn(&str) -> Result<Chunk, String>>(
    decode: F,
    a: AttemptFacts,
    st: StreamFacts,
    chunk: Seq<u8>,
    stamp: ReadStamp,
    s: Step,
)
    requires
        attempt::reads(decode, a, st, chunk, stamp, s),
    ensures
        is_orderly(st, s),
{
    if a.overflows(chunk) {
        let odd = event_handler::anomaly_records(st.one_read());
        assert forall|j: int| 2 <= j < s.records.len() implies #[trigger] s.records[j] == odd[j
            - 2] by {}
        assert(marks_end_at(s.records, 1));
    } else {
        let evs = sse::events_of(sse::frames(a.pending + chunk));
        let a1 = a.after_read(chunk);
        let st1 = st.one_read();
        let rs = choose|rs: Seq<Refinement>| #[trigger]
            attempt::frames_handled(decode, a1, st1, stamp, evs, rs) && s == attempt::read_step(
                a,
                st,
                chunk,
                stamp,
                rs,
            );
        let n = rs.len() as int;
        lemma_frames_are_orderly(decode, a1, st1, stamp, evs, rs, n);
        assert(rs.take(n) =~= rs);
        let run = attempt::frames_run(a1, st1, stamp, evs.take(n), rs);
        let head = Step {
            a: a1,
            st: st1,
            records: seq![attempt::read_record(a, st, chunk.len() as usize, stamp)],
            end: None,
        };
        lemma_order_adds_up(st, head, run);
        assert(s == (Step { records: head.records + run.records, ..run }));
    }
}

/// Every throughput tick is orderly.
pub proof fn lemma_ticks_are_orderly(
    a: AttemptFacts,
    st: StreamFacts,
    t: Tick,
    bytes_per_sec: u64,
    active_streams: u64,
)
    ensures
        is_orderly(st, attempt::tick_step(a, st, t, bytes_per_sec, active_streams)),
{
    let s = attempt::tick_step(a, st, t, bytes_per_sec, active_streams);
    if s.end is Some {
        let odd = event_handler::anomaly_records(st);
        assert forall|j: int| 2 <= j < s.records.len() implies #[trigger] s.records[j] == odd[j
            - 2] by {}
        assert(marks_end_at(s.records, 1));
    }
}

/// Every cut at the wire is orderly: it is on record exactly once, with its
/// cause.
pub proof fn lemma_cuts_are_orderly(a: AttemptFacts, st: StreamFacts, ev: WireEvent<Seq<char>>)
    ensures
        is_orderly(st, attempt::cut_step(a, st, ev)),
{
    let cut = attempt::cut_records(a, st, ev);
    let odd = event_handler::anomaly_records(st);
    let s = attempt::cut_step(a, st, ev);
    let n = cut.len() as int;
    assert forall|j: int| 0 <= j < n implies #[trigger] s.records[j] == cut[j] by {}
    assert forall|j: int| n <= j < s.records.len() implies #[trigger] s.records[j] == odd[j - n] by {}
    assert(marks_end_at(s.records, n - 1));
}

/// The peer's closing is orderly.
pub proof fn lemma_closing_is_orderly<F: Fn(&str) -> Result<Chunk, String>>(
    decode: F,
    a: AttemptFacts,
    st: StreamFacts,
    r: Refinement,
)
    requires
        attempt::tail_refines(decode, a, st, r),
    ensures
        is_orderly(st, attempt::close_step(a, st, r)),
{
    let tail = attempt::tail_step(a, st, r);
    let s = attempt::close_step(a, st, r);
    if let Some(ev) = sse::block_event(a.pending) {
        if ev.payload is Data {
            lemma_refinement_is_orderly(decode, a, st, ev, r);
            assert forall|i: int| 0 <= i < tail.records.len() implies !(
            #[trigger] tail.records[i] is StreamEnd) && !(tail.records[i] is Ledger) && !(
            tail.records[i] is TurnTrailer) by {
                if i > 0 {
                    assert(tail.records[i] == r.records[i - 1]);
                }
            }
        }
    }
    assert(marks_no_end(tail.records));
    assert(leaves_turn_alone(tail.records));
    let n = tail.records.len() as int;
    let odd = event_handler::anomaly_records(tail.st);
    assert forall|j: int| 0 <= j < s.records.len() && j != n implies !(
    #[trigger] s.records[j] is StreamEnd) && !(s.records[j] is Ledger) && !(
    s.records[j] is TurnTrailer) by {
        if j < n {
            assert(s.records[j] == tail.records[j]);
        } else if j <= n + odd.len() {
            assert(s.records[j] == odd[j - n - 1]);
        }
    }
    assert(marks_end_at(s.records, n));
}

/// A sentinel is reported missing exactly when it is: where the machine
/// commits although none arrived.
pub proof fn lemma_missing_sentinel_is_noted(a: AttemptFacts, st: StreamFacts, r: Refinement)
    ensures
        ({
            let tail = attempt::tail_step(a, st, r);
            let s = attempt::close_step(a, st, r);
            let missing = attempt::wire_record(tail.st, WireNote::EofWithoutDoneSentinel);
            let commits = s.end matches Some(AttemptEnd::Complete(TurnResolution::Committed(_)));
            if commits && !tail.st.machine.saw_done {
                s.records.last() == missing
            } else {
                s.records == tail.records + seq![
                    attempt::end_record(tail.st, attempt::close_cause(tail.st), 0),
                ] + event_handler::anomaly_records(tail.st)
            }
        }),
{
    let tail = attempt::tail_step(a, st, r);
    let s = attempt::close_step(a, st, r);
    let bare = tail.records + seq![
        attempt::end_record(tail.st, attempt::close_cause(tail.st), 0),
    ] + event_handler::anomaly_records(tail.st);
    assert(bare + Seq::<EmissionRecord<Seq<char>>>::empty() =~= bare);
    assert(s.records.take(bare.len() as int) =~= bare);
}

/// A body that was no event stream survives whole as evidence, and so does
/// that of an HTTP error. Neither is ever framed.
pub proof fn lemma_foreign_bodies_survive(
    a: AttemptFacts,
    status: u16,
    content_type: Seq<char>,
    body: Seq<char>,
)
    ensures
        a.cut_cause(WireEvent::HttpError { status, body: BodyRead::Text(body) })
            == (StreamEndCause::HttpError { status, body }),
        a.cut_cause(WireEvent::ForeignBody { content_type, body: BodyRead::Text(body) })
            == (StreamEndCause::NotAnEventStream { content_type, body_prefix: body }),
{
}

/// A cut leaves a stream that has gathered nothing as it was, and adds nothing
/// to the record of the cut.
pub proof fn lemma_early_cuts_change_nothing(
    a: AttemptFacts,
    st: StreamFacts,
    ev: WireEvent<Seq<char>>,
)
    requires
        st.machine == Gathered::nothing(),
    ensures
        attempt::cut_step(a, st, ev).st == st,
        attempt::cut_step(a, st, ev).records == attempt::cut_records(a, st, ev),
{
    assert(attempt::cut_step(a, st, ev).records =~= attempt::cut_records(a, st, ev));
}

/// Whatever a frame is, the first thing on record of it is the frame itself:
/// nothing on the wire is silently eaten.
pub proof fn lemma_every_frame_is_recorded(
    a: AttemptFacts,
    st: StreamFacts,
    stamp: ReadStamp,
    ev: SseEvent<Seq<char>, Seq<u8>>,
    r: Refinement,
)
    ensures
        ({
            let s = attempt::frame_step(a, st, stamp, ev, r);
            s.records.len() > 0 && match ev.payload {
                SsePayload::Undecodable { raw, error } => s.records[0]
                    == attempt::undecodable_record(a, st, raw, error),
                SsePayload::Comment(c) => s.records[0]
                    matches EmissionRecord::Installment { payload, .. } && payload == c,
                SsePayload::Data(d) => s.records[0]
                    matches EmissionRecord::Installment { payload, .. } && payload == d,
            }
        }),
{
}

/// Bytes of text, and they alone, count as throughput: while an attempt goes
/// on, the window grows by exactly what the stream's text grows by.
pub proof fn lemma_throughput_is_text(
    a: AttemptFacts,
    st: StreamFacts,
    stamp: ReadStamp,
    evs: Seq<SseEvent<Seq<char>, Seq<u8>>>,
    rs: Seq<Refinement>,
)
    requires
        forall|k: int|
            0 <= k < rs.len() ==> (#[trigger] attempt::frames_run(
                a,
                st,
                stamp,
                evs.take(k),
                rs.take(k),
            )).end is None,
        rs.len() <= evs.len(),
    ensures
        ({
            let s = attempt::frames_run(a, st, stamp, evs.take(rs.len() as int), rs);
            s.end is None ==> s.a.window_bytes.wrapping_sub(s.st.content_bytes)
                == a.window_bytes.wrapping_sub(st.content_bytes)
        }),
    decreases rs.len(),
{
    let n = rs.len() as int;
    if n > 0 {
        let fewer = rs.drop_last();
        assert forall|k: int| 0 <= k < fewer.len() implies (#[trigger] attempt::frames_run(
            a,
            st,
            stamp,
            evs.take(k),
            fewer.take(k),
        )).end is None by {
            assert(fewer.take(k) =~= rs.take(k));
            assert(attempt::frames_run(a, st, stamp, evs.take(k), rs.take(k)).end is None);
        }
        lemma_throughput_is_text(a, st, stamp, evs, fewer);
        assert(fewer =~= rs.take(n - 1));
        assert(evs.take(n).drop_last() =~= evs.take(n - 1));
        assert(attempt::frames_run(a, st, stamp, evs.take(n - 1), rs.take(n - 1)).end is None);
    }
}

/// Comments are liveness, not throughput: a run of nothing but comments leaves
/// the window, and the stream itself, as they were. Such a stream starves.
pub proof fn lemma_comments_are_no_throughput(
    a: AttemptFacts,
    st: StreamFacts,
    stamp: ReadStamp,
    evs: Seq<SseEvent<Seq<char>, Seq<u8>>>,
    rs: Seq<Refinement>,
)
    requires
        forall|k: int| 0 <= k < evs.len() ==> (#[trigger] evs[k]).payload is Comment,
    ensures
        ({
            let s = attempt::frames_run(a, st, stamp, evs, rs);
            s.a.window_bytes == a.window_bytes && s.st == st && s.end is None
        }),
    decreases evs.len(),
{
    if evs.len() > 0 && rs.len() > 0 {
        lemma_comments_are_no_throughput(a, st, stamp, evs.drop_last(), rs.drop_last());
    }
}

/// The buffer is bounded: a read either leaves no more than the bound pending
/// or ends the attempt as an overflow.
pub proof fn lemma_buffer_is_bounded<F: Fn(&str) -> Result<Chunk, String>>(
    decode: F,
    a: AttemptFacts,
    st: StreamFacts,
    chunk: Seq<u8>,
    stamp: ReadStamp,
    s: Step,
)
    requires
        attempt::reads(decode, a, st, chunk, stamp, s),
    ensures
        s.a.pending.len() <= a.buf_limit || s.end == Some(
            AttemptEnd::Wire(
                StreamEndCause::<Seq<char>>::BufferOverflow { limit_bytes: a.buf_limit },
            ),
        ),
        s.a.buf_limit == a.buf_limit,
{
    if !a.overflows(chunk) {
        let evs = sse::events_of(sse::frames(a.pending + chunk));
        let rs = choose|rs: Seq<Refinement>| #[trigger]
            attempt::frames_handled(
                decode,
                a.after_read(chunk),
                st.one_read(),
                stamp,
                evs,
                rs,
            ) && s == attempt::read_step(a, st, chunk, stamp, rs);
        lemma_frames_keep_buffer(
            a.after_read(chunk),
            st.one_read(),
            stamp,
            evs.take(rs.len() as int),
            rs,
        );
    }
}

proof fn lemma_frames_keep_buffer(
    a: AttemptFacts,
    st: StreamFacts,
    stamp: ReadStamp,
    evs: Seq<SseEvent<Seq<char>, Seq<u8>>>,
    rs: Seq<Refinement>,
)
    ensures
        ({
            let s = attempt::frames_run(a, st, stamp, evs, rs);
            s.a.pending == a.pending && s.a.buf_limit == a.buf_limit
        }),
    decreases evs.len(),
{
    if evs.len() > 0 && rs.len() > 0 {
        lemma_frames_keep_buffer(a, st, stamp, evs.drop_last(), rs.drop_last());
    }
}

} // verus!
