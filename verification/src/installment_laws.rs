//! What holds of reads and of the frames in them, stated over what goes on
//! record and how it is numbered.

use crate::attempt;
use crate::attempt::{AttemptFacts, Limits, ReadStamp, Step};
use crate::driver::DriverFault;
use crate::emission::{EmissionRecord, InstallmentKind, InstallmentStatus, StreamEndCause,
    WireNote};
use crate::event_handler;
use crate::event_handler::{Chunk, FlowDirective, Refinement, StreamFacts, TurnResolution};
use crate::machine::EndCause;
use crate::openai::AttemptEnd;
use crate::refinement_laws;
use crate::sse;
use crate::sse::{SseEvent, SsePayload};
use crate::text;
use vstd::prelude::*;
use vstd::utf8::*;

verus! {

// ---- reads ----------------------------------------------------------------

/// An attempt begins with nothing read, nothing pending and no clock running,
/// under the bounds that it was given and a bound of one mebibyte on what may
/// be pending.
pub proof fn lemma_attempts_begin_with_nothing(limits: Limits)
    ensures
        ({
            let a = AttemptFacts::fresh(limits);
            &&& a.limits == limits
            &&& a.pending.len() == 0
            &&& a.buf_limit == 1024 * 1024
            &&& a.read_seq == 0
            &&& !a.first_byte_seen
            &&& a.inst_seq == 0
            &&& a.span_start == 1
            &&& !a.ttft_emitted
            &&& a.window_bytes == 0
            &&& a.starved_since is None
        }),
{
}

/// The record of a read.
pub open spec fn read_on_record(
    a: AttemptFacts,
    st: StreamFacts,
    r: EmissionRecord<Seq<char>>,
    chunk: Seq<u8>,
    stamp: ReadStamp,
) -> bool {
    &&& r is Read
    &&& r->Read_stream == st.stream_id
    &&& r->Read_attempt == st.attempt
    &&& r->Read_seq == refinement_laws::counted(a.read_seq)
    &&& r->Read_at_ms == stamp.at_ms
    &&& r->Read_wall_unix_ms == stamp.wall_unix_ms
    &&& r->Read_bytes == chunk.len()
    &&& r->Read_gap_ms == stamp.gap_ms
}

/// A read is counted, by the attempt and by the stream, and put on record
/// first, with its length and its times. What it completes leaves the buffer,
/// and what it does not stays pending.
pub proof fn lemma_reads_are_counted(
    a: AttemptFacts,
    st: StreamFacts,
    chunk: Seq<u8>,
    stamp: ReadStamp,
    rs: Seq<Refinement>,
)
    requires
        chunk.len() <= usize::MAX,
    ensures
        attempt::read_step(a, st, chunk, stamp, rs).records.len() > 0,
        read_on_record(
            a,
            st,
            attempt::read_step(a, st, chunk, stamp, rs).records[0],
            chunk,
            stamp,
        ),
        attempt::overflow_step(a, st, chunk, stamp).records.len() > 0,
        read_on_record(
            a,
            st,
            attempt::overflow_step(a, st, chunk, stamp).records[0],
            chunk,
            stamp,
        ),
        ({
            let after = a.after_read(chunk);
            &&& after.read_seq == refinement_laws::counted(a.read_seq)
            &&& after.first_byte_seen
            &&& after.pending == sse::residue(a.pending + chunk)
            &&& after == (AttemptFacts {
                read_seq: after.read_seq,
                first_byte_seen: true,
                pending: after.pending,
                ..a
            })
        }),
{
}

/// A read overflows exactly if more is left pending than the bound allows. It
/// then ends the attempt, and the end names the bound and tells how much is
/// left, before what the machine found odd.
pub proof fn lemma_overflows_end_the_attempt(
    a: AttemptFacts,
    st: StreamFacts,
    chunk: Seq<u8>,
    stamp: ReadStamp,
)
    requires
        sse::residue(a.pending + chunk).len() <= usize::MAX,
    ensures
        a.overflows(chunk) <==> sse::residue(a.pending + chunk).len() > a.buf_limit,
        ({
            let s = attempt::overflow_step(a, st, chunk, stamp);
            let cause = StreamEndCause::<Seq<char>>::BufferOverflow { limit_bytes: a.buf_limit };
            &&& s.end == Some(AttemptEnd::Wire(cause))
            &&& s.a == a.after_read(chunk)
            &&& s.st == attempt::finalized(st.one_read())
            &&& s.records.skip(1) == seq![
                EmissionRecord::<Seq<char>>::StreamEnd {
                    stream: st.stream_id,
                    attempt: st.attempt,
                    cause,
                    unconsumed_buffer_bytes: sse::residue(a.pending + chunk).len() as usize,
                },
            ] + event_handler::anomaly_records(st)
        }),
{
    let s = attempt::overflow_step(a, st, chunk, stamp);
    let odd = event_handler::anomaly_records(st);
    assert(event_handler::anomaly_records(st.one_read()) =~= odd);
    let cause = StreamEndCause::<Seq<char>>::BufferOverflow { limit_bytes: a.buf_limit };
    assert(s.records.skip(1) =~= seq![
        EmissionRecord::<Seq<char>>::StreamEnd {
            stream: st.stream_id,
            attempt: st.attempt,
            cause,
            unconsumed_buffer_bytes: sse::residue(a.pending + chunk).len() as usize,
        },
    ] + odd);
}

/// What a read does after it is counted is what the frames that it completes
/// do, one after the other: none does nothing, and one more does its part
/// after the others and has the last word on whether the attempt ends.
pub proof fn lemma_frames_follow_one_another(
    a: AttemptFacts,
    st: StreamFacts,
    stamp: ReadStamp,
    evs: Seq<SseEvent<Seq<char>, Seq<u8>>>,
    rs: Seq<Refinement>,
    ev: SseEvent<Seq<char>, Seq<u8>>,
    r: Refinement,
    chunk: Seq<u8>,
)
    requires
        evs.len() == rs.len(),
        rs.len() <= sse::events_of(sse::frames(a.pending + chunk)).len(),
    ensures
        attempt::frames_run(a, st, stamp, Seq::empty(), Seq::empty()) == (Step {
            a,
            st,
            records: Seq::empty(),
            end: None,
        }),
        ({
            let first = attempt::frames_run(a, st, stamp, evs, rs);
            let then = attempt::frame_step(first.a, first.st, stamp, ev, r);
            let both = attempt::frames_run(a, st, stamp, evs.push(ev), rs.push(r));
            &&& both.a == then.a
            &&& both.st == then.st
            &&& both.records == first.records + then.records
            &&& both.end == then.end
        }),
        ({
            let whole = attempt::read_step(a, st, chunk, stamp, rs);
            let run = attempt::frames_run(
                a.after_read(chunk),
                st.one_read(),
                stamp,
                sse::events_of(sse::frames(a.pending + chunk)).take(rs.len() as int),
                rs,
            );
            &&& whole.a == run.a
            &&& whole.st == run.st
            &&& whole.records.skip(1) == run.records
            &&& whole.end == run.end
        }),
{
    assert(evs.push(ev).drop_last() =~= evs);
    assert(rs.push(r).drop_last() =~= rs);
    let whole = attempt::read_step(a, st, chunk, stamp, rs);
    let run = attempt::frames_run(
        a.after_read(chunk),
        st.one_read(),
        stamp,
        sse::events_of(sse::frames(a.pending + chunk)).take(rs.len() as int),
        rs,
    );
    assert(whole.records.skip(1) =~= run.records);
}

/// A read that does not overflow handles the frames that it completes in
/// order, all of them, or up to the first that ends the attempt and none
/// after. Each frame of data is refined in the state that those before it
/// left, under the number that it has on record.
pub proof fn lemma_no_frame_is_passed_over<F: Fn(&str) -> Result<Chunk, String>>(
    decode: F,
    a: AttemptFacts,
    st: StreamFacts,
    chunk: Seq<u8>,
    stamp: ReadStamp,
    s: Step,
)
    requires
        attempt::reads(decode, a, st, chunk, stamp, s),
    ensures
        sse::residue(a.pending + chunk).len() > a.buf_limit ==> s == attempt::overflow_step(
            a,
            st,
            chunk,
            stamp,
        ),
        sse::residue(a.pending + chunk).len() <= a.buf_limit ==> exists|rs: Seq<Refinement>| #[trigger]
            handles(decode, a, st, chunk, stamp, s, rs),
{
    let evs = sse::events_of(sse::frames(a.pending + chunk));
    if sse::residue(a.pending + chunk).len() <= a.buf_limit {
        let a1 = a.after_read(chunk);
        let st1 = st.one_read();
        let rs = choose|rs: Seq<Refinement>| #[trigger]
            attempt::frames_handled(decode, a1, st1, stamp, evs, rs) && s == attempt::read_step(
                a,
                st,
                chunk,
                stamp,
                rs,
            );
        assert forall|k: int| 0 <= k < rs.len() implies #[trigger] handles_one(
            decode,
            a1,
            st1,
            stamp,
            evs,
            rs,
            k,
        ) by {
            assert(attempt::frame_fits(decode, a1, st1, stamp, evs, rs, k));
        }
        assert(handles(decode, a, st, chunk, stamp, s, rs));
    }
}

/// Frame `k` is handled in the state that the frames before it left, with the
/// attempt not yet over; and if it is data, `rs[k]` is what refining it under
/// its own number may come to.
pub open spec fn handles_one<F: Fn(&str) -> Result<Chunk, String>>(
    decode: F,
    a: AttemptFacts,
    st: StreamFacts,
    stamp: ReadStamp,
    evs: Seq<SseEvent<Seq<char>, Seq<u8>>>,
    rs: Seq<Refinement>,
    k: int,
) -> bool {
    let before = attempt::frames_run(a, st, stamp, evs.take(k), rs.take(k));
    &&& before.end is None
    &&& evs[k].payload matches SsePayload::Data(d) ==> event_handler::refines(
        decode,
        before.st,
        refinement_laws::counted(before.a.inst_seq) as u64,
        InstallmentKind::Data,
        d,
        rs[k],
    )
}

/// A read comes to `s` when its frames refine to `rs`: as many frames as there
/// are, or fewer where the last of those ended the attempt.
pub open spec fn handles<F: Fn(&str) -> Result<Chunk, String>>(
    decode: F,
    a: AttemptFacts,
    st: StreamFacts,
    chunk: Seq<u8>,
    stamp: ReadStamp,
    s: Step,
    rs: Seq<Refinement>,
) -> bool {
    let evs = sse::events_of(sse::frames(a.pending + chunk));
    &&& rs.len() <= evs.len()
    &&& forall|k: int|
        0 <= k < rs.len() ==> #[trigger] handles_one(
            decode,
            a.after_read(chunk),
            st.one_read(),
            stamp,
            evs,
            rs,
            k,
        )
    &&& s == attempt::read_step(a, st, chunk, stamp, rs)
    &&& rs.len() < evs.len() ==> s.end is Some
}

/// A tail of data is refined under the number that it has on record.
pub proof fn lemma_tails_are_refined<F: Fn(&str) -> Result<Chunk, String>>(
    decode: F,
    a: AttemptFacts,
    st: StreamFacts,
    r: Refinement,
    d: Seq<char>,
    n: usize,
)
    requires
        attempt::tail_refines(decode, a, st, r),
        sse::block_event(a.pending) == Some(
            SseEvent { payload: SsePayload::<Seq<char>, Seq<u8>>::Data(d), raw_byte_len: n },
        ),
    ensures
        event_handler::refines(
            decode,
            st,
            refinement_laws::counted(a.inst_seq) as u64,
            InstallmentKind::Data,
            d,
            r,
        ),
{
}

// ---- frames ---------------------------------------------------------------

/// The record of an installment: numbered one on from the last, spanning the
/// reads from the one that closed the last to the one now, whole.
pub open spec fn installment_on_record(
    a: AttemptFacts,
    st: StreamFacts,
    r: EmissionRecord<Seq<char>>,
    kind: InstallmentKind,
    payload: Seq<char>,
    bytes: usize,
    status: InstallmentStatus,
) -> bool {
    &&& r is Installment
    &&& r->Installment_stream == st.stream_id
    &&& r->Installment_attempt == st.attempt
    &&& r->Installment_seq == refinement_laws::counted(a.inst_seq)
    &&& r->Installment_first_read == a.span_start
    &&& r->Installment_last_read == a.read_seq
    &&& r->Installment_bytes == bytes
    &&& r->Installment_kind == kind
    &&& r->Installment_payload == payload
    &&& r->Installment_status == status
}

/// Every frame is one installment more and begins the span of the next one at
/// the read now. A comment goes on record whole, as a sign of life, and
/// changes nothing else.
pub proof fn lemma_comments_are_signs_of_life(
    a: AttemptFacts,
    st: StreamFacts,
    stamp: ReadStamp,
    c: Seq<char>,
    n: usize,
    r: Refinement,
)
    ensures
        ({
            let ev = SseEvent { payload: SsePayload::<Seq<char>, Seq<u8>>::Comment(c), raw_byte_len: n };
            let s = attempt::frame_step(a, st, stamp, ev, r);
            &&& s.records.len() == 2
            &&& installment_on_record(
                a,
                st,
                s.records[0],
                InstallmentKind::Comment,
                c,
                n,
                InstallmentStatus::Complete,
            )
            &&& s.records[1] == (EmissionRecord::<Seq<char>>::Wire {
                stream: st.stream_id,
                attempt: st.attempt,
                note: WireNote::KeepAliveComment,
            })
            &&& s.st == st
            &&& s.end is None
            &&& s.a.inst_seq == refinement_laws::counted(a.inst_seq)
            &&& s.a == (AttemptFacts { inst_seq: s.a.inst_seq, span_start: a.read_seq, ..a })
        }),
{
}

/// A frame that is no text goes on record with its length, the reason and its
/// first bytes in hexadecimal, sixteen at the most. It ends nothing and
/// changes nothing else.
pub proof fn lemma_undecodable_frames_are_evidence(
    a: AttemptFacts,
    st: StreamFacts,
    stamp: ReadStamp,
    raw: Seq<u8>,
    error: Seq<char>,
    n: usize,
    r: Refinement,
)
    requires
        raw.len() <= usize::MAX,
    ensures
        ({
            let ev = SseEvent { payload: SsePayload::Undecodable { raw, error }, raw_byte_len: n };
            let s = attempt::frame_step(a, st, stamp, ev, r);
            &&& s.records == seq![
                EmissionRecord::<Seq<char>>::UndecodableInstallment {
                    stream: st.stream_id,
                    attempt: st.attempt,
                    seq: s.a.inst_seq,
                    bytes: raw.len() as usize,
                    error,
                    hex_prefix: text::hex_dump(
                        if raw.len() > 16 {
                            raw.subrange(0, 16)
                        } else {
                            raw
                        },
                    ),
                },
            ]
            &&& s.st == st
            &&& s.end is None
            &&& s.a.inst_seq == refinement_laws::counted(a.inst_seq)
            &&& s.a == (AttemptFacts { inst_seq: s.a.inst_seq, span_start: a.read_seq, ..a })
        }),
{
    if raw.len() > 16 {
        assert(raw.subrange(0, 16) =~= raw.take(16));
    }
}

/// A frame of data goes on record whole before anything is made of it: the
/// installment, the time to the first token if it is the attempt's first data,
/// and the gap before it. What refining it put on record follows. The stream is
/// then as refining left it, unless the attempt is over.
pub proof fn lemma_data_goes_on_record_first(
    a: AttemptFacts,
    st: StreamFacts,
    stamp: ReadStamp,
    d: Seq<char>,
    n: usize,
    r: Refinement,
)
    requires
        r.result == Ok::<_, DriverFault<Seq<char>>>(FlowDirective::Continue),
    ensures
        ({
            let ev = SseEvent { payload: SsePayload::<Seq<char>, Seq<u8>>::Data(d), raw_byte_len: n };
            let s = attempt::frame_step(a, st, stamp, ev, r);
            let gap = EmissionRecord::<Seq<char>>::Wire {
                stream: st.stream_id,
                attempt: st.attempt,
                note: WireNote::InterReadGap { ms: stamp.gap_ms, bytes: n },
            };
            let ttft = EmissionRecord::<Seq<char>>::Wire {
                stream: st.stream_id,
                attempt: st.attempt,
                note: WireNote::Ttft { ms: stamp.at_ms },
            };
            &&& s.records.len() > 0
            &&& installment_on_record(
                a,
                st,
                s.records[0],
                InstallmentKind::Data,
                d,
                n,
                InstallmentStatus::Complete,
            )
            &&& a.ttft_emitted ==> s.records.skip(1) == seq![gap] + r.records
            &&& !a.ttft_emitted ==> s.records.skip(1) == seq![ttft, gap] + r.records
            &&& s.st == r.st
            &&& s.end is None
            &&& s.a.ttft_emitted
            &&& s.a.inst_seq == refinement_laws::counted(a.inst_seq)
            &&& st.content_bytes <= r.st.content_bytes && a.window_bytes + (r.st.content_bytes
                - st.content_bytes) <= u64::MAX ==> s.a.window_bytes == a.window_bytes + (
            r.st.content_bytes - st.content_bytes)
            &&& s.a == (AttemptFacts {
                inst_seq: s.a.inst_seq,
                span_start: a.read_seq,
                ttft_emitted: true,
                window_bytes: s.a.window_bytes,
                ..a
            })
        }),
{
    let ev = SseEvent { payload: SsePayload::<Seq<char>, Seq<u8>>::Data(d), raw_byte_len: n };
    let s = attempt::frame_step(a, st, stamp, ev, r);
    let gap = attempt::wire_record(st, WireNote::InterReadGap { ms: stamp.gap_ms, bytes: n });
    let ttft = attempt::wire_record(st, WireNote::Ttft { ms: stamp.at_ms });
    if a.ttft_emitted {
        assert(s.records.skip(1) =~= seq![gap] + r.records);
    } else {
        assert(s.records.skip(1) =~= seq![ttft, gap] + r.records);
    }
}

/// What refining a frame directs decides how the attempt goes on: the end
/// sentinel completes it with the machine's verdict on the stream; a fault
/// ends it with that very fault; to abandon it is the machine's verdict on an
/// abort. Each is on record after all that the frame put there, with the bytes
/// left, before what the machine found odd.
pub proof fn lemma_directives_are_followed(
    a: AttemptFacts,
    st: StreamFacts,
    stamp: ReadStamp,
    ev: SseEvent<Seq<char>, Seq<u8>>,
    r: Refinement,
    so_far: Seq<EmissionRecord<Seq<char>>>,
    f: DriverFault<Seq<char>>,
)
    requires
        ev.payload is Data,
        a.pending.len() <= usize::MAX,
        so_far == attempt::frame_step(
            a,
            st,
            stamp,
            ev,
            Refinement { result: Ok(FlowDirective::Continue), ..r },
        ).records,
    ensures
        ({
            let s = attempt::frame_step(a, st, stamp, ev, r);
            let odd = event_handler::anomaly_records(r.st);
            let stop = Ok::<_, DriverFault<Seq<char>>>(FlowDirective::StopComplete);
            let abort = Ok::<_, DriverFault<Seq<char>>>(FlowDirective::Abort);
            &&& r.result != Ok::<_, DriverFault<Seq<char>>>(FlowDirective::Continue) ==> s.st
                == attempt::finalized(r.st)
            &&& r.result == stop ==> s.end == Some(
                AttemptEnd::Complete(
                    event_handler::resolution(r.st.machine.verdict(EndCause::StreamEnded)),
                ),
            ) && s.records == so_far + seq![
                ended(a, r.st, StreamEndCause::DoneSentinelConsumed),
            ] + odd
            &&& r.result == abort ==> s.end == Some(
                AttemptEnd::Complete(
                    event_handler::resolution(r.st.machine.verdict(EndCause::HandlerAbort)),
                ),
            ) && s.records == so_far + seq![
                ended(a, r.st, StreamEndCause::HandlerDirected { directive: "abort"@ }),
            ] + odd
            &&& r.result == Err::<FlowDirective, _>(f) ==> s.end == Some(
                AttemptEnd::Complete(TurnResolution::Fault(f)),
            ) && s.records == so_far + seq![
                ended(
                    a,
                    r.st,
                    StreamEndCause::HandlerDirected { directive: "protocol_error"@ },
                ),
            ] + odd
        }),
{
}

/// The record of an end within a read, with the bytes left.
pub open spec fn ended(
    a: AttemptFacts,
    after: StreamFacts,
    cause: StreamEndCause<Seq<char>>,
) -> EmissionRecord<Seq<char>> {
    EmissionRecord::StreamEnd {
        stream: after.stream_id,
        attempt: after.attempt,
        cause,
        unconsumed_buffer_bytes: a.pending.len() as usize,
    }
}

// ---- the end --------------------------------------------------------------

/// What is left when the peer closes becomes one last installment, marked as
/// recovered: data is refined, a comment is kept, and what is no text is
/// evidence. What becomes none is told as residue, with its length and its
/// text. Nothing left is nothing on record.
pub proof fn lemma_tails_are_recovered(
    a: AttemptFacts,
    st: StreamFacts,
    r: Refinement,
    t: Seq<char>,
    n: usize,
)
    requires
        a.pending.len() <= usize::MAX,
    ensures
        ({
            let s = attempt::tail_step(a, st, r);
            let said = sse::block_event(a.pending);
            &&& s.end is None
            &&& s.a.inst_seq == (if said is Some {
                refinement_laws::counted(a.inst_seq)
            } else {
                a.inst_seq as int
            })
            &&& s.a == (AttemptFacts { inst_seq: s.a.inst_seq, ..a })
            &&& said is None && a.pending.len() == 0 ==> s.st == st && s.records == Seq::<
                EmissionRecord<Seq<char>>,
            >::empty()
            &&& said is None && a.pending.len() > 0 ==> s.st == st && s.records == seq![
                EmissionRecord::<Seq<char>>::Residue {
                    stream: st.stream_id,
                    attempt: st.attempt,
                    bytes: a.pending.len() as usize,
                    lossy_text: decode_utf8(a.pending),
                },
            ]
            &&& said == Some(
                SseEvent {
                    payload: SsePayload::<Seq<char>, Seq<u8>>::Comment(t),
                    raw_byte_len: n,
                },
            ) ==> {
                &&& s.st == st
                &&& s.records.len() == 1
                &&& installment_on_record(
                    a,
                    st,
                    s.records[0],
                    InstallmentKind::Comment,
                    t,
                    n,
                    InstallmentStatus::RecoveredTail,
                )
            }
            &&& said == Some(
                SseEvent {
                    payload: SsePayload::<Seq<char>, Seq<u8>>::Data(t),
                    raw_byte_len: n,
                },
            ) ==> {
                &&& s.st == r.st
                &&& s.records.len() == 1 + r.records.len()
                &&& installment_on_record(
                    a,
                    st,
                    s.records[0],
                    InstallmentKind::Data,
                    t,
                    n,
                    InstallmentStatus::RecoveredTail,
                )
                &&& s.records.skip(1) == r.records
            }
        }),
{
    let s = attempt::tail_step(a, st, r);
    if sse::block_event(a.pending) == Some(
        SseEvent { payload: SsePayload::<Seq<char>, Seq<u8>>::Data(t), raw_byte_len: n },
    ) {
        assert(s.records.skip(1) =~= r.records);
    }
}

/// A tail that is no text is evidence, numbered like any installment.
pub proof fn lemma_undecodable_tails_are_evidence(
    a: AttemptFacts,
    st: StreamFacts,
    r: Refinement,
    raw: Seq<u8>,
    error: Seq<char>,
    n: usize,
)
    requires
        raw.len() <= usize::MAX,
        sse::block_event(a.pending) == Some(
            SseEvent { payload: SsePayload::Undecodable { raw, error }, raw_byte_len: n },
        ),
    ensures
        ({
            let s = attempt::tail_step(a, st, r);
            &&& s.st == st
            &&& s.records == seq![
                EmissionRecord::<Seq<char>>::UndecodableInstallment {
                    stream: st.stream_id,
                    attempt: st.attempt,
                    seq: s.a.inst_seq,
                    bytes: raw.len() as usize,
                    error,
                    hex_prefix: text::hex_dump(
                        if raw.len() > 16 {
                            raw.subrange(0, 16)
                        } else {
                            raw
                        },
                    ),
                },
            ]
        }),
{
    if raw.len() > 16 {
        assert(raw.subrange(0, 16) =~= raw.take(16));
    }
}

/// A close resolves the attempt by the machine's verdict on the stream, tail
/// included. It is on record after the tail, as a close with content or
/// without, nothing left, and then what the machine found odd. A commit
/// without the end sentinel is noted last.
pub proof fn lemma_closes_resolve_the_attempt(a: AttemptFacts, st: StreamFacts, r: Refinement)
    ensures
        ({
            let tail = attempt::tail_step(a, st, r);
            let s = attempt::close_step(a, st, r);
            let verdict = tail.st.machine.verdict(EndCause::StreamEnded);
            let end = EmissionRecord::<Seq<char>>::StreamEnd {
                stream: tail.st.stream_id,
                attempt: tail.st.attempt,
                cause: if tail.st.saw_any_content {
                    StreamEndCause::PeerClosed
                } else {
                    StreamEndCause::ClosedWithNoContent
                },
                unconsumed_buffer_bytes: 0,
            };
            let odd = event_handler::anomaly_records(tail.st);
            let missing = EmissionRecord::<Seq<char>>::Wire {
                stream: tail.st.stream_id,
                attempt: tail.st.attempt,
                note: WireNote::EofWithoutDoneSentinel,
            };
            &&& s.a == tail.a
            &&& s.st == attempt::finalized(tail.st)
            &&& s.end == Some(AttemptEnd::Complete(event_handler::resolution(verdict)))
            &&& verdict is Ok && !tail.st.machine.saw_done ==> s.records == tail.records + seq![end]
                + odd + seq![missing]
            &&& verdict is Err || tail.st.machine.saw_done ==> s.records == tail.records + seq![end]
                + odd
        }),
{
}

} // verus!
