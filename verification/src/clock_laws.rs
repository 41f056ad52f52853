//! What holds of the clocks that an attempt is held to, stated over the bounds
//! themselves and over the times at which the attempt was looked at.

use crate::attempt;
use crate::attempt::{AttemptFacts, Limits, ReadStamp, Step, WireEvent};
use crate::emission::{EmissionRecord, SchedNote, StreamEndCause};
use crate::event_handler;
use crate::event_handler::{Refinement, StreamFacts};
use crate::liveness;
use crate::liveness::Tick;
use crate::openai::{AttemptEnd, BodyRead};
use crate::sse;
use crate::sse::SseEvent;
use vstd::prelude::*;

verus! {

// ---- starvation -----------------------------------------------------------

/// One tick of an attempt: the attempt and the stream as they stood, and what
/// was seen.
pub struct Look {
    pub a: AttemptFacts,
    pub st: StreamFacts,
    pub t: Tick,
    pub bytes_per_sec: u64,
    pub active_streams: u64,
}

/// What a tick does.
pub open spec fn ticked(l: Look) -> Step {
    attempt::tick_step(l.a, l.st, l.t, l.bytes_per_sec, l.active_streams)
}

/// The tick after `l` finds the starvation clock as `l` left it.
pub open spec fn hands_on(l: Look, next: Look) -> bool {
    next.a.starved_since == ticked(l).a.starved_since
}

/// The tick at `k` is one of an attempt that is held to `limits` and has read
/// something, whose clock was not running at first and ran on from tick to
/// tick.
pub open spec fn is_look_at(looks: Seq<Look>, limits: Limits, k: int) -> bool {
    &&& looks[k].a.limits == limits
    &&& looks[k].a.first_byte_seen
    &&& k == 0 ==> looks[k].a.starved_since is None
    &&& k > 0 ==> hands_on(looks[k - 1], looks[k])
}

/// The unbroken stretch of starved ticks that reaches to the last one began at
/// `j`.
pub open spec fn starved_from(looks: Seq<Look>, j: int) -> bool {
    &&& 0 <= j < looks.len()
    &&& forall|i: int| j <= i < looks.len() ==> (#[trigger] looks[i]).t.starved
    &&& j > 0 ==> !looks[j - 1].t.starved
}

/// At least `ns` nanoseconds lie between two ticks. Any two are at least none
/// apart.
pub open spec fn apart_by(first: Look, last: Look, ns: int) -> bool {
    ns <= 0 || last.t.now_ns - first.t.now_ns >= ns
}

/// An attempt is starved exactly when the unbroken stretch of starved ticks
/// that reaches to this one has lasted as many seconds as its bound says,
/// whatever the bound is. It then ends, and the end names its floor and its
/// bound. Any other tick ends nothing.
pub proof fn lemma_starvation_lasts_as_long_as_its_bound(looks: Seq<Look>, limits: Limits)
    requires
        looks.len() > 0,
        forall|k: int| 0 <= k < looks.len() ==> #[trigger] is_look_at(looks, limits, k),
    ensures
        ticked(looks[looks.len() - 1]).end is Some <==> exists|j: int| #[trigger]
            starved_from(looks, j) && apart_by(
                looks[j],
                looks[looks.len() - 1],
                limits.throughput_sustained_secs * 1_000_000_000,
            ),
        ticked(looks[looks.len() - 1]).end matches Some(end) ==> end == AttemptEnd::Wire(
            StreamEndCause::<Seq<char>>::ThroughputStarved {
                floor_bps: limits.throughput_floor_bps,
                sustained_secs: limits.throughput_sustained_secs,
            },
        ),
{
    let n = looks.len() - 1;
    let ticks = looks.map_values(|l: Look| l.t);
    let s = limits.throughput_sustained_secs * 1_000_000_000;
    assert(0 <= s <= u128::MAX);
    lemma_clock_is_handed_on(looks, limits, n);
    assert(is_look_at(looks, limits, n));
    let before = ticks.take(n);
    assert(before.push(ticks[n]) =~= ticks);
    liveness::lemma_trip_needs_unbroken_window(before, ticks[n], s as u128);
    assert(attempt::sustained_ns(limits) == s);
    assert forall|j: int| starved_from(looks, j) == liveness::stretch_began(ticks, j) by {
        if starved_from(looks, j) {
            assert forall|i: int| j <= i < ticks.len() implies (#[trigger] ticks[i]).starved by {
                assert(looks[i].t.starved);
            }
            assert(liveness::stretch_began(ticks, j));
        }
        if liveness::stretch_began(ticks, j) {
            assert forall|i: int| j <= i < looks.len() implies (#[trigger] looks[i]).t.starved by {
                assert(ticks[i].starved);
            }
            assert(starved_from(looks, j));
        }
    }
    if liveness::trips(liveness::since_after_all(before), ticks[n], s as u128) {
        let j = choose|j: int| #[trigger]
            liveness::stretch_began(ticks, j) && liveness::elapsed(ticks[j].now_ns, ticks[n].now_ns)
                >= s as u128;
        assert(starved_from(looks, j));
        assert(apart_by(looks[j], looks[n], s));
    }
    if exists|j: int| #[trigger] starved_from(looks, j) && apart_by(looks[j], looks[n], s) {
        let j = choose|j: int| #[trigger] starved_from(looks, j) && apart_by(looks[j], looks[n], s);
        assert(liveness::stretch_began(ticks, j));
        assert(liveness::elapsed(ticks[j].now_ns, ticks[n].now_ns) >= s as u128);
    }
}

proof fn lemma_clock_is_handed_on(looks: Seq<Look>, limits: Limits, n: int)
    requires
        0 <= n < looks.len(),
        forall|k: int| 0 <= k < looks.len() ==> #[trigger] is_look_at(looks, limits, k),
    ensures
        looks[n].a.starved_since == liveness::since_after_all(
            looks.map_values(|l: Look| l.t).take(n),
        ),
    decreases n,
{
    let ticks = looks.map_values(|l: Look| l.t);
    assert(is_look_at(looks, limits, n));
    if n == 0 {
        assert(ticks.take(0) =~= Seq::empty());
    } else {
        lemma_clock_is_handed_on(looks, limits, n - 1);
        assert(is_look_at(looks, limits, n - 1));
        assert(hands_on(looks[n - 1], looks[n]));
        assert(ticks.take(n).drop_last() =~= ticks.take(n - 1));
        assert(ticks.take(n).last() == looks[n - 1].t);
    }
}

/// The starvation clock, one tick at a time: a starved tick starts it or lets
/// it run on, any other stops it; and it has run too long exactly when the
/// time since it was started is at least the bound.
pub proof fn lemma_the_clock_runs_while_starved(
    since: u128,
    t: Tick,
    sustained_ns: u128,
    running: Option<u128>,
)
    ensures
        t.starved ==> liveness::since_after(Some(since), t) == Some(since),
        t.starved ==> liveness::since_after(None, t) == Some(t.now_ns),
        !t.starved ==> liveness::since_after(running, t) is None,
        t.starved ==> (liveness::trips(Some(since), t, sustained_ns) <==> sustained_ns == 0
            || t.now_ns >= since + sustained_ns),
        t.starved ==> (liveness::trips(None, t, sustained_ns) <==> sustained_ns == 0),
        !t.starved ==> !liveness::trips(running, t, sustained_ns),
{
}

/// A tick puts the throughput on record and starts a new window, and touches
/// nothing else of the attempt but its starvation clock. If it ends the
/// attempt, the end follows on record with the bytes left, and then what the
/// machine found odd; if not, the stream is as it was. Before the first byte a
/// tick does nothing at all.
pub proof fn lemma_ticks_are_put_on_record(l: Look)
    requires
        l.a.pending.len() <= usize::MAX,
    ensures
        !l.a.first_byte_seen ==> ticked(l) == (Step {
            a: l.a,
            st: l.st,
            records: Seq::empty(),
            end: None,
        }),
        l.a.first_byte_seen ==> {
            let s = ticked(l);
            let sample = EmissionRecord::<Seq<char>>::Scheduler {
                stream: l.st.stream_id,
                attempt: l.st.attempt,
                note: SchedNote::ContentThroughput {
                    bytes_per_sec: l.bytes_per_sec,
                    active_streams: l.active_streams,
                },
            };
            &&& s.a == (AttemptFacts {
                window_bytes: 0,
                starved_since: s.a.starved_since,
                ..l.a
            })
            &&& s.end is None ==> s.records == seq![sample] && s.st == l.st
            &&& s.end matches Some(AttemptEnd::Wire(cause)) ==> {
                &&& s.records == seq![
                    sample,
                    EmissionRecord::<Seq<char>>::StreamEnd {
                        stream: l.st.stream_id,
                        attempt: l.st.attempt,
                        cause,
                        unconsumed_buffer_bytes: l.a.pending.len() as usize,
                    },
                ] + event_handler::anomaly_records(l.st)
                &&& s.st == attempt::finalized(l.st)
            }
            &&& s.end matches Some(end) ==> end is Wire
        },
        attempt::WARM_UP_NS == 1_000_000_000,
{
}

/// What is read, and whatever the frames in it say, leaves the starvation
/// clock and the bounds alone.
pub proof fn lemma_reading_leaves_the_clock(
    a: AttemptFacts,
    st: StreamFacts,
    chunk: Seq<u8>,
    stamp: ReadStamp,
    rs: Seq<Refinement>,
)
    ensures
        attempt::read_step(a, st, chunk, stamp, rs).a.starved_since == a.starved_since,
        attempt::read_step(a, st, chunk, stamp, rs).a.limits == a.limits,
        attempt::read_step(a, st, chunk, stamp, rs).a.first_byte_seen,
        attempt::overflow_step(a, st, chunk, stamp).a.starved_since == a.starved_since,
        attempt::overflow_step(a, st, chunk, stamp).a.limits == a.limits,
{
    let evs = sse::events_of(sse::frames(a.pending + chunk));
    lemma_frames_leave_the_clock(
        a.after_read(chunk),
        st.one_read(),
        stamp,
        evs.take(rs.len() as int),
        rs,
    );
}

/// Frames leave everything of the attempt alone but its numbering, the report
/// of its first token and the bytes of its window.
pub proof fn lemma_frames_leave_the_clock(
    a: AttemptFacts,
    st: StreamFacts,
    stamp: ReadStamp,
    evs: Seq<SseEvent<Seq<char>, Seq<u8>>>,
    rs: Seq<Refinement>,
)
    ensures
        ({
            let after = attempt::frames_run(a, st, stamp, evs, rs).a;
            after == (AttemptFacts {
                inst_seq: after.inst_seq,
                span_start: after.span_start,
                ttft_emitted: after.ttft_emitted,
                window_bytes: after.window_bytes,
                ..a
            })
        }),
    decreases evs.len(),
{
    if evs.len() > 0 && rs.len() > 0 {
        lemma_frames_leave_the_clock(a, st, stamp, evs.drop_last(), rs.drop_last());
    }
}

// ---- cuts -----------------------------------------------------------------

/// The next read may take as long as the backstop before anything was read,
/// and as long as the stall window after.
pub proof fn lemma_silence_is_bounded(a: AttemptFacts)
    ensures
        a.read_seq == 0 ==> a.stall_window() == a.limits.first_byte_backstop_secs,
        a.read_seq > 0 ==> a.stall_window() == a.limits.stall_timeout_secs,
{
}

/// Each cut has its own cause, with the bound that ran out or the words that
/// came with it.
pub proof fn lemma_cuts_name_their_cause(
    a: AttemptFacts,
    detail: Seq<char>,
    status: u16,
    content_type: Seq<char>,
)
    ensures
        a.cut_cause(WireEvent::CancelledDialing) == StreamEndCause::<Seq<char>>::Cancelled,
        a.cut_cause(WireEvent::Cancelled) == StreamEndCause::<Seq<char>>::Cancelled,
        a.cut_cause(WireEvent::HeaderTimeout) == (StreamEndCause::<
            Seq<char>,
        >::FirstByteBackstop { window_secs: a.limits.first_byte_backstop_secs }),
        a.cut_cause(WireEvent::ConnectError { detail }) == (StreamEndCause::ConnectError { detail }),
        a.cut_cause(WireEvent::TransportError { detail }) == (StreamEndCause::TransportError {
            detail,
        }),
        a.cut_cause(WireEvent::OverallDeadline) == (StreamEndCause::<Seq<char>>::OverallDeadline {
            limit_secs: a.limits.overall_deadline_secs,
        }),
        a.read_seq == 0 ==> a.cut_cause(WireEvent::Stall) == (StreamEndCause::<
            Seq<char>,
        >::FirstByteBackstop { window_secs: a.limits.first_byte_backstop_secs }),
        a.read_seq > 0 ==> a.cut_cause(WireEvent::Stall) == (StreamEndCause::<
            Seq<char>,
        >::StallTimeout { window_secs: a.limits.stall_timeout_secs }),
        a.cut_cause(WireEvent::HttpError { status, body: BodyRead::Text(detail) })
            == (StreamEndCause::HttpError { status, body: detail }),
        a.cut_cause(WireEvent::HttpError { status, body: BodyRead::Failed })
            == (StreamEndCause::HttpError { status, body: Seq::<char>::empty() }),
        a.cut_cause(WireEvent::HttpError { status, body: BodyRead::TimedOut })
            == (StreamEndCause::HttpError { status, body: "(body read timed out)"@ }),
        a.cut_cause(WireEvent::ForeignBody { content_type, body: BodyRead::Text(detail) })
            == (StreamEndCause::NotAnEventStream { content_type, body_prefix: detail }),
        a.cut_cause(WireEvent::ForeignBody { content_type, body: BodyRead::Failed })
            == (StreamEndCause::NotAnEventStream {
            content_type,
            body_prefix: Seq::<char>::empty(),
        }),
        a.cut_cause(WireEvent::ForeignBody { content_type, body: BodyRead::TimedOut })
            == (StreamEndCause::NotAnEventStream {
            content_type,
            body_prefix: "(body read timed out)"@,
        }),
{
}

/// Every cut ends the attempt with its cause, on record with the bytes left,
/// and then with what the machine found odd. Where a clock or a cancellation
/// woke the read loop, that stands first. The attempt stays as it was, and the
/// stream is left with nothing gathered.
pub proof fn lemma_cuts_are_put_on_record(
    a: AttemptFacts,
    st: StreamFacts,
    ev: WireEvent<Seq<char>>,
)
    requires
        a.pending.len() <= usize::MAX,
    ensures
        ({
            let s = attempt::cut_step(a, st, ev);
            let end = EmissionRecord::<Seq<char>>::StreamEnd {
                stream: st.stream_id,
                attempt: st.attempt,
                cause: a.cut_cause(ev),
                unconsumed_buffer_bytes: a.pending.len() as usize,
            };
            let odd = event_handler::anomaly_records(st);
            &&& s.end == Some(AttemptEnd::Wire(a.cut_cause(ev)))
            &&& s.a == a
            &&& s.st == attempt::finalized(st)
            &&& ev is Cancelled ==> s.records == seq![woken(st, "cancel"), end] + odd
            &&& ev is OverallDeadline ==> s.records == seq![woken(st, "overall_deadline"), end] + odd
            &&& ev is Stall ==> s.records == seq![woken(st, "stall"), end] + odd
            &&& !(ev is Cancelled || ev is OverallDeadline || ev is Stall) ==> s.records == seq![end]
                + odd
        }),
{
}

/// The record that something woke the read loop.
pub open spec fn woken(st: StreamFacts, arm: &'static str) -> EmissionRecord<Seq<char>> {
    EmissionRecord::Scheduler {
        stream: st.stream_id,
        attempt: st.attempt,
        note: SchedNote::SelectWake { arm },
    }
}

/// Finalizing an attempt leaves the stream with nothing gathered, and every
/// count as it was.
pub proof fn lemma_finalizing_forgets_the_machine_alone(st: StreamFacts)
    ensures
        attempt::finalized(st).machine == StreamFacts::fresh(st.stream_id).machine,
        attempt::finalized(st) == (StreamFacts {
            machine: attempt::finalized(st).machine,
            ..st
        }),
{
}

} // verus!
