//! Attempts and turns from beginning to end.
//!
//! The other modules say what each step does. Here the steps are put together
//! as whoever drives a turn takes them, and what holds of the whole is proved.

use crate::attempt;
use crate::attempt::{AttemptFacts, Limits, ReadStamp, Step, WireEvent};
use crate::attempt_laws;
use crate::driver::ChatOutcome;
use crate::emission::{EmissionRecord, LedgerEntry, StreamId};
use crate::event_handler;
use crate::event_handler::{Chunk, EventHandler, Refinement, StreamFacts, TurnResolution};
use crate::liveness::Tick;
use crate::machine;
use crate::machine::Gathered;
use crate::openai;
use crate::openai::{AttemptEnd, Message, OpenAiConfig, TurnVerdict};
use crate::testimony;
use crate::turn;
use crate::turn::TurnFacts;
use vstd::prelude::*;

verus! {

// ---- a whole attempt ------------------------------------------------------

/// What may happen to an attempt.
pub enum Happening {
    Read { chunk: Seq<u8>, stamp: ReadStamp },
    Ticked { tick: Tick, bytes_per_sec: u64, active_streams: u64 },
    Cut(WireEvent<Seq<char>>),
    /// The peer closed; the refinement is that of the recovered tail.
    Closed(Refinement),
}

/// `s` is what an attempt may do when this happens.
pub open spec fn answers<F: Fn(&str) -> Result<Chunk, String>>(
    decode: F,
    a: AttemptFacts,
    st: StreamFacts,
    h: Happening,
    s: Step,
) -> bool {
    match h {
        Happening::Read { chunk, stamp } => attempt::reads(decode, a, st, chunk, stamp, s),
        Happening::Ticked { tick, bytes_per_sec, active_streams } => s == attempt::tick_step(
            a,
            st,
            tick,
            bytes_per_sec,
            active_streams,
        ),
        Happening::Cut(ev) => s == attempt::cut_step(a, st, ev),
        Happening::Closed(r) => attempt::tail_refines(decode, a, st, r) && s == attempt::close_step(
            a,
            st,
            r,
        ),
    }
}

/// The attempt and the stream that step `k` finds.
pub open spec fn found_by(
    limits: Limits,
    start: StreamFacts,
    steps: Seq<Step>,
    k: int,
) -> (AttemptFacts, StreamFacts) {
    if k == 0 {
        (AttemptFacts::fresh(limits), start)
    } else {
        (steps[k - 1].a, steps[k - 1].st)
    }
}

/// Step `k` answers something that happened, in the state that the step before
/// it left, and is the last exactly if it ends the attempt.
pub open spec fn step_fits<F: Fn(&str) -> Result<Chunk, String>>(
    decode: F,
    limits: Limits,
    start: StreamFacts,
    steps: Seq<Step>,
    k: int,
) -> bool {
    let (a, st) = found_by(limits, start, steps, k);
    &&& exists|h: Happening| #[trigger] answers(decode, a, st, h, steps[k])
    &&& steps[k].end is Some <==> k == steps.len() - 1
}

/// `steps` is an attempt on the stream `start`, from its beginning to its end.
pub open spec fn is_attempt<F: Fn(&str) -> Result<Chunk, String>>(
    decode: F,
    limits: Limits,
    start: StreamFacts,
    steps: Seq<Step>,
) -> bool {
    &&& steps.len() > 0
    &&& forall|k: int|
        0 <= k < steps.len() ==> #[trigger] step_fits(decode, limits, start, steps, k)
}

/// The records of a run of steps.
pub open spec fn all_records(steps: Seq<Step>) -> Seq<EmissionRecord<Seq<char>>>
    decreases steps.len(),
{
    if steps.len() == 0 {
        Seq::empty()
    } else {
        all_records(steps.drop_last()) + steps.last().records
    }
}

/// How an attempt ended.
pub open spec fn end_of(steps: Seq<Step>) -> AttemptEnd<Seq<char>> {
    steps.last().end->0
}

/// A run of steps taken as one.
spec fn as_one(steps: Seq<Step>) -> Step {
    Step { records: all_records(steps), ..steps.last() }
}

proof fn lemma_step_laws<F: Fn(&str) -> Result<Chunk, String>>(
    decode: F,
    a: AttemptFacts,
    st: StreamFacts,
    h: Happening,
    s: Step,
)
    requires
        answers(decode, a, st, h, s),
    ensures
        attempt_laws::is_orderly(st, s),
        testimony::keeps_testimony(st, s),
{
    match h {
        Happening::Read { chunk, stamp } => {
            attempt_laws::lemma_reads_are_orderly(decode, a, st, chunk, stamp, s);
            testimony::lemma_reads_keep_testimony(decode, a, st, chunk, stamp, s);
        },
        Happening::Ticked { tick, bytes_per_sec, active_streams } => {
            attempt_laws::lemma_ticks_are_orderly(a, st, tick, bytes_per_sec, active_streams);
            testimony::lemma_ticks_keep_testimony(a, st, tick, bytes_per_sec, active_streams);
        },
        Happening::Cut(ev) => {
            attempt_laws::lemma_cuts_are_orderly(a, st, ev);
            testimony::lemma_cuts_keep_testimony(a, st, ev);
        },
        Happening::Closed(r) => {
            attempt_laws::lemma_closing_is_orderly(decode, a, st, r);
            testimony::lemma_closing_keeps_testimony(decode, a, st, r);
        },
    }
}

proof fn lemma_steps_as_one<F: Fn(&str) -> Result<Chunk, String>>(
    decode: F,
    limits: Limits,
    start: StreamFacts,
    steps: Seq<Step>,
    n: int,
)
    requires
        is_attempt(decode, limits, start, steps),
        0 < n <= steps.len(),
    ensures
        attempt_laws::is_orderly(start, as_one(steps.take(n))),
        testimony::keeps_testimony(start, as_one(steps.take(n))),
    decreases n,
{
    let upto = steps.take(n);
    let (a, st) = found_by(limits, start, steps, n - 1);
    assert(step_fits(decode, limits, start, steps, n - 1));
    let h = choose|h: Happening| #[trigger] answers(decode, a, st, h, steps[n - 1]);
    lemma_step_laws(decode, a, st, h, steps[n - 1]);
    assert(upto.drop_last() =~= steps.take(n - 1));
    assert(upto.last() == steps[n - 1]);
    if n == 1 {
        assert(all_records(steps.take(0)) =~= Seq::empty());
        assert(all_records(upto) =~= steps[0].records);
        assert(as_one(upto) == steps[0]);
    } else {
        lemma_steps_as_one(decode, limits, start, steps, n - 1);
        assert(step_fits(decode, limits, start, steps, n - 2));
        let before = as_one(steps.take(n - 1));
        assert(steps.take(n - 1).last() == steps[n - 2]);
        attempt_laws::lemma_order_adds_up(start, before, steps[n - 1]);
        testimony::lemma_testimony_adds_up(start, before, steps[n - 1]);
    }
}

/// Whatever happens to an attempt, on whatever stream: that it ended is on
/// record exactly once, under its own label, with the wire's cause if the wire
/// ended it and one of a completion if not. It leaves the ledger and the
/// trailer to the turn. It leaves no machine behind, and every oddity that its
/// machine found is on record in words, in order, and no other: every exit
/// passes the machine's finalization.
pub proof fn lemma_every_attempt_ends_on_record<F: Fn(&str) -> Result<Chunk, String>>(
    decode: F,
    limits: Limits,
    start: StreamFacts,
    steps: Seq<Step>,
)
    requires
        is_attempt(decode, limits, start, steps),
    ensures
        exists|i: int| #[trigger]
            attempt_laws::marks_end_at(all_records(steps), i) && attempt_laws::ends_as(
                start,
                all_records(steps)[i],
                end_of(steps),
            ),
        attempt_laws::leaves_turn_alone(all_records(steps)),
        steps.last().st.stream_id == start.stream_id,
        steps.last().st.attempt == start.attempt,
        steps.last().st.machine == Gathered::nothing(),
        testimony::noted(all_records(steps)) == start.machine.after_all(
            testimony::recorded(all_records(steps)),
        ).anomalies,
        start.machine == Gathered::nothing() ==> testimony::noted(all_records(steps))
            == machine::oddity_notes(testimony::recorded(all_records(steps))),
{
    let n = steps.len() as int;
    lemma_steps_as_one(decode, limits, start, steps, n);
    assert(steps.take(n) =~= steps);
    assert(step_fits(decode, limits, start, steps, n - 1));
    machine::lemma_machine_keeps_testimony(testimony::recorded(all_records(steps)));
}

/// There is one path to the screen and to the history, and a finish reason
/// guards it. What an attempt commits is what its stream held and, after it,
/// exactly the text that a terminal showed of the attempt's records. Where the
/// stream held no finish reason, there must be one on record in the attempt,
/// and the first counts; and so it is with the last usage report. A stream at
/// the start of its attempt holds nothing.
pub proof fn lemma_committed_is_what_was_shown<F: Fn(&str) -> Result<Chunk, String>>(
    decode: F,
    limits: Limits,
    start: StreamFacts,
    steps: Seq<Step>,
    outcome: ChatOutcome<Seq<char>>,
)
    requires
        is_attempt(decode, limits, start, steps),
        end_of(steps) == AttemptEnd::Complete(TurnResolution::Committed(outcome)),
    ensures
        outcome.content == start.machine.content + testimony::shown_text(all_records(steps)),
        start.machine == Gathered::nothing() ==> outcome.content == testimony::shown_text(
            all_records(steps),
        ),
        start.machine.finish_reason is None ==> {
            let evs = testimony::recorded(all_records(steps));
            &&& machine::first_finish(evs) == Some(outcome.finish_reason)
            &&& exists|k: int| 0 <= k < evs.len() && #[trigger] evs[k] is Finish
        },
        start.machine.usage is None ==> outcome.usage == machine::last_usage(
            testimony::recorded(all_records(steps)),
        ),
{
    let n = steps.len() as int;
    lemma_steps_as_one(decode, limits, start, steps, n);
    assert(steps.take(n) =~= steps);
    assert(step_fits(decode, limits, start, steps, n - 1));
    let evs = testimony::recorded(all_records(steps));
    machine::lemma_feeding_adds_up(start.machine, evs);
    machine::lemma_first_finish(evs);
    testimony::lemma_shown_text_is_recorded_text(all_records(steps));
    if start.machine == Gathered::nothing() {
        let shown = testimony::shown_text(all_records(steps));
        assert(start.machine.content + shown =~= shown);
    }
}

/// A fault that an attempt completes with is stated for what it was: that of a
/// rejected installment, in its own words and on record; or the machine's, of
/// what its stream held and the attempt's records showed.
pub proof fn lemma_faults_are_told_truly<F: Fn(&str) -> Result<Chunk, String>>(
    decode: F,
    limits: Limits,
    start: StreamFacts,
    steps: Seq<Step>,
)
    requires
        is_attempt(decode, limits, start, steps),
    ensures
        testimony::ends_truly(
            start.machine.after_all(testimony::recorded(all_records(steps))),
            all_records(steps),
            end_of(steps),
        ),
{
    let n = steps.len() as int;
    lemma_steps_as_one(decode, limits, start, steps, n);
    assert(steps.take(n) =~= steps);
    assert(step_fits(decode, limits, start, steps, n - 1));
}

// ---- a whole turn ---------------------------------------------------------

/// One attempt of a turn that was let in.
pub struct Round {
    /// Buckets that were free when this attempt took one.
    pub free_before_draw: u32,
    pub steps: Seq<Step>,
    /// Polls of the read loop when the attempt ended, over the whole turn.
    pub polls: u64,
    /// Buckets that were free when this attempt returned its own.
    pub free_before_return: u32,
}

/// A turn when its next attempt has begun.
pub open spec fn begins(t: TurnFacts) -> TurnFacts {
    TurnFacts { st: t.st.next_attempt(), ..t }
}

/// The turn `t` when the attempt of this round has ended.
pub open spec fn ended(t: TurnFacts, r: Round) -> TurnFacts {
    TurnFacts { st: r.steps.last().st, select_polls: r.polls, ..t }
}

/// What the turn `t` comes to after this round; nothing where it goes on.
pub open spec fn round_verdict(t: TurnFacts, failover: bool, r: Round) -> Option<
    TurnVerdict<Seq<char>>,
> {
    ended(t, r).verdict(failover, end_of(r.steps))
}

/// The records that this round adds to the turn `t`.
pub open spec fn round_records(t: TurnFacts, r: Round) -> Seq<EmissionRecord<Seq<char>>> {
    seq![
        event_handler::ledger_record(
            begins(t).st.stream_id,
            begins(t).st.attempt,
            event_handler::admission_of(Ok(r.free_before_draw)),
        ),
    ] + all_records(r.steps) + seq![
        event_handler::ledger_record(
            ended(t, r).st.stream_id,
            ended(t, r).st.attempt,
            event_handler::return_of(r.free_before_return),
        ),
    ] + ended(t, r).draw_records(end_of(r.steps))
}

/// The turn `t` after a run of rounds.
pub open spec fn after_rounds(t: TurnFacts, rounds: Seq<Round>) -> TurnFacts
    decreases rounds.len(),
{
    if rounds.len() == 0 {
        t
    } else {
        let r = rounds.last();
        ended(after_rounds(t, rounds.drop_last()), r).after(end_of(r.steps))
    }
}

/// The records that a run of rounds adds to the turn `t`.
pub open spec fn rounds_records(t: TurnFacts, rounds: Seq<Round>) -> Seq<EmissionRecord<Seq<char>>>
    decreases rounds.len(),
{
    if rounds.len() == 0 {
        Seq::empty()
    } else {
        rounds_records(t, rounds.drop_last()) + round_records(
            after_rounds(t, rounds.drop_last()),
            rounds.last(),
        )
    }
}

/// Round `k` is an attempt in the turn that the rounds before it left. It drew
/// its bucket from the handler's pool and put it back there. It is the last
/// round exactly if the turn comes to something with it. Where the turn was
/// denied a further attempt, no round is.
pub open spec fn round_fits<F: Fn(&str) -> Result<Chunk, String>>(
    decode: F,
    limits: Limits,
    h: EventHandler,
    t: TurnFacts,
    rounds: Seq<Round>,
    denied: bool,
    k: int,
) -> bool {
    let found = after_rounds(t, rounds.take(k));
    &&& h.drew(Ok(rounds[k].free_before_draw))
    &&& is_attempt(decode, limits, begins(found).st, rounds[k].steps)
    &&& h.took_back(rounds[k].free_before_return)
    &&& round_verdict(found, h.failover_known(), rounds[k]) is Some <==> !denied && k
        == rounds.len() - 1
}

/// These rounds are a turn with the handler `h`, from beginning to end.
/// `denied` says whether it ended because a last draw found no send bucket.
pub open spec fn is_turn<F: Fn(&str) -> Result<Chunk, String>>(
    decode: F,
    limits: Limits,
    h: EventHandler,
    t: TurnFacts,
    rounds: Seq<Round>,
    denied: bool,
) -> bool {
    &&& rounds.len() > 0 || denied
    &&& denied ==> h.drew(Err(0))
    &&& forall|k: int|
        0 <= k < rounds.len() ==> #[trigger] round_fits(
            decode,
            limits,
            h,
            t,
            rounds,
            denied,
            k,
        )
}

/// What such a turn comes to.
pub open spec fn turn_verdict(
    h: EventHandler,
    t: TurnFacts,
    rounds: Seq<Round>,
    denied: bool,
) -> TurnVerdict<Seq<char>> {
    if denied {
        turn::admission_verdict(false)->0
    } else {
        round_verdict(after_rounds(t, rounds.drop_last()), h.failover_known(), rounds.last())->0
    }
}

/// Such a turn at its end. A denied attempt has begun.
pub open spec fn turn_end(t: TurnFacts, rounds: Seq<Round>, denied: bool) -> TurnFacts {
    if denied {
        begins(after_rounds(t, rounds))
    } else {
        after_rounds(t, rounds)
    }
}

/// How many attempts such a turn began.
pub open spec fn attempts_begun(rounds: Seq<Round>, denied: bool) -> nat {
    rounds.len() + if denied {
        1nat
    } else {
        0nat
    }
}

/// The records of such a turn before its trailer.
pub open spec fn turn_body(
    h: EventHandler,
    t: TurnFacts,
    rounds: Seq<Round>,
    denied: bool,
) -> Seq<EmissionRecord<Seq<char>>> {
    seq![
        event_handler::ledger_record(
            t.st.stream_id,
            0,
            LedgerEntry::RetryAllowanceGranted { total: h.allowance() },
        ),
    ] + rounds_records(t, rounds) + if denied {
        seq![
            event_handler::ledger_record(
                turn_end(t, rounds, denied).st.stream_id,
                turn_end(t, rounds, denied).st.attempt,
                LedgerEntry::SendBucketDenied,
            ),
        ]
    } else {
        Seq::empty()
    }
}

/// The records of such a turn.
pub open spec fn turn_records(
    h: EventHandler,
    t: TurnFacts,
    rounds: Seq<Round>,
    denied: bool,
) -> Seq<EmissionRecord<Seq<char>>> {
    turn_body(h, t, rounds, denied).push(
        turn::trailer(turn_end(t, rounds, denied), turn_verdict(h, t, rounds, denied)),
    )
}

proof fn lemma_rounds<F: Fn(&str) -> Result<Chunk, String>>(
    decode: F,
    limits: Limits,
    h: EventHandler,
    t: TurnFacts,
    rounds: Seq<Round>,
    denied: bool,
    n: int,
)
    requires
        is_turn(decode, limits, h, t, rounds, denied),
        t.st.attempt == 0,
        0 <= n <= rounds.len(),
    ensures
        ({
            let now = after_rounds(t, rounds.take(n));
            &&& now.st.stream_id == t.st.stream_id
            &&& now.st.attempt as int == n % 0x1_0000_0000
            &&& (denied || n < rounds.len()) ==> now.remaining_allowance as int
                == t.remaining_allowance - n
        }),
    decreases n,
{
    if n == 0 {
        assert(rounds.take(0) =~= Seq::empty());
    } else {
        lemma_rounds(decode, limits, h, t, rounds, denied, n - 1);
        assert(rounds.take(n).drop_last() =~= rounds.take(n - 1));
        assert(rounds.take(n).last() == rounds[n - 1]);
        assert(round_fits(decode, limits, h, t, rounds, denied, n - 1));
        let before = after_rounds(t, rounds.take(n - 1));
        lemma_every_attempt_ends_on_record(
            decode,
            limits,
            begins(before).st,
            rounds[n - 1].steps,
        );
    }
}

proof fn lemma_round_has_no_trailer<F: Fn(&str) -> Result<Chunk, String>>(
    decode: F,
    limits: Limits,
    t: TurnFacts,
    r: Round,
)
    requires
        is_attempt(decode, limits, begins(t).st, r.steps),
    ensures
        forall|i: int|
            0 <= i < round_records(t, r).len() ==> !(#[trigger] round_records(t, r)[i] is TurnTrailer),
{
    lemma_every_attempt_ends_on_record(decode, limits, begins(t).st, r.steps);
    let all = all_records(r.steps);
    let drawn = ended(t, r).draw_records(end_of(r.steps));
    let whole = round_records(t, r);
    let n = all.len() as int;
    assert forall|i: int| 0 <= i < whole.len() implies !(#[trigger] whole[i] is TurnTrailer) by {
        if 1 <= i <= n {
            assert(whole[i] == all[i - 1]);
        } else if i > n + 1 {
            assert(whole[i] == drawn[i - n - 2]);
        }
    }
}

proof fn lemma_rounds_have_no_trailer<F: Fn(&str) -> Result<Chunk, String>>(
    decode: F,
    limits: Limits,
    h: EventHandler,
    t: TurnFacts,
    rounds: Seq<Round>,
    denied: bool,
    n: int,
)
    requires
        is_turn(decode, limits, h, t, rounds, denied),
        0 <= n <= rounds.len(),
    ensures
        ({
            let records = rounds_records(t, rounds.take(n));
            forall|i: int| 0 <= i < records.len() ==> !(#[trigger] records[i] is TurnTrailer)
        }),
    decreases n,
{
    if n > 0 {
        lemma_rounds_have_no_trailer(decode, limits, h, t, rounds, denied, n - 1);
        assert(rounds.take(n).drop_last() =~= rounds.take(n - 1));
        assert(rounds.take(n).last() == rounds[n - 1]);
        assert(round_fits(decode, limits, h, t, rounds, denied, n - 1));
        let found = after_rounds(t, rounds.take(n - 1));
        lemma_round_has_no_trailer(decode, limits, found, rounds[n - 1]);
        let before = rounds_records(t, rounds.take(n - 1));
        let records = rounds_records(t, rounds.take(n));
        assert forall|i: int| 0 <= i < records.len() implies !(
        #[trigger] records[i] is TurnTrailer) by {
            if i < before.len() {
                assert(records[i] == before[i]);
            } else {
                assert(records[i] == round_records(found, rounds[n - 1])[i - before.len()]);
            }
        }
    }
}

/// Every turn closes with exactly one trailer, its last record. The trailer
/// holds the verdict that the turn comes to, and the number of attempts that
/// the turn began, as far as that fits its width. Their number is at most one
/// more than the allowance.
pub proof fn lemma_every_turn_closes_with_its_trailer<F: Fn(&str) -> Result<Chunk, String>>(
    decode: F,
    limits: Limits,
    h: EventHandler,
    stream_id: StreamId,
    rounds: Seq<Round>,
    denied: bool,
)
    requires
        is_turn(
            decode,
            limits,
            h,
            TurnFacts::fresh(stream_id, h.allowance()),
            rounds,
            denied,
        ),
    ensures
        ({
            let t = TurnFacts::fresh(stream_id, h.allowance());
            let records = turn_records(h, t, rounds, denied);
            &&& forall|i: int|
                0 <= i < records.len() - 1 ==> !(#[trigger] records[i] is TurnTrailer)
            &&& records.last() matches EmissionRecord::TurnTrailer {
                stream,
                attempts,
                verdict,
                ..
            }
            &&& stream == stream_id
            &&& attempts as int == attempts_begun(rounds, denied) % 0x1_0000_0000
            &&& attempts_begun(rounds, denied) <= h.allowance() + 1
            &&& verdict == turn::recorded_verdict(turn_verdict(h, t, rounds, denied))
        }),
{
    let t = TurnFacts::fresh(stream_id, h.allowance());
    let n = rounds.len() as int;
    assert(rounds.take(n) =~= rounds);
    lemma_rounds(decode, limits, h, t, rounds, denied, n);
    if n > 0 {
        lemma_rounds(decode, limits, h, t, rounds, denied, n - 1);
    }
    lemma_rounds_have_no_trailer(decode, limits, h, t, rounds, denied, n);
    let middle = rounds_records(t, rounds);
    let body = turn_body(h, t, rounds, denied);
    assert forall|i: int| 0 <= i < body.len() implies !(#[trigger] body[i] is TurnTrailer) by {
        if 1 <= i <= middle.len() {
            assert(body[i] == middle[i - 1]);
        }
    }
    let records = turn_records(h, t, rounds, denied);
    assert forall|i: int| 0 <= i < records.len() - 1 implies !(
    #[trigger] records[i] is TurnTrailer) by {
        assert(records[i] == body[i]);
    }
}

// ---- send buckets ---------------------------------------------------------

/// How many buckets are out after these records: spent and not returned.
pub open spec fn buckets_out(records: Seq<EmissionRecord<Seq<char>>>) -> int
    decreases records.len(),
{
    if records.len() == 0 {
        0
    } else {
        let before = buckets_out(records.drop_last());
        match records.last() {
            EmissionRecord::Ledger { entry: LedgerEntry::SendBucketSpent { .. }, .. } => before + 1,
            EmissionRecord::Ledger { entry: LedgerEntry::SendBucketReturned { .. }, .. } => before
                - 1,
            _ => before,
        }
    }
}

/// The pool after these records, if no other turn drew on it.
pub open spec fn pool_after(free: u32, records: Seq<EmissionRecord<Seq<char>>>) -> u32
    decreases records.len(),
{
    if records.len() == 0 {
        free
    } else {
        let before = pool_after(free, records.drop_last());
        match records.last() {
            EmissionRecord::Ledger { entry: LedgerEntry::SendBucketSpent { .. }, .. } => {
                match event_handler::after_spend(before) {
                    Some(left) => left,
                    None => before,
                }
            },
            EmissionRecord::Ledger { entry: LedgerEntry::SendBucketReturned { .. }, .. } => {
                event_handler::after_return(before)
            },
            _ => before,
        }
    }
}

/// All through these records at most one bucket is out and none is returned
/// that was not spent; and at the end none is out.
pub open spec fn one_bucket_at_a_time(records: Seq<EmissionRecord<Seq<char>>>) -> bool {
    &&& forall|n: int|
        0 <= n <= records.len() ==> 0 <= #[trigger] buckets_out(records.take(n)) <= 1
    &&& buckets_out(records) == 0
}

proof fn lemma_buckets_concat(
    free: u32,
    a: Seq<EmissionRecord<Seq<char>>>,
    b: Seq<EmissionRecord<Seq<char>>>,
)
    ensures
        buckets_out(a + b) == buckets_out(a) + buckets_out(b),
        pool_after(free, a + b) == pool_after(pool_after(free, a), b),
    decreases b.len(),
{
    if b.len() == 0 {
        assert(a + b =~= a);
    } else {
        lemma_buckets_concat(free, a, b.drop_last());
        assert((a + b).drop_last() =~= a + b.drop_last());
        assert((a + b).last() == b.last());
    }
}

proof fn lemma_one_after_the_other(
    a: Seq<EmissionRecord<Seq<char>>>,
    b: Seq<EmissionRecord<Seq<char>>>,
)
    requires
        one_bucket_at_a_time(a),
        one_bucket_at_a_time(b),
    ensures
        one_bucket_at_a_time(a + b),
{
    lemma_buckets_concat(0, a, b);
    assert forall|n: int| 0 <= n <= (a + b).len() implies 0 <= #[trigger] buckets_out(
        (a + b).take(n),
    ) <= 1 by {
        if n <= a.len() {
            assert((a + b).take(n) =~= a.take(n));
        } else {
            let m = n - a.len();
            assert((a + b).take(n) =~= a + b.take(m));
            lemma_buckets_concat(0, a, b.take(m));
            assert(0 <= buckets_out(b.take(m)) <= 1);
        }
    }
}

/// None of these records moves a bucket.
spec fn moves_no_bucket(records: Seq<EmissionRecord<Seq<char>>>) -> bool {
    forall|i: int|
        0 <= i < records.len() ==> match #[trigger] records[i] {
            EmissionRecord::Ledger { entry, .. } => !(entry is SendBucketSpent) && !(
            entry is SendBucketReturned),
            _ => true,
        }
}

proof fn lemma_no_bucket_moves(free: u32, records: Seq<EmissionRecord<Seq<char>>>)
    requires
        moves_no_bucket(records),
    ensures
        buckets_out(records) == 0,
        pool_after(free, records) == free,
        one_bucket_at_a_time(records),
    decreases records.len(),
{
    if records.len() > 0 {
        let before = records.drop_last();
        assert(moves_no_bucket(before)) by {
            assert forall|i: int| 0 <= i < before.len() implies match #[trigger] before[i] {
                EmissionRecord::Ledger { entry, .. } => !(entry is SendBucketSpent) && !(
                entry is SendBucketReturned),
                _ => true,
            } by {
                assert(before[i] == records[i]);
            }
        }
        lemma_no_bucket_moves(free, before);
        assert(records[records.len() - 1] == records.last());
        assert forall|n: int| 0 <= n <= records.len() implies 0 <= #[trigger] buckets_out(
            records.take(n),
        ) <= 1 by {
            if n < records.len() {
                assert(records.take(n) =~= before.take(n));
                assert(0 <= buckets_out(before.take(n)) <= 1);
            } else {
                assert(records.take(n) =~= records);
            }
        }
    } else {
        assert forall|n: int| 0 <= n <= records.len() implies 0 <= #[trigger] buckets_out(
            records.take(n),
        ) <= 1 by {
            assert(records.take(n) =~= Seq::empty());
        }
    }
}

/// Each attempt of a turn takes one bucket, under its own number, before
/// anything else, and returns it, under the same number, when it has ended.
pub proof fn lemma_attempts_return_their_bucket<F: Fn(&str) -> Result<Chunk, String>>(
    decode: F,
    limits: Limits,
    t: TurnFacts,
    r: Round,
    free: u32,
)
    requires
        is_attempt(decode, limits, begins(t).st, r.steps),
    ensures
        one_bucket_at_a_time(round_records(t, r)),
        free > 0 ==> pool_after(free, round_records(t, r)) == free,
        ({
            let back = all_records(r.steps).len() as int + 1;
            &&& round_records(t, r)[0] == event_handler::ledger_record(
                t.st.stream_id,
                begins(t).st.attempt,
                event_handler::admission_of(Ok(r.free_before_draw)),
            )
            &&& round_records(t, r)[back] == event_handler::ledger_record(
                t.st.stream_id,
                begins(t).st.attempt,
                event_handler::return_of(r.free_before_return),
            )
        }),
{
    lemma_every_attempt_ends_on_record(decode, limits, begins(t).st, r.steps);
    let all = all_records(r.steps);
    let drawn = ended(t, r).draw_records(end_of(r.steps));
    let take = seq![round_records(t, r)[0]];
    let back = seq![round_records(t, r)[all.len() as int + 1]];
    let held = take + all + back;
    let left = pool_after(free, take);
    let none = Seq::<EmissionRecord<Seq<char>>>::empty();
    assert(moves_no_bucket(all));
    assert(moves_no_bucket(drawn));
    assert(round_records(t, r) =~= held + drawn);
    assert(take.drop_last() =~= none);
    assert(back.drop_last() =~= none);
    assert(buckets_out(none) == 0 && pool_after(free, none) == free && pool_after(left, none)
        == left);
    assert(buckets_out(take) == 1);
    assert(buckets_out(back) == -1);
    lemma_buckets_concat(free, take, all);
    lemma_no_bucket_moves(left, all);
    lemma_buckets_concat(free, take + all, back);
    assert forall|n: int| 0 <= n <= held.len() implies 0 <= #[trigger] buckets_out(held.take(n))
        <= 1 by {
        if n == 0 {
            assert(held.take(n) =~= none);
        } else if n <= all.len() + 1 {
            assert(held.take(n) =~= take + all.take(n - 1));
            lemma_buckets_concat(free, take, all.take(n - 1));
            assert(moves_no_bucket(all.take(n - 1))) by {
                assert forall|i: int| 0 <= i < n - 1 implies match #[trigger] all.take(n - 1)[i] {
                    EmissionRecord::Ledger { entry, .. } => !(entry is SendBucketSpent) && !(
                    entry is SendBucketReturned),
                    _ => true,
                } by {
                    assert(all.take(n - 1)[i] == all[i]);
                }
            }
            lemma_no_bucket_moves(left, all.take(n - 1));
        } else {
            assert(held.take(n) =~= held);
        }
    }
    lemma_no_bucket_moves(free, drawn);
    lemma_one_after_the_other(held, drawn);
    lemma_buckets_concat(free, held, drawn);
    event_handler::lemma_bucket_round_trip(free);
}

proof fn lemma_rounds_return_their_buckets<F: Fn(&str) -> Result<Chunk, String>>(
    decode: F,
    limits: Limits,
    h: EventHandler,
    t: TurnFacts,
    rounds: Seq<Round>,
    denied: bool,
    free: u32,
    n: int,
)
    requires
        is_turn(decode, limits, h, t, rounds, denied),
        0 <= n <= rounds.len(),
    ensures
        one_bucket_at_a_time(rounds_records(t, rounds.take(n))),
        free > 0 || n == 0 ==> pool_after(free, rounds_records(t, rounds.take(n))) == free,
    decreases n,
{
    if n == 0 {
        assert(rounds_records(t, rounds.take(0)) =~= Seq::empty());
        lemma_no_bucket_moves(free, rounds_records(t, rounds.take(0)));
    } else {
        lemma_rounds_return_their_buckets(decode, limits, h, t, rounds, denied, free, n - 1);
        assert(rounds.take(n).drop_last() =~= rounds.take(n - 1));
        assert(rounds.take(n).last() == rounds[n - 1]);
        assert(round_fits(decode, limits, h, t, rounds, denied, n - 1));
        let found = after_rounds(t, rounds.take(n - 1));
        let before = rounds_records(t, rounds.take(n - 1));
        lemma_attempts_return_their_bucket(decode, limits, found, rounds[n - 1], free);
        lemma_one_after_the_other(before, round_records(found, rounds[n - 1]));
        lemma_buckets_concat(free, before, round_records(found, rounds[n - 1]));
    }
}

/// No one else draws on the pool during these rounds, before which `free`
/// buckets were free: each draw finds what the last return left, a denied one
/// too, and each return what its own draw left.
pub open spec fn is_undisturbed(free: u32, rounds: Seq<Round>, denied: bool) -> bool {
    &&& forall|k: int|
        0 <= k < rounds.len() ==> {
            let r = #[trigger] rounds[k];
            &&& r.free_before_draw == free_before(free, rounds, k)
            &&& event_handler::after_spend(r.free_before_draw) == Some(r.free_before_return)
        }
    &&& denied ==> free_before(free, rounds, rounds.len() as int) == 0
}

/// How many buckets the pool holds before round `k`, as the return before it
/// left it.
pub open spec fn free_before(free: u32, rounds: Seq<Round>, k: int) -> u32 {
    if k == 0 {
        free
    } else {
        event_handler::after_return(rounds[k - 1].free_before_return)
    }
}

proof fn lemma_pool_is_level(free: u32, rounds: Seq<Round>, denied: bool, k: int)
    requires
        is_undisturbed(free, rounds, denied),
        0 <= k <= rounds.len(),
    ensures
        free_before(free, rounds, k) == free,
    decreases k,
{
    if k > 0 {
        lemma_pool_is_level(free, rounds, denied, k - 1);
        let r = rounds[k - 1];
        assert(r.free_before_draw == free_before(free, rounds, k - 1));
        event_handler::lemma_bucket_round_trip(r.free_before_draw);
    }
}

/// Whatever a turn comes to, it returns every bucket that it took: each attempt
/// drew one from the handler's pool and put one back there, and on the records
/// at most one is out at a time, and none at the end. If no one else draws on
/// the pool, the turn leaves as many buckets free in it as it found, the
/// records say the same, and the turn is denied exactly where it found none:
/// then it fails at once, without an attempt.
pub proof fn lemma_every_turn_returns_its_buckets<F: Fn(&str) -> Result<Chunk, String>>(
    decode: F,
    limits: Limits,
    h: EventHandler,
    stream_id: StreamId,
    rounds: Seq<Round>,
    denied: bool,
    free: u32,
)
    requires
        is_turn(
            decode,
            limits,
            h,
            TurnFacts::fresh(stream_id, h.allowance()),
            rounds,
            denied,
        ),
    ensures
        ({
            let t = TurnFacts::fresh(stream_id, h.allowance());
            let records = turn_records(h, t, rounds, denied);
            &&& one_bucket_at_a_time(records)
            &&& forall|k: int|
                0 <= k < rounds.len() ==> h.drew(Ok((#[trigger] rounds[k]).free_before_draw))
                    && h.took_back(rounds[k].free_before_return)
            &&& is_undisturbed(free, rounds, denied) ==> {
                &&& free_before(free, rounds, rounds.len() as int) == free
                &&& pool_after(free, records) == free
                &&& denied <==> free == 0
                &&& denied ==> rounds.len() == 0
            }
        }),
{
    let t = TurnFacts::fresh(stream_id, h.allowance());
    let n = rounds.len() as int;
    assert(rounds.take(n) =~= rounds);
    lemma_rounds_return_their_buckets(decode, limits, h, t, rounds, denied, free, n);
    let records = turn_records(h, t, rounds, denied);
    let middle = rounds_records(t, rounds);
    let head = records.take(1);
    let tail = records.skip(1 + middle.len() as int);
    assert(head + middle + tail =~= records);
    assert(moves_no_bucket(head));
    assert(moves_no_bucket(tail));
    lemma_no_bucket_moves(free, head);
    lemma_one_after_the_other(head, middle);
    lemma_buckets_concat(free, head, middle);
    lemma_no_bucket_moves(pool_after(free, head + middle), tail);
    lemma_one_after_the_other(head + middle, tail);
    lemma_buckets_concat(free, head + middle, tail);
    assert forall|k: int| 0 <= k < rounds.len() implies h.drew(
        Ok((#[trigger] rounds[k]).free_before_draw),
    ) && h.took_back(rounds[k].free_before_return) by {
        assert(round_fits(decode, limits, h, t, rounds, denied, k));
    }
    if is_undisturbed(free, rounds, denied) {
        lemma_pool_is_level(free, rounds, denied, n);
        if n > 0 {
            assert(rounds[0].free_before_draw == free);
            event_handler::lemma_draws_are_honest(h, Ok(rounds[0].free_before_draw));
        }
    }
}

// ---- verdicts -------------------------------------------------------------

/// A turn whose attempts all end in faults spends its whole allowance: it makes
/// one attempt more than it was granted retries. Then it fails over if an
/// alternative is known, and otherwise fails with the fault of its last
/// attempt.
pub proof fn lemma_faulty_turns_spend_their_allowance<F: Fn(&str) -> Result<Chunk, String>>(
    decode: F,
    limits: Limits,
    h: EventHandler,
    stream_id: StreamId,
    rounds: Seq<Round>,
)
    requires
        is_turn(
            decode,
            limits,
            h,
            TurnFacts::fresh(stream_id, h.allowance()),
            rounds,
            false,
        ),
        turn::arguable_fault(end_of(rounds.last().steps)) is Some,
    ensures
        ({
            let t = TurnFacts::fresh(stream_id, h.allowance());
            &&& rounds.len() == h.allowance() + 1
            &&& turn_verdict(h, t, rounds, false) == if h.failover_known() {
                TurnVerdict::Failover { attempts_here: h.allowance().wrapping_add(1) }
            } else {
                TurnVerdict::Failed(turn::arguable_fault(end_of(rounds.last().steps))->0)
            }
        }),
{
    let t = TurnFacts::fresh(stream_id, h.allowance());
    let n = rounds.len() as int;
    lemma_rounds(decode, limits, h, t, rounds, false, n - 1);
    lemma_rounds(decode, limits, h, t, rounds, false, n);
    assert(rounds.take(n - 1) =~= rounds.drop_last());
    assert(rounds.take(n) =~= rounds);
    assert(round_fits(decode, limits, h, t, rounds, false, n - 1));
    let found = after_rounds(t, rounds.drop_last());
    lemma_every_attempt_ends_on_record(decode, limits, begins(found).st, rounds.last().steps);
}

/// A turn commits only what its last attempt showed.
pub proof fn lemma_turns_commit_what_was_shown<F: Fn(&str) -> Result<Chunk, String>>(
    decode: F,
    limits: Limits,
    h: EventHandler,
    t: TurnFacts,
    rounds: Seq<Round>,
    denied: bool,
    outcome: ChatOutcome<Seq<char>>,
)
    requires
        is_turn(decode, limits, h, t, rounds, denied),
        turn_verdict(h, t, rounds, denied) == TurnVerdict::Committed(outcome),
    ensures
        !denied,
        outcome.content == testimony::shown_text(all_records(rounds.last().steps)),
        machine::first_finish(testimony::recorded(all_records(rounds.last().steps))) == Some(
            outcome.finish_reason,
        ),
{
    let n = rounds.len() as int;
    if !denied {
        assert(round_fits(decode, limits, h, t, rounds, denied, n - 1));
        assert(rounds.take(n - 1) =~= rounds.drop_last());
        let found = after_rounds(t, rounds.drop_last());
        turn::lemma_commits_come_from_attempts(
            ended(found, rounds.last()),
            h.failover_known(),
            end_of(rounds.last().steps),
        );
        lemma_committed_is_what_was_shown(
            decode,
            limits,
            begins(found).st,
            rounds.last().steps,
            outcome,
        );
    }
}

// ---- the key --------------------------------------------------------------

/// A turn does not depend on the API key. Two endpoints that differ only in
/// their key are sent the same request at the same address, but for the
/// authorization; and what is a turn on the one is a turn on the other, with
/// the same records and the same verdict, neither of which the configuration
/// enters otherwise than through the bounds.
pub proof fn lemma_turns_do_not_depend_on_the_key<F: Fn(&str) -> Result<Chunk, String>>(
    one: OpenAiConfig<Seq<char>>,
    other: OpenAiConfig<Seq<char>>,
    messages: Seq<Message<Seq<char>>>,
    decode: F,
    h: EventHandler,
    t: TurnFacts,
    rounds: Seq<Round>,
    denied: bool,
)
    requires
        other == (OpenAiConfig { api_key: other.api_key, ..one }),
    ensures
        attempt::limits_of(one) == attempt::limits_of(other),
        openai::url_of(one) == openai::url_of(other),
        openai::request_of(one, messages) == openai::request_of(other, messages),
        is_turn(decode, attempt::limits_of(one), h, t, rounds, denied) == is_turn(
            decode,
            attempt::limits_of(other),
            h,
            t,
            rounds,
            denied,
        ),
{
}

} // verus!
