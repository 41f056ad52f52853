use rar_chat::driver::{ChatOutcome, DriverFault};
use rar_chat::emission::{EmissionRecord, LedgerEntry, Outbox, StreamEndCause, TurnVerdictRecord};
use rar_chat::event_handler::{EventHandler, TurnResolution};
use rar_chat::openai::{AttemptEnd, TurnVerdict};
use rar_chat::turn::{judge_admission, Turn};

fn outcome() -> ChatOutcome {
    ChatOutcome { content: "café".to_string(), finish_reason: "stop".to_string(), usage: Some((1, 2, 3)) }
}

fn fault() -> AttemptEnd {
    AttemptEnd::Complete(TurnResolution::Fault(DriverFault::EmptyStream))
}

fn ledger(attempt: u32, entry: LedgerEntry) -> EmissionRecord {
    EmissionRecord::Ledger { stream: 8, attempt, entry }
}

fn begin(h: &EventHandler) -> Turn {
    let mut out = Outbox::new();
    let t = Turn::begin(h, 8, &mut out);
    assert_eq!(
        out.into_records(),
        vec![ledger(0, LedgerEntry::RetryAllowanceGranted { total: h.retry_allowance_per_turn() })]
    );
    t
}

#[test]
fn faults_are_retried_until_the_allowance_is_spent() {
    let h = EventHandler::new(1, 2, false);
    let mut t = begin(&h);
    let mut out = Outbox::new();
    let mut attempts = 0;
    let verdict = loop {
        assert!(t.next_attempt(&h, &mut out).is_none());
        attempts += 1;
        if let Some(v) = t.attempt_ended(&h, fault(), &mut out) {
            break v;
        }
    };
    assert_eq!(attempts, 3);
    match verdict {
        TurnVerdict::Failed(f) => assert_eq!(f, DriverFault::EmptyStream),
        other => panic!("{other:?}"),
    }
    assert_eq!(
        out.into_records(),
        vec![
            ledger(1, LedgerEntry::SendBucketSpent { available_after: 0 }),
            ledger(1, LedgerEntry::SendBucketReturned { available_after: 1 }),
            ledger(1, LedgerEntry::RetryAllowanceSpent { remaining: 1 }),
            ledger(2, LedgerEntry::SendBucketSpent { available_after: 0 }),
            ledger(2, LedgerEntry::SendBucketReturned { available_after: 1 }),
            ledger(2, LedgerEntry::RetryAllowanceSpent { remaining: 0 }),
            ledger(3, LedgerEntry::SendBucketSpent { available_after: 0 }),
            ledger(3, LedgerEntry::SendBucketReturned { available_after: 1 }),
        ]
    );
}

#[test]
fn a_known_alternative_is_the_last_resort() {
    let h = EventHandler::new(1, 1, true);
    let mut t = begin(&h);
    let mut out = Outbox::new();
    assert!(t.next_attempt(&h, &mut out).is_none());
    let stall = AttemptEnd::Wire(StreamEndCause::StallTimeout { window_secs: 30 });
    assert!(t.attempt_ended(&h, stall, &mut out).is_none());
    assert!(t.next_attempt(&h, &mut out).is_none());
    match t.attempt_ended(&h, fault(), &mut out) {
        Some(TurnVerdict::Failover { attempts_here }) => assert_eq!(attempts_here, 2),
        other => panic!("{other:?}"),
    }
}

#[test]
fn wire_cuts_become_faults() {
    let h = EventHandler::new(1, 0, false);
    let mut t = begin(&h);
    let mut out = Outbox::new();
    assert!(t.next_attempt(&h, &mut out).is_none());
    let end = AttemptEnd::Wire(StreamEndCause::HttpError { status: 401, body: "no".to_string() });
    match t.attempt_ended(&h, end, &mut out) {
        Some(TurnVerdict::Failed(f)) => assert_eq!(f, DriverFault::Protocol("HTTP 401: no".to_string())),
        other => panic!("{other:?}"),
    }
}

#[test]
fn a_commit_is_passed_on() {
    let h = EventHandler::new(1, 5, true);
    let mut t = begin(&h);
    let mut out = Outbox::new();
    assert!(t.next_attempt(&h, &mut out).is_none());
    let end = AttemptEnd::Complete(TurnResolution::Committed(outcome()));
    match t.attempt_ended(&h, end, &mut out) {
        Some(TurnVerdict::Committed(o)) => assert_eq!(o, outcome()),
        other => panic!("{other:?}"),
    }
    assert_eq!(t.remaining_allowance, 5);
}

#[test]
fn a_cancelled_turn_is_over() {
    let h = EventHandler::new(1, 5, true);
    let mut t = begin(&h);
    let mut out = Outbox::new();
    assert!(t.next_attempt(&h, &mut out).is_none());
    match t.attempt_ended(&h, AttemptEnd::Wire(StreamEndCause::Cancelled), &mut out) {
        Some(TurnVerdict::Failed(f)) => assert_eq!(f, DriverFault::Protocol("cancelled".to_string())),
        other => panic!("{other:?}"),
    }
    assert_eq!(t.remaining_allowance, 5);
}

#[test]
fn without_a_bucket_the_turn_fails_at_once() {
    let h = EventHandler::new(0, 5, true);
    let mut t = begin(&h);
    let mut out = Outbox::new();
    match t.next_attempt(&h, &mut out) {
        Some(TurnVerdict::Failed(f)) => {
            assert_eq!(f.to_string(), "protocol violation: no send bucket available (admission denied)")
        }
        other => panic!("{other:?}"),
    }
    assert_eq!(out.into_records(), vec![ledger(1, LedgerEntry::SendBucketDenied)]);
    assert!(judge_admission(true).is_none());
    assert!(judge_admission(false).is_some());
}

#[test]
fn a_whole_turn_balances_and_closes_once() {
    for (buckets, allowance, failover) in [(0, 3, true), (1, 0, false), (2, 1, true), (3, 4, false)] {
        let h = EventHandler::new(buckets, allowance, failover);
        let mut out = Outbox::new();
        let mut t = Turn::begin(&h, 8, &mut out);
        let mut begun = 0;
        let verdict = loop {
            begun += 1;
            if let Some(v) = t.next_attempt(&h, &mut out) {
                break v;
            }
            if let Some(v) = t.attempt_ended(&h, fault(), &mut out) {
                break v;
            }
        };
        t.close(&verdict, &mut out);
        let records = out.into_records();
        let mut free = buckets;
        for rec in &records {
            match rec {
                EmissionRecord::Ledger { entry: LedgerEntry::SendBucketSpent { available_after }, .. } => {
                    free -= 1;
                    assert_eq!(*available_after, free);
                }
                EmissionRecord::Ledger { entry: LedgerEntry::SendBucketReturned { available_after }, .. } => {
                    free += 1;
                    assert_eq!(*available_after, free);
                }
                _ => {}
            }
        }
        assert_eq!(free, buckets);
        let trailers = records.iter().filter(|r| matches!(r, EmissionRecord::TurnTrailer { .. })).count();
        assert_eq!(trailers, 1);
        match (records.last(), &verdict) {
            (
                Some(EmissionRecord::TurnTrailer { attempts, verdict: TurnVerdictRecord::FailoverDirected { after_attempts }, .. }),
                TurnVerdict::Failover { attempts_here },
            ) => {
                assert_eq!((*attempts, *after_attempts, *attempts_here), (begun, allowance + 1, allowance + 1));
                assert!(failover);
            }
            (
                Some(EmissionRecord::TurnTrailer { attempts, verdict: TurnVerdictRecord::Failed { fault }, .. }),
                TurnVerdict::Failed(f),
            ) => {
                assert_eq!(*attempts, begun);
                assert_eq!(*fault, f.to_string());
                assert_eq!(begun, if buckets == 0 { 1 } else { allowance + 1 });
            }
            other => panic!("{other:?}"),
        }
    }
}

fn trailer(t: &Turn, v: &TurnVerdict) -> EmissionRecord {
    let mut out = Outbox::new();
    t.close(v, &mut out);
    let mut records = out.into_records();
    assert_eq!(records.len(), 1);
    records.remove(0)
}

#[test]
fn the_trailer_sums_the_turn_up() {
    let h = EventHandler::new(1, 1, false);
    let mut t = begin(&h);
    let mut out = Outbox::new();
    t.next_attempt(&h, &mut out);
    t.count_poll();
    t.count_poll();
    t.st.count_read();
    let expected = |verdict| EmissionRecord::TurnTrailer {
        stream: 8,
        format_version: 2,
        attempts: 1,
        verdict,
        reads: 1,
        installments: 0,
        events: 0,
        normalization_errors: 0,
        select_polls: 2,
        capture_policy: "full",
    };
    assert_eq!(
        trailer(&t, &TurnVerdict::Committed(outcome())),
        expected(TurnVerdictRecord::Committed {
            finish_reason: "stop".to_string(),
            chars: 4,
            usage: Some((1, 2, 3)),
        })
    );
    assert_eq!(
        trailer(&t, &TurnVerdict::Failover { attempts_here: 2 }),
        expected(TurnVerdictRecord::FailoverDirected { after_attempts: 2 })
    );
    assert_eq!(
        trailer(&t, &TurnVerdict::Failed(DriverFault::Stalled { after_secs: 30 })),
        expected(TurnVerdictRecord::Failed { fault: "stream stalled: no bytes for 30s".to_string() })
    );
}
