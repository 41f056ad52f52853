use rar_chat::driver::{DriverEvent, DriverFault};
use rar_chat::emission::{EmissionRecord, InstallmentKind, InstallmentStatus, LedgerEntry, Outbox, WireNote};
use rar_chat::event_handler::{
    admission_entry, normalize, normalize_chunk, return_entry, spend_bucket, Choice, Chunk, Delta, EventHandler,
    FaultDirective, FlowDirective, Normalized, TurnResolution, Usage,
};
use rar_chat::machine::EndCause;
use serde_json::Value;

fn text_of(v: &Value) -> Option<String> {
    v.as_str().map(|s| s.to_string())
}

fn count_of(v: &Value, name: &str) -> u32 {
    v.get(name).and_then(|n| n.as_u64()).unwrap_or(0) as u32
}

fn present<'a>(v: &'a Value, name: &str) -> Option<&'a Value> {
    v.get(name).filter(|x| !x.is_null())
}

fn decode(data: &str) -> Result<Chunk, String> {
    let v: Value = serde_json::from_str(data).map_err(|e| e.to_string())?;
    let empty = Vec::new();
    let choices = v.get("choices").and_then(|c| c.as_array()).unwrap_or(&empty);
    Ok(Chunk {
        choices: choices
            .iter()
            .map(|c| Choice {
                delta: Delta {
                    content: c.get("delta").and_then(|d| d.get("content")).and_then(text_of),
                    tool_calls: c.get("delta").and_then(|d| present(d, "tool_calls")).is_some(),
                },
                finish_reason: c.get("finish_reason").and_then(text_of),
            })
            .collect(),
        usage: present(&v, "usage").map(|u| Usage {
            prompt_tokens: count_of(u, "prompt_tokens"),
            completion_tokens: count_of(u, "completion_tokens"),
            total_tokens: count_of(u, "total_tokens"),
        }),
        error: present(&v, "error").map(|e| e.to_string()),
    })
}

fn normal(data: &str) -> Normalized {
    normalize(data, &decode).unwrap()
}

fn handler() -> EventHandler {
    EventHandler::new(4, 2, true)
}

fn refine(data: &str) -> (Result<FlowDirective, DriverFault>, Vec<EmissionRecord>, (u64, u64, u64, u64)) {
    let h = handler();
    let mut out = Outbox::new();
    let mut st = h.begin_stream(9, &mut out);
    st.begin_attempt();
    let r = h.on_installment(
        &mut st,
        5,
        InstallmentKind::Data,
        data,
        InstallmentStatus::Complete,
        &decode,
        &mut out,
    );
    let mut records = out.into_records();
    records.remove(0);
    (r, records, st.tally())
}

#[test]
fn done_maps_to_done() {
    assert_eq!(normal("[DONE]").events, vec![DriverEvent::Done]);
}

#[test]
fn delta_and_finish_in_one_chunk() {
    let n = normal(r#"{"choices":[{"delta":{"content":"hi"},"finish_reason":"stop"}]}"#);
    assert_eq!(n.events, vec![DriverEvent::TextDelta("hi".into()), DriverEvent::Finish("stop".into())]);
}

#[test]
fn tool_calls_channel_is_surfaced_not_dropped() {
    let n = normal(r#"{"choices":[{"delta":{"tool_calls":[{"index":0}]}}]}"#);
    assert_eq!(n.unhandled_channels, vec!["tool_calls".to_string()]);
}

#[test]
fn multiple_choices_flagged() {
    let n = normal(r#"{"choices":[{"delta":{"content":"a"}},{"delta":{"content":"b"}}]}"#);
    assert_eq!(n.multiple_choices, Some(2));
}

#[test]
fn allowance_single_budget_then_failover() {
    let h = handler();
    let mut out = Outbox::new();
    let mut rem = 2u32;
    assert_eq!(h.on_wire_fault(1, 1, &mut rem, &mut out), FaultDirective::RetrySameEndpoint);
    assert_eq!(h.on_wire_fault(1, 2, &mut rem, &mut out), FaultDirective::RetrySameEndpoint);
    assert_eq!(h.on_wire_fault(1, 3, &mut rem, &mut out), FaultDirective::Failover);
    assert_eq!(
        out.into_records(),
        vec![
            EmissionRecord::Ledger { stream: 1, attempt: 1, entry: LedgerEntry::RetryAllowanceSpent { remaining: 1 } },
            EmissionRecord::Ledger { stream: 1, attempt: 2, entry: LedgerEntry::RetryAllowanceSpent { remaining: 0 } },
        ]
    );
}

#[test]
fn zero_buckets_fail_fast() {
    let h = EventHandler::new(1, 0, false);
    let mut out = Outbox::new();
    assert!(h.acquire_send_bucket(1, 1, &mut out));
    assert!(!h.acquire_send_bucket(1, 1, &mut out));
    h.return_send_bucket(1, 1, &mut out);
    assert!(h.acquire_send_bucket(1, 1, &mut out));
    let ledger = |entry| EmissionRecord::Ledger { stream: 1, attempt: 1, entry };
    assert_eq!(
        out.into_records(),
        vec![
            ledger(LedgerEntry::SendBucketSpent { available_after: 0 }),
            ledger(LedgerEntry::SendBucketDenied),
            ledger(LedgerEntry::SendBucketReturned { available_after: 1 }),
            ledger(LedgerEntry::SendBucketSpent { available_after: 0 }),
        ]
    );
}

#[test]
fn the_pool_holds_what_it_was_made_with() {
    for n in [0u32, 1, 5] {
        let h = EventHandler::new(n, 0, false);
        let mut out = Outbox::new();
        for _ in 0..n {
            assert!(h.acquire_send_bucket(1, 1, &mut out));
        }
        assert!(!h.acquire_send_bucket(1, 1, &mut out));
        assert!(!h.acquire_send_bucket(1, 1, &mut out));
        for _ in 0..n {
            h.return_send_bucket(1, 1, &mut out);
        }
        for _ in 0..n {
            assert!(h.acquire_send_bucket(1, 1, &mut out));
        }
        assert!(!h.acquire_send_bucket(1, 1, &mut out));
    }
}

#[test]
fn without_an_alternative_the_strategy_gives_up() {
    let h = EventHandler::new(1, 0, false);
    let mut out = Outbox::new();
    let mut rem = 0u32;
    assert_eq!(h.on_wire_fault(1, 1, &mut rem, &mut out), FaultDirective::GiveUp);
    assert!(!h.knows_failover_exists());
    assert_eq!(h.retry_allowance_per_turn(), 0);
    assert!(out.into_records().is_empty());
}

#[test]
fn spending_and_returning_a_bucket_balance() {
    assert_eq!(spend_bucket(0), None);
    assert_eq!(spend_bucket(3), Some(2));
    assert_eq!(spend_bucket(3).map(|v| v + 1), Some(3));
    assert_eq!(admission_entry(Ok(3)), LedgerEntry::SendBucketSpent { available_after: 2 });
    assert_eq!(admission_entry(Err(0)), LedgerEntry::SendBucketDenied);
    assert_eq!(return_entry(2), LedgerEntry::SendBucketReturned { available_after: 3 });
    assert_eq!(return_entry(u32::MAX), LedgerEntry::SendBucketReturned { available_after: 0 });
}

#[test]
fn sentinel_may_stand_in_white_space() {
    assert_eq!(normal(" [DONE] \n").events, vec![DriverEvent::Done]);
    assert!(normalize("[done]", &decode).is_err());
}

#[test]
fn empty_deltas_are_no_events() {
    assert!(normal(r#"{"choices":[{"delta":{"content":""}}]}"#).events.is_empty());
    assert!(normal(r#"{"choices":[]}"#).events.is_empty());
    assert!(normal("{}").events.is_empty());
}

#[test]
fn usage_comes_last() {
    let n = normal(r#"{"choices":[{"delta":{"content":"x"},"finish_reason":"stop"}],"usage":{"prompt_tokens":1,"completion_tokens":2,"total_tokens":3}}"#);
    assert_eq!(
        n.events,
        vec![
            DriverEvent::TextDelta("x".into()),
            DriverEvent::Finish("stop".into()),
            DriverEvent::Usage { prompt_tokens: 1, completion_tokens: 2, total_tokens: 3 },
        ]
    );
    assert_eq!(n.multiple_choices, None);
}

#[test]
fn undecodable_and_server_errors_are_told_apart() {
    assert_eq!(
        normalize_chunk(Err("expected value at line 1 column 1".to_string())).unwrap_err(),
        "unparseable chunk: expected value at line 1 column 1"
    );
    assert_eq!(
        normalize("not json", &decode).unwrap_err(),
        format!("unparseable chunk: {}", serde_json::from_str::<Value>("not json").unwrap_err())
    );
    assert_eq!(
        normalize(r#"{"error":{"message":"overloaded"}}"#, &decode).unwrap_err(),
        r#"server error in stream: {"message":"overloaded"}"#
    );
}

#[test]
fn data_feeds_the_machine_and_is_recorded() {
    let (r, records, tally) =
        refine(r#"{"choices":[{"delta":{"content":"hi","tool_calls":[]},"finish_reason":"stop"}]}"#);
    assert_eq!(r, Ok(FlowDirective::Continue));
    assert_eq!(
        records,
        vec![
            EmissionRecord::Wire {
                stream: 9,
                attempt: 1,
                note: WireNote::UnhandledChannel { channel: "tool_calls".to_string() },
            },
            EmissionRecord::NormalizedEvent {
                stream: 9,
                attempt: 1,
                installment_seq: 5,
                event: DriverEvent::TextDelta("hi".to_string()),
            },
            EmissionRecord::NormalizedEvent {
                stream: 9,
                attempt: 1,
                installment_seq: 5,
                event: DriverEvent::Finish("stop".to_string()),
            },
        ]
    );
    assert_eq!(tally, (0, 1, 2, 0));
}

#[test]
fn the_sentinel_stops_the_flow() {
    let (r, records, _) = refine("[DONE]");
    assert_eq!(r, Ok(FlowDirective::StopComplete));
    assert_eq!(records.len(), 1);
}

#[test]
fn failures_are_recorded_before_they_propagate() {
    let (r, records, tally) = refine("{");
    let detail = match r {
        Err(DriverFault::Protocol(d)) => d,
        other => panic!("{other:?}"),
    };
    assert_eq!(
        records,
        vec![EmissionRecord::NormalizationError { stream: 9, attempt: 1, installment_seq: 5, detail }]
    );
    assert_eq!(tally, (0, 0, 0, 1));
}

#[test]
fn multiple_choices_are_rejected_loudly() {
    let (r, records, tally) =
        refine(r#"{"choices":[{"delta":{"content":"a"}},{"delta":{"content":"b"}}]}"#);
    let detail = "multiple choices (n=2) not supported".to_string();
    assert_eq!(r, Err(DriverFault::Protocol(detail.clone())));
    assert_eq!(
        records,
        vec![EmissionRecord::NormalizationError { stream: 9, attempt: 1, installment_seq: 5, detail }]
    );
    assert_eq!(tally, (0, 0, 0, 0));
}

#[test]
fn comments_change_nothing() {
    let h = handler();
    let mut out = Outbox::new();
    let mut st = h.begin_stream(1, &mut out);
    let before = out.into_records().len();
    assert_eq!(before, 1);
    let mut out = Outbox::new();
    let r = h.on_installment(
        &mut st,
        1,
        InstallmentKind::Comment,
        ": ping",
        InstallmentStatus::Complete,
        &decode,
        &mut out,
    );
    assert_eq!(r, Ok(FlowDirective::Continue));
    assert!(out.into_records().is_empty());
    assert!(!st.has_content());
}

#[test]
fn finalizing_reports_oddities_and_resolves() {
    let h = handler();
    let mut out = Outbox::new();
    let mut st = h.begin_stream(2, &mut out);
    assert_eq!(st.begin_attempt(), 1);
    for data in [
        r#"{"choices":[{"delta":{"content":"é"},"finish_reason":"stop"}]}"#,
        r#"{"choices":[{"delta":{"content":"!"}}]}"#,
    ] {
        h.on_installment(&mut st, 1, InstallmentKind::Data, data, InstallmentStatus::Complete, &decode, &mut out)
            .unwrap();
    }
    assert_eq!(st.content_so_far(), 3);
    assert!(st.has_content());
    let mut odd = Outbox::new();
    match h.finalize_attempt(&mut st, EndCause::StreamEnded, &mut odd) {
        TurnResolution::Committed(o) => {
            assert_eq!(o.content, "é!");
            assert_eq!(o.finish_reason, "stop");
        }
        TurnResolution::Fault(f) => panic!("{f:?}"),
    }
    assert_eq!(
        odd.into_records(),
        vec![EmissionRecord::Anomaly {
            stream: 2,
            attempt: 1,
            note: "text delta arrived after finish_reason".to_string(),
        }]
    );
    match h.finalize_attempt(&mut st, EndCause::StreamEnded, &mut Outbox::new()) {
        TurnResolution::Fault(DriverFault::EmptyStream) => {}
        other => panic!("{other:?}"),
    }
    assert_eq!(st.begin_attempt(), 2);
    assert_eq!(st.label(), (2, 2));
}
