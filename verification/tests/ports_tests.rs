use rar_chat::driver::DriverEvent;
use rar_chat::emission::{
    drop_record, latency_record, latency_report_due, EmissionRecord, ObserverSink, Outbox, SchedNote,
    TurnVerdictRecord, WireNote, CAPTURE_FORMAT_VERSION,
};
use rar_chat::ports::{
    capture_error_line, capture_file_name, CaptureSink, Shown, TerminalSink, RECORDS_PER_FLUSH,
};

fn shown(rec: EmissionRecord) -> Shown {
    TerminalSink.render(&rec)
}

fn event(event: DriverEvent) -> EmissionRecord {
    EmissionRecord::NormalizedEvent { stream: 1, attempt: 1, installment_seq: 1, event }
}

fn wire(note: WireNote) -> EmissionRecord {
    EmissionRecord::Wire { stream: 1, attempt: 1, note }
}

fn notice(s: &str) -> Shown {
    Shown::Notice(s.to_string())
}

fn trailer() -> EmissionRecord {
    EmissionRecord::TurnTrailer {
        stream: 1,
        format_version: CAPTURE_FORMAT_VERSION,
        attempts: 1,
        verdict: TurnVerdictRecord::FailoverDirected { after_attempts: 1 },
        reads: 0,
        installments: 0,
        events: 0,
        normalization_errors: 0,
        select_polls: 0,
        capture_policy: "full",
    }
}

#[test]
fn the_terminal_shows_what_matters() {
    assert_eq!(shown(event(DriverEvent::TextDelta("hi".to_string()))), Shown::Reply("hi".to_string()));
    assert_eq!(
        shown(event(DriverEvent::Finish("stop".to_string()))),
        notice("\n[SYSTEM] Stream completed. Exit Reason: stop")
    );
    assert_eq!(
        shown(event(DriverEvent::Usage { prompt_tokens: 1, completion_tokens: 20, total_tokens: 21 })),
        notice("[ACCOUNTING] Prompt: 1, Completion: 20, Total: 21")
    );
    assert_eq!(shown(event(DriverEvent::Done)), Shown::Nothing);
    assert_eq!(shown(wire(WireNote::Ttft { ms: 42 })), notice("\n[METRIC] TTFT: 42ms"));
    assert_eq!(
        shown(wire(WireNote::UnhandledChannel { channel: "tool_calls".to_string() })),
        notice("\n[WIRE] unhandled channel present: tool_calls (surfaced, not interpreted)")
    );
    assert_eq!(shown(wire(WireNote::KeepAliveComment)), Shown::Nothing);
    assert_eq!(
        shown(EmissionRecord::Anomaly { stream: 1, attempt: 1, note: "odd".to_string() }),
        notice("\n[ANOMALY] odd")
    );
    assert_eq!(
        shown(EmissionRecord::NormalizationError {
            stream: 1,
            attempt: 1,
            installment_seq: 1,
            detail: "bad".to_string(),
        }),
        notice("\n[WIRE-ERROR] normalization failed: bad")
    );
    assert_eq!(
        shown(EmissionRecord::UndecodableInstallment {
            stream: 1,
            attempt: 1,
            seq: 1,
            bytes: 3,
            error: "e".to_string(),
            hex_prefix: "ff 00".to_string(),
        }),
        notice("\n[WIRE-ERROR] undecodable frame (3b): e [ff 00]")
    );
    assert_eq!(
        shown(EmissionRecord::Residue { stream: 1, attempt: 1, bytes: 9, lossy_text: String::new() }),
        notice("\n[WIRE-ERROR] 9b unframed residue at stream end")
    );
    assert_eq!(
        shown(EmissionRecord::CaptureDrop { dropped: 3 }),
        notice("\n[CAPTURE] 3 record(s) dropped under load")
    );
    assert_eq!(shown(trailer()), Shown::Nothing);
}

#[test]
fn a_capture_is_flushed_every_so_many_records() {
    let mut sink = CaptureSink::new();
    let rec = EmissionRecord::CaptureDrop { dropped: 1 };
    for round in 0..3 {
        for n in 1..=RECORDS_PER_FLUSH {
            assert_eq!(sink.wrote(&rec), n == 64, "round {round}, record {n}");
        }
    }
}

#[test]
fn a_capture_is_flushed_at_the_end_of_a_turn() {
    let mut sink = CaptureSink::default();
    let rec = EmissionRecord::CaptureDrop { dropped: 1 };
    assert!(!sink.wrote(&rec));
    assert!(sink.wrote(&trailer()));
    for n in 1..=64 {
        assert_eq!(sink.wrote(&rec), n == 64);
    }
}

#[test]
fn captures_have_names_and_error_lines() {
    assert_eq!(capture_file_name(1700000000), "capture-1700000000.jsonl");
    assert_eq!(capture_file_name(0), "capture-0.jsonl");
    assert_eq!(capture_error_line("oops"), "{\"rec\":\"capture_error\",\"detail\":\"oops\"}");
}

#[test]
fn the_bus_reports_latency_and_drops() {
    assert!(!latency_report_due(0));
    assert!(!latency_report_due(254));
    assert!(latency_report_due(255));
    assert!(!latency_report_due(256));
    assert!(latency_report_due(511));
    assert_eq!(
        latency_record(9),
        EmissionRecord::Scheduler { stream: 0, attempt: 0, note: SchedNote::EmitLatencyUs { us: 9 } }
    );
    assert_eq!(drop_record(0, 0), None);
    assert_eq!(drop_record(0, 2), Some(EmissionRecord::CaptureDrop { dropped: 2 }));
    assert_eq!(drop_record(2, 2), None);
}

struct Counter(usize);

impl ObserverSink for Counter {
    fn write(&mut self, _rec: &EmissionRecord) {
        self.0 += 1;
    }
}

#[test]
fn records_come_out_in_order() {
    let mut out = Outbox::new();
    out.emit(trailer());
    out.emit(EmissionRecord::CaptureDrop { dropped: 1 });
    let records = out.into_records();
    assert_eq!(records, vec![trailer(), EmissionRecord::CaptureDrop { dropped: 1 }]);
    assert_eq!(records[0].clone(), records[0]);
    let mut sink = Counter(0);
    for rec in &records {
        sink.write(rec);
    }
    assert_eq!(sink.0, 2);
}
