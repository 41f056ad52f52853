use rar_chat::attempt::{Attempt, Limits, ReadStamp, WireEvent};
use rar_chat::driver::{DriverEvent, DriverFault};
use rar_chat::emission::{
    EmissionRecord, InstallmentKind, InstallmentStatus, Outbox, SchedNote, StreamEndCause, WireNote,
};
use rar_chat::event_handler::{Choice, Chunk, Delta, EventHandler, StreamState, TurnResolution};
use rar_chat::openai::{AttemptEnd, BodyRead};
use rar_chat::ports::{Shown, TerminalSink};
use rar_chat::sse::DEFAULT_BUF_LIMIT;

const LIMITS: Limits = Limits {
    stall_timeout_secs: 30,
    first_byte_backstop_secs: 120,
    overall_deadline_secs: 600,
    throughput_floor_bps: 1,
    throughput_sustained_secs: 20,
};

const STAMP: ReadStamp = ReadStamp { at_ms: 11, wall_unix_ms: 12, gap_ms: 13 };

const SECOND: u128 = 1_000_000_000;

/// `text` is a delta, `text!` a delta with a finish reason, `?` no chunk.
fn decode(data: &str) -> Result<Chunk, String> {
    if data == "?" {
        return Err("no chunk".to_string());
    }
    let (text, finish) = match data.strip_suffix('!') {
        Some(t) => (t, Some("stop".to_string())),
        None => (data, None),
    };
    Ok(Chunk {
        choices: vec![Choice {
            delta: Delta { content: Some(text.to_string()), tool_calls: false },
            finish_reason: finish,
        }],
        usage: None,
        error: None,
    })
}

struct Rig {
    h: EventHandler,
    st: StreamState,
    a: Attempt,
}

fn rig() -> Rig {
    let h = EventHandler::new(1, 0, false);
    let mut st = h.begin_stream(3, &mut Outbox::new());
    st.begin_attempt();
    Rig { h, st, a: Attempt::new(LIMITS) }
}

impl Rig {
    fn read(&mut self, bytes: &[u8]) -> (Option<AttemptEnd>, Vec<EmissionRecord>) {
        let mut out = Outbox::new();
        let end = self.a.on_read(&self.h, &mut self.st, bytes, STAMP, &decode, &mut out);
        (end, out.into_records())
    }

    fn cut(&mut self, ev: WireEvent) -> (StreamEndCause, Vec<EmissionRecord>) {
        let mut out = Outbox::new();
        match self.a.on_cut(&self.h, &mut self.st, ev, &mut out) {
            AttemptEnd::Wire(c) => (c, out.into_records()),
            other => panic!("{other:?}"),
        }
    }

    fn tick(&mut self, below_floor: bool, now_ns: u128) -> (Option<AttemptEnd>, Vec<EmissionRecord>) {
        let mut out = Outbox::new();
        let end = self.a.on_tick(&self.h, &mut self.st, below_floor, now_ns, now_ns, 5, 2, &mut out);
        (end, out.into_records())
    }

    fn close(mut self) -> (AttemptEnd, Vec<EmissionRecord>) {
        let mut out = Outbox::new();
        let end = self.a.on_peer_closed(&self.h, &mut self.st, &decode, &mut out);
        (end, out.into_records())
    }
}

fn read_record(seq: u64, bytes: usize) -> EmissionRecord {
    EmissionRecord::Read {
        stream: 3,
        attempt: 1,
        seq,
        at_ms: 11,
        wall_unix_ms: 12,
        bytes,
        gap_ms: 13,
    }
}

fn end_record(cause: StreamEndCause, unconsumed_buffer_bytes: usize) -> EmissionRecord {
    EmissionRecord::StreamEnd { stream: 3, attempt: 1, cause, unconsumed_buffer_bytes }
}

fn wire(note: WireNote) -> EmissionRecord {
    EmissionRecord::Wire { stream: 3, attempt: 1, note }
}

fn installment(
    seq: u64,
    first_read: u64,
    last_read: u64,
    bytes: usize,
    kind: InstallmentKind,
    payload: &str,
    status: InstallmentStatus,
) -> EmissionRecord {
    EmissionRecord::Installment {
        stream: 3,
        attempt: 1,
        seq,
        first_read,
        last_read,
        bytes,
        kind,
        payload: payload.to_string(),
        status,
    }
}

fn event(installment_seq: u64, event: DriverEvent) -> EmissionRecord {
    EmissionRecord::NormalizedEvent { stream: 3, attempt: 1, installment_seq, event }
}

fn ends(records: &[EmissionRecord]) -> usize {
    records.iter().filter(|r| matches!(r, EmissionRecord::StreamEnd { .. })).count()
}

#[test]
fn a_read_is_recorded_with_its_frames() {
    let mut r = rig();
    let (end, records) = r.read(b"data: hi\n\n: ping\n\nda");
    assert!(end.is_none());
    assert_eq!(
        records,
        vec![
            read_record(1, 20),
            installment(1, 1, 1, 8, InstallmentKind::Data, "hi", InstallmentStatus::Complete),
            wire(WireNote::Ttft { ms: 11 }),
            wire(WireNote::InterReadGap { ms: 13, bytes: 8 }),
            event(1, DriverEvent::TextDelta("hi".to_string())),
            installment(2, 1, 1, 6, InstallmentKind::Comment, ": ping", InstallmentStatus::Complete),
            wire(WireNote::KeepAliveComment),
        ]
    );
    assert_eq!(r.a.window_bytes(), 2);
    assert!(r.a.first_byte_seen());

    let (end, records) = r.read(b"ta: ho\n\n");
    assert!(end.is_none());
    assert_eq!(
        records,
        vec![
            read_record(2, 8),
            installment(3, 1, 2, 8, InstallmentKind::Data, "ho", InstallmentStatus::Complete),
            wire(WireNote::InterReadGap { ms: 13, bytes: 8 }),
            event(3, DriverEvent::TextDelta("ho".to_string())),
        ]
    );
    assert_eq!(r.a.window_bytes(), 4);
    assert_eq!(r.st.tally(), (2, 2, 2, 0));
}

#[test]
fn the_sentinel_completes_the_attempt() {
    let mut r = rig();
    let (end, records) = r.read(b"data: hi!\n\ndata: [DONE]\n\ndata: late\n\nxyz");
    match end {
        Some(AttemptEnd::Complete(TurnResolution::Committed(o))) => {
            assert_eq!(o.content, "hi");
            assert_eq!(o.finish_reason, "stop");
        }
        other => panic!("{other:?}"),
    }
    assert_eq!(records.last(), Some(&end_record(StreamEndCause::DoneSentinelConsumed, 3)));
    assert_eq!(ends(&records), 1);
    let late = records.iter().any(|rec| matches!(rec, EmissionRecord::Installment { payload, .. } if payload == "late"));
    assert!(!late);
}

#[test]
fn the_sentinel_without_a_finish_reason_is_truncation() {
    let mut r = rig();
    let (end, _) = r.read(b"data: half\n\ndata: [DONE]\n\n");
    match end {
        Some(AttemptEnd::Complete(TurnResolution::Fault(f))) => {
            assert_eq!(f, DriverFault::Truncated { partial_chars: 4 })
        }
        other => panic!("{other:?}"),
    }
}

#[test]
fn a_protocol_error_is_told_in_its_own_words() {
    let mut r = rig();
    let (end, records) = r.read(b"data: abc\n\ndata: ?\n\ndata: late\n\n");
    match end {
        Some(AttemptEnd::Complete(TurnResolution::Fault(f))) => {
            assert_eq!(f, DriverFault::Protocol("unparseable chunk: no chunk".to_string()))
        }
        other => panic!("{other:?}"),
    }
    assert_eq!(
        records[records.len() - 2..].to_vec(),
        vec![
            EmissionRecord::NormalizationError {
                stream: 3,
                attempt: 1,
                installment_seq: 2,
                detail: "unparseable chunk: no chunk".to_string(),
            },
            end_record(StreamEndCause::HandlerDirected { directive: "protocol_error".to_string() }, 0),
        ]
    );
}

#[test]
fn undecodable_frames_are_evidence() {
    let mut r = rig();
    let mut frame = vec![0xff, 0x00, b'a'];
    frame.extend_from_slice(b"\n\n");
    let error = std::str::from_utf8(&frame[..3]).unwrap_err().to_string();
    let (end, records) = r.read(&frame);
    assert!(end.is_none());
    assert_eq!(
        records,
        vec![
            read_record(1, 5),
            EmissionRecord::UndecodableInstallment {
                stream: 3,
                attempt: 1,
                seq: 1,
                bytes: 3,
                error,
                hex_prefix: "ff 00 61".to_string(),
            },
        ]
    );
    assert_eq!(r.st.tally(), (1, 0, 0, 0));
}

#[test]
fn hex_evidence_stops_at_sixteen_bytes() {
    let mut r = rig();
    let mut frame = vec![0xffu8; 20];
    frame.extend_from_slice(b"\n\n");
    let (_, records) = r.read(&frame);
    match &records[1] {
        EmissionRecord::UndecodableInstallment { bytes, hex_prefix, .. } => {
            assert_eq!(*bytes, 20);
            assert_eq!(hex_prefix.len(), 16 * 3 - 1);
        }
        other => panic!("{other:?}"),
    }
}

#[test]
fn an_unterminated_flood_overflows() {
    let mut r = rig();
    let (end, records) = r.read(&vec![b'x'; DEFAULT_BUF_LIMIT + 1]);
    match end {
        Some(AttemptEnd::Wire(c)) => {
            assert_eq!(c, StreamEndCause::BufferOverflow { limit_bytes: DEFAULT_BUF_LIMIT })
        }
        other => panic!("{other:?}"),
    }
    assert_eq!(
        records,
        vec![
            read_record(1, DEFAULT_BUF_LIMIT + 1),
            end_record(
                StreamEndCause::BufferOverflow { limit_bytes: DEFAULT_BUF_LIMIT },
                DEFAULT_BUF_LIMIT + 1
            ),
        ]
    );
}

#[test]
fn a_full_buffer_is_no_overflow() {
    let mut r = rig();
    let (end, _) = r.read(&vec![b'x'; DEFAULT_BUF_LIMIT]);
    assert!(end.is_none());
}

#[test]
fn stall_before_and_after_the_first_byte() {
    let mut r = rig();
    assert_eq!(r.a.stall_window_secs(), 120);
    let (cause, _) = r.cut(WireEvent::Stall);
    assert_eq!(cause, StreamEndCause::FirstByteBackstop { window_secs: 120 });
    r.read(b"abc");
    assert_eq!(r.a.stall_window_secs(), 30);
    let (cause, records) = r.cut(WireEvent::Stall);
    assert_eq!(cause, StreamEndCause::StallTimeout { window_secs: 30 });
    assert_eq!(
        records,
        vec![
            EmissionRecord::Scheduler { stream: 3, attempt: 1, note: SchedNote::SelectWake { arm: "stall" } },
            end_record(StreamEndCause::StallTimeout { window_secs: 30 }, 3),
        ]
    );
}

#[test]
fn every_cut_has_its_cause_and_its_record() {
    let mut r = rig();
    let long = "é".repeat(500);
    let cases: Vec<(WireEvent, StreamEndCause, Option<&'static str>)> = vec![
        (WireEvent::CancelledDialing, StreamEndCause::Cancelled, None),
        (WireEvent::HeaderTimeout, StreamEndCause::FirstByteBackstop { window_secs: 120 }, None),
        (
            WireEvent::ConnectError { detail: "refused".to_string() },
            StreamEndCause::ConnectError { detail: "refused".to_string() },
            None,
        ),
        (
            WireEvent::HttpError { status: 500, body: BodyRead::Text("boom".to_string()) },
            StreamEndCause::HttpError { status: 500, body: "boom".to_string() },
            None,
        ),
        (
            WireEvent::HttpError { status: 503, body: BodyRead::TimedOut },
            StreamEndCause::HttpError { status: 503, body: "(body read timed out)".to_string() },
            None,
        ),
        (
            WireEvent::HttpError { status: 404, body: BodyRead::Failed },
            StreamEndCause::HttpError { status: 404, body: String::new() },
            None,
        ),
        (
            WireEvent::ForeignBody {
                content_type: "text/html".to_string(),
                body: BodyRead::Text(long.clone()),
            },
            StreamEndCause::NotAnEventStream {
                content_type: "text/html".to_string(),
                body_prefix: long.clone(),
            },
            None,
        ),
        (WireEvent::Cancelled, StreamEndCause::Cancelled, Some("cancel")),
        (
            WireEvent::OverallDeadline,
            StreamEndCause::OverallDeadline { limit_secs: 600 },
            Some("overall_deadline"),
        ),
        (
            WireEvent::TransportError { detail: "reset".to_string() },
            StreamEndCause::TransportError { detail: "reset".to_string() },
            None,
        ),
    ];
    for (ev, cause, arm) in cases {
        let (got, records) = r.cut(ev);
        assert_eq!(got, cause);
        let mut expected = Vec::new();
        if let Some(arm) = arm {
            expected.push(EmissionRecord::Scheduler {
                stream: 3,
                attempt: 1,
                note: SchedNote::SelectWake { arm },
            });
        }
        expected.push(end_record(cause, 0));
        assert_eq!(records, expected);
    }
}

#[test]
fn ticks_before_the_first_byte_do_nothing() {
    let mut r = rig();
    let (end, records) = r.tick(true, 500 * SECOND);
    assert!(end.is_none());
    assert!(records.is_empty());
}

#[test]
fn a_comments_only_stream_starves() {
    let mut r = rig();
    let mut tripped = None;
    for sec in 1..=60u128 {
        let (end, _) = r.read(b": ping\n\n");
        assert!(end.is_none());
        assert_eq!(r.a.window_bytes(), 0);
        let (end, records) = r.tick(true, sec * SECOND);
        assert_eq!(
            records[0],
            EmissionRecord::Scheduler {
                stream: 3,
                attempt: 1,
                note: SchedNote::ContentThroughput { bytes_per_sec: 5, active_streams: 2 },
            }
        );
        if let Some(AttemptEnd::Wire(c)) = end {
            assert_eq!(c, StreamEndCause::ThroughputStarved { floor_bps: 1, sustained_secs: 20 });
            assert_eq!(records[1], end_record(c, 0));
            tripped = Some(sec);
            break;
        }
    }
    assert_eq!(tripped, Some(21));
}

#[test]
fn the_first_second_is_exempt() {
    let mut r = rig();
    r.read(b": ping\n\n");
    let mut out = Outbox::new();
    let end = r.a.on_tick(&r.h, &mut r.st, true, SECOND - 1, 100 * SECOND, 0, 1, &mut out);
    assert!(end.is_none());
    let end = r.a.on_tick(&r.h, &mut r.st, true, SECOND, 101 * SECOND, 0, 1, &mut out);
    assert!(end.is_none());
    let end = r.a.on_tick(&r.h, &mut r.st, true, 2 * SECOND, 121 * SECOND - 1, 0, 1, &mut out);
    assert!(end.is_none());
    let end = r.a.on_tick(&r.h, &mut r.st, true, 2 * SECOND, 121 * SECOND, 0, 1, &mut out);
    assert!(end.is_some());
}

#[test]
fn a_tick_empties_the_window() {
    let mut r = rig();
    r.read(b"data: text\n\n");
    assert_eq!(r.a.window_bytes(), 4);
    r.tick(false, SECOND);
    assert_eq!(r.a.window_bytes(), 0);
}

#[test]
fn closing_with_a_finish_reason_commits() {
    let mut r = rig();
    r.read(b"data: all!\n\n");
    let (end, records) = r.close();
    match end {
        AttemptEnd::Complete(TurnResolution::Committed(o)) => assert_eq!(o.content, "all"),
        other => panic!("{other:?}"),
    }
    assert_eq!(
        records,
        vec![end_record(StreamEndCause::PeerClosed, 0), wire(WireNote::EofWithoutDoneSentinel)]
    );
}

#[test]
fn closing_recovers_an_unterminated_tail() {
    let mut r = rig();
    r.read(b"data: some\n\ndata:  more!");
    let (end, records) = r.close();
    match end {
        AttemptEnd::Complete(TurnResolution::Committed(o)) => assert_eq!(o.content, "some more"),
        other => panic!("{other:?}"),
    }
    assert_eq!(
        records,
        vec![
            installment(2, 1, 1, 12, InstallmentKind::Data, " more!", InstallmentStatus::RecoveredTail),
            event(2, DriverEvent::TextDelta(" more".to_string())),
            event(2, DriverEvent::Finish("stop".to_string())),
            end_record(StreamEndCause::PeerClosed, 0),
            wire(WireNote::EofWithoutDoneSentinel),
        ]
    );
}

#[test]
fn a_recovered_sentinel_is_not_missing() {
    let mut r = rig();
    r.read(b"data: all!\n\ndata: [DONE]");
    let (end, records) = r.close();
    match end {
        AttemptEnd::Complete(TurnResolution::Committed(o)) => {
            assert_eq!(o.content, "all");
            assert_eq!(o.finish_reason, "stop");
        }
        other => panic!("{other:?}"),
    }
    assert_eq!(
        records,
        vec![
            installment(2, 1, 1, 12, InstallmentKind::Data, "[DONE]", InstallmentStatus::RecoveredTail),
            event(2, DriverEvent::Done),
            end_record(StreamEndCause::PeerClosed, 0),
        ]
    );
}

#[test]
fn an_empty_attempt_after_a_full_one_is_empty() {
    let mut r = rig();
    r.read(b"data: text\n\n");
    r.cut(WireEvent::Stall);
    assert_eq!(r.st.begin_attempt(), 2);
    assert!(!r.st.has_content());
    r.a = Attempt::new(LIMITS);
    let (end, records) = r.close();
    match end {
        AttemptEnd::Complete(TurnResolution::Fault(f)) => assert_eq!(f, DriverFault::EmptyStream),
        other => panic!("{other:?}"),
    }
    assert_eq!(
        records,
        vec![EmissionRecord::StreamEnd {
            stream: 3,
            attempt: 2,
            cause: StreamEndCause::ClosedWithNoContent,
            unconsumed_buffer_bytes: 0,
        }]
    );
}

#[test]
fn every_exit_brings_the_oddities_on_record() {
    let odd = EmissionRecord::Anomaly {
        stream: 3,
        attempt: 1,
        note: "text delta arrived after finish_reason".to_string(),
    };
    let cause = StreamEndCause::TransportError { detail: "reset".to_string() };

    let mut r = rig();
    r.read(b"data: a!\n\ndata: b\n\n");
    let (_, records) = r.cut(WireEvent::TransportError { detail: "reset".to_string() });
    assert_eq!(records, vec![end_record(cause, 0), odd.clone()]);
    let (_, records) = r.close();
    assert_eq!(ends(&records), 1);
    assert!(!records.contains(&odd));

    let mut r = rig();
    r.read(b"data: a!\n\ndata: b\n\n");
    let (end, records) = r.read(&vec![b'x'; DEFAULT_BUF_LIMIT + 1]);
    assert!(matches!(end, Some(AttemptEnd::Wire(StreamEndCause::BufferOverflow { .. }))));
    assert_eq!(records.last(), Some(&odd));

    let mut r = rig();
    r.read(b"data: a!\n\ndata: b\n\n");
    r.tick(true, SECOND);
    let (end, records) = r.tick(true, 21 * SECOND);
    assert!(matches!(end, Some(AttemptEnd::Wire(StreamEndCause::ThroughputStarved { .. }))));
    assert_eq!(records.last(), Some(&odd));

    let mut r = rig();
    let (_, records) = r.read(b"data: a!\n\ndata: b\n\ndata: ?\n\n");
    assert_eq!(records.last(), Some(&odd));
    assert_eq!(ends(&records), 1);
}

#[test]
fn closing_with_nothing_is_its_own_ending() {
    let (end, records) = rig().close();
    match end {
        AttemptEnd::Complete(TurnResolution::Fault(f)) => assert_eq!(f, DriverFault::EmptyStream),
        other => panic!("{other:?}"),
    }
    assert_eq!(records, vec![end_record(StreamEndCause::ClosedWithNoContent, 0)]);
}

#[test]
fn residue_is_recorded_as_text() {
    let mut r = rig();
    r.read("data: x\n\névent: half".as_bytes());
    let (end, records) = r.close();
    match end {
        AttemptEnd::Complete(TurnResolution::Fault(f)) => {
            assert_eq!(f, DriverFault::Truncated { partial_chars: 1 })
        }
        other => panic!("{other:?}"),
    }
    assert_eq!(
        records,
        vec![
            EmissionRecord::Residue {
                stream: 3,
                attempt: 1,
                bytes: 12,
                lossy_text: "évent: half".to_string(),
            },
            end_record(StreamEndCause::PeerClosed, 0),
        ]
    );
}

#[test]
fn a_tail_may_be_a_comment_or_undecodable() {
    let mut r = rig();
    r.read(b": half a ping");
    let (_, records) = r.close();
    assert_eq!(
        records[0],
        installment(1, 1, 1, 13, InstallmentKind::Comment, ": half a ping", InstallmentStatus::RecoveredTail)
    );

    let mut r = rig();
    r.read(&[0xc3]);
    let (_, records) = r.close();
    match &records[0] {
        EmissionRecord::UndecodableInstallment { bytes: 1, hex_prefix, .. } => assert_eq!(hex_prefix, "c3"),
        other => panic!("{other:?}"),
    }
    assert_eq!(ends(&records), 1);
}

#[test]
fn oddities_are_reported_at_the_end() {
    let mut r = rig();
    let (_, records) = r.read(b"data: a!\n\ndata: b\n\ndata: [DONE]\n\n");
    assert_eq!(
        records.last(),
        Some(&EmissionRecord::Anomaly {
            stream: 3,
            attempt: 1,
            note: "text delta arrived after finish_reason".to_string(),
        })
    );
    assert_eq!(ends(&records), 1);
}

#[test]
fn what_was_shown_is_what_is_committed() {
    let wire = "data: one \n\n: ping\n\ndata: zwölf\n\nevent: x\n\ndata: !\n\ndata: late\n\ndata:  tail";
    for size in [1, 2, 3, 7, 100] {
        let mut r = rig();
        let mut records = Vec::new();
        for (n, chunk) in wire.as_bytes().chunks(size).enumerate() {
            let (end, more) = r.read(chunk);
            assert!(end.is_none());
            records.extend(more);
            records.extend(r.tick(false, n as u128 * SECOND).1);
        }
        let (end, more) = r.close();
        records.extend(more);
        let shown: String = records
            .iter()
            .map(|rec| match TerminalSink.render(rec) {
                Shown::Reply(text) => text,
                _ => String::new(),
            })
            .collect();
        match end {
            AttemptEnd::Complete(TurnResolution::Committed(o)) => {
                assert_eq!(o.content, "one zwölflate tail");
                assert_eq!(o.content, shown);
                assert_eq!(o.finish_reason, "stop");
            }
            other => panic!("{other:?}"),
        }
        assert_eq!(ends(&records), 1);
    }
}
