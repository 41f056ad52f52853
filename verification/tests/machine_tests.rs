use rar_chat::driver::{DriverEvent as E, DriverFault};
use rar_chat::machine::{EndCause, StreamMachine};

fn deltas(words: &[&str]) -> Vec<E> {
    words.iter().map(|w| E::TextDelta(w.to_string())).collect()
}

#[test]
fn sunny_path_finish_then_done() {
    let mut m = StreamMachine::new();
    for e in deltas(&["Hello", " world"]) {
        m.feed(&e);
    }
    m.feed(&E::Finish("stop".into()));
    m.feed(&E::Usage { prompt_tokens: 3, completion_tokens: 2, total_tokens: 5 });
    m.feed(&E::Done);
    let out = m.finalize(EndCause::StreamEnded).unwrap();
    assert_eq!(out.content, "Hello world");
    assert_eq!(out.finish_reason, "stop");
    assert_eq!(out.usage, Some((3, 2, 5)));
}

#[test]
fn eof_before_finish_reason_is_truncated() {
    let mut m = StreamMachine::new();
    for e in deltas(&["partial", " answer"]) {
        m.feed(&e);
    }
    let err = m.finalize(EndCause::StreamEnded).unwrap_err();
    assert_eq!(err, DriverFault::Truncated { partial_chars: 14 });
}

#[test]
fn eof_with_no_content_is_empty_stream_not_truncated() {
    let m = StreamMachine::new();
    let err = m.finalize(EndCause::StreamEnded).unwrap_err();
    assert_eq!(err, DriverFault::EmptyStream);
}

#[test]
fn done_without_finish_reason_is_truncated() {
    let mut m = StreamMachine::new();
    m.feed(&E::TextDelta("half".into()));
    m.feed(&E::Done);
    let err = m.finalize(EndCause::StreamEnded).unwrap_err();
    assert_eq!(err, DriverFault::Truncated { partial_chars: 4 });
}

#[test]
fn finish_reason_without_done_is_success() {
    let mut m = StreamMachine::new();
    m.feed(&E::TextDelta("full".into()));
    m.feed(&E::Finish("stop".into()));
    let out = m.finalize(EndCause::StreamEnded).unwrap();
    assert_eq!(out.content, "full");
    assert!(out.usage.is_none(), "usage must be optional");
}

#[test]
fn handler_abort_is_aborted_not_truncated() {
    let mut m = StreamMachine::new();
    m.feed(&E::TextDelta("cut".into()));
    let err = m.finalize(EndCause::HandlerAbort).unwrap_err();
    assert_eq!(err, DriverFault::Aborted { partial_chars: 3 });
}

#[test]
fn late_text_is_kept_and_flagged() {
    let mut m = StreamMachine::new();
    m.feed(&E::Finish("stop".into()));
    m.feed(&E::TextDelta("straggler".into()));
    assert_eq!(m.anomalies.len(), 1);
    let out = m.finalize(EndCause::StreamEnded).unwrap();
    assert_eq!(out.content, "straggler");
}

#[test]
fn late_text_is_noted_in_words() {
    let mut m = StreamMachine::default();
    m.feed(&E::Finish("stop".into()));
    m.feed(&E::TextDelta("x".into()));
    assert_eq!(m.anomalies, vec!["text delta arrived after finish_reason".to_string()]);
    assert_eq!(m.anomaly_notes(), &m.anomalies);
}

#[test]
fn second_finish_keeps_the_first_and_says_so() {
    let mut m = StreamMachine::new();
    m.feed(&E::Finish("stop".into()));
    m.feed(&E::Finish("length".into()));
    assert_eq!(
        m.anomalies,
        vec!["second finish_reason 'length' after 'stop' — keeping the first".to_string()]
    );
    let out = m.finalize(EndCause::StreamEnded).unwrap();
    assert_eq!(out.finish_reason, "stop");
    assert_eq!(out.content, "");
}

#[test]
fn last_usage_counts() {
    let mut m = StreamMachine::new();
    m.feed(&E::Finish("stop".into()));
    m.feed(&E::Usage { prompt_tokens: 1, completion_tokens: 1, total_tokens: 2 });
    m.feed(&E::Usage { prompt_tokens: 7, completion_tokens: 8, total_tokens: 15 });
    assert_eq!(m.finalize(EndCause::StreamEnded).unwrap().usage, Some((7, 8, 15)));
}

#[test]
fn machine_state_is_visible_on_the_way() {
    let mut m = StreamMachine::new();
    assert!(!m.is_completable());
    assert!(!m.saw_done());
    assert_eq!(m.partial_chars(), 0);
    m.feed(&E::TextDelta("café".into()));
    assert_eq!(m.partial_chars(), 4);
    m.feed(&E::Done);
    assert!(m.saw_done());
    assert!(!m.is_completable());
    m.feed(&E::Finish("stop".into()));
    assert!(m.is_completable());
}

#[test]
fn abort_beats_a_finish_reason() {
    let mut m = StreamMachine::new();
    m.feed(&E::TextDelta("done".into()));
    m.feed(&E::Finish("stop".into()));
    let err = m.finalize(EndCause::HandlerAbort).unwrap_err();
    assert_eq!(err, DriverFault::Aborted { partial_chars: 4 });
}

#[test]
fn testimony_is_concatenated_in_order() {
    let mut m = StreamMachine::new();
    let words = ["a", " b", "", "\n", "ç", " d "];
    for e in deltas(&words) {
        m.feed(&e);
    }
    m.feed(&E::Finish("stop".into()));
    assert_eq!(m.finalize(EndCause::StreamEnded).unwrap().content, words.concat());
}

#[test]
fn faults_have_messages() {
    let cases = vec![
        (
            DriverFault::Truncated { partial_chars: 14 },
            "stream truncated: connection ended before finish_reason (14 chars of uncommitted partial output discarded)",
        ),
        (
            DriverFault::Aborted { partial_chars: 3 },
            "stream aborted by handler directive (3 chars of uncommitted partial output discarded)",
        ),
        (DriverFault::Stalled { after_secs: 30 }, "stream stalled: no bytes for 30s"),
        (
            DriverFault::BufferOverflow { limit_bytes: 1048576 },
            "SSE buffer exceeded 1048576 bytes without a frame terminator",
        ),
        (DriverFault::EmptyStream, "stream accepted but produced no content before closing"),
        (DriverFault::Protocol("odd".to_string()), "protocol violation: odd"),
    ];
    for (fault, text) in cases {
        assert_eq!(fault.to_string(), text);
        assert_eq!(fault.clone(), fault);
    }
}

#[test]
fn feeding_adds_to_what_was_gathered() {
    let mut m = StreamMachine::new();
    m.feed(&E::TextDelta("a".into()));
    m.feed(&E::Usage { prompt_tokens: 1, completion_tokens: 1, total_tokens: 2 });
    m.feed(&E::Finish("stop".into()));
    m.feed(&E::TextDelta("b".into()));
    m.feed(&E::Finish("length".into()));
    let out = m.finalize(EndCause::StreamEnded).unwrap();
    assert_eq!(out.content, "ab");
    assert_eq!(out.finish_reason, "stop");
    assert_eq!(out.usage, Some((1, 1, 2)));
}
