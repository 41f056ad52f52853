use rar_chat::attempt::Limits;
use rar_chat::driver::DriverFault;
use rar_chat::emission::StreamEndCause;
use rar_chat::env_file::EnvSource;
use rar_chat::openai::{
    gate_response, wire_fault, BodyRead, ChatRequest, ConfigError, Message, OpenAiConfig,
    ResponseGate, StreamOptions,
};
use rar_chat::settings::{Settings, SettingsError};
use rar_chat::text::IntegerError;

fn source(vars: &[(&str, &str)]) -> EnvSource {
    let vars: Vec<(String, String)> = vars.iter().map(|(k, v)| (k.to_string(), v.to_string())).collect();
    EnvSource::process_only(&vars)
}

fn minimal() -> Vec<(&'static str, &'static str)> {
    vec![("OPENAI_API_KEY", "sk-SECRET"), ("OPENAI_MODEL", "m")]
}

fn with(more: &[(&'static str, &'static str)]) -> EnvSource {
    let mut vars = minimal();
    vars.extend_from_slice(more);
    source(&vars)
}

#[test]
fn defaults_are_filled_in() {
    let c = OpenAiConfig::from_source(&with(&[])).unwrap();
    assert_eq!(c.base_url, "https://api.openai.com/v1");
    assert_eq!(c.api_key, "sk-SECRET");
    assert_eq!(c.model, "m");
    assert!(c.request_usage);
    assert_eq!(c.system_prompt, None);
    assert_eq!(
        c.limits(),
        Limits {
            stall_timeout_secs: 30,
            first_byte_backstop_secs: 120,
            overall_deadline_secs: 600,
            throughput_floor_bps: 1,
            throughput_sustained_secs: 20,
        }
    );
    assert_eq!(c.completions_url(), "https://api.openai.com/v1/chat/completions");
}

#[test]
fn settings_are_taken_over() {
    let c = OpenAiConfig::from_source(&with(&[
        ("OPENAI_BASE_URL", "http://localhost:1/v1//"),
        ("OPENAI_SYSTEM", "be brief"),
        ("OPENAI_INCLUDE_USAGE", "no"),
        ("OPENAI_STALL_SECS", "1"),
        ("OPENAI_FIRST_BYTE_BACKSTOP_SECS", "2"),
        ("OPENAI_OVERALL_DEADLINE_SECS", "3"),
        ("OPENAI_THROUGHPUT_FLOOR_BPS", "+4"),
        ("OPENAI_THROUGHPUT_SUSTAINED_SECS", "18446744073709551615"),
    ]))
    .unwrap();
    assert_eq!(c.base_url, "http://localhost:1/v1");
    assert_eq!(c.system_prompt.as_deref(), Some("be brief"));
    assert!(!c.request_usage);
    assert_eq!(c.limits().stall_timeout_secs, 1);
    assert_eq!(c.limits().throughput_floor_bps, 4);
    assert_eq!(c.limits().throughput_sustained_secs, u64::MAX);
}

#[test]
fn usage_is_switched_off_by_three_words_only() {
    for (word, on) in [("0", false), ("false", false), ("no", false), ("1", true), ("NO", true), ("", true)] {
        let c = OpenAiConfig::from_source(&with(&[("OPENAI_INCLUDE_USAGE", word)])).unwrap();
        assert_eq!(c.request_usage, on, "{word:?}");
    }
}

#[test]
fn missing_variables_are_named() {
    let e = OpenAiConfig::from_source(&source(&[])).unwrap_err();
    assert_eq!(e, ConfigError::MissingApiKey);
    assert_eq!(e.to_string(), "OPENAI_API_KEY is not set");
    let e = OpenAiConfig::from_source(&source(&[("OPENAI_API_KEY", "sk-SECRET")])).unwrap_err();
    assert_eq!(e, ConfigError::MissingModel);
    assert_eq!(e.to_string(), "OPENAI_MODEL is not set — required, no default");
}

#[test]
fn bad_integers_are_named() {
    for (value, cause) in [
        ("", IntegerError::Empty),
        ("x", IntegerError::InvalidDigit),
        ("-1", IntegerError::InvalidDigit),
        ("18446744073709551616", IntegerError::PosOverflow),
    ] {
        let e = OpenAiConfig::from_source(&with(&[("OPENAI_STALL_SECS", value)])).unwrap_err();
        assert_eq!(e.to_string(), "OPENAI_STALL_SECS must be an integer");
        assert_eq!(e, ConfigError::NotAnInteger { name: "OPENAI_STALL_SECS".to_string(), cause });
    }
}

#[test]
fn errors_and_banner_hold_no_key() {
    let e = OpenAiConfig::from_source(&with(&[("OPENAI_STALL_SECS", "x")])).unwrap_err();
    assert!(!format!("{e:?} {}", e.to_string()).contains("SECRET"));
    let s = Settings::from_source(&with(&[])).unwrap();
    assert!(!s.banner(None).contains("SECRET"));
}

#[test]
fn nothing_but_the_authorization_depends_on_the_key() {
    let one = OpenAiConfig::from_source(&with(&[])).unwrap();
    let other = OpenAiConfig { api_key: "another".to_string(), ..one.clone() };
    assert_eq!(one.limits(), other.limits());
    assert_eq!(one.completions_url(), other.completions_url());
    let messages = vec![Message::new("user", "hi")];
    let (a, b) = (ChatRequest::new(&one, &messages), ChatRequest::new(&other, &messages));
    assert_eq!(format!("{a:?}"), format!("{b:?}"));
    assert!(!format!("{a:?}").contains("SECRET"));
}

#[test]
fn a_prefix_names_the_other_endpoint() {
    let src = with(&[
        ("FAILOVER_OPENAI_MODEL", "other"),
        ("FAILOVER_OPENAI_BASE_URL", "http://b/"),
        ("OPENAI_SYSTEM", "s"),
    ]);
    let c = OpenAiConfig::from_source_prefixed(&src, "FAILOVER_").unwrap();
    assert_eq!(c.api_key, "sk-SECRET");
    assert_eq!(c.model, "other");
    assert_eq!(c.base_url, "http://b");
    assert_eq!(c.system_prompt.as_deref(), Some("s"));
    let src = with(&[("FAILOVER_OPENAI_API_KEY", "own"), ("FAILOVER_OPENAI_MODEL", "other")]);
    let c = OpenAiConfig::from_source_prefixed(&src, "FAILOVER_").unwrap();
    assert_eq!(c.api_key, "own");
    assert_eq!(c.base_url, "https://api.openai.com/v1");
}

#[test]
fn a_session_has_defaults() {
    let s = Settings::from_source(&with(&[])).unwrap();
    assert!(s.failover.is_none());
    assert_eq!((s.retry_allowance, s.send_buckets, s.bus_capacity), (1, 1, 4096));
    assert_eq!(s.capture_dir, None);
    assert_eq!(
        s.banner(None),
        "rar-chat — endpoint https://api.openai.com/v1 | model m | failover (none) | buckets 1 | config (process environment)"
    );
}

#[test]
fn a_session_is_set_up_from_its_variables() {
    let s = Settings::from_source(&with(&[
        ("FAILOVER_OPENAI_BASE_URL", "http://b"),
        ("FAILOVER_OPENAI_MODEL", "n"),
        ("OPENAI_RETRY_ALLOWANCE", "0"),
        ("OPENAI_SEND_BUCKETS", "7"),
        ("OPENAI_BUS_CAPACITY", "16"),
        ("OPENAI_CAPTURE_DIR", "caps"),
    ]))
    .unwrap();
    assert_eq!(s.failover.as_ref().map(|f| f.model.as_str()), Some("n"));
    assert_eq!((s.retry_allowance, s.send_buckets, s.bus_capacity), (0, 7, 16));
    assert_eq!(s.capture_dir.as_deref(), Some("caps"));
    assert_eq!(
        s.banner(Some("my.env")),
        "rar-chat — endpoint https://api.openai.com/v1 | model m | failover http://b | buckets 7 | config my.env"
    );
}

#[test]
fn session_errors_come_in_order() {
    let e = Settings::from_source(&source(&[("OPENAI_SEND_BUCKETS", "x")])).unwrap_err();
    assert_eq!(e, SettingsError::Endpoint(ConfigError::MissingApiKey));
    let e = Settings::from_source(&with(&[
        ("FAILOVER_OPENAI_BASE_URL", "http://b"),
        ("OPENAI_SEND_BUCKETS", "x"),
    ]))
    .unwrap_err();
    assert_eq!(e, SettingsError::Endpoint(ConfigError::MissingModel));
    assert_eq!(e.to_string(), "OPENAI_MODEL is not set — required, no default");
    let e = Settings::from_source(&with(&[("OPENAI_RETRY_ALLOWANCE", "4294967296"), ("OPENAI_SEND_BUCKETS", "x")]))
        .unwrap_err();
    assert_eq!(e, SettingsError::Budget(IntegerError::PosOverflow));
    assert_eq!(e.to_string(), "number too large to fit in target type");
    let e = Settings::from_source(&with(&[("OPENAI_SEND_BUCKETS", "x"), ("OPENAI_BUS_CAPACITY", "")])).unwrap_err();
    assert_eq!(e.to_string(), "invalid digit found in string");
    let e = Settings::from_source(&with(&[("OPENAI_BUS_CAPACITY", "")])).unwrap_err();
    assert_eq!(e.to_string(), "cannot parse integer from empty string");
}

#[test]
fn requests_carry_model_messages_and_usage() {
    let mut c = OpenAiConfig::from_source(&with(&[])).unwrap();
    let messages = vec![Message::new("user", "hi")];
    let r = ChatRequest::new(&c, &messages);
    assert_eq!(r.model, "m");
    assert!(r.stream);
    assert_eq!(r.messages.len(), 1);
    assert_eq!(r.messages[0].content, "hi");
    assert_eq!(r.stream_options, Some(StreamOptions { include_usage: true }));
    c.request_usage = false;
    assert_eq!(ChatRequest::new(&c, &messages).stream_options, None);
}

#[test]
fn only_event_streams_are_let_in() {
    assert_eq!(gate_response(200, "text/event-stream"), ResponseGate::Stream);
    assert_eq!(gate_response(299, "text/event-stream; charset=utf-8"), ResponseGate::Stream);
    assert_eq!(gate_response(200, "application/json"), ResponseGate::NotAnEventStream);
    assert_eq!(gate_response(200, ""), ResponseGate::NotAnEventStream);
    assert_eq!(gate_response(200, "Text/Event-Stream"), ResponseGate::NotAnEventStream);
    for status in [100, 199, 300, 404, 500] {
        assert_eq!(gate_response(status, "text/event-stream"), ResponseGate::HttpError);
    }
}

#[test]
fn bodies_have_a_text() {
    assert_eq!(BodyRead::Text("x".to_string()).into_text(), "x");
    assert_eq!(BodyRead::Failed.into_text(), "");
    assert_eq!(BodyRead::TimedOut.into_text(), "(body read timed out)");
}

#[test]
fn every_cut_has_a_fault() {
    let p = |s: &str| DriverFault::Protocol(s.to_string());
    let cases = vec![
        (StreamEndCause::StallTimeout { window_secs: 1 }, DriverFault::Stalled { after_secs: 1 }),
        (StreamEndCause::FirstByteBackstop { window_secs: 2 }, DriverFault::Stalled { after_secs: 2 }),
        (
            StreamEndCause::ThroughputStarved { floor_bps: 9, sustained_secs: 3 },
            DriverFault::Stalled { after_secs: 3 },
        ),
        (StreamEndCause::OverallDeadline { limit_secs: 4 }, DriverFault::Stalled { after_secs: 4 }),
        (StreamEndCause::BufferOverflow { limit_bytes: 5 }, DriverFault::BufferOverflow { limit_bytes: 5 }),
        (StreamEndCause::HttpError { status: 500, body: "b".to_string() }, p("HTTP 500: b")),
        (
            StreamEndCause::NotAnEventStream { content_type: "t".to_string(), body_prefix: "b".to_string() },
            p("not an event stream (Content-Type: t): b"),
        ),
        (StreamEndCause::ConnectError { detail: "c".to_string() }, p("c")),
        (StreamEndCause::TransportError { detail: "d".to_string() }, p("d")),
        (StreamEndCause::DoneSentinelConsumed, p("DoneSentinelConsumed")),
        (StreamEndCause::PeerClosed, p("PeerClosed")),
        (StreamEndCause::ClosedWithNoContent, p("ClosedWithNoContent")),
        (StreamEndCause::MultipleChoicesUnsupported { n: 2 }, p("MultipleChoicesUnsupported { n: 2 }")),
        (StreamEndCause::Cancelled, p("Cancelled")),
    ];
    for (cause, fault) in cases {
        assert_eq!(wire_fault(cause), fault);
    }
}

#[test]
fn directives_are_shown_as_the_standard_library_shows_them() {
    for directive in ["abort", "a \"b\"\n\\ é\u{7f}"] {
        let cause = StreamEndCause::HandlerDirected { directive: directive.to_string() };
        let shown = format!("{cause:?}");
        assert_eq!(wire_fault(cause), DriverFault::Protocol(shown));
    }
}
