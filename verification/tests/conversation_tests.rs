use rar_chat::conversation::{parse_command, resolve_primary, AfterPrimary, Command, Conversation};
use rar_chat::driver::{ChatOutcome, DriverFault};
use rar_chat::openai::TurnVerdict;

fn history(c: &Conversation) -> Vec<(String, String)> {
    c.messages().iter().map(|m| (m.role.clone(), m.content.clone())).collect()
}

fn pairs(ps: &[(&str, &str)]) -> Vec<(String, String)> {
    ps.iter().map(|(r, c)| (r.to_string(), c.to_string())).collect()
}

fn committed(content: &str) -> TurnVerdict {
    TurnVerdict::Committed(ChatOutcome {
        content: content.to_string(),
        finish_reason: "stop".to_string(),
        usage: None,
    })
}

#[test]
fn lines_are_commands() {
    assert_eq!(parse_command(""), Command::Blank);
    assert_eq!(parse_command(" \t\u{a0} "), Command::Blank);
    assert_eq!(parse_command("/quit"), Command::Quit);
    assert_eq!(parse_command(" /exit \n"), Command::Quit);
    assert_eq!(parse_command("/reset"), Command::Reset);
    assert_eq!(parse_command(" hi there "), Command::Say("hi there".to_string()));
    assert_eq!(parse_command("/Quit"), Command::Say("/Quit".to_string()));
    assert_eq!(parse_command("/quit now"), Command::Say("/quit now".to_string()));
}

#[test]
fn a_committed_turn_adds_both_sides() {
    let mut c = Conversation::new(Some("be brief"));
    c.ask("hi");
    assert_eq!(history(&c), pairs(&[("system", "be brief"), ("user", "hi")]));
    assert_eq!(c.settle(&committed("hello")), None);
    assert_eq!(history(&c), pairs(&[("system", "be brief"), ("user", "hi"), ("assistant", "hello")]));
}

#[test]
fn a_failed_turn_leaves_no_trace() {
    let mut c = Conversation::new(None);
    c.ask("one");
    c.settle(&committed("1"));
    let before = history(&c);
    c.ask("two");
    let notice = c.settle(&TurnVerdict::Failed(DriverFault::Stalled { after_secs: 30 }));
    assert_eq!(
        notice.as_deref(),
        Some("\n[TURN FAILED] stream stalled: no bytes for 30s — turn not committed to history")
    );
    assert_eq!(history(&c), before);
}

#[test]
fn a_reset_is_a_new_beginning() {
    let mut c = Conversation::new(Some("p"));
    let start = history(&c);
    for line in ["a", "b", "c"] {
        c.ask(line);
        c.settle(&committed("ok"));
    }
    assert_eq!(history(&c).len(), 7);
    c.reset();
    assert_eq!(history(&c), start);
    c.reset();
    assert_eq!(history(&c), start);
    let mut c = Conversation::new(None);
    c.ask("a");
    c.reset();
    assert!(c.messages().is_empty());
}

#[test]
fn settling_an_empty_history_is_harmless() {
    let mut c = Conversation::new(None);
    assert!(c.settle(&TurnVerdict::Failed(DriverFault::EmptyStream)).is_some());
    assert!(c.messages().is_empty());
}

#[test]
fn a_failover_is_issued_again_where_there_is_somewhere() {
    match resolve_primary(TurnVerdict::Failover { attempts_here: 2 }, Some("http://b")) {
        AfterPrimary::Reissue { notice } => assert_eq!(
            notice,
            "\n[FAILOVER] primary exhausted after 2 attempt(s); re-issuing on http://b"
        ),
        other => panic!("{other:?}"),
    }
    match resolve_primary(TurnVerdict::Failover { attempts_here: 2 }, None) {
        AfterPrimary::Settle(TurnVerdict::Failed(f)) => assert_eq!(
            f,
            DriverFault::Protocol("failover directed but no alternative configured".to_string())
        ),
        other => panic!("{other:?}"),
    }
    match resolve_primary(committed("x"), Some("http://b")) {
        AfterPrimary::Settle(TurnVerdict::Committed(o)) => assert_eq!(o.content, "x"),
        other => panic!("{other:?}"),
    }
}
