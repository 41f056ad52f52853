//! The conversation: what a line of input asks for, and the history that is
//! sent with every turn.
//!
//! History is committed only from a committed outcome. A failed turn takes its
//! user line back, so that it can be typed again.

use crate::driver;
use crate::driver::{ChatOutcome, DriverFault};
use crate::openai;
use crate::openai::{Message, TurnVerdict};
use crate::text;
use vstd::prelude::*;

verus! {

/// What a line of input asks for.
#[derive(Debug, PartialEq, Eq)]
pub enum Command<S = String> {
    /// Nothing: the line is blank.
    Blank,
    Quit,
    Reset,
    /// A user turn with this text.
    Say(S),
}

impl View for Command {
    type V = Command<Seq<char>>;

    open spec fn view(&self) -> Command<Seq<char>> {
        match *self {
            Command::Blank => Command::Blank,
            Command::Quit => Command::Quit,
            Command::Reset => Command::Reset,
            Command::Say(s) => Command::Say(s@),
        }
    }
}

/// What a line asks for, white space around it aside.
pub open spec fn command_of(line: Seq<char>) -> Command<Seq<char>> {
    let t = text::trimmed(line);
    if t.len() == 0 {
        Command::Blank
    } else if t == "/quit"@ || t == "/exit"@ {
        Command::Quit
    } else if t == "/reset"@ {
        Command::Reset
    } else {
        Command::Say(t)
    }
}

/// What a line of input asks for.
pub fn parse_command(line: &str) -> (r: Command)
    ensures
        r@ == command_of(line@),
{
    let chars = text::chars_of(line);
    let t = text::string_of(text::trim(chars.as_slice()));
    if t.as_str().unicode_len() == 0 {
        Command::Blank
    } else if text::same_text(t.as_str(), "/quit") || text::same_text(t.as_str(), "/exit") {
        Command::Quit
    } else if text::same_text(t.as_str(), "/reset") {
        Command::Reset
    } else {
        Command::Say(t)
    }
}

// ---- history --------------------------------------------------------------

/// The history that a conversation begins with: the system prompt, if any.
pub open spec fn begun(system_prompt: Option<Seq<char>>) -> Seq<Message<Seq<char>>> {
    match system_prompt {
        Some(p) => seq![Message { role: "system"@, content: p }],
        None => Seq::empty(),
    }
}

/// A history with one more user line.
pub open spec fn asked(history: Seq<Message<Seq<char>>>, line: Seq<char>) -> Seq<
    Message<Seq<char>>,
> {
    history.push(Message { role: "user"@, content: line })
}

/// A history after a turn: the answer joins it, or the user line leaves it. A
/// failover is no answer yet.
pub open spec fn settled(history: Seq<Message<Seq<char>>>, v: TurnVerdict<Seq<char>>) -> Seq<
    Message<Seq<char>>,
> {
    match v {
        TurnVerdict::Committed(o) => history.push(
            Message { role: "assistant"@, content: o.content },
        ),
        TurnVerdict::Failed(_) => if history.len() == 0 {
            history
        } else {
            history.drop_last()
        },
        TurnVerdict::Failover { .. } => history,
    }
}

/// The system messages of a history, in order.
pub open spec fn system_only(history: Seq<Message<Seq<char>>>) -> Seq<Message<Seq<char>>>
    decreases history.len(),
{
    if history.len() == 0 {
        Seq::empty()
    } else {
        let before = system_only(history.drop_last());
        if history.last().role == "system"@ {
            before.push(history.last())
        } else {
            before
        }
    }
}

/// What people are told of a failed turn.
pub open spec fn failure_text(f: DriverFault<Seq<char>>) -> Seq<char> {
    "\n[TURN FAILED] "@ + driver::fault_text(f) + " — turn not committed to history"@
}

/// The history of a conversation.
#[derive(Debug)]
pub struct Conversation {
    history: Vec<Message>,
}

impl View for Conversation {
    type V = Seq<Message<Seq<char>>>;

    closed spec fn view(&self) -> Seq<Message<Seq<char>>> {
        openai::messages_view(self.history@)
    }
}

impl Conversation {
    /// A conversation that has not begun but for its system prompt.
    pub fn new(system_prompt: Option<&str>) -> (r: Self)
        ensures
            r@ == begun(
                match system_prompt {
                    Some(p) => Some(p@),
                    None => None,
                },
            ),
    {
        let mut history: Vec<Message> = Vec::new();
        assert(openai::messages_view(history@) =~= Seq::empty());
        if let Some(p) = system_prompt {
            history.push(Message::new("system", p));
            assert(openai::messages_view(history@) =~= begun(Some(p@)));
        }
        Conversation { history }
    }

    /// The messages that go with a turn.
    pub fn messages(&self) -> (r: &[Message])
        ensures
            openai::messages_view(r@) == self@,
    {
        self.history.as_slice()
    }

    /// Forget all but the system prompt.
    pub fn reset(&mut self)
        ensures
            final(self)@ == system_only(old(self)@),
    {
        let ghost all = self@;
        let mut kept: Vec<Message> = Vec::new();
        let mut i: usize = 0;
        assert(openai::messages_view(kept@) =~= system_only(all.take(0)));
        while i < self.history.len()
            invariant
                i <= self.history@.len(),
                all == openai::messages_view(self.history@),
                openai::messages_view(kept@) == system_only(all.take(i as int)),
            decreases self.history@.len() - i,
        {
            let ghost before = kept@;
            assert(all.take(i + 1).drop_last() =~= all.take(i as int));
            assert(all.take(i + 1).last() == self.history@[i as int]@);
            if text::same_text(self.history[i].role.as_str(), "system") {
                kept.push(self.history[i].clone());
                assert(openai::messages_view(kept@) =~= openai::messages_view(before).push(
                    self.history@[i as int]@,
                ));
            }
            i += 1;
        }
        assert(all.take(i as int) =~= all);
        self.history = kept;
    }

    /// Add a user line, to be sent with the next turn.
    pub fn ask(&mut self, line: &str)
        ensures
            final(self)@ == asked(old(self)@, line@),
    {
        self.history.push(Message::new("user", line));
        assert(self@ =~= asked(old(self)@, line@));
    }

    /// Take in what the turn came to; what people are told if it failed.
    /// Where a failover was directed, it has to be resolved first.
    pub fn settle(&mut self, verdict: &TurnVerdict) -> (r: Option<String>)
        requires
            !(verdict is Failover),
        ensures
            final(self)@ == settled(old(self)@, verdict@),
            match verdict@ {
                TurnVerdict::Failed(f) => r matches Some(notice) && notice@ == failure_text(f),
                _ => r is None,
            },
    {
        match verdict {
            TurnVerdict::Committed(o) => {
                self.history.push(Message::new("assistant", o.content.as_str()));
                assert(self@ =~= settled(old(self)@, verdict@));
                None
            },
            TurnVerdict::Failed(f) => {
                let _ = self.history.pop();
                assert(self@ =~= settled(old(self)@, verdict@));
                let told = text::concat("\n[TURN FAILED] ", f.to_string().as_str());
                Some(text::concat(told.as_str(), " — turn not committed to history"))
            },
            TurnVerdict::Failover { .. } => None,
        }
    }
}

// ---- failover -------------------------------------------------------------

/// What to do with the verdict of the primary endpoint.
#[derive(Debug)]
pub enum AfterPrimary<S = String> {
    /// The turn is over.
    Settle(TurnVerdict<S>),
    /// Issue the turn again on the alternative, and tell people so.
    Reissue { notice: S },
}

impl View for AfterPrimary {
    type V = AfterPrimary<Seq<char>>;

    open spec fn view(&self) -> AfterPrimary<Seq<char>> {
        match *self {
            AfterPrimary::Settle(v) => AfterPrimary::Settle(v@),
            AfterPrimary::Reissue { notice } => AfterPrimary::Reissue { notice: notice@ },
        }
    }
}

/// What to do with the verdict of the primary endpoint, given the address of
/// the alternative, if there is one.
pub open spec fn after_primary(v: TurnVerdict<Seq<char>>, alternative: Option<Seq<char>>) -> AfterPrimary<
    Seq<char>,
> {
    match v {
        TurnVerdict::Failover { attempts_here } => match alternative {
            Some(url) => AfterPrimary::Reissue {
                notice: "\n[FAILOVER] primary exhausted after "@ + text::decimal(
                    attempts_here as nat,
                ) + " attempt(s); re-issuing on "@ + url,
            },
            None => AfterPrimary::Settle(
                TurnVerdict::Failed(
                    DriverFault::Protocol("failover directed but no alternative configured"@),
                ),
            ),
        },
        _ => AfterPrimary::Settle(v),
    }
}

/// What to do with the verdict of the primary endpoint, given the address of
/// the alternative, if there is one.
pub fn resolve_primary(verdict: TurnVerdict, alternative: Option<&str>) -> (r: AfterPrimary)
    ensures
        r@ == after_primary(
            verdict@,
            match alternative {
                Some(url) => Some(url@),
                None => None,
            },
        ),
{
    match verdict {
        TurnVerdict::Failover { attempts_here } => match alternative {
            Some(url) => {
                let head = text::number_between(
                    "\n[FAILOVER] primary exhausted after ",
                    attempts_here as u64,
                    " attempt(s); re-issuing on ",
                );
                AfterPrimary::Reissue { notice: text::concat(head.as_str(), url) }
            },
            None => AfterPrimary::Settle(
                TurnVerdict::Failed(
                    DriverFault::Protocol(
                        "failover directed but no alternative configured".to_owned(),
                    ),
                ),
            ),
        },
        other => AfterPrimary::Settle(other),
    }
}

// ---- laws -----------------------------------------------------------------

/// A failed turn leaves the history as it was before the line was typed.
pub proof fn lemma_failed_turn_leaves_no_trace(
    history: Seq<Message<Seq<char>>>,
    line: Seq<char>,
    fault: DriverFault<Seq<char>>,
)
    ensures
        settled(asked(history, line), TurnVerdict::Failed(fault)) == history,
{
    assert(asked(history, line).drop_last() =~= history);
}

/// A committed turn adds the line and the answer, and nothing else.
pub proof fn lemma_committed_turn_adds_both(
    history: Seq<Message<Seq<char>>>,
    line: Seq<char>,
    outcome: ChatOutcome<Seq<char>>,
)
    ensures
        settled(asked(history, line), TurnVerdict::Committed(outcome)) == history + seq![
            Message { role: "user"@, content: line },
            Message { role: "assistant"@, content: outcome.content },
        ],
{
}

/// `history` is what `start` became by turns: `start` itself, then messages of
/// which none is the system's.
pub open spec fn grown_from(
    start: Seq<Message<Seq<char>>>,
    history: Seq<Message<Seq<char>>>,
) -> bool {
    &&& start.len() <= history.len()
    &&& history.take(start.len() as int) == start
    &&& forall|i: int|
        start.len() <= i < history.len() ==> (#[trigger] history[i]).role != "system"@
}

/// A turn, whatever it comes to, only adds to the end of a history, and adds
/// nothing of the system's.
pub proof fn lemma_turns_keep_the_beginning(
    start: Seq<Message<Seq<char>>>,
    history: Seq<Message<Seq<char>>>,
    line: Seq<char>,
    v: TurnVerdict<Seq<char>>,
)
    requires
        grown_from(start, history),
    ensures
        grown_from(start, settled(asked(history, line), v)),
{
    reveal_strlit("system");
    reveal_strlit("user");
    reveal_strlit("assistant");
    let after = settled(asked(history, line), v);
    assert("user"@[0] != "system"@[0]);
    assert("assistant"@[0] != "system"@[0]);
    assert(after.take(start.len() as int) =~= start);
}

/// A reset brings a conversation back to its beginning, however many turns
/// were taken.
pub proof fn lemma_reset_is_a_new_beginning(
    system_prompt: Option<Seq<char>>,
    history: Seq<Message<Seq<char>>>,
)
    requires
        grown_from(begun(system_prompt), history),
    ensures
        system_only(history) == begun(system_prompt),
    decreases history.len(),
{
    let start = begun(system_prompt);
    if history.len() > start.len() {
        let shorter = history.drop_last();
        assert(shorter.take(start.len() as int) =~= start);
        lemma_reset_is_a_new_beginning(system_prompt, shorter);
    } else {
        assert(history =~= start);
        assert(system_only(Seq::<Message<Seq<char>>>::empty()) =~= Seq::empty());
        if history.len() > 0 {
            assert(history.drop_last() =~= Seq::empty());
            assert(system_only(history) =~= start);
        } else {
            assert(system_only(history) =~= start);
        }
    }
}

} // verus!
