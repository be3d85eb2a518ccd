//! The session's prompt-mode state machine: what each console line, or the
//! end of input, asks the client to do.
use vstd::prelude::*;
use crate::tools::BANG;
use crate::framer::SPACE;
use crate::bytes::bytes_eq;

verus! {

/// `"`, which alone on a line opens and closes multi-line mode.
pub const QUOTE: u8 = 34;

#[derive(Clone, Copy, Debug, PartialEq, Eq, Structural)]
pub enum SessionState {
    /// Not yet authenticated.
    AwaitingAuth,
    /// Each line is one command, answered before the next prompt.
    SingleLine,
    /// Lines are sent without waiting; a closing `"` awaits the reply.
    MultiLine,
    /// The session is over and takes no more input.
    Terminating,
}

/// What the client does for one console line.
#[derive(Clone, Copy, Debug, PartialEq, Eq, Structural)]
pub enum SessionAction {
    /// Nothing.
    Ignore,
    /// Nothing is sent; multi-line mode begins.
    EnterMultiLine,
    /// Send the line as a command, await the reply and print it.
    Send,
    /// The line is a tool chain (the bytes before `space`) and a command (the
    /// bytes after it): send the command, await the reply, apply the tools to
    /// it and print the result.
    SendWithTools { space: usize },
    /// A tool chain with no command after it: report that no command was
    /// given; nothing is sent.
    MissingCommand,
    /// Send the line as a command without waiting for a reply.
    Queue,
    /// Await the one reply to the lines queued, and print it.
    AwaitPending,
    /// Send the quit command, await the reply, print it and stop.
    Quit,
}

pub open spec fn is_quote_line(line: Seq<u8>) -> bool {
    line.len() == 1 && line[0] == QUOTE
}

/// Index of the first space at or after `i`, or -1.
pub open spec fn first_space_from(line: Seq<u8>, i: int) -> int
    decreases line.len() - i,
{
    if i < 0 || i >= line.len() {
        -1
    } else if line[i] == SPACE {
        i
    } else {
        first_space_from(line, i + 1)
    }
}

pub open spec fn first_space(line: Seq<u8>) -> int {
    first_space_from(line, 0)
}

/// The next state and the action for one console line.
pub open spec fn line_step(state: SessionState, line: Seq<u8>) -> (SessionState, SessionAction) {
    match state {
        SessionState::SingleLine => {
            if line.len() == 0 {
                (SessionState::SingleLine, SessionAction::Ignore)
            } else if is_quote_line(line) {
                (SessionState::MultiLine, SessionAction::EnterMultiLine)
            } else if line[0] == BANG {
                if first_space(line) >= 0 {
                    (SessionState::SingleLine, SessionAction::SendWithTools { space: first_space(line) as usize })
                } else {
                    (SessionState::SingleLine, SessionAction::MissingCommand)
                }
            } else {
                (SessionState::SingleLine, SessionAction::Send)
            }
        },
        SessionState::MultiLine => {
            if is_quote_line(line) {
                (SessionState::SingleLine, SessionAction::AwaitPending)
            } else {
                (SessionState::MultiLine, SessionAction::Queue)
            }
        },
        _ => (state, SessionAction::Ignore),
    }
}

/// The next state and the action on an interrupt or the end of input.
pub open spec fn end_step(state: SessionState) -> (SessionState, SessionAction) {
    match state {
        SessionState::SingleLine | SessionState::MultiLine => (SessionState::Terminating, SessionAction::Quit),
        SessionState::AwaitingAuth => (SessionState::Terminating, SessionAction::Ignore),
        SessionState::Terminating => (SessionState::Terminating, SessionAction::Ignore),
    }
}

/// The actions that wait for a framed reply.
pub open spec fn waits(a: SessionAction) -> bool {
    match a {
        SessionAction::Send | SessionAction::SendWithTools { .. } | SessionAction::AwaitPending
        | SessionAction::Quit => true,
        _ => false,
    }
}

/// The final state and the actions for a run of console lines.
pub open spec fn run_lines(state: SessionState, lines: Seq<Seq<u8>>) -> (SessionState, Seq<SessionAction>)
    decreases lines.len(),
{
    if lines.len() == 0 {
        (state, Seq::empty())
    } else {
        let first = line_step(state, lines[0]);
        let rest = run_lines(first.0, lines.drop_first());
        (rest.0, seq![first.1] + rest.1)
    }
}

/// How many of the actions wait for a reply.
pub open spec fn count_waits(actions: Seq<SessionAction>) -> nat
    decreases actions.len(),
{
    if actions.len() == 0 {
        0
    } else {
        (if waits(actions[0]) { 1nat } else { 0nat }) + count_waits(actions.drop_first())
    }
}

/// The state machine of one console session.
pub struct Session {
    state: SessionState,
}

impl Session {
    pub closed spec fn spec_state(&self) -> SessionState {
        self.state
    }

    /// A session that has not authenticated yet.
    pub fn new() -> (r: Session)
        ensures
            r.spec_state() == SessionState::AwaitingAuth,
    {
        Session { state: SessionState::AwaitingAuth }
    }

    pub fn state(&self) -> (r: SessionState)
        ensures
            r == self.spec_state(),
    {
        self.state
    }

    /// Authentication succeeded: commands are taken one line at a time.
    pub fn on_authenticated(&mut self)
        ensures
            old(self).spec_state() == SessionState::AwaitingAuth ==> final(self).spec_state() == SessionState::SingleLine,
            old(self).spec_state() != SessionState::AwaitingAuth ==> final(self).spec_state() == old(self).spec_state(),
    {
        if self.state == SessionState::AwaitingAuth {
            self.state = SessionState::SingleLine;
        }
    }

    /// Takes one console line and says what to do with it.
    pub fn on_line(&mut self, line: &[u8]) -> (r: SessionAction)
        ensures
            (final(self).spec_state(), r) == line_step(old(self).spec_state(), line@),
    {
        let (next, action) = match self.state {
            SessionState::SingleLine => {
                if line.len() == 0 {
                    (SessionState::SingleLine, SessionAction::Ignore)
                } else if line.len() == 1 && line[0] == QUOTE {
                    (SessionState::MultiLine, SessionAction::EnterMultiLine)
                } else if line[0] == BANG {
                    match find_space(line) {
                        Some(i) => (SessionState::SingleLine, SessionAction::SendWithTools { space: i }),
                        None => (SessionState::SingleLine, SessionAction::MissingCommand),
                    }
                } else {
                    (SessionState::SingleLine, SessionAction::Send)
                }
            },
            SessionState::MultiLine => {
                if line.len() == 1 && line[0] == QUOTE {
                    (SessionState::SingleLine, SessionAction::AwaitPending)
                } else {
                    (SessionState::MultiLine, SessionAction::Queue)
                }
            },
            other => (other, SessionAction::Ignore),
        };
        self.state = next;
        action
    }

    /// An interrupt or the end of input: quit if a session is running.
    pub fn on_end_of_input(&mut self) -> (r: SessionAction)
        ensures
            (final(self).spec_state(), r) == end_step(old(self).spec_state()),
    {
        let action = match self.state {
            SessionState::SingleLine | SessionState::MultiLine => SessionAction::Quit,
            _ => SessionAction::Ignore,
        };
        self.state = SessionState::Terminating;
        action
    }
}

/// The index of the first space in the line.
fn find_space(line: &[u8]) -> (r: Option<usize>)
    ensures
        r matches Some(i) ==> i == first_space(line@) && i < line@.len(),
        r is None ==> first_space(line@) == -1,
{
    let n = line.len();
    let mut i: usize = 0;
    while i < n
        invariant
            n == line@.len(),
            i <= n,
            first_space(line@) == first_space_from(line@, i as int),
        decreases n - i,
    {
        if line[i] == SPACE {
            return Some(i);
        }
        i = i + 1;
    }
    None
}

/// The terminal escape sequence for a prompt colour name: `red`, `green` or
/// `blue` give `ESC[31m`, `ESC[32m` or `ESC[34m`; any other name has none.
pub open spec fn color_escape(name: Seq<u8>) -> Option<Seq<u8>> {
    if name == seq![114u8, 101u8, 100u8] {
        Some(seq![27u8, 91u8, 51u8, 49u8, 109u8])
    } else if name == seq![103u8, 114u8, 101u8, 101u8, 110u8] {
        Some(seq![27u8, 91u8, 51u8, 50u8, 109u8])
    } else if name == seq![98u8, 108u8, 117u8, 101u8] {
        Some(seq![27u8, 91u8, 51u8, 52u8, 109u8])
    } else {
        None
    }
}

/// The escape sequence that colours the prompt, by colour name.
pub fn color_code(name: &[u8]) -> (r: Option<Vec<u8>>)
    ensures
        r matches Some(v) ==> color_escape(name@) == Some(v@),
        r is None ==> color_escape(name@) is None,
{
    let red: Vec<u8> = vec![114u8, 101u8, 100u8];
    let green: Vec<u8> = vec![103u8, 114u8, 101u8, 101u8, 110u8];
    let blue: Vec<u8> = vec![98u8, 108u8, 117u8, 101u8];
    assert(red@ =~= seq![114u8, 101u8, 100u8]);
    assert(green@ =~= seq![103u8, 114u8, 101u8, 101u8, 110u8]);
    assert(blue@ =~= seq![98u8, 108u8, 117u8, 101u8]);
    let code: u8 = if bytes_eq(name, red.as_slice()) {
        49u8
    } else if bytes_eq(name, green.as_slice()) {
        50u8
    } else if bytes_eq(name, blue.as_slice()) {
        52u8
    } else {
        return None;
    };
    let r: Vec<u8> = vec![27u8, 91u8, 51u8, code, 109u8];
    assert(r@ =~= color_escape(name@)->0);
    Some(r)
}

/// The actions of multi-line mode for a body of `n` lines: `n` lines queued
/// and one wait for the reply.
pub open spec fn multiline_actions(n: nat) -> Seq<SessionAction> {
    Seq::new(n, |i: int| SessionAction::Queue) + seq![SessionAction::AwaitPending]
}

proof fn lemma_multiline_body(body: Seq<Seq<u8>>)
    requires
        forall|i: int| 0 <= i < body.len() ==> !is_quote_line(#[trigger] body[i]),
    ensures
        run_lines(SessionState::MultiLine, body + seq![seq![QUOTE]])
            == (SessionState::SingleLine, multiline_actions(body.len())),
        count_waits(multiline_actions(body.len())) == 1,
    decreases body.len(),
{
    let lines = body + seq![seq![QUOTE]];
    if body.len() == 0 {
        assert(lines =~= seq![seq![QUOTE]]);
        assert(lines.drop_first() =~= Seq::<Seq<u8>>::empty());
        assert(is_quote_line(seq![QUOTE]));
        assert(multiline_actions(0) =~= seq![SessionAction::AwaitPending]);
        assert(seq![SessionAction::AwaitPending] + Seq::<SessionAction>::empty() =~= seq![SessionAction::AwaitPending]);
        assert(seq![SessionAction::AwaitPending].drop_first() =~= Seq::<SessionAction>::empty());
        assert(lines[0] == seq![QUOTE]);
        assert(line_step(SessionState::MultiLine, lines[0]) == (SessionState::SingleLine, SessionAction::AwaitPending));
        assert(run_lines(SessionState::SingleLine, lines.drop_first()) == (SessionState::SingleLine, Seq::<SessionAction>::empty()));
        assert(count_waits(Seq::<SessionAction>::empty()) == 0);
        assert(waits(seq![SessionAction::AwaitPending][0]));
    } else {
        let rest = body.drop_first();
        assert forall|i: int| 0 <= i < rest.len() implies !is_quote_line(#[trigger] rest[i]) by {
            assert(rest[i] == body[i + 1]);
        }
        lemma_multiline_body(rest);
        assert(lines[0] == body[0]);
        assert(!is_quote_line(body[0]));
        assert(lines.drop_first() =~= rest + seq![seq![QUOTE]]);
        let n = body.len();
        assert(multiline_actions(n) =~= seq![SessionAction::Queue] + multiline_actions((n - 1) as nat));
        assert(multiline_actions(n).drop_first() =~= multiline_actions((n - 1) as nat));
        assert(multiline_actions(n)[0] == SessionAction::Queue);
        assert(line_step(SessionState::MultiLine, lines[0]) == (SessionState::MultiLine, SessionAction::Queue));
    }
}

/// From single-line mode, a `"` line, any lines that are not `"`, and a
/// closing `"`: every inner line is queued without waiting, the session is
/// back in single-line mode, and there is exactly one wait for a reply.
pub proof fn lemma_multiline_single_wait(body: Seq<Seq<u8>>)
    requires
        forall|i: int| 0 <= i < body.len() ==> !is_quote_line(#[trigger] body[i]),
    ensures
        run_lines(SessionState::SingleLine, seq![seq![QUOTE]] + body + seq![seq![QUOTE]]) == (
            SessionState::SingleLine,
            seq![SessionAction::EnterMultiLine] + multiline_actions(body.len()),
        ),
        count_waits(seq![SessionAction::EnterMultiLine] + multiline_actions(body.len())) == 1,
{
    let lines = seq![seq![QUOTE]] + body + seq![seq![QUOTE]];
    lemma_multiline_body(body);
    assert(lines[0] == seq![QUOTE]);
    assert(is_quote_line(seq![QUOTE]));
    assert(lines.drop_first() =~= body + seq![seq![QUOTE]]);
    let acts = seq![SessionAction::EnterMultiLine] + multiline_actions(body.len());
    assert(acts.drop_first() =~= multiline_actions(body.len()));
}

} // verus!
