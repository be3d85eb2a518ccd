use pochta::session::{color_code, Session, SessionAction, SessionState};

fn authenticated() -> Session {
    let mut s = Session::new();
    assert_eq!(s.state(), SessionState::AwaitingAuth);
    s.on_authenticated();
    assert_eq!(s.state(), SessionState::SingleLine);
    s
}

#[test]
fn multiline_waits_once() {
    let mut s = authenticated();
    let lines: [&[u8]; 5] = [b"\"", b"Subject: Test", b"Hello, world", b".", b"\""];
    let actions: Vec<SessionAction> = lines.iter().map(|l| s.on_line(l)).collect();
    assert_eq!(
        actions,
        vec![
            SessionAction::EnterMultiLine,
            SessionAction::Queue,
            SessionAction::Queue,
            SessionAction::Queue,
            SessionAction::AwaitPending,
        ]
    );
    let waits = actions
        .iter()
        .filter(|a| matches!(a, SessionAction::Send | SessionAction::SendWithTools { .. } | SessionAction::AwaitPending | SessionAction::Quit))
        .count();
    assert_eq!(waits, 1);
    assert_eq!(s.state(), SessionState::SingleLine);
}

#[test]
fn multiline_queues_empty_lines() {
    let mut s = authenticated();
    assert_eq!(s.on_line(b"\""), SessionAction::EnterMultiLine);
    assert_eq!(s.on_line(b""), SessionAction::Queue);
    assert_eq!(s.state(), SessionState::MultiLine);
}

#[test]
fn single_line_actions() {
    let mut s = authenticated();
    assert_eq!(s.on_line(b""), SessionAction::Ignore);
    assert_eq!(s.on_line(b"select inbox"), SessionAction::Send);
    assert_eq!(s.on_line(b"!b64 fetch 1 body[1]"), SessionAction::SendWithTools { space: 4 });
    assert_eq!(s.on_line(b"!b!b64 fetch 1 body[header]"), SessionAction::SendWithTools { space: 6 });
    assert_eq!(s.on_line(b"!b64"), SessionAction::MissingCommand);
    assert_eq!(s.state(), SessionState::SingleLine);
}

#[test]
fn end_of_input_quits() {
    let mut s = authenticated();
    assert_eq!(s.on_end_of_input(), SessionAction::Quit);
    assert_eq!(s.state(), SessionState::Terminating);
    assert_eq!(s.on_line(b"noop"), SessionAction::Ignore);
    assert_eq!(s.on_end_of_input(), SessionAction::Ignore);
}

#[test]
fn end_of_input_in_multiline_quits() {
    let mut s = authenticated();
    s.on_line(b"\"");
    assert_eq!(s.on_end_of_input(), SessionAction::Quit);
    assert_eq!(s.state(), SessionState::Terminating);
}

#[test]
fn lines_before_auth_are_ignored() {
    let mut s = Session::new();
    assert_eq!(s.on_line(b"noop"), SessionAction::Ignore);
    assert_eq!(s.state(), SessionState::AwaitingAuth);
}

#[test]
fn prompt_colors() {
    assert_eq!(color_code(b"red"), Some(b"\x1b[31m".to_vec()));
    assert_eq!(color_code(b"green"), Some(b"\x1b[32m".to_vec()));
    assert_eq!(color_code(b"blue"), Some(b"\x1b[34m".to_vec()));
    assert_eq!(color_code(b"pink"), None);
}
