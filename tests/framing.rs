use pochta::framer::{coded_reply_status, find_last_line_start, is_tagged_complete, FramingError, RecvResult, RecvStep};
use pochta::protocol::{AuthError, Protocol};

fn feed(p: Protocol, buf: &mut Vec<u8>, chunk: &[u8]) -> RecvStep {
    let mut scratch = [0u8; 1024];
    scratch[..chunk.len()].copy_from_slice(chunk);
    assert_eq!(p.on_recv(buf, RecvResult::Received(chunk.len()), &scratch), Ok(RecvStep::ReadAgain));
    p.on_recv(buf, RecvResult::Again, &scratch).unwrap()
}

#[test]
fn coded_reply_in_two_chunks() {
    let mut buf = Vec::new();
    assert_eq!(feed(Protocol::Coded, &mut buf, b"250-first\r\n"), RecvStep::Wait);
    assert_eq!(feed(Protocol::Coded, &mut buf, b"250 second\r\n"), RecvStep::Done);
    assert_eq!(buf, b"250-first\r\n250 second\r\n".to_vec());
}

#[test]
fn tagged_reply_split_mid_line() {
    let mut buf = Vec::new();
    assert_eq!(feed(Protocol::Tagged, &mut buf, b"* OK ready\r\nPOCH"), RecvStep::Wait);
    assert_eq!(feed(Protocol::Tagged, &mut buf, b"TA OK done"), RecvStep::Wait);
    assert_eq!(feed(Protocol::Tagged, &mut buf, b"\r"), RecvStep::Wait);
    assert_eq!(feed(Protocol::Tagged, &mut buf, b"\n"), RecvStep::Done);
    assert_eq!(buf, b"* OK ready\r\nPOCHTA OK done\r\n".to_vec());
}

#[test]
fn tagged_continuation_completes() {
    assert!(is_tagged_complete(b"+ \r\n"));
    assert!(is_tagged_complete(b"* 1 EXISTS\r\n+ go ahead\r\n"));
}

#[test]
fn tagged_untagged_line_waits() {
    assert!(!is_tagged_complete(b""));
    assert!(!is_tagged_complete(b"* OK\r\n"));
    assert!(!is_tagged_complete(b"POCHTA OK"));
    assert!(!is_tagged_complete(b"POCHTA OK\r\n* 2 EXISTS\r\n"));
    assert!(is_tagged_complete(b"* 2 EXISTS\r\nPOCHTA OK\r\n"));
}

#[test]
fn coded_status_lines() {
    assert_eq!(coded_reply_status(b""), Ok(false));
    assert_eq!(coded_reply_status(b"250 ok"), Ok(false));
    assert_eq!(coded_reply_status(b"250 ok\r\n"), Ok(true));
    assert_eq!(coded_reply_status(b"250-ok\r\n"), Ok(false));
    assert_eq!(coded_reply_status(b"250\r\n"), Ok(false));
    assert_eq!(coded_reply_status(b"hello\r\n"), Err(FramingError::MalformedStatusLine));
    assert_eq!(coded_reply_status(b"1\r\n"), Err(FramingError::MalformedStatusLine));
    assert_eq!(coded_reply_status(b"250-a\r\nxx\r\n"), Err(FramingError::MalformedStatusLine));
}

#[test]
fn coded_malformed_reply_is_an_error() {
    let mut buf = Vec::new();
    let mut scratch = [0u8; 16];
    scratch[..7].copy_from_slice(b"oops\r\nx");
    assert_eq!(Protocol::Coded.on_recv(&mut buf, RecvResult::Received(6), &scratch), Ok(RecvStep::ReadAgain));
    assert_eq!(Protocol::Coded.on_recv(&mut buf, RecvResult::Again, &scratch), Err(FramingError::MalformedStatusLine));
}

#[test]
fn last_line_start_positions() {
    assert_eq!(find_last_line_start(b"\r\n"), 0);
    assert_eq!(find_last_line_start(b"abc\r\n"), 0);
    assert_eq!(find_last_line_start(b"a\r\nbc\r\n"), 3);
    assert_eq!(find_last_line_start(b"a\n\r\n"), 2);
}

#[test]
fn command_wire_forms() {
    assert_eq!(Protocol::Tagged.command_bytes(b"select inbox"), b"POCHTA select inbox\r\n".to_vec());
    assert_eq!(Protocol::Coded.command_bytes(b"ehlo x"), b"ehlo x\r\n".to_vec());
    assert_eq!(Protocol::Coded.command_bytes(b""), b"\r\n".to_vec());
}

#[test]
fn quit_and_prompt() {
    assert_eq!(Protocol::Tagged.quit_command(), b"LOGOUT".to_vec());
    assert_eq!(Protocol::Coded.quit_command(), b"QUIT".to_vec());
    assert_eq!(Protocol::Tagged.prompt_str(), "imap> ");
    assert_eq!(Protocol::Coded.prompt_str(), "smtp> ");
}

#[test]
fn auth_exchange() {
    assert_eq!(Protocol::Tagged.auth_command(b"QUJD"), b"AUTHENTICATE XOAUTH2".to_vec());
    assert_eq!(Protocol::Coded.auth_command(b"QUJD"), b"AUTH XOAUTH2 QUJD".to_vec());
    assert_eq!(Protocol::Tagged.auth_literal(b"QUJD", b"+ \r\n"), Ok(Some(b"QUJD\r\n".to_vec())));
    assert_eq!(Protocol::Tagged.auth_literal(b"QUJD", b"POCHTA NO\r\n"), Err(AuthError::MissingContinuation));
    assert_eq!(Protocol::Tagged.auth_literal(b"QUJD", b""), Err(AuthError::MissingContinuation));
    assert_eq!(Protocol::Coded.auth_literal(b"QUJD", b"235 ok\r\n"), Ok(None));
}
