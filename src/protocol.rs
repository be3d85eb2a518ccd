//! The two protocol variants: how commands go on the wire, how
//! authentication and quitting are phrased, and when a reply is complete.
use vstd::prelude::*;
use crate::bytes::append_bytes;
use crate::framer::{
    coded_reply_status, coded_status, is_tagged_complete, tag, tag_seq, tagged_complete,
    FramingError, RecvResult, RecvStep, CR, LF, PLUS,
};

verus! {

/// The protocol spoken on a connection.
#[derive(Clone, Copy, Debug, PartialEq, Eq, Structural)]
pub enum Protocol {
    /// Mail retrieval: commands and the final reply line carry a tag.
    Tagged,
    /// Mail submission: every reply line starts with a three-digit code.
    Coded,
}

/// The Tagged authentication did not get the `+` continuation it needs.
#[derive(Clone, Copy, Debug, PartialEq, Eq, Structural)]
pub enum AuthError {
    MissingContinuation,
}

pub open spec fn crlf() -> Seq<u8> {
    seq![CR, LF]
}

/// `LOGOUT`
pub open spec fn logout_seq() -> Seq<u8> {
    seq![76u8, 79u8, 71u8, 79u8, 85u8, 84u8]
}

/// `QUIT`
pub open spec fn quit_seq() -> Seq<u8> {
    seq![81u8, 85u8, 73u8, 84u8]
}

/// `AUTHENTICATE XOAUTH2`
pub open spec fn authenticate_seq() -> Seq<u8> {
    seq![
        65u8, 85u8, 84u8, 72u8, 69u8, 78u8, 84u8, 73u8, 67u8, 65u8, 84u8, 69u8, 32u8,
        88u8, 79u8, 65u8, 85u8, 84u8, 72u8, 50u8,
    ]
}

/// `AUTH XOAUTH2 ` (with the trailing space)
pub open spec fn auth_prefix_seq() -> Seq<u8> {
    seq![65u8, 85u8, 84u8, 72u8, 32u8, 88u8, 79u8, 65u8, 85u8, 84u8, 72u8, 50u8, 32u8]
}

/// The bytes that carry command `cmd` on the wire.
pub open spec fn command_wire(p: Protocol, cmd: Seq<u8>) -> Seq<u8> {
    match p {
        Protocol::Tagged => tag_seq() + cmd + crlf(),
        Protocol::Coded => cmd + crlf(),
    }
}

/// Whether the bytes received so far form a complete reply.
pub open spec fn frame_status(p: Protocol, b: Seq<u8>) -> Result<bool, FramingError> {
    match p {
        Protocol::Tagged => Ok(tagged_complete(b)),
        Protocol::Coded => coded_status(b),
    }
}

/// The step taken when a receive attempt would block.
pub open spec fn step_on_again(status: Result<bool, FramingError>) -> Result<RecvStep, FramingError> {
    match status {
        Ok(true) => Ok(RecvStep::Done),
        Ok(false) => Ok(RecvStep::Wait),
        Err(e) => Err(e),
    }
}

/// The quit command of the protocol.
pub open spec fn quit_command_seq(p: Protocol) -> Seq<u8> {
    match p {
        Protocol::Tagged => logout_seq(),
        Protocol::Coded => quit_seq(),
    }
}

/// The command that opens authentication with the base64 string `auth`.
pub open spec fn auth_command_seq(p: Protocol, auth: Seq<u8>) -> Seq<u8> {
    match p {
        Protocol::Tagged => authenticate_seq(),
        Protocol::Coded => auth_prefix_seq() + auth,
    }
}

/// The reply buffer after the chunks are received in order, starting from `buf`.
pub open spec fn receive_all(buf: Seq<u8>, chunks: Seq<Seq<u8>>) -> Seq<u8>
    decreases chunks.len(),
{
    if chunks.len() == 0 {
        buf
    } else {
        receive_all(buf + chunks[0], chunks.drop_first())
    }
}

proof fn lemma_receive_all_appends(buf: Seq<u8>, chunks: Seq<Seq<u8>>)
    ensures
        receive_all(buf, chunks) == buf + chunks.flatten(),
    decreases chunks.len(),
{
    if chunks.len() > 0 {
        lemma_receive_all_appends(buf + chunks[0], chunks.drop_first());
        assert(buf + chunks[0] + chunks.drop_first().flatten() =~= buf + chunks.flatten());
    }
}

/// However a byte stream is split into received chunks, the reply buffer
/// ends up holding the stream itself, so the verdict taken when a read would
/// block depends only on the bytes received and never on where the chunks
/// were cut.
pub proof fn lemma_chunking_irrelevant(p: Protocol, chunks1: Seq<Seq<u8>>, chunks2: Seq<Seq<u8>>)
    requires
        chunks1.flatten() == chunks2.flatten(),
    ensures
        receive_all(Seq::empty(), chunks1) == chunks1.flatten(),
        step_on_again(frame_status(p, receive_all(Seq::empty(), chunks1)))
            == step_on_again(frame_status(p, receive_all(Seq::empty(), chunks2))),
{
    lemma_receive_all_appends(Seq::empty(), chunks1);
    lemma_receive_all_appends(Seq::empty(), chunks2);
    assert(Seq::<u8>::empty() + chunks1.flatten() =~= chunks1.flatten());
    assert(Seq::<u8>::empty() + chunks2.flatten() =~= chunks2.flatten());
}

impl Protocol {
    /// The prompt shown while this protocol's session waits for a command.
    pub fn prompt_str(&self) -> (r: &'static str)
        ensures
            *self == Protocol::Tagged ==> r@ == "imap> "@,
            *self == Protocol::Coded ==> r@ == "smtp> "@,
    {
        match self {
            Protocol::Tagged => "imap> ",
            Protocol::Coded => "smtp> ",
        }
    }

    /// The wire form of command `cmd`: tag, command and CRLF for the tagged
    /// protocol, command and CRLF for the coded one.
    pub fn command_bytes(&self, cmd: &[u8]) -> (r: Vec<u8>)
        ensures
            r@ == command_wire(*self, cmd@),
    {
        let mut r: Vec<u8> = match self {
            Protocol::Tagged => tag(),
            Protocol::Coded => Vec::new(),
        };
        append_bytes(&mut r, cmd);
        r.push(CR);
        r.push(LF);
        match self {
            Protocol::Tagged => assert(r@ =~= tag_seq() + cmd@ + crlf()),
            Protocol::Coded => assert(r@ =~= cmd@ + crlf()),
        }
        r
    }

    /// The command that ends the session (`LOGOUT` or `QUIT`), without framing.
    pub fn quit_command(&self) -> (r: Vec<u8>)
        ensures
            r@ == quit_command_seq(*self),
    {
        let r: Vec<u8> = match self {
            Protocol::Tagged => vec![76u8, 79u8, 71u8, 79u8, 85u8, 84u8],
            Protocol::Coded => vec![81u8, 85u8, 73u8, 84u8],
        };
        assert(r@ =~= quit_command_seq(*self));
        r
    }

    /// The command that starts authentication with base64 string `auth`:
    /// `AUTHENTICATE XOAUTH2` for the tagged protocol (the string follows as a
    /// literal line), `AUTH XOAUTH2 <auth>` for the coded one.
    pub fn auth_command(&self, auth: &[u8]) -> (r: Vec<u8>)
        ensures
            r@ == auth_command_seq(*self, auth@),
    {
        match self {
            Protocol::Tagged => {
                let r: Vec<u8> = vec![
                    65u8, 85u8, 84u8, 72u8, 69u8, 78u8, 84u8, 73u8, 67u8, 65u8, 84u8, 69u8,
                    32u8, 88u8, 79u8, 65u8, 85u8, 84u8, 72u8, 50u8,
                ];
                assert(r@ =~= authenticate_seq());
                r
            },
            Protocol::Coded => {
                let mut r: Vec<u8> = vec![
                    65u8, 85u8, 84u8, 72u8, 32u8, 88u8, 79u8, 65u8, 85u8, 84u8, 72u8, 50u8,
                    32u8,
                ];
                assert(r@ =~= auth_prefix_seq());
                append_bytes(&mut r, auth);
                r
            },
        }
    }

    /// What follows the reply to the authentication command. The tagged
    /// protocol needs a reply that starts with `+`, and then sends the bare
    /// auth string and CRLF as a literal line; the coded protocol is done.
    pub fn auth_literal(&self, auth: &[u8], first_reply: &[u8]) -> (r: Result<Option<Vec<u8>>, AuthError>)
        ensures
            *self == Protocol::Coded ==> r == Ok::<Option<Vec<u8>>, AuthError>(None),
            *self == Protocol::Tagged && !(first_reply@.len() > 0 && first_reply@[0] == PLUS)
                ==> r == Err::<Option<Vec<u8>>, AuthError>(AuthError::MissingContinuation),
            *self == Protocol::Tagged && first_reply@.len() > 0 && first_reply@[0] == PLUS
                ==> (r matches Ok(Some(v)) && v@ == auth@ + crlf()),
    {
        match self {
            Protocol::Coded => Ok(None),
            Protocol::Tagged => {
                if first_reply.len() > 0 && first_reply[0] == PLUS {
                    let mut v: Vec<u8> = Vec::new();
                    append_bytes(&mut v, auth);
                    v.push(CR);
                    v.push(LF);
                    assert(v@ =~= auth@ + crlf());
                    Ok(Some(v))
                } else {
                    Err(AuthError::MissingContinuation)
                }
            },
        }
    }

    /// Whether the bytes received so far form a complete reply.
    pub fn reply_status(&self, b: &[u8]) -> (r: Result<bool, FramingError>)
        ensures
            r == frame_status(*self, b@),
    {
        match self {
            Protocol::Tagged => Ok(is_tagged_complete(b)),
            Protocol::Coded => coded_reply_status(b),
        }
    }

    /// One step of the receive loop. Received bytes (the front of `scratch`)
    /// are appended to the reply buffer and the loop reads again; when a read
    /// would block, the reply is either complete or the loop waits.
    pub fn on_recv(&self, buf: &mut Vec<u8>, result: RecvResult, scratch: &[u8]) -> (r: Result<RecvStep, FramingError>)
        requires
            result matches RecvResult::Received(n) ==> n <= scratch@.len(),
        ensures
            result matches RecvResult::Received(n) ==> {
                &&& final(buf)@ == old(buf)@ + scratch@.subrange(0, n as int)
                &&& r == Ok::<RecvStep, FramingError>(RecvStep::ReadAgain)
            },
            result is Again ==> {
                &&& final(buf)@ == old(buf)@
                &&& r == step_on_again(frame_status(*self, old(buf)@))
            },
    {
        match result {
            RecvResult::Received(n) => {
                append_bytes(buf, &scratch[0..n]);
                Ok(RecvStep::ReadAgain)
            },
            RecvResult::Again => {
                match self.reply_status(buf.as_slice()) {
                    Ok(true) => Ok(RecvStep::Done),
                    Ok(false) => Ok(RecvStep::Wait),
                    Err(e) => Err(e),
                }
            },
        }
    }
}

} // verus!
