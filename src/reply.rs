//! Wire replies: each outcome of the session maps to one `<code> <text>\r\n` line.

use vstd::prelude::*;
use vstd::string::StringSliceAdditionalSpecFns;

verus! {

/// An outcome of the session that the peer is told about.
#[derive(Clone, Copy, Debug, PartialEq, Eq, Structural)]
pub enum Reply {
    /// Banner sent on accept: `220 <domain> SMTP Ready`.
    Ready,
    /// HELO/EHLO accepted: `250 <domain> Hello`.
    Hello,
    /// MAIL or RCPT accepted: `250 Ok`.
    Accept,
    /// DATA accepted, body capture begins: `354 ...`.
    StartData,
    /// Body terminator seen, message taken: `250 Ok: message accepted`.
    Accepted,
    /// QUIT: `221 Bye`.
    Bye,
    /// Verb not recognized: `500 Unrecognized command`.
    Unrecognized,
    /// Command out of order: `503 Bad sequence of commands`.
    BadSequence,
    /// A line exceeded the length limit: `500 Line too long`.
    LineTooLong,
}

/// The bytes of `s` as UTF-8.
pub open spec fn bytes_of(s: &str) -> Seq<u8> {
    s.spec_bytes()
}

impl Reply {
    /// The three-digit code that opens the reply line.
    pub open spec fn code(self) -> nat {
        match self {
            Reply::Ready => 220,
            Reply::Hello | Reply::Accept | Reply::Accepted => 250,
            Reply::StartData => 354,
            Reply::Bye => 221,
            Reply::Unrecognized | Reply::LineTooLong => 500,
            Reply::BadSequence => 503,
        }
    }

    /// The full reply line, CRLF included, for a server that names itself `domain`.
    pub open spec fn text(self, domain: Seq<u8>) -> Seq<u8> {
        match self {
            Reply::Ready => bytes_of("220 ") + domain + bytes_of(" SMTP Ready\r\n"),
            Reply::Hello => bytes_of("250 ") + domain + bytes_of(" Hello\r\n"),
            Reply::Accept => bytes_of("250 Ok\r\n"),
            Reply::StartData => bytes_of("354 End data with <CR><LF>.<CR><LF>\r\n"),
            Reply::Accepted => bytes_of("250 Ok: message accepted\r\n"),
            Reply::Bye => bytes_of("221 Bye\r\n"),
            Reply::Unrecognized => bytes_of("500 Unrecognized command\r\n"),
            Reply::BadSequence => bytes_of("503 Bad sequence of commands\r\n"),
            Reply::LineTooLong => bytes_of("500 Line too long\r\n"),
        }
    }

    /// Renders the reply line sent on the wire.
    pub fn render(&self, domain: &Vec<u8>) -> (r: Vec<u8>)
        ensures
            r@ == self.text(domain@),
    {
        match self {
            Reply::Ready => framed("220 ", domain, " SMTP Ready\r\n"),
            Reply::Hello => framed("250 ", domain, " Hello\r\n"),
            Reply::Accept => "250 Ok\r\n".as_bytes_vec(),
            Reply::StartData => "354 End data with <CR><LF>.<CR><LF>\r\n".as_bytes_vec(),
            Reply::Accepted => "250 Ok: message accepted\r\n".as_bytes_vec(),
            Reply::Bye => "221 Bye\r\n".as_bytes_vec(),
            Reply::Unrecognized => "500 Unrecognized command\r\n".as_bytes_vec(),
            Reply::BadSequence => "503 Bad sequence of commands\r\n".as_bytes_vec(),
            Reply::LineTooLong => "500 Line too long\r\n".as_bytes_vec(),
        }
    }
}

/// `head`, then `domain`, then `tail`.
fn framed(head: &str, domain: &Vec<u8>, tail: &str) -> (r: Vec<u8>)
    ensures
        r@ == bytes_of(head) + domain@ + bytes_of(tail),
{
    let mut r = head.as_bytes_vec();
    let mut middle = domain.clone();
    let mut end = tail.as_bytes_vec();
    r.append(&mut middle);
    r.append(&mut end);
    r
}

} // verus!
