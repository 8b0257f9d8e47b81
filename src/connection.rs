//! One connection's decisions: bytes of a read in, replies and whether to
//! close out. The socket itself is driven by the caller.

use vstd::prelude::*;
use crate::framer::{
    is_lf, lemma_lf_pos_bounds, lemma_lf_pos_concat, lf_pos, next_frame, strip_cr, Frame, Framed,
    LineBuffer,
};
use crate::reply::Reply;
use crate::session::{crlf, in_command_mode, step, Session, SessionModel, SmtpState};

verus! {

pub open spec fn opt_seq(r: Option<Reply>) -> Seq<Reply> {
    match r {
        Some(x) => seq![x],
        None => Seq::empty(),
    }
}

/// What handling buffered bytes leads to: the session reached, the bytes
/// left unframed, the replies owed in order, and whether to close.
pub struct Fed {
    pub session: SessionModel,
    pub pending: Seq<u8>,
    pub replies: Seq<Reply>,
    pub close: bool,
}

/// Frames every complete line of `p` and applies each in turn, until the
/// bytes run out, the peer quits or a line is too long.
pub open spec fn feed(m: SessionModel, p: Seq<u8>, max: nat) -> Fed
    decreases p.len(),
{
    if m.state == SmtpState::Quit {
        Fed { session: m, pending: p, replies: Seq::empty(), close: true }
    } else {
        match next_frame(p, max) {
            Framed::TooLong => Fed {
                session: m,
                pending: p,
                replies: seq![Reply::LineTooLong],
                close: true,
            },
            Framed::Incomplete => Fed { session: m, pending: p, replies: Seq::empty(), close: false },
            Framed::Line(line, rest) => {
                let (m2, r) = step(m, line);
                let f = feed(m2, rest, max);
                Fed { replies: opt_seq(r) + f.replies, ..f }
            },
        }
    }
}

/// The replies of one read, and whether the connection ends after them.
pub struct Outcome {
    pub replies: Vec<Reply>,
    pub close: bool,
}

/// Everything one connection holds: its session, its unframed bytes and the
/// domain it names itself by.
pub struct Connection {
    pub session: Session,
    pub framer: LineBuffer,
    pub domain: Vec<u8>,
}

impl Connection {
    /// A fresh connection, ready once its banner is sent.
    pub fn new(domain: Vec<u8>, max_line: usize) -> (c: Connection)
        ensures
            c.session@ == crate::session::initial(),
            c.framer.pending@ == Seq::<u8>::empty(),
            c.framer.max_line == max_line,
            c.domain == domain,
    {
        Connection { session: Session::new(), framer: LineBuffer::new(max_line), domain }
    }

    /// The line sent on accept, before any read.
    pub fn banner(&self) -> (r: Vec<u8>)
        ensures
            r@ == Reply::Ready.text(self.domain@),
    {
        Reply::Ready.render(&self.domain)
    }

    /// The wire form of a reply of this connection.
    pub fn render(&self, reply: Reply) -> (r: Vec<u8>)
        ensures
            r@ == reply.text(self.domain@),
    {
        reply.render(&self.domain)
    }

    /// Handles the bytes of one read.
    pub fn receive(&mut self, data: &[u8]) -> (out: Outcome)
        ensures
            ({
                let f = feed(
                    old(self).session@,
                    old(self).framer.pending@ + data@,
                    old(self).framer.max_line as nat,
                );
                &&& final(self).session@ == f.session
                &&& final(self).framer.pending@ == f.pending
                &&& out.replies@ == f.replies
                &&& out.close == f.close
            }),
            final(self).framer.max_line == old(self).framer.max_line,
            final(self).domain == old(self).domain,
    {
        self.framer.push(data);
        let ghost max = self.framer.max_line as nat;
        let ghost goal = feed(self.session@, self.framer.pending@, max);
        let mut replies: Vec<Reply> = Vec::new();
        loop
            invariant
                self.framer.max_line == old(self).framer.max_line,
                max == self.framer.max_line as nat,
                self.domain == old(self).domain,
                goal == feed(
                    old(self).session@,
                    old(self).framer.pending@ + data@,
                    old(self).framer.max_line as nat,
                ),
                ({
                    let f = feed(self.session@, self.framer.pending@, max);
                    &&& goal.session == f.session
                    &&& goal.pending == f.pending
                    &&& goal.close == f.close
                    &&& goal.replies == replies@ + f.replies
                }),
            decreases self.framer.pending@.len(),
        {
            if self.session.state == SmtpState::Quit {
                assert(replies@ + Seq::<Reply>::empty() =~= replies@);
                return Outcome { replies, close: true };
            }
            let ghost m = self.session@;
            let ghost p = self.framer.pending@;
            match self.framer.next_line() {
                Frame::TooLong => {
                    replies.push(Reply::LineTooLong);
                    return Outcome { replies, close: true };
                },
                Frame::Incomplete => {
                    assert(replies@ + Seq::<Reply>::empty() =~= replies@);
                    return Outcome { replies, close: false };
                },
                Frame::Line(line) => {
                    let r = self.session.handle_line(&line);
                    let ghost prev = replies@;
                    match r {
                        Some(x) => replies.push(x),
                        None => {},
                    }
                    assert(replies@ =~= prev + opt_seq(r));
                    let ghost f = feed(self.session@, self.framer.pending@, max);
                    assert(prev + (opt_seq(r) + f.replies) =~= replies@ + f.replies);
                },
            }
        }
    }
}


/// Where reads split the stream does not matter: handling `q` and then,
/// once more bytes `b` arrive, what is left of `q` followed by `b`, reaches
/// the same session, leftover bytes and closing decision as handling `q + b`
/// at once, and gives the same replies in the same order.
pub proof fn lemma_split_read(m: SessionModel, q: Seq<u8>, b: Seq<u8>, max: nat)
    requires
        !feed(m, q, max).close,
    ensures
        ({
            let first = feed(m, q, max);
            let second = feed(first.session, first.pending + b, max);
            let whole = feed(m, q + b, max);
            &&& second.session == whole.session
            &&& second.pending == whole.pending
            &&& second.close == whole.close
            &&& first.replies + second.replies == whole.replies
        }),
    decreases q.len(),
{
    let k = lf_pos(q);
    lemma_lf_pos_bounds(q);
    lemma_lf_pos_concat(q, b);
    match next_frame(q, max) {
        Framed::Incomplete => {
            assert(Seq::<Reply>::empty() + feed(m, q + b, max).replies =~= feed(m, q + b, max).replies);
        },
        Framed::Line(line, rest) => {
            assert((q + b).take(k as int) =~= q.take(k as int));
            assert((q + b).skip(k + 1 as int) =~= rest + b);
            let (m2, r) = step(m, line);
            lemma_split_read(m2, rest, b, max);
            let first = feed(m2, rest, max);
            let second = feed(first.session, first.pending + b, max);
            let whole = feed(m2, rest + b, max);
            assert(opt_seq(r) + first.replies + second.replies =~= opt_seq(r) + whole.replies);
        },
        Framed::TooLong => {},
    }
}

/// A lone carriage return before the line feed is not part of the line.
proof fn lemma_crlf_line(l: Seq<u8>, rest: Seq<u8>)
    requires
        forall|j: int| 0 <= j < l.len() ==> !is_lf(#[trigger] l[j]),
    ensures
        lf_pos(l + crlf() + rest) == l.len() + 1,
        (l + crlf() + rest).take(l.len() + 1 as int) == l.push('\r' as u8),
        strip_cr(l.push('\r' as u8)) == l,
        (l + crlf() + rest).skip(l.len() + 2 as int) == rest,
{
    lemma_lf_pos_bounds(l);
    lemma_lf_pos_concat(l, crlf() + rest);
    assert(l + crlf() + rest =~= l + (crlf() + rest));
    let s = crlf() + rest;
    assert(s[0] == '\r' as u8);
    assert(s.drop_first()[0] == '\n' as u8);
    assert(lf_pos(s.drop_first()) == 0);
    assert(lf_pos(s) == 1);
    assert((l + crlf() + rest).take(l.len() + 1 as int) =~= l.push('\r' as u8));
    assert(l.push('\r' as u8).drop_last() =~= l);
    assert((l + crlf() + rest).skip(l.len() + 2 as int) =~= rest);
}

/// Two command lines that arrive in one read are both answered, in order:
/// two replies, not one.
pub proof fn lemma_pipelined_commands(m: SessionModel, l1: Seq<u8>, l2: Seq<u8>, max: nat)
    requires
        in_command_mode(m),
        in_command_mode(step(m, l1).0),
        forall|j: int| 0 <= j < l1.len() ==> !is_lf(#[trigger] l1[j]),
        forall|j: int| 0 <= j < l2.len() ==> !is_lf(#[trigger] l2[j]),
        l1.len() + 1 <= max,
        l2.len() + 1 <= max,
    ensures
        ({
            let (m1, r1) = step(m, l1);
            let (m2, r2) = step(m1, l2);
            let f = feed(m, l1 + crlf() + l2 + crlf(), max);
            &&& r1 is Some && r2 is Some
            &&& f.replies == seq![r1.unwrap(), r2.unwrap()]
            &&& f.session == m2
        }),
{
    let (m1, r1) = step(m, l1);
    let tail = l2 + crlf();
    lemma_crlf_line(l1, tail);
    assert(l1 + crlf() + l2 + crlf() =~= l1 + crlf() + tail);
    lemma_crlf_line(l2, Seq::<u8>::empty());
    assert(l2 + crlf() + Seq::<u8>::empty() =~= tail);
    let (m2, r2) = step(m1, l2);
    let last = feed(m2, Seq::<u8>::empty(), max);
    assert(lf_pos(Seq::<u8>::empty()) == 0);
    if m2.state != SmtpState::Quit {
        assert(next_frame(Seq::<u8>::empty(), max) is Incomplete);
    }
    assert(last.replies == Seq::<Reply>::empty());
    assert(last.session == m2);
    assert(next_frame(tail, max) == Framed::Line(l2, Seq::<u8>::empty()));
    let mid = feed(m1, tail, max);
    assert(mid.replies == opt_seq(r2) + last.replies);
    assert(mid.session == m2);
    let whole = l1 + crlf() + l2 + crlf();
    assert(next_frame(whole, max) == Framed::Line(l1, tail));
    assert(opt_seq(r1) + (opt_seq(r2) + last.replies) =~= seq![r1.unwrap(), r2.unwrap()]);
}

} // verus!
