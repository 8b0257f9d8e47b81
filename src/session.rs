//! The per-connection session: protocol state, the envelope being assembled,
//! and the transitions that each framed line causes.

use vstd::prelude::*;
use crate::command::{parse_line, Command, Verb};
use crate::reply::Reply;

verus! {

/// Where a session stands in the protocol.
#[derive(Clone, Copy, Debug, PartialEq, Eq, Structural)]
pub enum SmtpState {
    /// Ready for a new transaction: after HELO/EHLO, and at the start.
    Greet,
    /// A sender is set, no recipient yet.
    Mail,
    /// A sender and at least one recipient are set.
    Rcpt,
    /// Capturing body lines until the terminator.
    Data,
    /// The body was finished; the envelope is complete.
    PostData,
    /// The peer quit; the connection closes.
    Quit,
}

/// What one delivery attempt has gathered. Values are kept as received.
pub struct Envelope {
    pub sender: Vec<u8>,
    pub recipients: Vec<Vec<u8>>,
    pub body: Vec<u8>,
}

/// The envelope and state of a session, as values.
pub struct SessionModel {
    pub state: SmtpState,
    pub sender: Seq<u8>,
    pub recipients: Seq<Seq<u8>>,
    pub body: Seq<u8>,
}

pub open spec fn views(v: Seq<Vec<u8>>) -> Seq<Seq<u8>> {
    v.map_values(|x: Vec<u8>| x@)
}

impl Envelope {
    pub fn new() -> (e: Envelope)
        ensures
            e.sender@ == Seq::<u8>::empty(),
            e.recipients@ == Seq::<Vec<u8>>::empty(),
            e.body@ == Seq::<u8>::empty(),
    {
        Envelope { sender: Vec::new(), recipients: Vec::new(), body: Vec::new() }
    }
}

/// The line that ends body capture.
pub open spec fn is_terminator(line: Seq<u8>) -> bool {
    line == seq!['.' as u8]
}

/// A body line as stored: a leading `..` loses one dot.
pub open spec fn unstuff(line: Seq<u8>) -> Seq<u8> {
    if line.len() >= 2 && line[0] == '.' as u8 && line[1] == '.' as u8 {
        line.drop_first()
    } else {
        line
    }
}

/// A body line as sent: a leading `.` gains one more.
pub open spec fn stuff(line: Seq<u8>) -> Seq<u8> {
    if line.len() >= 1 && line[0] == '.' as u8 {
        seq!['.' as u8] + line
    } else {
        line
    }
}

pub open spec fn crlf() -> Seq<u8> {
    seq!['\r' as u8, '\n' as u8]
}

/// The state reached and the reply owed when `line` arrives in state `m`.
pub open spec fn step(m: SessionModel, line: Seq<u8>) -> (SessionModel, Option<Reply>) {
    match m.state {
        SmtpState::Quit => (m, None),
        SmtpState::Data => if is_terminator(line) {
            (SessionModel { state: SmtpState::PostData, ..m }, Some(Reply::Accepted))
        } else {
            (SessionModel { body: m.body + unstuff(line) + crlf(), ..m }, None)
        },
        _ => {
            let (verb, arg) = parse_line(line);
            match verb {
                Verb::Hello => (SessionModel { state: SmtpState::Greet, ..m }, Some(Reply::Hello)),
                Verb::Mail => (
                    SessionModel {
                        state: SmtpState::Mail,
                        sender: arg,
                        recipients: Seq::empty(),
                        body: Seq::empty(),
                    },
                    Some(Reply::Accept),
                ),
                Verb::Rcpt => if m.state == SmtpState::Mail || m.state == SmtpState::Rcpt {
                    (
                        SessionModel {
                            state: SmtpState::Rcpt,
                            recipients: m.recipients.push(arg),
                            ..m
                        },
                        Some(Reply::Accept),
                    )
                } else {
                    (m, Some(Reply::BadSequence))
                },
                Verb::Data => if m.state == SmtpState::Rcpt && m.recipients.len() > 0 {
                    (SessionModel { state: SmtpState::Data, ..m }, Some(Reply::StartData))
                } else {
                    (m, Some(Reply::BadSequence))
                },
                Verb::Quit => (SessionModel { state: SmtpState::Quit, ..m }, Some(Reply::Bye)),
                Verb::Unknown => (m, Some(Reply::Unrecognized)),
            }
        },
    }
}

/// Protocol state and envelope of one connection.
pub struct Session {
    pub state: SmtpState,
    pub envelope: Envelope,
}

impl View for Session {
    type V = SessionModel;

    open spec fn view(&self) -> SessionModel {
        SessionModel {
            state: self.state,
            sender: self.envelope.sender@,
            recipients: views(self.envelope.recipients@),
            body: self.envelope.body@,
        }
    }
}

impl Session {
    /// A session that has sent its banner and awaits the first command.
    pub fn new() -> (s: Session)
        ensures
            s@ == initial(),
    {
        let s = Session { state: SmtpState::Greet, envelope: Envelope::new() };
        assert(views(s.envelope.recipients@) =~= Seq::<Seq<u8>>::empty());
        s
    }

    /// Applies one framed line: a command, or a body line while capturing.
    pub fn handle_line(&mut self, line: &Vec<u8>) -> (r: Option<Reply>)
        ensures
            (final(self)@, r) == step(old(self)@, line@),
    {
        match self.state {
            SmtpState::Quit => None,
            SmtpState::Data => {
                if line.len() == 1 && line[0] == '.' as u8 {
                    assert(line@ =~= seq!['.' as u8]);
                    self.state = SmtpState::PostData;
                    Some(Reply::Accepted)
                } else {
                    assert(!is_terminator(line@));
                    let skip: usize = if line.len() >= 2 && line[0] == '.' as u8 && line[1] == '.' as u8 {
                        1
                    } else {
                        0
                    };
                    let mut i: usize = skip;
                    let ghost body0 = self.envelope.body@;
                    while i < line.len()
                        invariant
                            skip <= i <= line@.len(),
                            self.state == old(self).state,
                            self.envelope.sender@ == old(self).envelope.sender@,
                            self.envelope.recipients@ == old(self).envelope.recipients@,
                            self.envelope.body@ == body0 + line@.subrange(skip as int, i as int),
                        decreases line@.len() - i,
                    {
                        self.envelope.body.push(line[i]);
                        i = i + 1;
                        assert(self.envelope.body@ =~= body0 + line@.subrange(skip as int, i as int));
                    }
                    self.envelope.body.push('\r' as u8);
                    self.envelope.body.push('\n' as u8);
                    assert(line@.subrange(skip as int, line@.len() as int) =~= unstuff(line@));
                    assert(self.envelope.body@ =~= body0 + unstuff(line@) + crlf());
                    None
                }
            },
            _ => {
                let c = Command::parse(line);
                match c.verb {
                    Verb::Hello => {
                        self.state = SmtpState::Greet;
                        Some(Reply::Hello)
                    },
                    Verb::Mail => {
                        self.state = SmtpState::Mail;
                        self.envelope = Envelope { sender: c.arg, recipients: Vec::new(), body: Vec::new() };
                        assert(views(self.envelope.recipients@) =~= Seq::<Seq<u8>>::empty());
                        Some(Reply::Accept)
                    },
                    Verb::Rcpt => {
                        if self.state == SmtpState::Mail || self.state == SmtpState::Rcpt {
                            let ghost before = self.envelope.recipients@;
                            self.envelope.recipients.push(c.arg);
                            assert(views(self.envelope.recipients@) =~= views(before).push(c.arg@));
                            self.state = SmtpState::Rcpt;
                            Some(Reply::Accept)
                        } else {
                            Some(Reply::BadSequence)
                        }
                    },
                    Verb::Data => {
                        if self.state == SmtpState::Rcpt && self.envelope.recipients.len() > 0 {
                            self.state = SmtpState::Data;
                            Some(Reply::StartData)
                        } else {
                            Some(Reply::BadSequence)
                        }
                    },
                    Verb::Quit => {
                        self.state = SmtpState::Quit;
                        Some(Reply::Bye)
                    },
                    Verb::Unknown => Some(Reply::Unrecognized),
                }
            },
        }
    }
}

/// The session before any command.
pub open spec fn initial() -> SessionModel {
    SessionModel {
        state: SmtpState::Greet,
        sender: Seq::empty(),
        recipients: Seq::empty(),
        body: Seq::empty(),
    }
}


/// The session reached from `m` by the lines `lines`, in order.
pub open spec fn run(m: SessionModel, lines: Seq<Seq<u8>>) -> SessionModel
    decreases lines.len(),
{
    if lines.len() == 0 {
        m
    } else {
        step(run(m, lines.drop_last()), lines.last()).0
    }
}

/// Whether a state reads lines as commands.
pub open spec fn in_command_mode(m: SessionModel) -> bool {
    m.state != SmtpState::Data && m.state != SmtpState::Quit
}

/// Running two batches of lines is running them one after the other.
pub proof fn lemma_run_append(m: SessionModel, a: Seq<Seq<u8>>, b: Seq<Seq<u8>>)
    ensures
        run(m, a + b) == run(run(m, a), b),
    decreases b.len(),
{
    if b.len() == 0 {
        assert(a + b =~= a);
    } else {
        assert((a + b).drop_last() =~= a + b.drop_last());
        lemma_run_append(m, a, b.drop_last());
    }
}

proof fn lemma_run_one(m: SessionModel, l: Seq<u8>)
    ensures
        run(m, seq![l]) == step(m, l).0,
{
    assert(seq![l].drop_last() =~= Seq::<Seq<u8>>::empty());
    assert(run(m, Seq::<Seq<u8>>::empty()) == m);
}

/// The arguments that a batch of RCPT lines carries.
pub open spec fn args_of(lines: Seq<Seq<u8>>) -> Seq<Seq<u8>> {
    lines.map_values(|l: Seq<u8>| parse_line(l).1)
}

proof fn lemma_run_rcpts(m: SessionModel, rcpts: Seq<Seq<u8>>)
    requires
        m.state == SmtpState::Mail || m.state == SmtpState::Rcpt,
        forall|i: int| 0 <= i < rcpts.len() ==> (#[trigger] parse_line(rcpts[i])).0 == Verb::Rcpt,
    ensures
        rcpts.len() > 0 ==> run(m, rcpts).state == SmtpState::Rcpt,
        rcpts.len() == 0 ==> run(m, rcpts).state == m.state,
        run(m, rcpts).sender == m.sender,
        run(m, rcpts).recipients == m.recipients + args_of(rcpts),
    decreases rcpts.len(),
{
    if rcpts.len() == 0 {
        assert(m.recipients + args_of(rcpts) =~= m.recipients);
    } else {
        let init = rcpts.drop_last();
        assert forall|i: int| 0 <= i < init.len() implies (#[trigger] parse_line(init[i])).0 == Verb::Rcpt by {
            assert(init[i] == rcpts[i]);
        }
        lemma_run_rcpts(m, init);
        assert(parse_line(rcpts[rcpts.len() - 1]).0 == Verb::Rcpt);
        assert(args_of(rcpts) =~= args_of(init).push(parse_line(rcpts.last()).1));
    }
}

proof fn lemma_run_body(m: SessionModel, body: Seq<Seq<u8>>)
    requires
        m.state == SmtpState::Data,
        forall|i: int| 0 <= i < body.len() ==> !is_terminator(#[trigger] body[i]),
    ensures
        run(m, body).state == SmtpState::Data,
        run(m, body).sender == m.sender,
        run(m, body).recipients == m.recipients,
    decreases body.len(),
{
    if body.len() > 0 {
        let init = body.drop_last();
        assert forall|i: int| 0 <= i < init.len() implies !is_terminator(#[trigger] init[i]) by {
            assert(init[i] == body[i]);
        }
        lemma_run_body(m, init);
        assert(!is_terminator(body[body.len() - 1]));
    }
}

/// A complete transaction, HELO/EHLO, MAIL, one or more RCPT, DATA, body
/// lines and the terminator, from any command-mode state, ends in
/// `PostData` with the MAIL argument as sender and the RCPT arguments, in the
/// order sent, as recipients.
pub proof fn lemma_transaction(
    m: SessionModel,
    helo: Seq<u8>,
    mail: Seq<u8>,
    rcpts: Seq<Seq<u8>>,
    data: Seq<u8>,
    body: Seq<Seq<u8>>,
    end: Seq<u8>,
)
    requires
        in_command_mode(m),
        parse_line(helo).0 == Verb::Hello,
        parse_line(mail).0 == Verb::Mail,
        rcpts.len() >= 1,
        forall|i: int| 0 <= i < rcpts.len() ==> (#[trigger] parse_line(rcpts[i])).0 == Verb::Rcpt,
        parse_line(data).0 == Verb::Data,
        forall|i: int| 0 <= i < body.len() ==> !is_terminator(#[trigger] body[i]),
        is_terminator(end),
    ensures
        ({
            let r = run(m, seq![helo, mail] + rcpts + seq![data] + body + seq![end]);
            &&& r.state == SmtpState::PostData
            &&& r.sender == parse_line(mail).1
            &&& r.recipients == args_of(rcpts)
        }),
{
    let m1 = step(m, helo).0;
    let m2 = step(m1, mail).0;
    assert(m2.recipients == Seq::<Seq<u8>>::empty());
    lemma_run_rcpts(m2, rcpts);
    let m3 = run(m2, rcpts);
    assert(m2.recipients + args_of(rcpts) =~= args_of(rcpts));
    let m4 = step(m3, data).0;
    lemma_run_body(m4, body);
    let m5 = run(m4, body);
    let lines = seq![helo, mail] + rcpts + seq![data] + body + seq![end];
    lemma_run_append(m, seq![helo, mail], rcpts);
    lemma_run_append(m, seq![helo, mail] + rcpts, seq![data]);
    lemma_run_append(m, seq![helo, mail] + rcpts + seq![data], body);
    lemma_run_append(m, seq![helo, mail] + rcpts + seq![data] + body, seq![end]);
    lemma_run_append(m, seq![helo], seq![mail]);
    assert(seq![helo] + seq![mail] =~= seq![helo, mail]);
    lemma_run_one(m, helo);
    lemma_run_one(m1, mail);
    lemma_run_one(m3, data);
    lemma_run_one(m5, end);
}

proof fn lemma_no_mail_prefix(lines: Seq<Seq<u8>>, k: int)
    requires
        0 <= k <= lines.len(),
        forall|i: int| 0 <= i < lines.len() ==> (#[trigger] parse_line(lines[i])).0 != Verb::Mail,
    ensures
        run(initial(), lines.take(k)).state == SmtpState::Greet
            || run(initial(), lines.take(k)).state == SmtpState::Quit,
        run(initial(), lines.take(k)).recipients == Seq::<Seq<u8>>::empty(),
    decreases k,
{
    if k > 0 {
        lemma_no_mail_prefix(lines, k - 1);
        assert(lines.take(k).drop_last() =~= lines.take(k - 1));
        assert(lines.take(k).last() == lines[k - 1]);
    }
}

/// Until a MAIL arrives, every RCPT that the session reads is refused with
/// `503` and no recipient is ever recorded.
pub proof fn lemma_rcpt_before_mail(lines: Seq<Seq<u8>>)
    requires
        forall|i: int| 0 <= i < lines.len() ==> (#[trigger] parse_line(lines[i])).0 != Verb::Mail,
    ensures
        run(initial(), lines).recipients == Seq::<Seq<u8>>::empty(),
        forall|i: int|
            0 <= i < lines.len() && (#[trigger] parse_line(lines[i])).0 == Verb::Rcpt
                && run(initial(), lines.take(i)).state != SmtpState::Quit
                ==> step(run(initial(), lines.take(i)), lines[i]) == (
                    run(initial(), lines.take(i)),
                    Some(Reply::BadSequence),
                ),
{
    lemma_no_mail_prefix(lines, lines.len() as int);
    assert(lines.take(lines.len() as int) =~= lines);
    assert forall|i: int|
        0 <= i < lines.len() && (#[trigger] parse_line(lines[i])).0 == Verb::Rcpt
            && run(initial(), lines.take(i)).state != SmtpState::Quit
        implies step(run(initial(), lines.take(i)), lines[i]) == (
            run(initial(), lines.take(i)),
            Some(Reply::BadSequence),
        ) by {
        lemma_no_mail_prefix(lines, i);
    }
}

/// DATA with no recipient is refused with `503` and changes nothing: body
/// capture does not start.
pub proof fn lemma_data_without_recipients(m: SessionModel, line: Seq<u8>)
    requires
        in_command_mode(m),
        m.recipients.len() == 0,
        parse_line(line).0 == Verb::Data,
    ensures
        step(m, line) == (m, Some(Reply::BadSequence)),
{
}

/// An unknown verb is answered `500` and leaves the session as it was, so
/// the lines after it have just the effect they would have had without it.
pub proof fn lemma_unknown_verb(m: SessionModel, line: Seq<u8>, rest: Seq<Seq<u8>>)
    requires
        in_command_mode(m),
        parse_line(line).0 == Verb::Unknown,
    ensures
        step(m, line) == (m, Some(Reply::Unrecognized)),
        run(m, seq![line] + rest) == run(m, rest),
{
    lemma_run_append(m, seq![line], rest);
    lemma_run_one(m, line);
}

/// In body capture a line that starts with `..` is stored with one dot
/// fewer, followed by CRLF.
pub proof fn lemma_dot_unstuffing(m: SessionModel, line: Seq<u8>)
    requires
        m.state == SmtpState::Data,
        line.len() >= 2,
        line[0] == '.' as u8,
        line[1] == '.' as u8,
    ensures
        step(m, line).0.body == m.body + line.drop_first() + crlf(),
        step(m, line).0.state == SmtpState::Data,
{
}

/// Unstuffing undoes stuffing, for every line.
pub proof fn lemma_unstuff_stuff(line: Seq<u8>)
    ensures
        unstuff(stuff(line)) == line,
{
    if line.len() >= 1 && line[0] == '.' as u8 {
        assert((seq!['.' as u8] + line).drop_first() =~= line);
    }
}

} // verus!
