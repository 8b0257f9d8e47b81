use mailsink::command::{Command, Verb};
use mailsink::connection::Connection;
use mailsink::framer::{Frame, LineBuffer};
use mailsink::reply::Reply;
use mailsink::session::{Session, SmtpState};

fn conn() -> Connection {
    Connection::new(b"example.test".to_vec(), 64)
}

fn wire(c: &Connection, replies: &[Reply]) -> Vec<String> {
    replies
        .iter()
        .map(|r| String::from_utf8(c.render(*r)).unwrap())
        .collect()
}

#[test]
fn full_session_scenario() {
    let mut c = conn();
    assert_eq!(c.banner(), b"220 example.test SMTP Ready\r\n".to_vec());

    let out = c.receive(b"EHLO client\r\n");
    assert_eq!(wire(&c, &out.replies), vec!["250 example.test Hello\r\n"]);
    assert!(!out.close);

    let out = c.receive(b"MAIL FROM:<a@x>\r\n");
    assert_eq!(wire(&c, &out.replies), vec!["250 Ok\r\n"]);

    let out = c.receive(b"RCPT TO:<b@y>\r\n");
    assert_eq!(wire(&c, &out.replies), vec!["250 Ok\r\n"]);

    let out = c.receive(b"DATA\r\n");
    assert_eq!(out.replies, vec![Reply::StartData]);
    assert!(wire(&c, &out.replies)[0].starts_with("354 "));

    let out = c.receive(b"Hello\r\n.\r\n");
    assert_eq!(wire(&c, &out.replies), vec!["250 Ok: message accepted\r\n"]);
    assert_eq!(c.session.state, SmtpState::PostData);
    assert_eq!(c.session.envelope.sender, b"<a@x>".to_vec());
    assert_eq!(c.session.envelope.recipients, vec![b"<b@y>".to_vec()]);
    assert_eq!(c.session.envelope.body, b"Hello\r\n".to_vec());

    let out = c.receive(b"QUIT\r\n");
    assert_eq!(wire(&c, &out.replies), vec!["221 Bye\r\n"]);
    assert!(out.close);
}

#[test]
fn envelope_keeps_recipients_in_order() {
    let mut c = conn();
    let out = c.receive(
        b"HELO h\r\nMAIL FROM:<s@x>\r\nRCPT TO:<r1@y>\r\nRCPT TO:<r2@y>\r\nRCPT TO:<r1@y>\r\nDATA\r\nline\r\n.\r\n",
    );
    assert_eq!(
        out.replies,
        vec![
            Reply::Hello,
            Reply::Accept,
            Reply::Accept,
            Reply::Accept,
            Reply::Accept,
            Reply::StartData,
            Reply::Accepted
        ]
    );
    assert_eq!(c.session.envelope.sender, b"<s@x>".to_vec());
    assert_eq!(
        c.session.envelope.recipients,
        vec![b"<r1@y>".to_vec(), b"<r2@y>".to_vec(), b"<r1@y>".to_vec()]
    );
    assert_eq!(c.session.envelope.body, b"line\r\n".to_vec());
}

#[test]
fn rcpt_before_mail_is_bad_sequence() {
    let mut c = conn();
    let out = c.receive(b"HELO h\r\nRCPT TO:<b@y>\r\n");
    assert_eq!(out.replies, vec![Reply::Hello, Reply::BadSequence]);
    assert_eq!(wire(&c, &out.replies[1..]), vec!["503 Bad sequence of commands\r\n"]);
    assert!(c.session.envelope.recipients.is_empty());
    assert_eq!(c.session.state, SmtpState::Greet);
}

#[test]
fn data_without_recipients_is_bad_sequence() {
    let mut c = conn();
    let out = c.receive(b"MAIL FROM:<a@x>\r\nDATA\r\nnot body\r\n");
    assert_eq!(
        out.replies,
        vec![Reply::Accept, Reply::BadSequence, Reply::Unrecognized]
    );
    assert_eq!(c.session.state, SmtpState::Mail);
    assert!(c.session.envelope.body.is_empty());
}

#[test]
fn terminator_split_across_reads() {
    let mut c = conn();
    c.receive(b"MAIL FROM:<a>\r\nRCPT TO:<b>\r\nDATA\r\nHi\r\n");
    let out = c.receive(b".\r");
    assert!(out.replies.is_empty());
    assert_eq!(c.session.state, SmtpState::Data);
    let out = c.receive(b"\n");
    assert_eq!(out.replies, vec![Reply::Accepted]);
    assert_eq!(c.session.envelope.body, b"Hi\r\n".to_vec());
}

#[test]
fn command_split_across_reads() {
    let mut c = conn();
    assert!(c.receive(b"MAIL FR").replies.is_empty());
    assert!(c.receive(b"OM:<a>\r").replies.is_empty());
    assert_eq!(c.receive(b"\n").replies, vec![Reply::Accept]);
    assert_eq!(c.session.envelope.sender, b"<a>".to_vec());
}

#[test]
fn pipelined_commands_get_two_replies() {
    let mut c = conn();
    let out = c.receive(b"MAIL FROM:<a>\r\nRCPT TO:<b>\r\n");
    assert_eq!(out.replies, vec![Reply::Accept, Reply::Accept]);
    assert_eq!(c.session.state, SmtpState::Rcpt);
}

#[test]
fn leading_double_dot_is_unstuffed() {
    let mut c = conn();
    c.receive(b"MAIL FROM:<a>\r\nRCPT TO:<b>\r\nDATA\r\n");
    let out = c.receive(b"..hidden\r\n...\r\n.x\r\n.\r\n");
    assert_eq!(out.replies, vec![Reply::Accepted]);
    assert_eq!(c.session.envelope.body, b".hidden\r\n..\r\n.x\r\n".to_vec());
}

#[test]
fn unknown_verb_does_not_disturb_session() {
    let mut c = conn();
    let out = c.receive(b"FOO bar\r\n");
    assert_eq!(wire(&c, &out.replies), vec!["500 Unrecognized command\r\n"]);
    assert!(!out.close);
    let out = c.receive(b"MAIL FROM:<a>\r\nRCPT TO:<b>\r\nDATA\r\n");
    assert_eq!(
        out.replies,
        vec![Reply::Accept, Reply::Accept, Reply::StartData]
    );
}

#[test]
fn quit_closes_and_ignores_the_rest() {
    let mut c = conn();
    let out = c.receive(b"QUIT\r\nMAIL FROM:<a>\r\n");
    assert_eq!(out.replies, vec![Reply::Bye]);
    assert!(out.close);
    assert_eq!(c.session.state, SmtpState::Quit);
    let out = c.receive(b"HELO x\r\n");
    assert!(out.replies.is_empty());
    assert!(out.close);
}

#[test]
fn overlong_line_is_a_framing_error() {
    let mut c = Connection::new(b"d".to_vec(), 8);
    let out = c.receive(b"HELO a\r\nHELO abcdefgh\r\n");
    assert_eq!(out.replies, vec![Reply::Hello, Reply::LineTooLong]);
    assert!(out.close);
    assert_eq!(wire(&c, &out.replies[1..]), vec!["500 Line too long\r\n"]);
}

#[test]
fn overlong_unfinished_line_is_a_framing_error() {
    let mut c = Connection::new(b"d".to_vec(), 4);
    let out = c.receive(b"ABCDE");
    assert_eq!(out.replies, vec![Reply::LineTooLong]);
    assert!(out.close);
    let mut c = Connection::new(b"d".to_vec(), 5);
    let out = c.receive(b"ABCDE");
    assert!(out.replies.is_empty());
    assert!(!out.close);
}

#[test]
fn bare_line_feed_is_accepted() {
    let mut c = conn();
    let out = c.receive(b"helo x\nmail from:<a>\n");
    assert_eq!(out.replies, vec![Reply::Hello, Reply::Accept]);
    assert_eq!(c.session.envelope.sender, b"<a>".to_vec());
}

#[test]
fn new_transaction_after_message() {
    let mut c = conn();
    c.receive(b"MAIL FROM:<a>\r\nRCPT TO:<b>\r\nRCPT TO:<c>\r\nDATA\r\nx\r\n.\r\n");
    let out = c.receive(b"MAIL FROM:<d>\r\nRCPT TO:<e>\r\n");
    assert_eq!(out.replies, vec![Reply::Accept, Reply::Accept]);
    assert_eq!(c.session.envelope.sender, b"<d>".to_vec());
    assert_eq!(c.session.envelope.recipients, vec![b"<e>".to_vec()]);
    assert!(c.session.envelope.body.is_empty());
}

#[test]
fn rcpt_after_message_needs_new_mail() {
    let mut c = conn();
    c.receive(b"MAIL FROM:<a>\r\nRCPT TO:<b>\r\nDATA\r\n.\r\n");
    let out = c.receive(b"RCPT TO:<c>\r\nDATA\r\n");
    assert_eq!(out.replies, vec![Reply::BadSequence, Reply::BadSequence]);
    assert_eq!(c.session.state, SmtpState::PostData);
}

#[test]
fn parse_splits_verb_and_argument() {
    let c = Command::parse(&b"MaIl   from:<x y>".to_vec());
    assert_eq!(c.verb, Verb::Mail);
    assert_eq!(c.arg, b"<x y>".to_vec());
    let c = Command::parse(&b"RCPT\t<z>".to_vec());
    assert_eq!(c.verb, Verb::Rcpt);
    assert_eq!(c.arg, b"<z>".to_vec());
    let c = Command::parse(&b"ehlo".to_vec());
    assert_eq!(c.verb, Verb::Hello);
    assert!(c.arg.is_empty());
    let c = Command::parse(&b"HELOX a".to_vec());
    assert_eq!(c.verb, Verb::Unknown);
    assert_eq!(c.arg, b"a".to_vec());
    let c = Command::parse(&b"".to_vec());
    assert_eq!(c.verb, Verb::Unknown);
}

#[test]
fn verb_parse_on_a_range() {
    let line = b"xxquitxx".to_vec();
    assert_eq!(Verb::parse(&line, 2, 6), Verb::Quit);
    assert_eq!(Verb::parse(&line, 2, 7), Verb::Unknown);
    assert_eq!(Verb::parse(&b"Data".to_vec(), 0, 4), Verb::Data);
}

#[test]
fn framer_yields_lines_one_by_one() {
    let mut f = LineBuffer::new(16);
    f.push(b"ab\r\ncd\nef");
    assert!(matches!(f.next_line(), Frame::Line(ref l) if l == b"ab"));
    assert!(matches!(f.next_line(), Frame::Line(ref l) if l == b"cd"));
    assert!(matches!(f.next_line(), Frame::Incomplete));
    assert_eq!(f.pending, b"ef".to_vec());
    f.push(b"\r\r\n");
    assert!(matches!(f.next_line(), Frame::Line(ref l) if l == b"ef\r"));
    assert!(f.pending.is_empty());
}

#[test]
fn session_handles_single_lines() {
    let mut s = Session::new();
    assert_eq!(s.handle_line(&b"DATA".to_vec()), Some(Reply::BadSequence));
    assert_eq!(s.handle_line(&b"MAIL FROM:<a>".to_vec()), Some(Reply::Accept));
    assert_eq!(s.handle_line(&b"RCPT TO:<b>".to_vec()), Some(Reply::Accept));
    assert_eq!(s.handle_line(&b"DATA".to_vec()), Some(Reply::StartData));
    assert_eq!(s.handle_line(&b"QUIT".to_vec()), None);
    assert_eq!(s.handle_line(&b".".to_vec()), Some(Reply::Accepted));
    assert_eq!(s.envelope.body, b"QUIT\r\n".to_vec());
}

#[test]
fn every_reply_renders_exactly() {
    let d = b"mx.test".to_vec();
    let cases: Vec<(Reply, &str)> = vec![
        (Reply::Ready, "220 mx.test SMTP Ready\r\n"),
        (Reply::Hello, "250 mx.test Hello\r\n"),
        (Reply::Accept, "250 Ok\r\n"),
        (Reply::StartData, "354 End data with <CR><LF>.<CR><LF>\r\n"),
        (Reply::Accepted, "250 Ok: message accepted\r\n"),
        (Reply::Bye, "221 Bye\r\n"),
        (Reply::Unrecognized, "500 Unrecognized command\r\n"),
        (Reply::BadSequence, "503 Bad sequence of commands\r\n"),
        (Reply::LineTooLong, "500 Line too long\r\n"),
    ];
    for (r, text) in cases {
        assert_eq!(r.render(&d), text.as_bytes().to_vec());
    }
}
