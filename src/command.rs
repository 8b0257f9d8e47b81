//! Splits one command-mode line into a verb and its argument.

use vstd::prelude::*;

verus! {

/// The verbs the session knows, and a catch-all for the rest.
#[derive(Clone, Copy, Debug, PartialEq, Eq, Structural)]
pub enum Verb {
    /// `HELO` or `EHLO`.
    Hello,
    Mail,
    Rcpt,
    Data,
    Quit,
    Unknown,
}

/// A parsed command line. For MAIL and RCPT, `arg` is what follows the
/// `FROM:` / `TO:` prefix; for other verbs it is the raw remainder.
pub struct Command {
    pub verb: Verb,
    pub arg: Vec<u8>,
}

pub open spec fn is_space(b: u8) -> bool {
    b == ' ' as u8 || b == '\t' as u8
}

/// ASCII upper case of one byte; other bytes are kept.
pub open spec fn upper(b: u8) -> u8 {
    if ('a' as u8) <= b && b <= ('z' as u8) {
        (b - 32) as u8
    } else {
        b
    }
}

pub open spec fn upper_all(s: Seq<u8>) -> Seq<u8> {
    s.map_values(|b: u8| upper(b))
}

/// Length of the leading run of non-space bytes.
pub open spec fn word_len(s: Seq<u8>) -> nat
    decreases s.len(),
{
    if s.len() == 0 || is_space(s[0]) {
        0
    } else {
        1 + word_len(s.drop_first())
    }
}

/// `s` without its leading run of spaces.
pub open spec fn skip_spaces(s: Seq<u8>) -> Seq<u8>
    decreases s.len(),
{
    if s.len() > 0 && is_space(s[0]) {
        skip_spaces(s.drop_first())
    } else {
        s
    }
}

/// The fixed words of the command syntax.
#[derive(Clone, Copy, Debug, PartialEq, Eq, Structural)]
pub enum Keyword {
    Helo,
    Ehlo,
    Mail,
    Rcpt,
    Data,
    Quit,
    From,
    To,
}

/// The keyword bytes the parser looks for, in upper case.
pub open spec fn keyword(k: Keyword) -> Seq<u8> {
    match k {
        Keyword::Helo => seq!['H' as u8, 'E' as u8, 'L' as u8, 'O' as u8],
        Keyword::Ehlo => seq!['E' as u8, 'H' as u8, 'L' as u8, 'O' as u8],
        Keyword::Mail => seq!['M' as u8, 'A' as u8, 'I' as u8, 'L' as u8],
        Keyword::Rcpt => seq!['R' as u8, 'C' as u8, 'P' as u8, 'T' as u8],
        Keyword::Data => seq!['D' as u8, 'A' as u8, 'T' as u8, 'A' as u8],
        Keyword::Quit => seq!['Q' as u8, 'U' as u8, 'I' as u8, 'T' as u8],
        Keyword::From => seq!['F' as u8, 'R' as u8, 'O' as u8, 'M' as u8, ':' as u8],
        Keyword::To => seq!['T' as u8, 'O' as u8, ':' as u8],
    }
}

impl Keyword {
    /// The bytes of the keyword.
    pub fn bytes(self) -> (r: Vec<u8>)
        ensures
            r@ == keyword(self),
    {
        match self {
            Keyword::Helo => vec!['H' as u8, 'E' as u8, 'L' as u8, 'O' as u8],
            Keyword::Ehlo => vec!['E' as u8, 'H' as u8, 'L' as u8, 'O' as u8],
            Keyword::Mail => vec!['M' as u8, 'A' as u8, 'I' as u8, 'L' as u8],
            Keyword::Rcpt => vec!['R' as u8, 'C' as u8, 'P' as u8, 'T' as u8],
            Keyword::Data => vec!['D' as u8, 'A' as u8, 'T' as u8, 'A' as u8],
            Keyword::Quit => vec!['Q' as u8, 'U' as u8, 'I' as u8, 'T' as u8],
            Keyword::From => vec!['F' as u8, 'R' as u8, 'O' as u8, 'M' as u8, ':' as u8],
            Keyword::To => vec!['T' as u8, 'O' as u8, ':' as u8],
        }
    }
}

/// The verb a word names, regardless of letter case.
pub open spec fn verb_of(word: Seq<u8>) -> Verb {
    let w = upper_all(word);
    if w == keyword(Keyword::Helo) || w == keyword(Keyword::Ehlo) {
        Verb::Hello
    } else if w == keyword(Keyword::Mail) {
        Verb::Mail
    } else if w == keyword(Keyword::Rcpt) {
        Verb::Rcpt
    } else if w == keyword(Keyword::Data) {
        Verb::Data
    } else if w == keyword(Keyword::Quit) {
        Verb::Quit
    } else {
        Verb::Unknown
    }
}

/// `s` with `prefix` taken off its front, matched regardless of letter
/// case; `s` itself where it does not start so.
pub open spec fn strip_prefix(s: Seq<u8>, prefix: Seq<u8>) -> Seq<u8> {
    if s.len() >= prefix.len() && upper_all(s.take(prefix.len() as int)) == prefix {
        s.skip(prefix.len() as int)
    } else {
        s
    }
}

/// The verb of a line and its argument.
pub open spec fn parse_line(line: Seq<u8>) -> (Verb, Seq<u8>) {
    let n = word_len(line) as int;
    let verb = verb_of(line.take(n));
    let rest = skip_spaces(line.skip(n));
    let arg = match verb {
        Verb::Mail => strip_prefix(rest, keyword(Keyword::From)),
        Verb::Rcpt => strip_prefix(rest, keyword(Keyword::To)),
        _ => rest,
    };
    (verb, arg)
}

proof fn lemma_word_len_step(s: Seq<u8>, i: int)
    requires
        0 <= i < s.len(),
        !is_space(s[i]),
    ensures
        word_len(s.subrange(i, s.len() as int)) == 1 + word_len(s.subrange(i + 1, s.len() as int)),
{
    assert(s.subrange(i, s.len() as int).drop_first() =~= s.subrange(i + 1, s.len() as int));
}

proof fn lemma_skip_spaces_step(s: Seq<u8>, i: int)
    requires
        0 <= i < s.len(),
        is_space(s[i]),
    ensures
        skip_spaces(s.subrange(i, s.len() as int)) == skip_spaces(s.subrange(i + 1, s.len() as int)),
{
    assert(s.subrange(i, s.len() as int).drop_first() =~= s.subrange(i + 1, s.len() as int));
}

/// Whether `s[start..end]`, upper-cased, equals `pat`.
fn equals_upper(s: &Vec<u8>, start: usize, end: usize, pat: &Vec<u8>) -> (r: bool)
    requires
        start <= end <= s@.len(),
    ensures
        r == (upper_all(s@.subrange(start as int, end as int)) == pat@),
{
    let ghost sub = s@.subrange(start as int, end as int);
    if end - start != pat.len() {
        assert(upper_all(sub).len() != pat@.len());
        return false;
    }
    let mut i: usize = 0;
    while i < pat.len()
        invariant
            end - start == pat@.len(),
            start <= end <= s@.len(),
            sub == s@.subrange(start as int, end as int),
            0 <= i <= pat@.len(),
            forall|j: int| 0 <= j < i ==> upper(sub[j]) == pat@[j],
        decreases pat@.len() - i,
    {
        let b = s[start + i];
        let u: u8 = if ('a' as u8) <= b && b <= ('z' as u8) { b - 32 } else { b };
        if u != pat[i] {
            assert(upper_all(sub)[i as int] != pat@[i as int]);
            return false;
        }
        i = i + 1;
    }
    assert(upper_all(sub) =~= pat@);
    true
}

impl Verb {
    /// Recognizes a verb, regardless of letter case.
    pub fn parse(line: &Vec<u8>, start: usize, end: usize) -> (v: Verb)
        requires
            start <= end <= line@.len(),
        ensures
            v == verb_of(line@.subrange(start as int, end as int)),
    {
        if equals_upper(line, start, end, &Keyword::Helo.bytes())
            || equals_upper(line, start, end, &Keyword::Ehlo.bytes()) {
            Verb::Hello
        } else if equals_upper(line, start, end, &Keyword::Mail.bytes()) {
            Verb::Mail
        } else if equals_upper(line, start, end, &Keyword::Rcpt.bytes()) {
            Verb::Rcpt
        } else if equals_upper(line, start, end, &Keyword::Data.bytes()) {
            Verb::Data
        } else if equals_upper(line, start, end, &Keyword::Quit.bytes()) {
            Verb::Quit
        } else {
            Verb::Unknown
        }
    }
}

/// The bytes `s[start..]`.
fn tail(s: &Vec<u8>, start: usize) -> (r: Vec<u8>)
    requires
        start <= s@.len(),
    ensures
        r@ == s@.skip(start as int),
{
    let mut r: Vec<u8> = Vec::new();
    let mut i: usize = start;
    while i < s.len()
        invariant
            start <= i <= s@.len(),
            r@ == s@.subrange(start as int, i as int),
        decreases s@.len() - i,
    {
        r.push(s[i]);
        i = i + 1;
        assert(r@ =~= s@.subrange(start as int, i as int));
    }
    assert(r@ =~= s@.skip(start as int));
    r
}

/// Index in `s` past `prefix` where `s[start..]` starts with it (any letter
/// case), else `start`.
fn after_prefix(s: &Vec<u8>, start: usize, prefix: &Vec<u8>) -> (r: usize)
    requires
        start <= s@.len(),
    ensures
        s@.subrange(r as int, s@.len() as int) == strip_prefix(s@.skip(start as int), prefix@),
        start <= r <= s@.len(),
{
    let ghost rest = s@.skip(start as int);
    if s.len() - start >= prefix.len() && equals_upper(s, start, start + prefix.len(), prefix) {
        assert(rest.take(prefix@.len() as int) =~= s@.subrange(start as int, start + prefix@.len()));
        assert(rest.skip(prefix@.len() as int) =~= s@.subrange(start + prefix@.len(), s@.len() as int));
        start + prefix.len()
    } else {
        proof {
            if rest.len() >= prefix@.len() {
                assert(rest.take(prefix@.len() as int) =~= s@.subrange(start as int, start + prefix@.len()));
            }
        }
        assert(rest =~= s@.subrange(start as int, s@.len() as int));
        start
    }
}

impl Command {
    /// Splits a line at its first run of spaces into verb and argument.
    pub fn parse(line: &Vec<u8>) -> (c: Command)
        ensures
            (c.verb, c.arg@) == parse_line(line@),
    {
        let n = line.len();
        let mut i: usize = 0;
        assert(line@.subrange(0, n as int) =~= line@);
        while i < n && !(line[i] == ' ' as u8 || line[i] == '\t' as u8)
            invariant
                n == line@.len(),
                0 <= i <= n,
                word_len(line@) == i + word_len(line@.subrange(i as int, n as int)),
            decreases n - i,
        {
            proof { lemma_word_len_step(line@, i as int); }
            i = i + 1;
        }
        let word_end = i;
        assert(word_len(line@.subrange(i as int, n as int)) == 0);
        assert(line@.take(word_end as int) =~= line@.subrange(0, word_end as int));
        let verb = Verb::parse(line, 0, word_end);
        assert(line@.subrange(word_end as int, n as int) =~= line@.skip(word_end as int));
        while i < n && (line[i] == ' ' as u8 || line[i] == '\t' as u8)
            invariant
                n == line@.len(),
                word_end <= i <= n,
                skip_spaces(line@.skip(word_end as int)) == skip_spaces(line@.subrange(i as int, n as int)),
            decreases n - i,
        {
            proof { lemma_skip_spaces_step(line@, i as int); }
            i = i + 1;
        }
        assert(skip_spaces(line@.subrange(i as int, n as int)) == line@.subrange(i as int, n as int));
        assert(line@.subrange(i as int, n as int) =~= line@.skip(i as int));
        let start = match verb {
            Verb::Mail => after_prefix(line, i, &Keyword::From.bytes()),
            Verb::Rcpt => after_prefix(line, i, &Keyword::To.bytes()),
            _ => i,
        };
        let arg = tail(line, start);
        proof {
            assert(line@.subrange(start as int, n as int) =~= line@.skip(start as int));
        }
        Command { verb, arg }
    }
}

} // verus!
