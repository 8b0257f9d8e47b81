//! Recovers lines from a byte stream whose reads need not align with them.
//!
//! Bytes are kept in a growable buffer until a line feed arrives; a line is
//! what comes before it, less one carriage return at its end. A line, or an
//! unfinished one, longer than the limit is a framing error.

use vstd::prelude::*;

verus! {

pub open spec fn is_lf(b: u8) -> bool {
    b == '\n' as u8
}

/// Index of the first line feed in `s`, or `s.len()` where there is none.
pub open spec fn lf_pos(s: Seq<u8>) -> nat
    decreases s.len(),
{
    if s.len() == 0 || is_lf(s[0]) {
        0
    } else {
        1 + lf_pos(s.drop_first())
    }
}

/// `raw` without one trailing carriage return.
pub open spec fn strip_cr(raw: Seq<u8>) -> Seq<u8> {
    if raw.len() > 0 && raw.last() == '\r' as u8 {
        raw.drop_last()
    } else {
        raw
    }
}

/// What the front of a buffer holds.
pub enum Framed {
    /// A complete line, and the bytes after its line feed.
    Line(Seq<u8>, Seq<u8>),
    /// No line feed yet, and not too long to wait for one.
    Incomplete,
    /// More than `max` bytes before the first line feed (or with none).
    TooLong,
}

pub open spec fn next_frame(p: Seq<u8>, max: nat) -> Framed {
    let k = lf_pos(p);
    if k > max {
        Framed::TooLong
    } else if k < p.len() {
        Framed::Line(strip_cr(p.take(k as int)), p.skip(k + 1 as int))
    } else {
        Framed::Incomplete
    }
}

pub proof fn lemma_lf_pos_bounds(s: Seq<u8>)
    ensures
        lf_pos(s) <= s.len(),
        lf_pos(s) < s.len() ==> is_lf(s[lf_pos(s) as int]),
        forall|j: int| 0 <= j < lf_pos(s) ==> !is_lf(#[trigger] s[j]),
    decreases s.len(),
{
    if s.len() > 0 && !is_lf(s[0]) {
        lemma_lf_pos_bounds(s.drop_first());
        assert forall|j: int| 0 <= j < lf_pos(s) implies !is_lf(#[trigger] s[j]) by {
            if j > 0 {
                assert(s[j] == s.drop_first()[j - 1]);
            }
        }
    }
}

/// A line feed found in `a` is found in `a + b` at the same place; where `a`
/// has none, the search runs on into `b`.
pub proof fn lemma_lf_pos_concat(a: Seq<u8>, b: Seq<u8>)
    ensures
        lf_pos(a) < a.len() ==> lf_pos(a + b) == lf_pos(a),
        lf_pos(a) == a.len() ==> lf_pos(a + b) == a.len() + lf_pos(b),
    decreases a.len(),
{
    lemma_lf_pos_bounds(a);
    if a.len() == 0 {
        assert(a + b =~= b);
    } else if !is_lf(a[0]) {
        assert((a + b).drop_first() =~= a.drop_first() + b);
        lemma_lf_pos_concat(a.drop_first(), b);
    }
}

proof fn lemma_lf_pos_step(s: Seq<u8>, i: int)
    requires
        0 <= i < s.len(),
        !is_lf(s[i]),
    ensures
        lf_pos(s.subrange(i, s.len() as int)) == 1 + lf_pos(s.subrange(i + 1, s.len() as int)),
{
    assert(s.subrange(i, s.len() as int).drop_first() =~= s.subrange(i + 1, s.len() as int));
}

/// One step of framing.
pub enum Frame {
    Line(Vec<u8>),
    Incomplete,
    TooLong,
}

/// Bytes received and not yet framed, with the line-length limit.
pub struct LineBuffer {
    pub pending: Vec<u8>,
    pub max_line: usize,
}

impl LineBuffer {
    pub fn new(max_line: usize) -> (r: LineBuffer)
        ensures
            r.pending@ == Seq::<u8>::empty(),
            r.max_line == max_line,
    {
        LineBuffer { pending: Vec::new(), max_line }
    }

    /// Adds the bytes of one read after those already held.
    pub fn push(&mut self, data: &[u8])
        ensures
            final(self).pending@ == old(self).pending@ + data@,
            final(self).max_line == old(self).max_line,
    {
        let mut i: usize = 0;
        while i < data.len()
            invariant
                0 <= i <= data@.len(),
                self.pending@ == old(self).pending@ + data@.take(i as int),
                self.max_line == old(self).max_line,
            decreases data@.len() - i,
        {
            self.pending.push(data[i]);
            i = i + 1;
            assert(self.pending@ =~= old(self).pending@ + data@.take(i as int));
        }
        assert(data@.take(i as int) =~= data@);
    }

    /// Takes the next complete line off the front of the buffer.
    pub fn next_line(&mut self) -> (r: Frame)
        ensures
            final(self).max_line == old(self).max_line,
            match next_frame(old(self).pending@, old(self).max_line as nat) {
                Framed::Line(line, rest) => r matches Frame::Line(v) && v@ == line
                    && final(self).pending@ == rest,
                Framed::Incomplete => r is Incomplete && final(self).pending@ == old(self).pending@,
                Framed::TooLong => r is TooLong && final(self).pending@ == old(self).pending@,
            },
    {
        let n = self.pending.len();
        let mut i: usize = 0;
        assert(self.pending@.subrange(0, n as int) =~= self.pending@);
        while i < n && self.pending[i] != '\n' as u8
            invariant
                n == self.pending@.len(),
                0 <= i <= n,
                lf_pos(self.pending@) == i + lf_pos(self.pending@.subrange(i as int, n as int)),
            decreases n - i,
        {
            proof { lemma_lf_pos_step(self.pending@, i as int); }
            i = i + 1;
        }
        assert(lf_pos(self.pending@) == i);
        if i > self.max_line {
            Frame::TooLong
        } else if i == n {
            Frame::Incomplete
        } else {
            let rest = self.pending.split_off(i + 1);
            let mut line = self.pending.split_off(0);
            self.pending = rest;
            line.pop();
            if line.len() > 0 && line[line.len() - 1] == '\r' as u8 {
                line.pop();
            }
            assert(line@ =~= strip_cr(old(self).pending@.take(i as int)));
            Frame::Line(line)
        }
    }
}

} // verus!
