//! Lines out of a stream of bytes, one JSON text on each.
//!
//! A line is decoded and trimmed as a whole, and empty lines are passed over. What
//! stands after the last newline is a line too, once the stream is over.

use crate::text;
use vstd::prelude::*;
use vstd::string::*;

verus! {

/// The position of the first newline, or the length where there is none.
pub open spec fn first_newline(s: Seq<u8>) -> int
    decreases s.len(),
{
    if s.len() == 0 || s[0] == 10u8 {
        0
    } else {
        1 + first_newline(s.skip(1))
    }
}

/// The text of a line.
pub open spec fn line_text(line: Seq<u8>) -> Seq<char> {
    text::trimmed(text::utf8_lossy(line))
}

/// The texts of the lines that a newline ends, without the empty ones.
pub open spec fn complete(s: Seq<u8>) -> Seq<Seq<char>>
    decreases s.len(),
{
    let n = first_newline(s);
    if n < 0 || n >= s.len() {
        Seq::empty()
    } else {
        let t = line_text(s.take(n + 1));
        let more = complete(s.skip(n + 1));
        if t.len() == 0 {
            more
        } else {
            seq![t] + more
        }
    }
}

/// What stands after the last newline.
pub open spec fn rest(s: Seq<u8>) -> Seq<u8>
    decreases s.len(),
{
    let n = first_newline(s);
    if n < 0 || n >= s.len() {
        s
    } else {
        rest(s.skip(n + 1))
    }
}

/// The last line of a stream, where it is not empty.
pub open spec fn ending(s: Seq<u8>) -> Seq<Seq<char>> {
    let t = line_text(s);
    if s.len() == 0 || t.len() == 0 {
        Seq::empty()
    } else {
        seq![t]
    }
}

/// The lines of a whole stream.
pub open spec fn all_lines(s: Seq<u8>) -> Seq<Seq<char>> {
    complete(s) + ending(rest(s))
}

proof fn lemma_first_newline(s: Seq<u8>)
    ensures
        0 <= first_newline(s) <= s.len(),
        first_newline(s) < s.len() ==> s[first_newline(s)] == 10u8,
        forall|j: int| 0 <= j < first_newline(s) ==> s[j] != 10u8,
    decreases s.len(),
{
    if s.len() > 0 && s[0] != 10u8 {
        let t = s.skip(1);
        lemma_first_newline(t);
        assert forall|j: int| 0 <= j < first_newline(s) implies s[j] != 10u8 by {
            if j > 0 {
                assert(t[j - 1] == s[j]);
            }
        }
    }
}

proof fn lemma_first_newline_at(s: Seq<u8>, n: int)
    requires
        0 <= n <= s.len(),
        forall|j: int| 0 <= j < n ==> s[j] != 10u8,
        n < s.len() ==> s[n] == 10u8,
    ensures
        first_newline(s) == n,
{
    lemma_first_newline(s);
    let m = first_newline(s);
    if m < n {
        assert(s[m] != 10u8);
    } else if n < m {
        assert(s[n] != 10u8);
    }
}

/// The lines of a stream do not depend on where its chunks end.
pub proof fn lines_ignore_chunk_boundaries(a: Seq<u8>, b: Seq<u8>)
    ensures
        complete(a + b) == complete(a) + complete(rest(a) + b),
        rest(a + b) == rest(rest(a) + b),
        all_lines(a + b) == complete(a) + all_lines(rest(a) + b),
    decreases a.len(),
{
    lemma_first_newline(a);
    let n = first_newline(a);
    if n >= a.len() {
        assert(complete(a) + complete(rest(a) + b) =~= complete(a + b));
        assert(complete(a) + all_lines(rest(a) + b) =~= all_lines(a + b));
    } else {
        let s = a + b;
        assert forall|j: int| 0 <= j < n implies s[j] != 10u8 by {
            assert(s[j] == a[j]);
        }
        lemma_first_newline_at(s, n);
        assert(s.take(n + 1) =~= a.take(n + 1));
        assert(s.skip(n + 1) =~= a.skip(n + 1) + b);
        lines_ignore_chunk_boundaries(a.skip(n + 1), b);
        assert(complete(s) =~= complete(a) + complete(rest(a) + b));
        assert(all_lines(s) =~= complete(a) + all_lines(rest(a) + b));
    }
}

/// What a reader has to give.
#[derive(Clone, Debug, PartialEq, Eq)]
pub enum NextLine {
    Line(String),
    /// Nothing before the next chunk.
    Wait,
    /// Nothing any more.
    End,
}

/// A reader of lines.
#[derive(Clone, Debug, PartialEq, Eq)]
pub struct NdjsonLines {
    pub buffer: Vec<u8>,
    pub done: bool,
}

impl NdjsonLines {
    /// The lines that can be read without another chunk.
    pub open spec fn pending(&self) -> Seq<Seq<char>> {
        if self.done {
            all_lines(self.buffer@)
        } else {
            complete(self.buffer@)
        }
    }

    pub fn new() -> (r: NdjsonLines)
        ensures
            r.buffer@.len() == 0,
            !r.done,
    {
        NdjsonLines { buffer: Vec::new(), done: false }
    }

    /// Takes in a chunk.
    pub fn feed(&mut self, chunk: &[u8])
        ensures
            final(self).buffer@ == old(self).buffer@ + chunk@,
            final(self).done == old(self).done,
    {
        let mut i: usize = 0;
        let ghost start = self.buffer@;
        assert(start + chunk@.take(0) =~= start);
        while i < chunk.len()
            invariant
                i <= chunk@.len(),
                self.done == old(self).done,
                self.buffer@ == start + chunk@.take(i as int),
            decreases chunk@.len() - i,
        {
            self.buffer.push(chunk[i]);
            assert(chunk@.take(i + 1) =~= chunk@.take(i as int).push(chunk@[i as int]));
            assert(start + chunk@.take(i + 1) =~= (start + chunk@.take(i as int)).push(
                chunk@[i as int],
            ));
            i = i + 1;
        }
        assert(chunk@.take(i as int) =~= chunk@);
    }

    /// Says that no chunk follows.
    pub fn finish(&mut self)
        ensures
            final(self).buffer == old(self).buffer,
            final(self).done,
    {
        self.done = true;
    }

    fn newline(&self) -> (r: usize)
        ensures
            r == first_newline(self.buffer@),
            r <= self.buffer@.len(),
    {
        let mut i: usize = 0;
        while i < self.buffer.len() && self.buffer[i] != 10
            invariant
                i <= self.buffer@.len(),
                forall|j: int| 0 <= j < i ==> self.buffer@[j] != 10u8,
            decreases self.buffer@.len() - i,
        {
            i = i + 1;
        }
        proof {
            lemma_first_newline_at(self.buffer@, i as int);
        }
        i
    }

    /// The next line. It is the first of those that can be read; the reader waits
    /// where there is none and another chunk may come, keeping what stands after
    /// the last newline.
    pub fn next_line(&mut self) -> (r: NextLine)
        ensures
            final(self).done == old(self).done,
            match r {
                NextLine::Line(t) => old(self).pending() == seq![t@] + final(self).pending(),
                NextLine::Wait => !old(self).done && old(self).pending().len() == 0,
                NextLine::End => old(self).done && old(self).pending().len() == 0,
            },
            !old(self).done ==> rest(final(self).buffer@) == rest(old(self).buffer@),
            r is Wait ==> final(self).buffer@ == rest(old(self).buffer@),
            r is End ==> final(self).pending().len() == 0,
    {
        loop
            invariant
                self.done == old(self).done,
                self.pending() == old(self).pending(),
                rest(self.buffer@) == rest(old(self).buffer@),
            decreases self.buffer@.len(),
        {
            let ghost before = self.buffer@;
            let n = self.newline();
            if n < self.buffer.len() {
                let mut line = self.buffer.split_off(n + 1);
                std::mem::swap(&mut line, &mut self.buffer);
                assert(line@ =~= before.take(n + 1));
                assert(self.buffer@ =~= before.skip(n + 1));
                let decoded = text::from_utf8_lossy(line.as_slice());
                let t = text::trim(decoded.as_str());
                if text::chars_of(t.as_str()).len() > 0 {
                    assert(old(self).pending() =~= seq![t@] + self.pending());
                    return NextLine::Line(t);
                }
                assert(self.pending() =~= old(self).pending());
            } else if self.done {
                if self.buffer.len() == 0 {
                    return NextLine::End;
                }
                let mut last: Vec<u8> = Vec::new();
                std::mem::swap(&mut last, &mut self.buffer);
                assert(last@ == before);
                let decoded = text::from_utf8_lossy(last.as_slice());
                let t = text::trim(decoded.as_str());
                assert(old(self).pending() =~= ending(before));
                if text::chars_of(t.as_str()).len() > 0 {
                    assert(self.buffer@ =~= Seq::<u8>::empty());
                    assert(old(self).pending() =~= seq![t@] + self.pending());
                    return NextLine::Line(t);
                }
                assert(self.buffer@ =~= Seq::<u8>::empty());
                return NextLine::End;
            } else {
                return NextLine::Wait;
            }
        }
    }
}

/// Every line that a newline ends is given out, decoded and trimmed, in the order of the
/// stream; an empty one is passed over. What no newline ends is given out once the stream
/// is over, and waits before.
pub proof fn every_line_is_given_out(line: Seq<u8>, more: Seq<u8>)
    requires
        forall|i: int| 0 <= i < line.len() ==> #[trigger] line[i] != 10u8,
    ensures
        ({
            let ended = line.push(10u8);
            let t = text::trimmed(text::utf8_lossy(ended));
            let last = text::trimmed(text::utf8_lossy(line));
            &&& t.len() > 0 ==> complete(ended + more) == seq![t] + complete(more) && all_lines(
                ended + more,
            ) == seq![t] + all_lines(more)
            &&& t.len() == 0 ==> complete(ended + more) == complete(more) && all_lines(
                ended + more,
            ) == all_lines(more)
            &&& rest(ended + more) == rest(more)
            &&& complete(line).len() == 0
            &&& rest(line) == line
            &&& line.len() > 0 && last.len() > 0 ==> all_lines(line) == seq![last]
            &&& line.len() == 0 || last.len() == 0 ==> all_lines(line).len() == 0
        }),
{
    let ended = line.push(10u8);
    let s = ended + more;
    let n = line.len() as int;
    assert forall|j: int| 0 <= j < n implies s[j] != 10u8 by {
        assert(s[j] == line[j]);
    }
    assert(s[n] == 10u8);
    lemma_first_newline_at(s, n);
    lemma_first_newline_at(line, n);
    assert(s.take(n + 1) =~= ended);
    assert(s.skip(n + 1) =~= more);
    let t = text::trimmed(text::utf8_lossy(ended));
    if t.len() > 0 {
        assert(all_lines(s) =~= seq![t] + all_lines(more));
    }
    assert(all_lines(line) =~= ending(line));
}

} // verus!
