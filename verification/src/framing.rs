//! Cutting a stream of text into frames.
//!
//! A frame ends at a delimiter. Text after the last delimiter waits for the next
//! chunk, so the frames of a stream do not depend on where its chunks end.

use crate::text;
use vstd::prelude::*;
use vstd::string::*;

verus! {

/// The first position at or after `i` where `p` stands in `s`; -1 where there is none.
pub open spec fn first_from(p: Seq<char>, s: Seq<char>, i: int) -> int
    decreases s.len() - i,
{
    if text::occurs_at(p, s, i) {
        i
    } else if i >= s.len() {
        -1
    } else {
        first_from(p, s, i + 1)
    }
}

/// The complete frames of `s`.
pub open spec fn frames(s: Seq<char>, p: Seq<char>) -> Seq<Seq<char>>
    decreases s.len(),
{
    let i = first_from(p, s, 0);
    if p.len() == 0 || i < 0 || i + p.len() > s.len() {
        Seq::empty()
    } else {
        seq![s.take(i)] + frames(s.skip(i + p.len()), p)
    }
}

/// What stands after the last complete frame of `s`.
pub open spec fn rest(s: Seq<char>, p: Seq<char>) -> Seq<char>
    decreases s.len(),
{
    let i = first_from(p, s, 0);
    if p.len() == 0 || i < 0 || i + p.len() > s.len() {
        s
    } else {
        rest(s.skip(i + p.len()), p)
    }
}

proof fn lemma_first_from(p: Seq<char>, s: Seq<char>, i: int)
    requires
        0 <= i,
    ensures
        ({
            let n = first_from(p, s, i);
            &&& n == -1 || i <= n
            &&& n >= 0 ==> text::occurs_at(p, s, n)
            &&& n >= 0 ==> forall|j: int| i <= j < n ==> !text::occurs_at(p, s, j)
            &&& n < 0 ==> forall|j: int| i <= j ==> !text::occurs_at(p, s, j)
        }),
    decreases s.len() - i,
{
    if !text::occurs_at(p, s, i) && i < s.len() {
        lemma_first_from(p, s, i + 1);
    }
}

/// The position that meets the description is the one that `first_from` names.
proof fn lemma_first_from_is(p: Seq<char>, s: Seq<char>, n: int)
    requires
        n >= 0 ==> text::occurs_at(p, s, n),
        n >= 0 ==> forall|j: int| 0 <= j < n ==> !text::occurs_at(p, s, j),
        n < 0 ==> n == -1 && forall|j: int| 0 <= j ==> !text::occurs_at(p, s, j),
    ensures
        first_from(p, s, 0) == n,
{
    lemma_first_from(p, s, 0);
}

/// The text that waits for its delimiter.
pub struct FrameBuffer {
    pub pending: String,
}

impl FrameBuffer {
    /// A buffer in which nothing waits.
    pub fn new() -> (r: FrameBuffer)
        ensures
            r.pending@ == Seq::<char>::empty(),
    {
        FrameBuffer { pending: String::new() }
    }

    /// Takes in a chunk and hands out the frames that it completes.
    pub fn push(&mut self, chunk: &str, delimiter: &str) -> (r: Vec<String>)
        requires
            delimiter@.len() > 0,
        ensures
            text::views(r@) == frames(old(self).pending@ + chunk@, delimiter@),
            final(self).pending@ == rest(old(self).pending@ + chunk@, delimiter@),
    {
        let mut all = self.pending.clone();
        all.append(chunk);
        let v = text::chars_of(all.as_str());
        let p = text::chars_of(delimiter);
        let mut out: Vec<String> = Vec::new();
        let mut pos: usize = 0;
        let ghost whole = v@;
        assert(v@.skip(0) =~= v@);
        assert(text::views(out@) + frames(v@.skip(0), p@) =~= frames(whole, p@));
        loop
            invariant_except_break
                pos <= v@.len(),
                v@ == whole,
                p@ == delimiter@,
                p@.len() > 0,
                text::views(out@) + frames(v@.skip(pos as int), p@) == frames(whole, p@),
                rest(v@.skip(pos as int), p@) == rest(whole, p@),
            ensures
                pos <= v@.len(),
                text::views(out@) == frames(whole, p@),
                rest(whole, p@) == v@.skip(pos as int),
            decreases v@.len() - pos,
        {
            let ghost tail = v@.skip(pos as int);
            match text::find_from(&v, &p, pos) {
                Some(at) => {
                    let frame = text::string_of(&v, pos, at);
                    proof {
                        assert forall|j: int| 0 <= j < at - pos implies !text::occurs_at(
                            p@,
                            tail,
                            j,
                        ) by {
                            if text::occurs_at(p@, tail, j) {
                                assert(tail.subrange(j, j + p@.len()) =~= v@.subrange(
                                    pos + j,
                                    pos + j + p@.len(),
                                ));
                                assert(text::occurs_at(p@, v@, pos + j));
                            }
                        }
                        assert(tail.subrange(at - pos, at - pos + p@.len()) =~= v@.subrange(
                            at as int,
                            at + p@.len(),
                        ));
                        lemma_first_from_is(p@, tail, at - pos);
                        assert(frame@ =~= tail.take(at - pos));
                        assert(tail.skip(at - pos + p@.len()) =~= v@.skip(at + p@.len()));
                    }
                    let ghost before = out@;
                    out.push(frame);
                    assert(text::views(out@) =~= text::views(before).push(tail.take(at - pos)));
                    assert(text::views(out@) + frames(v@.skip(at + p@.len()), p@)
                        =~= text::views(before) + (seq![tail.take(at - pos)] + frames(
                        v@.skip(at + p@.len()),
                        p@,
                    )));
                    assert(at + p@.len() <= v.len());
                    pos = at + p.len();
                },
                None => {
                    proof {
                        assert forall|j: int| 0 <= j implies !text::occurs_at(p@, tail, j) by {
                            if text::occurs_at(p@, tail, j) {
                                assert(tail.subrange(j, j + p@.len()) =~= v@.subrange(
                                    pos + j,
                                    pos + j + p@.len(),
                                ));
                                assert(text::occurs_at(p@, v@, pos + j));
                            }
                        }
                        lemma_first_from_is(p@, tail, -1);
                        assert(text::views(out@) + frames(tail, p@) =~= text::views(out@));
                    }
                    break;
                },
            }
        }
        let left = text::string_of(&v, pos, v.len());
        assert(left@ =~= v@.skip(pos as int));
        self.pending = left;
        out
    }
}

/// Cutting a text and then what was left of it together with more text gives the
/// frames of the whole: it does not matter where a chunk ends.
pub proof fn frames_ignore_chunk_boundaries(s: Seq<char>, more: Seq<char>, p: Seq<char>)
    requires
        p.len() > 0,
    ensures
        frames(s + more, p) == frames(s, p) + frames(rest(s, p) + more, p),
        rest(s + more, p) == rest(rest(s, p) + more, p),
    decreases s.len(),
{
    let i = first_from(p, s, 0);
    lemma_first_from(p, s, 0);
    if i < 0 {
        assert(frames(s, p) + frames(s + more, p) =~= frames(s + more, p));
    } else {
        let whole = s + more;
        assert(whole.subrange(i, i + p.len()) =~= s.subrange(i, i + p.len()));
        assert forall|j: int| 0 <= j < i implies !text::occurs_at(p, whole, j) by {
            if text::occurs_at(p, whole, j) {
                assert(whole.subrange(j, j + p.len()) =~= s.subrange(j, j + p.len()));
                assert(text::occurs_at(p, s, j));
            }
        }
        lemma_first_from_is(p, whole, i);
        let tail = s.skip(i + p.len());
        assert(whole.skip(i + p.len()) =~= tail + more);
        assert(whole.take(i) =~= s.take(i));
        frames_ignore_chunk_boundaries(tail, more, p);
        assert(seq![s.take(i)] + (frames(tail, p) + frames(rest(tail, p) + more, p)) =~= (seq![
            s.take(i),
        ] + frames(tail, p)) + frames(rest(tail, p) + more, p));
    }
}

/// Nothing is lost or made up: the frames with their delimiters, followed by the
/// rest, are the text.
pub proof fn frames_and_rest_are_the_text(s: Seq<char>, p: Seq<char>)
    requires
        p.len() > 0,
    ensures
        delimited(frames(s, p), p) + rest(s, p) == s,
    decreases s.len(),
{
    let i = first_from(p, s, 0);
    lemma_first_from(p, s, 0);
    if i >= 0 {
        let tail = s.skip(i + p.len());
        frames_and_rest_are_the_text(tail, p);
        let f = frames(s, p);
        assert(f[0] == s.take(i));
        assert(f.skip(1) =~= frames(tail, p));
        assert(s =~= s.take(i) + s.subrange(i, i + p.len()) + tail);
        assert(delimited(f, p) + rest(s, p) =~= s.take(i) + p + (delimited(frames(tail, p), p)
            + rest(tail, p)));
    } else {
        assert(Seq::<char>::empty() + s =~= s);
    }
}

/// Each text of `list` followed by `p`.
pub open spec fn delimited(list: Seq<Seq<char>>, p: Seq<char>) -> Seq<char>
    decreases list.len(),
{
    if list.len() == 0 {
        Seq::empty()
    } else {
        list[0] + p + delimited(list.skip(1), p)
    }
}

/// A frame that its delimiter closes is given out as it is, and nothing of it waits.
pub proof fn closed_frames_are_given_out(f: Seq<char>, p: Seq<char>)
    requires
        p.len() > 0,
        forall|j: int| 0 <= j < f.len() ==> !text::occurs_at(p, f + p, j),
    ensures
        frames(f + p, p) == seq![f],
        rest(f + p, p) == Seq::<char>::empty(),
{
    let s = f + p;
    assert(s.subrange(f.len() as int, s.len() as int) =~= p);
    assert(text::occurs_at(p, s, f.len() as int));
    lemma_first_from_is(p, s, f.len() as int);
    assert(s.take(f.len() as int) =~= f);
    assert(s.skip((f.len() + p.len()) as int) =~= Seq::<char>::empty());
    lemma_first_from(p, Seq::<char>::empty(), 0);
    assert(frames(Seq::<char>::empty(), p) =~= Seq::<Seq<char>>::empty());
    assert(rest(Seq::<char>::empty(), p) == Seq::<char>::empty());
    assert(frames(s, p) =~= seq![f]);
    assert(rest(s, p) == rest(s.skip((f.len() + p.len()) as int), p));
}

} // verus!
